use indexmap::IndexMap;
use localize_npc_names::merge::{
    discard_existing, discard_line, is_block_end, locate, merge, merge_line, patch_for,
    patch_line, push_entry_line, read_assignment, replace, Assignment, LineEnding, LocalePatterns,
    Patch, Phase,
};
use localize_npc_names::merge_laws::{
    entries_on_one_line, entries_read_back, header_is_findable, new_file_round_trips,
};
use localize_npc_names::pattern::Found;

const HEADER: &str = "L = BigWigs:NewBossLocale(\"Mod\", \"deDE\")";

fn values(list: &[(&str, &str, bool)]) -> IndexMap<String, (String, bool)> {
    list.iter().map(|(n, t, v)| (n.to_string(), (t.to_string(), *v))).collect()
}

fn ids(list: &[(&str, i64)]) -> IndexMap<String, i64> {
    list.iter().map(|(n, i)| (n.to_string(), *i)).collect()
}

fn chars(s: &str) -> Vec<char> {
    s.chars().collect()
}

fn merged(src: &str, header: &str, list: &[(&str, &str, bool)]) -> Patch {
    let patterns = LocalePatterns::new().unwrap();
    replace(src, header, values(list), &patterns, LineEnding::Lf)
}

fn block(lines: &str) -> String {
    format!("local {HEADER}\nif not L then return end\nif L then\n{lines}end\n")
}

#[test]
fn a_file_that_does_not_exist_gets_a_new_block() {
    let patterns = LocalePatterns::new().unwrap();
    let patch = merge(
        None,
        HEADER,
        values(&[("bob", "Robert", true), ("amy", "Amy", false)]),
        &patterns,
        LineEnding::Lf,
    );
    assert_eq!(
        patch,
        Patch::Write(
            "local L = BigWigs:NewBossLocale(\"Mod\", \"deDE\")\nif not L then return end\nif L then\n\tL.bob = \"Robert\"\n\t-- L.amy = \"Amy\"\nend\n"
                .to_string()
        )
    );
}

#[test]
fn a_new_block_for_no_values_is_written_all_the_same() {
    let patterns = LocalePatterns::new().unwrap();
    let patch = merge(None, HEADER, values(&[]), &patterns, LineEnding::CrLf);
    assert_eq!(
        patch,
        Patch::Write(
            "local L = BigWigs:NewBossLocale(\"Mod\", \"deDE\")\r\nif not L then return end\r\nif L then\r\nend\r\n"
                .to_string()
        )
    );
}

#[test]
fn a_placeholder_is_written_commented_out() {
    let mut out = Vec::new();
    push_entry_line(&mut out, "bob", "Unnamed", false);
    assert_eq!(out.into_iter().collect::<String>(), "\t-- L.bob = \"Unnamed\"");
    let mut out = vec!['x'];
    push_entry_line(&mut out, "bob", "Bob", true);
    assert_eq!(out.into_iter().collect::<String>(), "x\tL.bob = \"Bob\"");
}

#[test]
fn an_unchanged_translation_leaves_the_file_alone() {
    let src = block("\tL.bob = \"Old\"\n");
    assert_eq!(merged(&src, HEADER, &[("bob", "Old", true)]), Patch::Keep);
}

#[test]
fn merge_of_an_existing_file_is_replace() {
    let patterns = LocalePatterns::new().unwrap();
    let src = block("\tL.bob = \"Old\"\n");
    let patch = merge(Some(&src), HEADER, values(&[("bob", "New", true)]), &patterns, LineEnding::Lf);
    assert_eq!(patch, Patch::Write(block("\tL.bob = \"New\"\n")));
    let patch = merge(Some(&src), HEADER, values(&[("bob", "Old", true)]), &patterns, LineEnding::Lf);
    assert_eq!(patch, Patch::Keep);
}

#[test]
fn a_changed_translation_replaces_its_line_and_keeps_what_follows_the_quote() {
    let src = block("\tL.amy = \"Amy\"\n    L.bob = \"Old\" -- the boss\n\tL.zed = \"Zed\"\n");
    assert_eq!(
        merged(&src, HEADER, &[("bob", "New", true)]),
        Patch::Write(block("\tL.amy = \"Amy\"\n\tL.bob = \"New\" -- the boss\n\tL.zed = \"Zed\"\n"))
    );
}

#[test]
fn a_commented_line_is_replaced_by_a_real_translation() {
    let src = block("\t-- L.bob = \"Bob\"\n");
    assert_eq!(
        merged(&src, HEADER, &[("bob", "Bob", true)]),
        Patch::Write(block("\tL.bob = \"Bob\"\n"))
    );
}

#[test]
fn a_placeholder_never_replaces_a_line() {
    let src = block("\tL.bob = \"Robert\"\n\t-- L.amy = \"x\"\n");
    assert_eq!(
        merged(&src, HEADER, &[("bob", "Bob", false), ("amy", "Amy", false)]),
        Patch::Keep
    );
}

#[test]
fn new_names_are_added_in_front_of_end_in_the_order_of_the_table() {
    let src = block("\tL.bob = \"Bob\"\n");
    assert_eq!(
        merged(&src, HEADER, &[("zed", "Zed", true), ("bob", "Bob", true), ("amy", "Amy", false)]),
        Patch::Write(block("\tL.bob = \"Bob\"\n\tL.zed = \"Zed\"\n\t-- L.amy = \"Amy\"\n"))
    );
}

#[test]
fn only_the_first_line_of_a_name_is_touched() {
    let src = block("\tL.bob = \"a\"\n\tL.bob = \"b\"\n");
    assert_eq!(
        merged(&src, HEADER, &[("bob", "c", true)]),
        Patch::Write(block("\tL.bob = \"c\"\n\tL.bob = \"b\"\n"))
    );
}

#[test]
fn text_around_the_block_is_kept() {
    let src = format!("-- generated\r\n{}\n-- trailer without newline", block("\tL.bob = \"Old\"\n  end of story\n"));
    let expected = format!("-- generated\r\n{}\n-- trailer without newline", block("\tL.bob = \"New\"\n  end of story\n\tL.amy = \"Amy\"\n"));
    assert_eq!(
        merged(&src, HEADER, &[("bob", "New", true), ("amy", "Amy", true)]),
        Patch::Write(expected)
    );
}

#[test]
fn line_terminators_of_the_file_are_kept_and_new_lines_get_the_given_one() {
    let patterns = LocalePatterns::new().unwrap();
    let src = "local L = BigWigs:NewBossLocale(\"Mod\", \"deDE\")\r\nif L then\r\n\tL.bob = \"Old\"\r\nend\r\n";
    let patch = replace(
        src,
        HEADER,
        values(&[("bob", "New", true), ("amy", "Amy", true)]),
        &patterns,
        LineEnding::Lf,
    );
    assert_eq!(
        patch,
        Patch::Write(
            "local L = BigWigs:NewBossLocale(\"Mod\", \"deDE\")\r\nif L then\r\n\tL.bob = \"New\"\r\n\tL.amy = \"Amy\"\nend\r\n"
                .to_string()
        )
    );
}

#[test]
fn only_the_block_of_the_header_is_touched() {
    let other = "L = BigWigs:NewBossLocale(\"Mod\", \"frFR\")";
    let src = format!("{}\n{other}\nif L then\n\tL.bob = \"Bob\"\nend\n", block("\tL.bob = \"Bob\"\n"));
    let expected = format!("{}\n{other}\nif L then\n\tL.bob = \"Robert\"\nend\n", block("\tL.bob = \"Bob\"\n"));
    assert_eq!(merged(&src, other, &[("bob", "Robert", true)]), Patch::Write(expected));
}

#[test]
fn the_header_line_of_another_block_ends_the_search_for_the_opening_line() {
    let src = format!(
        "-- {HEADER} (moved)\nL = BigWigs:NewBossLocale(\"Mod\", \"frFR\")\nif L then\n\tL.bob = \"Bob\"\nend\n"
    );
    let expected = format!("{src}\n{}", block("\tL.bob = \"Robert\"\n"));
    assert_eq!(merged(&src, HEADER, &[("bob", "Robert", true)]), Patch::Write(expected));
}

#[test]
fn a_file_without_the_header_gets_a_new_block_behind_its_text() {
    let src = "-- nothing here\n";
    assert_eq!(
        merged(src, HEADER, &[("bob", "Bob", true)]),
        Patch::Write(format!("-- nothing here\n\n{}", block("\tL.bob = \"Bob\"\n")))
    );
    assert_eq!(
        merged("-- no newline", HEADER, &[("bob", "Bob", true)]),
        Patch::Write(format!("-- no newline\n{}", block("\tL.bob = \"Bob\"\n")))
    );
}

#[test]
fn a_file_of_white_space_is_replaced_by_a_new_block() {
    assert_eq!(
        merged(" \n\t\r\n", HEADER, &[("bob", "Bob", true)]),
        Patch::Write(block("\tL.bob = \"Bob\"\n"))
    );
    assert_eq!(merged("", HEADER, &[]), Patch::Write(block("")));
}

#[test]
fn a_block_that_is_never_closed_is_patched_and_a_new_block_follows() {
    let src = format!("local {HEADER}\nif L then\n\tL.bob = \"Old\"\n");
    assert_eq!(
        merged(&src, HEADER, &[("bob", "New", true), ("amy", "Amy", true)]),
        Patch::Write(format!(
            "local {HEADER}\nif L then\n\tL.bob = \"New\"\n\n{}",
            block("\tL.amy = \"Amy\"\n")
        ))
    );
}

#[test]
fn merging_twice_changes_nothing_the_second_time() {
    let list = [("bob", "New", true), ("amy", "A \\\"quoted\\\" one", true), ("zed", "Zed", false)];
    let sources = [
        block("\tL.bob = \"Old\" -- note\n\t-- L.amy = \"x\"\n"),
        "-- other text\n".to_string(),
        String::new(),
        format!("local {HEADER}\nif L then\n\tL.bob = \"Old\"\n"),
    ];
    for src in sources.iter() {
        let once = match merged(src, HEADER, &list) {
            Patch::Write(text) => text,
            Patch::Keep => panic!("the first merge changes the text"),
        };
        assert_eq!(merged(&once, HEADER, &list), Patch::Keep);
    }
}

#[test]
fn a_name_that_the_pattern_does_not_read_is_added_again() {
    let list = [("a-b", "x", true)];
    let once = match merged(&block(""), HEADER, &list) {
        Patch::Write(text) => text,
        Patch::Keep => panic!("the first merge changes the text"),
    };
    assert_eq!(once, block("\tL.a-b = \"x\"\n"));
    assert_eq!(merged(&once, HEADER, &list), Patch::Write(block("\tL.a-b = \"x\"\n\tL.a-b = \"x\"\n")));
}

#[test]
fn names_that_are_translated_already_are_taken_off_the_table() {
    let patterns = LocalePatterns::new().unwrap();
    let text = block("\tL.bob = \"Bob\"\n\t-- L.amy = \"Amy\"\n\tL.other = \"x\"\n");
    let mut map = ids(&[("amy", 2), ("bob", 1), ("zed", 3)]);
    discard_existing(&text, HEADER, &mut map, &patterns);
    assert_eq!(map, ids(&[("amy", 2), ("zed", 3)]));
}

#[test]
fn nothing_behind_the_end_of_the_block_is_read() {
    let patterns = LocalePatterns::new().unwrap();
    let text = format!("{}\tL.zed = \"Zed\"\n", block("\tL.bob = \"Bob\"\n"));
    let mut map = ids(&[("bob", 1), ("zed", 3)]);
    discard_existing(&text, HEADER, &mut map, &patterns);
    assert_eq!(map, ids(&[("zed", 3)]));
}

#[test]
fn a_file_without_the_block_takes_nothing_off_the_table() {
    let patterns = LocalePatterns::new().unwrap();
    let mut map = ids(&[("bob", 1)]);
    discard_existing("\tL.bob = \"Bob\"\n", HEADER, &mut map, &patterns);
    assert_eq!(map, ids(&[("bob", 1)]));
    discard_existing("", HEADER, &mut map, &patterns);
    assert_eq!(map, ids(&[("bob", 1)]));
}

#[test]
fn a_new_file_gives_back_the_names_of_its_real_translations() {
    let patterns = LocalePatterns::new().unwrap();
    for eol in [LineEnding::Lf, LineEnding::CrLf] {
        let written = match merge(
            None,
            HEADER,
            values(&[("bob", "Bob", true), ("amy", "Amy", false), ("zed", "Z \\\" z", true)]),
            &patterns,
            eol,
        ) {
            Patch::Write(text) => text,
            Patch::Keep => panic!("a new file is always written"),
        };
        let mut map = ids(&[("amy", 2), ("bob", 1), ("kim", 4), ("zed", 3)]);
        discard_existing(&written, HEADER, &mut map, &patterns);
        assert_eq!(map, ids(&[("amy", 2), ("kim", 4)]));
    }
}

#[test]
fn the_assignment_pattern_reads_name_value_and_rest() {
    let patterns = LocalePatterns::new().unwrap();
    assert_eq!(
        patterns.assignment("\tL.bob = \"Bob \\\"the\\\" Builder\" -- rest"),
        Some(Assignment {
            commented: false,
            name: "bob".to_string(),
            value: "Bob \\\"the\\\" Builder".to_string(),
            rest: " -- rest".to_string(),
        })
    );
    assert_eq!(
        patterns.assignment("  --L.amy=\"\"\r\n"),
        Some(Assignment {
            commented: true,
            name: "amy".to_string(),
            value: String::new(),
            rest: "\r".to_string(),
        })
    );
    assert_eq!(patterns.assignment("if L then"), None);
    assert_eq!(patterns.assignment(""), None);
}

#[test]
fn an_assignment_from_a_match() {
    let g = |v: Vec<Option<&str>>| v.into_iter().map(|o| o.map(String::from)).collect::<Vec<_>>();
    let found = |groups| Some(Found { before: "a".to_string(), groups, after: "b".to_string() });
    assert_eq!(read_assignment(None), None);
    assert_eq!(
        read_assignment(found(g(vec![Some("all"), None, Some("n"), Some("v"), Some("r")]))),
        Some(Assignment {
            commented: false,
            name: "n".to_string(),
            value: "v".to_string(),
            rest: "r".to_string(),
        })
    );
    assert_eq!(
        read_assignment(found(g(vec![Some("all"), Some("--"), Some("n"), Some("v"), Some("")]))),
        Some(Assignment {
            commented: true,
            name: "n".to_string(),
            value: "v".to_string(),
            rest: String::new(),
        })
    );
    assert_eq!(read_assignment(found(g(vec![Some("all"), None, Some("n"), Some("v")]))), None);
    assert_eq!(read_assignment(found(g(vec![Some("all"), None, None, Some("v"), Some("r")]))), None);
}

#[test]
fn the_phases_of_the_search_for_the_block() {
    let h = chars(HEADER);
    let at = |phase, line: &str| locate(phase, &chars(line), &h);
    assert_eq!(at(Phase::Initial, "nothing"), Phase::Initial);
    assert_eq!(at(Phase::Initial, &format!("  local {HEADER}  \n")), Phase::FoundLocale);
    assert_eq!(at(Phase::Initial, "if L then"), Phase::Initial);
    assert_eq!(at(Phase::FoundLocale, "if not L then return end"), Phase::FoundLocale);
    assert_eq!(at(Phase::FoundLocale, "\tif L then \r\n"), Phase::InsideIf);
    assert_eq!(at(Phase::FoundLocale, "if L then -- x"), Phase::FoundLocale);
    assert_eq!(at(Phase::FoundLocale, " L = other()"), Phase::Initial);
    assert_eq!(at(Phase::FoundLocale, &format!(" {HEADER}\n")), Phase::FoundLocale);
    assert_eq!(at(Phase::FoundLocale, "L.bob = 1"), Phase::FoundLocale);
    assert_eq!(at(Phase::InsideIf, "if L then"), Phase::InsideIf);
    assert_eq!(at(Phase::Done, HEADER), Phase::Done);
}

#[test]
fn an_empty_header_is_found_in_every_line() {
    assert_eq!(locate(Phase::Initial, &chars("x"), &[]), Phase::FoundLocale);
    assert_eq!(locate(Phase::Initial, &[], &[]), Phase::FoundLocale);
}

#[test]
fn the_line_that_closes_the_block() {
    assert!(is_block_end(&chars("end")));
    assert!(is_block_end(&chars(" \tend\u{a0}\r\n")));
    assert!(!is_block_end(&chars("end -- x")));
    assert!(!is_block_end(&chars("")));
    assert!(!is_block_end(&chars("en d")));
}

#[test]
fn one_step_of_a_merge() {
    let patterns = LocalePatterns::new().unwrap();
    let head = chars(HEADER);
    let mut out = chars("x");
    let mut pending = values(&[("bob", "Bob", true), ("amy", "Amy", false)]);
    let next = merge_line(
        &mut out,
        Phase::InsideIf,
        &chars("  end"),
        &mut pending,
        &head,
        &patterns,
        LineEnding::Lf,
    );
    assert_eq!(next, Phase::Done);
    assert_eq!(out.iter().collect::<String>(), "x\tL.bob = \"Bob\"\n\t-- L.amy = \"Amy\"\n  end");
    let next = merge_line(
        &mut out,
        Phase::Done,
        &chars("\tL.bob = \"Old\""),
        &mut pending,
        &head,
        &patterns,
        LineEnding::Lf,
    );
    assert_eq!(next, Phase::Done);
    assert!(out.iter().collect::<String>().ends_with("  end\tL.bob = \"Old\""));
    let mut out = Vec::new();
    let next = merge_line(
        &mut out,
        Phase::InsideIf,
        &chars("\tL.bob = \"Old\""),
        &mut pending,
        &head,
        &patterns,
        LineEnding::Lf,
    );
    assert_eq!(next, Phase::InsideIf);
    assert_eq!(out.iter().collect::<String>(), "\tL.bob = \"Bob\"");
    assert_eq!(pending, values(&[("amy", "Amy", false)]));
}

#[test]
fn patching_a_line_with_what_the_pattern_found() {
    let line = chars("zzz");
    let found = |commented: bool, name: &str, value: &str, rest: &str| {
        Some(Assignment {
            commented,
            name: name.to_string(),
            value: value.to_string(),
            rest: rest.to_string(),
        })
    };
    let run = |a: Option<Assignment>, list: &[(&str, &str, bool)]| {
        let mut out = chars(">");
        let mut pending = values(list);
        patch_line(&mut out, &line, a, &mut pending);
        (out.into_iter().collect::<String>(), pending)
    };
    let all = [("amy", "Amy", true), ("bob", "Bob", true), ("zed", "Zed", false)];
    assert_eq!(run(None, &all), (">zzz".to_string(), values(&all)));
    assert_eq!(run(found(false, "kim", "x", ""), &all), (">zzz".to_string(), values(&all)));
    assert_eq!(
        run(found(false, "bob", "Bob", " -- r"), &all),
        (">zzz".to_string(), values(&[("amy", "Amy", true), ("zed", "Zed", false)]))
    );
    assert_eq!(
        run(found(false, "bob", "Old", " -- r"), &all),
        (">\tL.bob = \"Bob\" -- r".to_string(), values(&[("amy", "Amy", true), ("zed", "Zed", false)]))
    );
    assert_eq!(
        run(found(true, "bob", "Bob", ""), &all),
        (">\tL.bob = \"Bob\"".to_string(), values(&[("amy", "Amy", true), ("zed", "Zed", false)]))
    );
    assert_eq!(
        run(found(true, "zed", "Old", ""), &all),
        (">zzz".to_string(), values(&[("amy", "Amy", true), ("bob", "Bob", true)]))
    );
}

#[test]
fn discarding_with_what_the_pattern_found() {
    let found = |commented: bool, name: &str| {
        Some(Assignment {
            commented,
            name: name.to_string(),
            value: "v".to_string(),
            rest: String::new(),
        })
    };
    let mut map = ids(&[("amy", 2), ("bob", 1), ("zed", 3)]);
    discard_line(None, &mut map);
    discard_line(found(true, "amy"), &mut map);
    discard_line(found(false, "kim"), &mut map);
    assert_eq!(map, ids(&[("amy", 2), ("bob", 1), ("zed", 3)]));
    discard_line(found(false, "bob"), &mut map);
    assert_eq!(map, ids(&[("amy", 2), ("zed", 3)]));
    assert_eq!(map.get_index(1), Some((&"zed".to_string(), &3)));
}

#[test]
fn a_patch_is_kept_only_for_the_same_text() {
    assert_eq!(patch_for(&chars("abc"), &chars("abc")), Patch::Keep);
    assert_eq!(patch_for(&chars("abc"), &chars("abd")), Patch::Write("abd".to_string()));
    assert_eq!(patch_for(&chars("abc"), &chars("")), Patch::Write(String::new()));
}

#[test]
fn line_endings() {
    let mut out = vec!['a'];
    LineEnding::Lf.push_to(&mut out);
    LineEnding::CrLf.push_to(&mut out);
    assert_eq!(out, vec!['a', '\n', '\r', '\n']);
}

#[test]
fn a_header_that_ends_in_white_space_is_not_found_again() {
    let patterns = LocalePatterns::new().unwrap();
    let sane = values(&[("bob", "Bob", true), ("amy", "A \\\" a", false)]);
    assert!(new_file_round_trips(HEADER, &sane, &patterns, LineEnding::Lf));
    assert!(new_file_round_trips(HEADER, &sane, &patterns, LineEnding::CrLf));
    assert!(new_file_round_trips("", &values(&[]), &patterns, LineEnding::Lf));
    assert!(!new_file_round_trips("L = x ", &sane, &patterns, LineEnding::Lf));
    assert!(!new_file_round_trips("L =\nx", &sane, &patterns, LineEnding::Lf));
    assert!(!new_file_round_trips(HEADER, &values(&[("a-b", "x", true)]), &patterns, LineEnding::Lf));
    assert!(!new_file_round_trips(HEADER, &values(&[("a", "x\"y", true)]), &patterns, LineEnding::Lf));
    assert!(!new_file_round_trips(HEADER, &values(&[("a", "x\ny", true)]), &patterns, LineEnding::Lf));
    assert!(header_is_findable(&chars(HEADER)));
    assert!(header_is_findable(&[]));
    assert!(!header_is_findable(&chars("x\u{a0}")));
    let list = |l: &[(&str, &str, bool)]| -> Vec<(String, (String, bool))> {
        values(l).into_iter().collect()
    };
    assert!(entries_on_one_line(&list(&[("a", "b", true)])));
    assert!(!entries_on_one_line(&list(&[("a", "b", true), ("c\n", "d", true)])));
    assert!(entries_read_back(&list(&[("a", "b", true), ("c", "d", false)]), &patterns, LineEnding::Lf));
    assert!(!entries_read_back(&list(&[("a", "b", true), ("c d", "e", true)]), &patterns, LineEnding::Lf));
    let mut map = ids(&[("bob", 1)]);
    let text = "local L = x \nif not L then return end\nif L then\n\tL.bob = \"Bob\"\nend\n";
    discard_existing(text, "L = x ", &mut map, &patterns);
    assert_eq!(map, ids(&[("bob", 1)]));
}

#[test]
fn the_assignment_pattern_is_there_when_it_compiled() {
    use_compiled_assignment_pattern();
    assert!(LocalePatterns::from_compiled(None).is_none());
    assert!(LocalePatterns::new().is_some());
}

fn use_compiled_assignment_pattern() {
    let compiled = onig::Regex::new(localize_npc_names::merge::ASSIGNMENT_PATTERN).ok();
    let patterns = LocalePatterns::from_compiled(compiled).unwrap();
    assert_eq!(
        patterns.assignment("L.a = \"b\""),
        Some(Assignment {
            commented: false,
            name: "a".to_string(),
            value: "b".to_string(),
            rest: String::new(),
        })
    );
}
