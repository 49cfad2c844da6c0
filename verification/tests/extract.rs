use localize_npc_names::extract::{
    correlate, extract, read_identifier, read_module, read_variable, CorrelatedEntry,
    ExtractOptions, Extraction, IdLine, RawIdentifier, RawVariable, ScriptPatterns,
};
use localize_npc_names::localizer::name_table;
use indexmap::IndexMap;

fn single(text: &str) -> Extraction {
    let patterns = ScriptPatterns::single_file().unwrap();
    extract(text, &patterns, &ExtractOptions::single_file())
}

fn entry(name: &str, id: i64) -> CorrelatedEntry {
    CorrelatedEntry { variable_name: name.to_string(), id }
}

const SCRIPT: &str = "local mod, CL = BigWigs:NewBoss(\"Some Trash\", 1234)\n\
mod:RegisterEnableMob(\n\
\t12345, -- Bob\n\
\t67890, -- Alice\n\
)\n\
\n\
local L = mod:GetLocale()\n\
if L then\n\
\tL.bob = \"Bob\"\n\
\tL.carol = \"Carol\"\n\
end\n";

#[test]
fn one_identifier_and_one_variable_are_joined() {
    let found = single("mod:RegisterEnableMob(\n\t12345, -- Bob\n)\nif L then\n\tL.bob = \"Bob\"\nend\n");
    assert_eq!(found.entries, vec![entry("bob", 12345)]);
    assert!(found.missing_vars.is_empty());
    assert!(found.missing_ids.is_empty());
    assert_eq!(found.module_name, None);
}

#[test]
fn orphans_are_reported_on_both_sides() {
    let found = single(SCRIPT);
    assert_eq!(found.module_name, Some("Some Trash".to_string()));
    assert_eq!(found.entries, vec![entry("bob", 12345)]);
    assert_eq!(found.missing_vars, vec![("carol".to_string(), "Carol".to_string())]);
    assert_eq!(found.missing_ids, vec![(67890, "Alice".to_string())]);
}

#[test]
fn extracting_twice_gives_the_same() {
    assert_eq!(single(SCRIPT), single(SCRIPT));
}

#[test]
fn every_line_is_joined_or_missing() {
    let found = single(SCRIPT);
    assert_eq!(found.entries.len() + found.missing_vars.len(), 2);
    assert_eq!(found.entries.len() + found.missing_ids.len(), 2);
}

#[test]
fn a_later_identifier_with_the_same_comment_wins_and_keeps_the_place() {
    let found = single(
        "mod:RegisterEnableMob(\n1, -- Bob\n2, -- Amy\n3, -- Bob\n)\nif L then\nL.amy = \"Amy\"\nend\n",
    );
    assert_eq!(found.entries, vec![entry("amy", 2)]);
    assert_eq!(found.missing_ids, vec![(3, "Bob".to_string())]);
}

#[test]
fn the_first_variable_with_a_text_takes_the_identifier() {
    let found = single(
        "mod:RegisterEnableMob(\n7, -- Bob\n)\nif L then\nL.first = \"Bob\"\nL.second = \"Bob\"\nend\n",
    );
    assert_eq!(found.entries, vec![entry("first", 7)]);
    assert_eq!(found.missing_vars, vec![("second".to_string(), "Bob".to_string())]);
    assert!(found.missing_ids.is_empty());
}

#[test]
fn a_script_without_blocks_gives_empty_tables() {
    let found = single("print(\"hello\")\n");
    assert_eq!(
        found,
        Extraction { module_name: None, entries: vec![], missing_vars: vec![], missing_ids: vec![] }
    );
    assert_eq!(single(""), found);
}

#[test]
fn lines_that_are_no_entries_are_passed_over() {
    let found = single(
        "mod:RegisterEnableMob(\n\n\t-- a comment\n\t5, -- Bob\n)\nif L then\n\n\t-- nothing\n\tL.bob = \"Bob\"\nend\n",
    );
    assert_eq!(found.entries, vec![entry("bob", 5)]);
}

#[test]
fn a_number_that_is_no_i64_is_skipped() {
    let found = single(
        "mod:RegisterEnableMob(\n99999999999999999999, -- Big\n9223372036854775807, -- Max\n)\nif L then\nL.max = \"Max\"\nL.big = \"Big\"\nend\n",
    );
    assert_eq!(found.entries, vec![entry("max", 9223372036854775807)]);
    assert_eq!(found.missing_vars, vec![("big".to_string(), "Big".to_string())]);
}

#[test]
fn the_comma_is_optional_and_the_comment_is_trimmed() {
    let found = single("mod:RegisterEnableMob(\n  42 --   Bob the Great  \r\n)\nif L then\nL.bob = \"Bob the Great\"\nend\n");
    assert_eq!(found.entries, vec![entry("bob", 42)]);
}

#[test]
fn the_scan_stops_after_one_block_of_each_kind() {
    let found = single(
        "mod:RegisterEnableMob(\n1, -- Bob\n)\nif L then\nL.bob = \"Bob\"\nend\nmod:RegisterEnableMob(\n2, -- Amy\n)\nif L then\nL.amy = \"Amy\"\nend\n",
    );
    assert_eq!(found.entries, vec![entry("bob", 1)]);
    assert!(found.missing_ids.is_empty());
    assert!(found.missing_vars.is_empty());
}

#[test]
fn a_higher_limit_reads_more_blocks() {
    let patterns = ScriptPatterns::single_file().unwrap();
    let options = ExtractOptions { block_limit: 3, module_counts: false, keep_line_ends: true };
    let found = extract(
        "mod:RegisterEnableMob(\n1, -- Bob\n)\nif L then\nL.bob = \"Bob\"\nend\nmod:RegisterEnableMob(\n2, -- Amy\n)\nif L then\nL.amy = \"Amy\"\nend\n",
        &patterns,
        &options,
    );
    assert_eq!(found.entries, vec![entry("bob", 1), entry("amy", 2)]);
}

#[test]
fn the_variable_block_opens_only_at_the_exact_line() {
    let found = single("mod:RegisterEnableMob(\n1, -- Bob\n)\nif L then -- names\nL.bob = \"Bob\"\nend\n");
    assert!(found.entries.is_empty());
    assert_eq!(found.missing_ids, vec![(1, "Bob".to_string())]);
}

#[test]
fn the_batch_patterns_cut_the_trash_ending_off_the_module_name() {
    let patterns = ScriptPatterns::batch().unwrap();
    let found = extract(
        "local mod, CL = BigWigs:NewBoss(\"Halls Trash\", 1)\nmod:RegisterEnableMob(\n1, -- Bob\n)\nif L then\nL.bob = \"Bob\" -- \"x\"\nend\n",
        &patterns,
        &ExtractOptions::batch(),
    );
    assert_eq!(found.module_name, Some("Halls".to_string()));
    assert_eq!(found.entries, vec![entry("bob", 1)]);
}

#[test]
fn the_single_file_variable_pattern_runs_to_the_last_quote() {
    let found = single("mod:RegisterEnableMob(\n1, -- Bob\n)\nif L then\nL.bob = \"Bob\" -- \"x\"\nend\n");
    assert_eq!(found.missing_vars, vec![("bob".to_string(), "Bob\" -- \"x".to_string())]);
}

#[test]
fn options_for_the_two_tools() {
    assert_eq!(
        ExtractOptions::single_file(),
        ExtractOptions { block_limit: 1, module_counts: false, keep_line_ends: true }
    );
    assert_eq!(
        ExtractOptions::batch(),
        ExtractOptions { block_limit: 2, module_counts: true, keep_line_ends: false }
    );
}

#[test]
fn a_pattern_that_does_not_compile_gives_none() {
    assert!(ScriptPatterns::compile("(", "a", "b").is_none());
    assert!(ScriptPatterns::compile("a", "b", "c").is_some());
}

#[test]
fn identifier_lines_from_capture_groups() {
    let g = |v: Vec<Option<&str>>| Some(v.into_iter().map(|o| o.map(String::from)).collect::<Vec<_>>());
    assert_eq!(read_identifier(None), IdLine::NoMatch);
    assert_eq!(
        read_identifier(g(vec![Some("12, -- Bob "), Some("12"), Some(" Bob ")])),
        IdLine::Entry(RawIdentifier { comment: "Bob".to_string(), id: 12 })
    );
    assert_eq!(read_identifier(g(vec![Some("x"), Some("1x"), Some("Bob")])), IdLine::Malformed);
    assert_eq!(read_identifier(g(vec![Some("x"), None, Some("Bob")])), IdLine::Malformed);
    assert_eq!(read_identifier(g(vec![Some("x")])), IdLine::Malformed);
}

#[test]
fn variable_lines_from_capture_groups() {
    let g = |v: Vec<Option<&str>>| Some(v.into_iter().map(|o| o.map(String::from)).collect::<Vec<_>>());
    assert_eq!(read_variable(None), None);
    assert_eq!(
        read_variable(g(vec![Some("L.bob = \"Bob\""), Some("bob"), Some("Bob")])),
        Some(RawVariable { text: "Bob".to_string(), variable_name: "bob".to_string() })
    );
    assert_eq!(read_variable(g(vec![Some("x"), Some("bob")])), None);
    assert_eq!(read_variable(g(vec![Some("x"), Some("bob"), None])), None);
}

#[test]
fn module_names_from_capture_groups() {
    let g = |v: Vec<Option<&str>>| Some(v.into_iter().map(|o| o.map(String::from)).collect::<Vec<_>>());
    assert_eq!(read_module(None), None);
    assert_eq!(read_module(g(vec![Some("x"), Some("Mod")])), Some(Some("Mod".to_string())));
    assert_eq!(read_module(g(vec![Some("x"), None])), Some(None));
    assert_eq!(read_module(g(vec![Some("x")])), Some(None));
}

#[test]
fn correlate_consumes_identifiers_in_the_order_of_the_variables() {
    let mut ids: IndexMap<String, i64> = IndexMap::new();
    ids.insert("A".to_string(), 1);
    ids.insert("B".to_string(), 2);
    ids.insert("C".to_string(), 3);
    let vars = vec![
        RawVariable { text: "C".to_string(), variable_name: "c".to_string() },
        RawVariable { text: "X".to_string(), variable_name: "x".to_string() },
        RawVariable { text: "A".to_string(), variable_name: "a".to_string() },
    ];
    let (entries, missing_vars, missing_ids) = correlate(vars, ids);
    assert_eq!(entries, vec![entry("c", 3), entry("a", 1)]);
    assert_eq!(missing_vars, vec![("x".to_string(), "X".to_string())]);
    assert_eq!(missing_ids, vec![(2, "B".to_string())]);
}

#[test]
fn the_name_table_keeps_the_order_of_the_entries() {
    let table = name_table(&vec![entry("b", 2), entry("a", 1), entry("b", 3)]);
    let pairs: Vec<(String, i64)> = table.into_iter().collect();
    assert_eq!(pairs, vec![("b".to_string(), 3), ("a".to_string(), 1)]);
}

#[test]
fn patterns_are_there_when_each_of_the_three_compiled() {
    let re = |s: &str| regex::Regex::new(s).ok();
    assert!(ScriptPatterns::from_compiled(re("a"), re("b"), re("c")).is_some());
    assert!(ScriptPatterns::from_compiled(re("("), re("b"), re("c")).is_none());
    assert!(ScriptPatterns::from_compiled(re("a"), None, re("c")).is_none());
    assert!(ScriptPatterns::from_compiled(re("a"), re("b"), None).is_none());
    assert!(ScriptPatterns::single_file().is_some());
    assert!(ScriptPatterns::batch().is_some());
}
