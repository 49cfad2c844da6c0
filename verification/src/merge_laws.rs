//! What holds of merging and of the scan for names that a file translates
//! already.
//!
//! Both read assignment lines with the assignment pattern, and what that
//! pattern finds is not known here. The laws below therefore say what follows
//! once the pattern reads the lines that this library writes the way they were
//! written. That is the case for a name made of letters, digits and
//! underscores and a text whose quotes are escaped; it is not the case, for
//! one, for the name `a-b`.

use crate::merge::{
    assignment_in, closes_block, discard_lines, discarded, entry_line, entry_lines, locate_step,
    merge_lines, merged_text, new_block, push_entry_line, untranslated, LineEnding, LocalePatterns,
    Phase,
};
use crate::table::{translation_entries, translation_list, translation_pairs, without_key};
use crate::text::{
    char_is_space, contains_char, has_infix, has_prefix, is_blank, is_line_ending, is_space,
    join_lines, lemma_join_lines_from, lemma_lines_of_first, lemma_trimmed_core, lines_of,
    no_line_feed, occurs_at, reads_as_line, to_chars, to_text, trimmed, LineView,
};
use indexmap::IndexMap;
use vstd::prelude::*;

verus! {

/// The pattern reads the line of a translation, followed by `tail`, the way it
/// was written: with its name and its text, and commented out exactly when
/// the translation is a placeholder.
pub open spec fn reads_back(name: Seq<char>, text: Seq<char>, is_valid: bool, tail: Seq<char>) -> bool {
    match assignment_in(entry_line(name, text, is_valid) + tail) {
        Some(a) => a.commented == !is_valid && a.name == name && a.value == text,
        None => false,
    }
}

/// The pattern reads the line of each of `entries`, followed by `tail`, the
/// way it was written.
pub open spec fn all_read_back(entries: Seq<(Seq<char>, (Seq<char>, bool))>, tail: Seq<char>) -> bool {
    forall|i: int|
        0 <= i < entries.len() ==> reads_back(
            (#[trigger] entries[i]).0,
            entries[i].1.0,
            entries[i].1.1,
            tail,
        )
}

/// No name and no text of `entries` holds a line feed.
pub open spec fn on_one_line(entries: Seq<(Seq<char>, (Seq<char>, bool))>) -> bool {
    forall|i: int|
        0 <= i < entries.len() ==> no_line_feed((#[trigger] entries[i]).0) && no_line_feed(
            entries[i].1.0,
        )
}

/// A header that can be found again in the line it was written to: it holds
/// no line feed and does not end in white space.
pub open spec fn is_findable(header: Seq<char>) -> bool {
    no_line_feed(header) && (header.len() > 0 ==> !is_space(header.last()))
}

/// `table` without the names of the real translations among `entries`.
pub open spec fn without_valid(
    table: Seq<(Seq<char>, i64)>,
    entries: Seq<(Seq<char>, (Seq<char>, bool))>,
) -> Seq<(Seq<char>, i64)>
    decreases entries.len(),
{
    if entries.len() == 0 {
        table
    } else {
        without_valid(
            if entries[0].1.1 {
                without_key(table, entries[0].0)
            } else {
                table
            },
            entries.drop_first(),
        )
    }
}

/// The lines of `entries`, each ending with `eol`.
pub open spec fn entry_views(entries: Seq<(Seq<char>, (Seq<char>, bool))>, eol: Seq<char>) -> Seq<
    LineView,
>
    decreases entries.len(),
{
    if entries.len() == 0 {
        Seq::empty()
    } else {
        seq![
            LineView {
                content: entry_line(entries[0].0, entries[0].1.0, entries[0].1.1),
                ending: eol,
            },
        ] + entry_views(entries.drop_first(), eol)
    }
}

/// The lines of a new block.
pub open spec fn block_views(
    header: Seq<char>,
    entries: Seq<(Seq<char>, (Seq<char>, bool))>,
    eol: Seq<char>,
) -> Seq<LineView> {
    seq![
        LineView { content: "local "@ + header, ending: eol },
        LineView { content: "if not L then return end"@, ending: eol },
        LineView { content: "if L then"@, ending: eol },
    ] + entry_views(entries, eol) + seq![LineView { content: "end"@, ending: eol }]
}

/// The line of a translation begins with a tabulator in front of `L` or `-`,
/// ends with a quote, and holds no line feed unless its name or text does.
pub proof fn lemma_entry_line_shape(name: Seq<char>, text: Seq<char>, is_valid: bool)
    ensures
        entry_line(name, text, is_valid).len() >= 2,
        entry_line(name, text, is_valid)[0] == '\t',
        entry_line(name, text, is_valid)[1] == (if is_valid {
            'L'
        } else {
            '-'
        }),
        entry_line(name, text, is_valid).last() == '"',
        no_line_feed(name) && no_line_feed(text) ==> no_line_feed(
            entry_line(name, text, is_valid),
        ),
{
    reveal_strlit("\t");
    reveal_strlit("\t-- ");
    reveal_strlit("L.");
    reveal_strlit(" = \"");
    reveal_strlit("\"");
    let lead = if is_valid {
        "\t"@
    } else {
        "\t-- "@
    };
    let line = entry_line(name, text, is_valid);
    assert(line == lead + "L."@ + name + " = \""@ + text + "\""@);
    assert(line[0] == lead[0]);
    if is_valid {
        assert(line[1] == "L."@[0]);
    } else {
        assert(line[1] == lead[1]);
    }
    if no_line_feed(name) && no_line_feed(text) {
        let a = lead.len() as int;
        let b = a + 2;
        let c = b + name.len();
        let d = c + 4;
        let e = d + text.len();
        assert forall|i: int| 0 <= i < line.len() implies #[trigger] line[i] != '\n' by {
            if i < a {
                assert(line[i] == lead[i]);
            } else if i < b {
                assert(line[i] == "L."@[i - a]);
            } else if i < c {
                assert(line[i] == name[i - b]);
            } else if i < d {
                assert(line[i] == " = \""@[i - c]);
            } else if i < e {
                assert(line[i] == text[i - d]);
            } else {
                assert(line[i] == "\""@[i - e]);
            }
        }
    }
}

/// Trimming a text that neither begins nor ends with white space, followed by
/// white space, gives the text.
pub proof fn lemma_trimmed_with_tail(core: Seq<char>, tail: Seq<char>)
    requires
        core.len() > 0,
        !is_space(core[0]),
        !is_space(core.last()),
        is_blank(tail),
    ensures
        trimmed(core + tail) == core,
{
    let s = core + tail;
    assert forall|i: int| core.len() <= i < s.len() implies is_space(#[trigger] s[i]) by {
        assert(s[i] == tail[i - core.len()]);
    }
    assert(s[0] == core[0]);
    assert(s[core.len() - 1] == core.last());
    lemma_trimmed_core(s, 0, core.len() as int);
    assert(s.subrange(0, core.len() as int) == core);
}

/// The line of a translation does not close the block, whatever white space
/// follows it.
pub proof fn lemma_entry_line_stays_inside(
    name: Seq<char>,
    text: Seq<char>,
    is_valid: bool,
    tail: Seq<char>,
)
    requires
        is_blank(tail),
    ensures
        !closes_block(entry_line(name, text, is_valid) + tail),
{
    let line = entry_line(name, text, is_valid);
    lemma_entry_line_shape(name, text, is_valid);
    let s = line + tail;
    assert forall|i: int| line.len() <= i < s.len() implies is_space(#[trigger] s[i]) by {
        assert(s[i] == tail[i - line.len()]);
    }
    assert(s[0] == line[0]);
    assert(s[1] == line[1]);
    assert(s[line.len() - 1] == line.last());
    assert forall|i: int| 0 <= i < 1 implies is_space(#[trigger] s[i]) by {}
    lemma_trimmed_core(s, 1, line.len() as int);
    reveal_strlit("end");
    assert(trimmed(s)[0] == s[1]);
    assert("end"@[0] == 'e');
}

/// The lines of the lines of `entries`, with `rest` behind them.
pub proof fn lemma_lines_of_entries(
    entries: Seq<(Seq<char>, (Seq<char>, bool))>,
    eol: Seq<char>,
    rest: Seq<char>,
)
    requires
        is_line_ending(eol),
        on_one_line(entries),
    ensures
        lines_of(entry_lines(entries, eol) + rest) == entry_views(entries, eol) + lines_of(rest),
    decreases entries.len(),
{
    if entries.len() == 0 {
        assert(entry_lines(entries, eol) + rest == rest);
        assert(entry_views(entries, eol) + lines_of(rest) == lines_of(rest));
    } else {
        let e = entries[0];
        let line = entry_line(e.0, e.1.0, e.1.1);
        let tail = entries.drop_first();
        lemma_entry_line_shape(e.0, e.1.0, e.1.1);
        assert forall|i: int| 0 <= i < tail.len() implies no_line_feed((#[trigger] tail[i]).0)
            && no_line_feed(tail[i].1.0) by {
            assert(tail[i] == entries[i + 1]);
        }
        lemma_lines_of_entries(tail, eol, rest);
        let behind = entry_lines(tail, eol) + rest;
        lemma_lines_of_first(line, eol, behind);
        assert(entry_lines(entries, eol) + rest == line + eol + behind);
        assert(seq![LineView { content: line, ending: eol }] + (entry_views(tail, eol) + lines_of(
            rest,
        )) == entry_views(entries, eol) + lines_of(rest));
    }
}

/// A header that can be found again holds no line feed behind `local `.
proof fn lemma_header_line(header: Seq<char>, eol: Seq<char>)
    requires
        is_findable(header),
        is_line_ending(eol),
    ensures
        reads_as_line("local "@ + header, eol),
        ("local "@ + header).len() == 6 + header.len(),
        ("local "@ + header)[0] == 'l',
        !is_space(("local "@ + header)[0]),
{
    reveal_strlit("local ");
    let c = "local "@ + header;
    assert forall|i: int| 0 <= i < c.len() implies #[trigger] c[i] != '\n' by {
        if i < 6 {
            assert(c[i] == "local "@[i]);
        } else {
            assert(c[i] == header[i - 6]);
        }
    }
    if header.len() > 0 {
        assert(c.last() == header.last());
    } else {
        assert(c.last() == "local "@[5]);
    }
}

/// The lines of a new block are its header line, its guard, its opening line,
/// the lines of its entries and its closing line.
pub proof fn lemma_lines_of_block(
    header: Seq<char>,
    entries: Seq<(Seq<char>, (Seq<char>, bool))>,
    eol: Seq<char>,
)
    requires
        is_findable(header),
        is_line_ending(eol),
        on_one_line(entries),
    ensures
        lines_of(new_block(header, entries, eol)) == block_views(header, entries, eol),
{
    reveal_strlit("if not L then return end");
    reveal_strlit("if L then");
    reveal_strlit("end");
    let head = "local "@ + header;
    let guard = "if not L then return end"@;
    let opener = "if L then"@;
    let closer = "end"@;
    let nothing = Seq::<char>::empty();
    let r4 = closer + eol + nothing;
    let r3 = entry_lines(entries, eol) + r4;
    let r2 = opener + eol + r3;
    let r1 = guard + eol + r2;
    lemma_header_line(header, eol);
    assert(new_block(header, entries, eol) == head + eol + r1);
    lemma_lines_of_first(head, eol, r1);
    lemma_lines_of_first(guard, eol, r2);
    lemma_lines_of_first(opener, eol, r3);
    lemma_lines_of_entries(entries, eol, r4);
    lemma_lines_of_first(closer, eol, nothing);
    assert(lines_of(nothing) == Seq::<LineView>::empty());
    assert(lines_of(new_block(header, entries, eol)) == block_views(header, entries, eol));
}

/// Looking for the block in the first three lines of a new block ends inside
/// the block: the header line holds the header, the guard changes nothing,
/// and the opening line opens the block. `tail` is what follows each line:
/// nothing, or a terminator.
pub proof fn lemma_locate_in_block(header: Seq<char>, tail: Seq<char>)
    requires
        is_findable(header),
        is_blank(tail),
    ensures
        locate_step(Phase::Initial, "local "@ + header + tail, header) == Phase::FoundLocale,
        locate_step(Phase::FoundLocale, "local "@ + header + tail, header) == Phase::FoundLocale,
        locate_step(Phase::FoundLocale, "if not L then return end"@ + tail, header)
            == Phase::FoundLocale,
        locate_step(Phase::FoundLocale, "if L then"@ + tail, header) == Phase::InsideIf,
        closes_block("end"@ + tail),
        !closes_block("local "@ + header + tail),
        !closes_block("if not L then return end"@ + tail),
        !closes_block("if L then"@ + tail),
{
    reveal_strlit("local ");
    reveal_strlit("if not L then return end");
    reveal_strlit("if L then");
    reveal_strlit("end");
    reveal_strlit("L =");
    let guard = "if not L then return end"@;
    let opener = "if L then"@;
    let closer = "end"@;
    lemma_trimmed_with_tail(guard, tail);
    lemma_trimmed_with_tail(opener, tail);
    lemma_trimmed_with_tail(closer, tail);
    assert(guard.len() != opener.len());
    assert(guard[0] != "L ="@[0]);
    assert(!has_prefix(guard, "L ="@)) by {
        if has_prefix(guard, "L ="@) {
            assert(guard.subrange(0, 3)[0] == "L ="@[0]);
        }
    }
    assert(guard.len() != closer.len());
    assert(opener.len() != closer.len());
    let line = "local "@ + header + tail;
    let core = if header.len() > 0 {
        "local "@ + header
    } else {
        "local"@
    };
    reveal_strlit("local");
    if header.len() > 0 {
        assert(core.last() == header.last());
        lemma_trimmed_with_tail(core, tail);
        assert(occurs_at(core, header, 6)) by {
            assert(core.subrange(6, 6 + header.len() as int) == header);
        }
    } else {
        let blank_tail = seq![' '] + tail;
        assert(is_blank(blank_tail)) by {
            assert forall|i: int| 0 <= i < blank_tail.len() implies is_space(
                #[trigger] blank_tail[i],
            ) by {
                if i > 0 {
                    assert(blank_tail[i] == tail[i - 1]);
                }
            }
        }
        assert(line == core + blank_tail);
        lemma_trimmed_with_tail(core, blank_tail);
        assert(occurs_at(core, header, 0)) by {
            assert(core.subrange(0, 0) == header);
        }
    }
    assert(trimmed(line) == core);
    assert(has_infix(core, header));
    assert(core[0] == 'l');
    assert(core != opener) by {
        assert(opener[0] == 'i');
    }
    assert(core != closer) by {
        assert(closer[0] == 'e');
    }
    assert(!has_prefix(core, "L ="@)) by {
        if has_prefix(core, "L ="@) {
            assert(core.subrange(0, 3)[0] == "L ="@[0]);
        }
    }
}

/// The scan for names that are translated already takes the name of each
/// real translation among the lines of `entries` off the table, in order.
pub proof fn lemma_discard_entries(
    entries: Seq<(Seq<char>, (Seq<char>, bool))>,
    eol: Seq<char>,
    behind: Seq<LineView>,
    table: Seq<(Seq<char>, i64)>,
    header: Seq<char>,
)
    requires
        is_line_ending(eol),
        all_read_back(entries, eol),
    ensures
        discard_lines(entry_views(entries, eol) + behind, Phase::InsideIf, table, header)
            == discard_lines(behind, Phase::InsideIf, without_valid(table, entries), header),
    decreases entries.len(),
{
    if entries.len() == 0 {
        assert(entry_views(entries, eol) + behind == behind);
    } else {
        let e = entries[0];
        let tail = entries.drop_first();
        let line = LineView { content: entry_line(e.0, e.1.0, e.1.1), ending: eol };
        let lines = entry_views(entries, eol) + behind;
        assert(lines[0] == line);
        assert(lines.drop_first() == entry_views(tail, eol) + behind);
        lemma_entry_line_stays_inside(e.0, e.1.0, e.1.1, eol);
        assert(reads_back(e.0, e.1.0, e.1.1, eol));
        let next = discarded(assignment_in(line.raw()), table);
        assert(next == if e.1.1 {
            without_key(table, e.0)
        } else {
            table
        });
        assert forall|i: int| 0 <= i < tail.len() implies reads_back(
            (#[trigger] tail[i]).0,
            tail[i].1.0,
            tail[i].1.1,
            eol,
        ) by {
            assert(tail[i] == entries[i + 1]);
        }
        lemma_discard_entries(tail, eol, behind, next, header);
    }
}

/// A new block that is scanned for the names it translates gives up exactly
/// the names that were written as real translations: the scan takes those
/// names, and no others, off any table.
///
/// This holds for a header that can be found again in its line and for
/// entries that stand on one line each and that the pattern reads the way
/// they were written.
pub proof fn lemma_round_trip(
    header: Seq<char>,
    entries: Seq<(Seq<char>, (Seq<char>, bool))>,
    eol: LineEnding,
    table: Seq<(Seq<char>, i64)>,
)
    requires
        is_findable(header),
        on_one_line(entries),
        all_read_back(entries, eol.text()),
    ensures
        untranslated(new_block(header, entries, eol.text()), header, table) == without_valid(
            table,
            entries,
        ),
{
    let e = eol.text();
    lemma_lines_of_block(header, entries, e);
    lemma_locate_in_block(header, e);
    let closer = seq![LineView { content: "end"@, ending: e }];
    let inner = entry_views(entries, e) + closer;
    let l1 = LineView { content: "local "@ + header, ending: e };
    let l2 = LineView { content: "if not L then return end"@, ending: e };
    let l3 = LineView { content: "if L then"@, ending: e };
    let all = block_views(header, entries, e);
    assert(all == seq![l1, l2, l3] + inner);
    let s1 = all.drop_first();
    let s2 = s1.drop_first();
    assert(all[0] == l1);
    assert(s1[0] == l2);
    assert(s2[0] == l3);
    assert(s2.drop_first() == inner);
    lemma_discard_entries(entries, e, closer, table, header);
    assert(closer[0].raw() == "end"@ + e);
    assert(discard_lines(closer, Phase::InsideIf, without_valid(table, entries), header)
        == without_valid(table, entries));
    assert(discard_lines(s2, Phase::FoundLocale, table, header) == discard_lines(
        inner,
        Phase::InsideIf,
        table,
        header,
    ));
    assert(discard_lines(s1, Phase::FoundLocale, table, header) == discard_lines(
        s2,
        Phase::FoundLocale,
        table,
        header,
    ));
    assert(discard_lines(all, Phase::Initial, table, header) == discard_lines(
        s1,
        Phase::FoundLocale,
        table,
        header,
    ));
}

/// No line of `lines` holds the header.
pub open spec fn header_is_absent(lines: Seq<LineView>, header: Seq<char>) -> bool {
    forall|i: int| 0 <= i < lines.len() ==> !has_infix(trimmed((#[trigger] lines[i]).content), header)
}

/// A merge that never finds the header keeps every line and writes a
/// terminator and a new block behind them.
pub proof fn lemma_merge_without_header(
    lines: Seq<LineView>,
    pending: Seq<(Seq<char>, (Seq<char>, bool))>,
    header: Seq<char>,
    eol: Seq<char>,
)
    requires
        header_is_absent(lines, header),
    ensures
        merge_lines(lines, Phase::Initial, pending, header, eol) == join_lines(lines) + eol
            + new_block(header, pending, eol),
    decreases lines.len(),
{
    let block = new_block(header, pending, eol);
    if lines.len() == 0 {
        assert(join_lines(lines) + eol + block == eol + block);
    } else {
        let rest = lines.drop_first();
        assert forall|i: int| 0 <= i < rest.len() implies !has_infix(
            trimmed((#[trigger] rest[i]).content),
            header,
        ) by {
            assert(rest[i] == lines[i + 1]);
        }
        lemma_merge_without_header(rest, pending, header, eol);
        assert(lines[0].content + lines[0].ending + (join_lines(rest) + eol + block)
            == lines[0].raw() + join_lines(rest) + eol + block);
    }
}

/// Merging into a text that is not blank and does not hold the header keeps
/// the text and writes a terminator and a new block behind it.
pub proof fn lemma_merged_text_without_header(
    text: Seq<char>,
    header: Seq<char>,
    entries: Seq<(Seq<char>, (Seq<char>, bool))>,
    eol: Seq<char>,
)
    requires
        !is_blank(text),
        header_is_absent(lines_of(text), header),
    ensures
        merged_text(text, header, entries, eol) == text + eol + new_block(header, entries, eol),
{
    lemma_merge_without_header(lines_of(text), entries, header, eol);
    lemma_join_lines_from(text, 0);
    assert(text.subrange(0, text.len() as int) == text);
}

/// Whether the pattern reads the line of each translation in `list`,
/// followed by the terminator `eol`, the way it was written.
pub fn entries_read_back(
    list: &Vec<(String, (String, bool))>,
    patterns: &LocalePatterns,
    eol: LineEnding,
) -> (ok: bool)
    ensures
        ok == all_read_back(translation_pairs(list@), eol.text()),
{
    let ghost entries = translation_pairs(list@);
    let mut i: usize = 0;
    while i < list.len()
        invariant
            i <= list@.len(),
            entries == translation_pairs(list@),
            forall|k: int|
                0 <= k < i ==> reads_back(
                    (#[trigger] entries[k]).0,
                    entries[k].1.0,
                    entries[k].1.1,
                    eol.text(),
                ),
        decreases list.len() - i,
    {
        let mut line: Vec<char> = Vec::new();
        push_entry_line(&mut line, list[i].0.as_str(), list[i].1.0.as_str(), list[i].1.1);
        eol.push_to(&mut line);
        let as_text = to_text(line.as_slice());
        proof {
            assert(entries[i as int] == (list@[i as int].0@, (list@[i as int].1.0@, list@[i as int].1.1)));
            assert(as_text@ == entry_line(entries[i as int].0, entries[i as int].1.0, entries[i as int].1.1)
                + eol.text());
        }
        let read = match patterns.assignment(as_text.as_str()) {
            Some(a) => a.commented == !list[i].1.1 && a.name == list[i].0 && a.value == list[i].1.0,
            None => false,
        };
        if !read {
            proof {
                assert(!reads_back(
                    entries[i as int].0,
                    entries[i as int].1.0,
                    entries[i as int].1.1,
                    eol.text(),
                ));
            }
            return false;
        }
        i += 1;
    }
    true
}

/// Whether a header can be found again in the line it was written to.
pub fn header_is_findable(header: &[char]) -> (ok: bool)
    ensures
        ok == is_findable(header@),
{
    if contains_char(header, '\n') {
        proof {
            let i = choose|i: int| 0 <= i < header@.len() && header@[i] == '\n';
            assert(header@[i] == '\n');
        }
        return false;
    }
    let n: usize = header.len();
    n == 0 || !char_is_space(header[n - 1])
}

/// Whether each translation in `list` stands on one line.
pub fn entries_on_one_line(list: &Vec<(String, (String, bool))>) -> (ok: bool)
    ensures
        ok == on_one_line(translation_pairs(list@)),
{
    let ghost entries = translation_pairs(list@);
    let mut i: usize = 0;
    while i < list.len()
        invariant
            i <= list@.len(),
            entries == translation_pairs(list@),
            forall|k: int|
                0 <= k < i ==> no_line_feed((#[trigger] entries[k]).0) && no_line_feed(
                    entries[k].1.0,
                ),
        decreases list.len() - i,
    {
        let name = to_chars(list[i].0.as_str());
        let text = to_chars(list[i].1.0.as_str());
        proof {
            assert(entries[i as int] == (list@[i as int].0@, (list@[i as int].1.0@, list@[i as int].1.1)));
        }
        if contains_char(name.as_slice(), '\n') || contains_char(text.as_slice(), '\n') {
            proof {
                if name@.contains('\n') {
                    let j = choose|j: int| 0 <= j < name@.len() && name@[j] == '\n';
                    assert(entries[i as int].0[j] == '\n');
                } else {
                    let j = choose|j: int| 0 <= j < text@.len() && text@[j] == '\n';
                    assert(entries[i as int].1.0[j] == '\n');
                }
            }
            return false;
        }
        i += 1;
    }
    true
}

/// Tests whether a new file for `header` and `values` will give back the
/// names of its real translations when it is scanned for the names that it
/// translates. Where the answer is `true`, the scan takes exactly those names
/// off any table.
pub fn new_file_round_trips(
    header: &str,
    values: &IndexMap<String, (String, bool)>,
    patterns: &LocalePatterns,
    eol: LineEnding,
) -> (ok: bool)
    ensures
        ok == (is_findable(header@) && on_one_line(translation_entries(*values)) && all_read_back(
            translation_entries(*values),
            eol.text(),
        )),
        ok ==> forall|table: Seq<(Seq<char>, i64)>|
            #[trigger] untranslated(
                new_block(header@, translation_entries(*values), eol.text()),
                header@,
                table,
            ) == without_valid(table, translation_entries(*values)),
{
    let head = to_chars(header);
    let list = translation_list(values);
    let ok = header_is_findable(head.as_slice()) && entries_on_one_line(&list) && entries_read_back(
        &list,
        patterns,
        eol,
    );
    proof {
        if ok {
            assert forall|table: Seq<(Seq<char>, i64)>|
                #[trigger] untranslated(
                    new_block(header@, translation_entries(*values), eol.text()),
                    header@,
                    table,
                ) == without_valid(table, translation_entries(*values)) by {
                lemma_round_trip(header@, translation_entries(*values), eol, table);
            }
        }
    }
    ok
}

} // verus!
