//! Merging the same translations a second time changes nothing.
//!
//! The proof follows the second scan along the lines that the first merge
//! wrote. What the assignment pattern finds in those lines is not known here;
//! [`pattern_is_faithful`] says what is taken for granted of it.

use crate::merge::{
    assignment_in, closes_block, entry_line, entry_lines, lemma_merge_done, merge_lines,
    merge_step, merged_text, new_block, patched_line, LineEnding, Phase,
};
use crate::merge_laws::{
    all_read_back, block_views, entry_views, is_findable, lemma_entry_line_shape,
    lemma_lines_of_block, lemma_lines_of_entries, lemma_locate_in_block, on_one_line, reads_back,
};
use crate::table::{distinct_keys, key_index, lemma_key_index, lemma_key_index_distinct};
use crate::text::{
    is_blank, is_line_ending, is_space, join_lines, lemma_join_lines_from, lemma_lines_from_step,
    lemma_lines_of_first, lemma_lines_of_last, lemma_newline_at, lemma_skip_spaces_back_bounds,
    lemma_skip_spaces_bounds, line_next, line_stop, line_view, lines_from, lines_of, newline_at,
    no_line_feed, reads_as_line, skip_spaces, skip_spaces_back, trimmed, LineView,
};
use vstd::prelude::*;

verus! {

/// `s` is what `of` ends with.
pub open spec fn is_suffix(s: Seq<char>, of: Seq<char>) -> bool {
    s.len() <= of.len() && of.subrange(of.len() - s.len(), of.len() as int) == s
}

/// The pattern reads the line of each real translation among `entries` the
/// way it was written, whatever follows the closing quote on the line.
pub open spec fn rewrites_read_back(entries: Seq<(Seq<char>, (Seq<char>, bool))>) -> bool {
    forall|i: int, rest: Seq<char>|
        0 <= i < entries.len() && entries[i].1.1 && no_line_feed(rest) ==> #[trigger] reads_back(
            entries[i].0,
            entries[i].1.0,
            true,
            rest,
        )
}

/// What the pattern reads as the rest of a line is what the line ends with.
pub open spec fn rest_is_suffix() -> bool {
    forall|c: Seq<char>|
        no_line_feed(c) ==> match #[trigger] assignment_in(c) {
            Some(a) => is_suffix(a.rest, c),
            None => true,
        }
}

/// The pattern finds no assignment in the empty line and in the three lines
/// that open a block.
pub open spec fn frame_is_opaque(header: Seq<char>) -> bool {
    &&& assignment_in(Seq::empty()) is None
    &&& assignment_in("local "@ + header) is None
    &&& assignment_in("if not L then return end"@) is None
    &&& assignment_in("if L then"@) is None
}

/// What is taken for granted of the assignment pattern: it reads the lines
/// that a merge of `entries` writes the way they were written, the rest that
/// it reads in a line is the end of that line, and it reads nothing into the
/// lines that open a block.
pub open spec fn pattern_is_faithful(
    header: Seq<char>,
    entries: Seq<(Seq<char>, (Seq<char>, bool))>,
) -> bool {
    &&& all_read_back(entries, Seq::empty())
    &&& rewrites_read_back(entries)
    &&& rest_is_suffix()
    &&& frame_is_opaque(header)
}

/// Translations that can be merged again: no name occurs twice, each stands
/// on one line, and the pattern reads their lines back.
pub open spec fn can_be_merged_again(entries: Seq<(Seq<char>, (Seq<char>, bool))>) -> bool {
    &&& distinct_keys(entries)
    &&& on_one_line(entries)
    &&& all_read_back(entries, Seq::empty())
    &&& rewrites_read_back(entries)
}

/// Taking one translation away leaves translations that can be merged again.
pub proof fn lemma_remove_keeps_mergeable(entries: Seq<(Seq<char>, (Seq<char>, bool))>, i: int)
    requires
        can_be_merged_again(entries),
        0 <= i < entries.len(),
    ensures
        can_be_merged_again(entries.remove(i)),
{
    let left = entries.remove(i);
    assert forall|k: int| 0 <= k < left.len() implies #[trigger] left[k] == entries[if k < i {
        k
    } else {
        k + 1
    }] by {}
    assert forall|a: int, b: int| 0 <= a < b < left.len() implies (#[trigger] left[a]).0 != (
    #[trigger] left[b]).0 by {
        let a0 = if a < i {
            a
        } else {
            a + 1
        };
        let b0 = if b < i {
            b
        } else {
            b + 1
        };
        assert(left[a] == entries[a0]);
        assert(left[b] == entries[b0]);
    }
    assert forall|k: int| 0 <= k < left.len() implies no_line_feed((#[trigger] left[k]).0)
        && no_line_feed(left[k].1.0) by {
        let k0 = if k < i {
            k
        } else {
            k + 1
        };
        assert(left[k] == entries[k0]);
    }
    assert forall|k: int| 0 <= k < left.len() implies reads_back(
        (#[trigger] left[k]).0,
        left[k].1.0,
        left[k].1.1,
        Seq::empty(),
    ) by {
        let k0 = if k < i {
            k
        } else {
            k + 1
        };
        assert(left[k] == entries[k0]);
    }
    assert forall|k: int, rest: Seq<char>|
        0 <= k < left.len() && left[k].1.1 && no_line_feed(rest) implies #[trigger] reads_back(
        left[k].0,
        left[k].1.0,
        true,
        rest,
    ) by {
        let k0 = if k < i {
            k
        } else {
            k + 1
        };
        assert(left[k] == entries[k0]);
        assert(reads_back(entries[k0].0, entries[k0].1.0, true, rest));
    }
}

/// The lines of a text as a scan meets them: no line holds a line feed, no
/// line is empty and without a terminator, and only the last line can be
/// without a terminator.
pub open spec fn are_lines(lines: Seq<LineView>) -> bool {
    forall|i: int|
        0 <= i < lines.len() ==> {
            let l = #[trigger] lines[i];
            &&& no_line_feed(l.content)
            &&& l.content.len() + l.ending.len() > 0
            &&& (reads_as_line(l.content, l.ending) || (l.ending.len() == 0 && i == lines.len()
                - 1))
        }
}

/// The lines of a text are lines in the sense of [`are_lines`].
pub proof fn lemma_lines_are_lines(t: Seq<char>, pos: int)
    requires
        0 <= pos <= t.len(),
    ensures
        are_lines(lines_from(t, pos)),
    decreases t.len() - pos,
{
    if pos < t.len() {
        lemma_lines_from_step(t, pos);
        lemma_newline_at(t, pos);
        let next = line_next(t, pos);
        let stop = line_stop(t, pos);
        let nl = newline_at(t, pos);
        lemma_lines_are_lines(t, next);
        let all = lines_from(t, pos);
        let rest = lines_from(t, next);
        let l = line_view(t, pos);
        assert(no_line_feed(l.content)) by {
            assert forall|k: int| 0 <= k < l.content.len() implies #[trigger] l.content[k]
                != '\n' by {
                assert(l.content[k] == t[pos + k]);
            }
        }
        if nl < t.len() {
            if stop == nl {
                assert(l.ending == seq!['\n']);
                if l.content.len() > 0 {
                    assert(l.content.last() == t[nl - 1]);
                }
            } else {
                assert(l.ending == seq!['\r', '\n']) by {
                    assert(l.ending.len() == 2);
                    assert(l.ending[0] == t[nl - 1]);
                    assert(l.ending[1] == t[nl]);
                }
            }
            assert(reads_as_line(l.content, l.ending));
        } else {
            assert(l.ending.len() == 0);
            assert(rest.len() == 0);
        }
        assert forall|i: int| 0 <= i < all.len() implies {
            let x = #[trigger] all[i];
            &&& no_line_feed(x.content)
            &&& x.content.len() + x.ending.len() > 0
            &&& (reads_as_line(x.content, x.ending) || (x.ending.len() == 0 && i == all.len() - 1))
        } by {
            if i > 0 {
                assert(all[i] == rest[i - 1]);
            } else {
                assert(all[0] == l);
            }
        }
    }
}

/// A last line without a terminator does not end in a carriage return.
pub open spec fn last_line_is_plain(lines: Seq<LineView>) -> bool {
    lines.len() > 0 && lines.last().ending.len() == 0 ==> lines.last().content.len() > 0
        && lines.last().content.last() != '\r'
}

/// The lines behind the first of some lines are lines.
pub proof fn lemma_rest_are_lines(lines: Seq<LineView>)
    requires
        are_lines(lines),
        lines.len() > 0,
    ensures
        are_lines(lines.drop_first()),
        no_line_feed(lines[0].content),
        lines[0].content.len() + lines[0].ending.len() > 0,
        lines.len() > 1 || lines[0].ending.len() > 0 ==> reads_as_line(
            lines[0].content,
            lines[0].ending,
        ),
        last_line_is_plain(lines) ==> last_line_is_plain(lines.drop_first()),
{
    let rest = lines.drop_first();
    let first = lines[0];
    assert(no_line_feed(first.content) && first.content.len() + first.ending.len() > 0 && (
    reads_as_line(first.content, first.ending) || (first.ending.len() == 0 && 0 == lines.len()
        - 1)));
    if rest.len() > 0 {
        assert(rest.last() == lines.last());
    }
    assert forall|i: int| 0 <= i < rest.len() implies {
        let x = #[trigger] rest[i];
        &&& no_line_feed(x.content)
        &&& x.content.len() + x.ending.len() > 0
        &&& (reads_as_line(x.content, x.ending) || (x.ending.len() == 0 && i == rest.len() - 1))
    } by {
        assert(rest[i] == lines[i + 1]);
    }
}

/// A text holds a character that is no white space.
pub open spec fn has_ink(s: Seq<char>) -> bool {
    exists|i: int| 0 <= i < s.len() && !is_space(#[trigger] s[i])
}

/// A text has ink exactly when it is not blank.
pub proof fn lemma_ink_or_blank(s: Seq<char>)
    ensures
        has_ink(s) <==> !is_blank(s),
{
    if !is_blank(s) {
        let i = choose|i: int| 0 <= i < s.len() && !is_space(#[trigger] s[i]);
        assert(0 <= i < s.len() && !is_space(s[i]));
    }
}

/// A text that holds a text with ink has ink.
pub proof fn lemma_ink_in_part(a: Seq<char>, b: Seq<char>, c: Seq<char>)
    requires
        has_ink(b),
    ensures
        has_ink(a + b + c),
{
    let i = choose|i: int| 0 <= i < b.len() && !is_space(#[trigger] b[i]);
    let s = a + b + c;
    assert(s[a.len() + i] == b[i]);
}

/// The line of a real translation does not close the block, whatever follows
/// it on the line.
pub proof fn lemma_rewritten_line_stays_inside(name: Seq<char>, text: Seq<char>, rest: Seq<char>)
    ensures
        !closes_block(entry_line(name, text, true) + rest),
{
    let line = entry_line(name, text, true);
    lemma_entry_line_shape(name, text, true);
    let s = line + rest;
    assert(s[0] == line[0]);
    assert(s[1] == line[1]);
    lemma_skip_spaces_bounds(s, 0);
    let a = skip_spaces(s, 0);
    assert(a == 1) by {
        assert(is_space(s[0]));
        assert(!is_space(s[1]));
        if a < 1 {
            assert(!is_space(s[a]));
        }
        if a > 1 {
            assert(is_space(s[1]));
        }
    }
    lemma_skip_spaces_back_bounds(s, a, s.len() as int);
    let b = skip_spaces_back(s, a, s.len() as int);
    assert(b >= 2) by {
        if b < 2 {
            assert(is_space(s[1]));
        }
    }
    reveal_strlit("end");
    assert(trimmed(s)[0] == s[1]);
    assert("end"@[0] == 'e');
}

/// A step on the line that a step wrote is the same step again: a line that
/// was kept is kept, and a line that was rewritten reads back as what was
/// written. What a step writes for a line that holds no line feed holds none,
/// and ends in a carriage return only where the line did.
pub proof fn lemma_step_is_stable(
    phase: Phase,
    c: Seq<char>,
    pending: Seq<(Seq<char>, (Seq<char>, bool))>,
    header: Seq<char>,
    eol: Seq<char>,
)
    requires
        can_be_merged_again(pending),
        rest_is_suffix(),
        no_line_feed(c),
        !(phase is InsideIf && closes_block(c)),
    ensures
        merge_step(phase, merge_step(phase, c, pending, header, eol).text, pending, header, eol)
            == merge_step(phase, c, pending, header, eol),
        can_be_merged_again(merge_step(phase, c, pending, header, eol).pending),
        no_line_feed(merge_step(phase, c, pending, header, eol).text),
        merge_step(phase, c, pending, header, eol).text.len() > 0 && merge_step(
            phase,
            c,
            pending,
            header,
            eol,
        ).text.last() == '\r' ==> c.len() > 0 && c.last() == '\r',
        has_ink(c) ==> has_ink(merge_step(phase, c, pending, header, eol).text),
        !(merge_step(phase, c, pending, header, eol).phase is Done) || phase is Done,
        merge_step(phase, c, pending, header, eol).text.len() == 0 ==> c.len() == 0,
{
    let s = merge_step(phase, c, pending, header, eol);
    if phase is InsideIf {
        match assignment_in(c) {
            Some(a) => {
                lemma_key_index(pending, a.name);
                match key_index(pending, a.name) {
                    Some(i) => {
                        lemma_remove_keeps_mergeable(pending, i);
                        let translation = pending[i].1.0;
                        let is_valid = pending[i].1.1;
                        if is_valid && (a.commented || a.value != translation) {
                            let line = entry_line(a.name, translation, true);
                            let written = line + a.rest;
                            assert(s.text == written);
                            assert(is_suffix(a.rest, c));
                            assert(no_line_feed(a.rest)) by {
                                assert forall|k: int| 0 <= k < a.rest.len() implies #[trigger] a.rest[k]
                                    != '\n' by {
                                    assert(a.rest[k] == c[c.len() - a.rest.len() + k]);
                                }
                            }
                            lemma_entry_line_shape(a.name, translation, true);
                            assert(no_line_feed(pending[i].0) && no_line_feed(pending[i].1.0));
                            assert(no_line_feed(written)) by {
                                assert forall|k: int| 0 <= k < written.len() implies #[trigger] written[k]
                                    != '\n' by {
                                    if k < line.len() {
                                        assert(written[k] == line[k]);
                                    } else {
                                        assert(written[k] == a.rest[k - line.len()]);
                                    }
                                }
                            }
                            if a.rest.len() > 0 {
                                assert(written.last() == a.rest.last());
                                assert(a.rest.last() == c[c.len() - 1]);
                            } else {
                                assert(written.last() == line.last());
                            }
                            assert(has_ink(written)) by {
                                assert(written[1] == line[1]);
                                assert(!is_space(written[1]));
                            }
                            lemma_rewritten_line_stays_inside(a.name, translation, a.rest);
                            assert(reads_back(pending[i].0, pending[i].1.0, true, a.rest));
                            let again = assignment_in(written);
                            assert(again is Some);
                            let b = again.unwrap();
                            assert(b.name == a.name && !b.commented && b.value == translation);
                            assert(patched_line(written, again, pending) == (
                                written,
                                pending.remove(i),
                            ));
                        }
                    },
                    None => {},
                }
            },
            None => {},
        }
    }
}

/// A scan inside the block that meets the lines of the pending translations
/// and then the line that closes the block keeps all of them: each line reads
/// back as the translation that is pending for its name, and nothing is left
/// to write in front of the closing line.
pub proof fn lemma_merge_entries(
    pending: Seq<(Seq<char>, (Seq<char>, bool))>,
    closer: LineView,
    behind: Seq<LineView>,
    header: Seq<char>,
    eol: Seq<char>,
)
    requires
        can_be_merged_again(pending),
        closes_block(closer.content),
    ensures
        merge_lines(
            entry_views(pending, eol) + seq![closer] + behind,
            Phase::InsideIf,
            pending,
            header,
            eol,
        ) == entry_lines(pending, eol) + closer.raw() + join_lines(behind),
    decreases pending.len(),
{
    let lines = entry_views(pending, eol) + seq![closer] + behind;
    if pending.len() == 0 {
        assert(lines[0] == closer);
        assert(lines.drop_first() == behind);
        lemma_merge_done(behind, pending, header, eol);
        let step = merge_step(Phase::InsideIf, closer.content, pending, header, eol);
        assert(step.text == closer.content) by {
            assert(entry_lines(pending, eol) + closer.content == closer.content);
        }
        assert(merge_lines(lines, Phase::InsideIf, pending, header, eol) == closer.content
            + closer.ending + join_lines(behind));
        assert(entry_lines(pending, eol) + closer.raw() + join_lines(behind) == closer.content
            + closer.ending + join_lines(behind));
    } else {
        let e = pending[0];
        let tail = pending.drop_first();
        let line = entry_line(e.0, e.1.0, e.1.1);
        let first = LineView { content: line, ending: eol };
        assert(lines[0] == first);
        assert(lines.drop_first() == entry_views(tail, eol) + seq![closer] + behind);
        crate::merge_laws::lemma_entry_line_stays_inside(e.0, e.1.0, e.1.1, Seq::empty());
        assert(line + Seq::<char>::empty() == line);
        assert(reads_back(e.0, e.1.0, e.1.1, Seq::empty()));
        lemma_key_index_distinct(pending, 0);
        let a = assignment_in(line).unwrap();
        assert(a.name == e.0 && a.commented == !e.1.1 && a.value == e.1.0);
        assert(pending.remove(0) == tail);
        assert(patched_line(line, assignment_in(line), pending) == (line, tail));
        lemma_remove_keeps_mergeable(pending, 0);
        lemma_merge_entries(tail, closer, behind, header, eol);
        assert(merge_lines(lines, Phase::InsideIf, pending, header, eol) == line + eol + (
        entry_lines(tail, eol) + closer.raw() + join_lines(behind)));
        assert(entry_lines(pending, eol) + closer.raw() + join_lines(behind) == line + eol + (
        entry_lines(tail, eol) + closer.raw() + join_lines(behind)));
    }
}

/// A scan that meets a new block for the pending translations keeps it as it
/// is and ends behind it, whether it was looking for the block or was inside
/// a block that was never closed.
pub proof fn lemma_merge_block(
    phase: Phase,
    pending: Seq<(Seq<char>, (Seq<char>, bool))>,
    header: Seq<char>,
    eol: Seq<char>,
)
    requires
        can_be_merged_again(pending),
        is_findable(header),
        frame_is_opaque(header),
        !(phase is Done),
    ensures
        merge_lines(block_views(header, pending, eol), phase, pending, header, eol) == new_block(
            header,
            pending,
            eol,
        ),
{
    let nothing = Seq::<char>::empty();
    lemma_locate_in_block(header, nothing);
    let head = "local "@ + header;
    let guard = "if not L then return end"@;
    let opener = "if L then"@;
    assert(head + nothing == head);
    assert(guard + nothing == guard);
    assert(opener + nothing == opener);
    assert("end"@ + nothing == "end"@);
    let l1 = LineView { content: head, ending: eol };
    let l2 = LineView { content: guard, ending: eol };
    let l3 = LineView { content: opener, ending: eol };
    let closer = LineView { content: "end"@, ending: eol };
    let inner = entry_views(pending, eol) + seq![closer];
    let all = block_views(header, pending, eol);
    assert(all == seq![l1, l2, l3] + inner);
    let s1 = all.drop_first();
    let s2 = s1.drop_first();
    assert(all[0] == l1);
    assert(s1[0] == l2);
    assert(s2[0] == l3);
    assert(s2.drop_first() == inner);
    let no_lines = Seq::<LineView>::empty();
    assert(inner == entry_views(pending, eol) + seq![closer] + no_lines);
    lemma_merge_entries(pending, closer, no_lines, header, eol);
    let inside = entry_lines(pending, eol) + closer.raw() + join_lines(no_lines);
    assert(merge_lines(inner, Phase::InsideIf, pending, header, eol) == inside);
    assert(inside == entry_lines(pending, eol) + "end"@ + eol);
    let at_head = merge_step(phase, head, pending, header, eol);
    assert(at_head.text == head && at_head.pending == pending);
    assert(at_head.phase == if phase is InsideIf {
        Phase::InsideIf
    } else {
        Phase::FoundLocale
    });
    let at_guard = merge_step(at_head.phase, guard, pending, header, eol);
    assert(at_guard.text == guard && at_guard.pending == pending && at_guard.phase == at_head.phase);
    let at_opener = merge_step(at_guard.phase, opener, pending, header, eol);
    assert(at_opener.text == opener && at_opener.pending == pending && at_opener.phase == Phase::InsideIf);
    assert(merge_lines(s2, at_guard.phase, pending, header, eol) == opener + eol + inside);
    assert(merge_lines(s1, at_head.phase, pending, header, eol) == guard + eol + (opener + eol
        + inside));
    assert(merge_lines(all, phase, pending, header, eol) == head + eol + (guard + eol + (opener
        + eol + inside)));
    assert(new_block(header, pending, eol) == head + eol + (guard + eol + (opener + eol
        + inside)));
}

/// A scan that meets an empty line and then a new block for the pending
/// translations keeps both.
pub proof fn lemma_merge_tail(
    phase: Phase,
    pending: Seq<(Seq<char>, (Seq<char>, bool))>,
    header: Seq<char>,
    eol: Seq<char>,
)
    requires
        can_be_merged_again(pending),
        is_findable(header),
        frame_is_opaque(header),
        !(phase is Done),
    ensures
        merge_lines(
            seq![LineView { content: Seq::empty(), ending: eol }] + block_views(
                header,
                pending,
                eol,
            ),
            phase,
            pending,
            header,
            eol,
        ) == eol + new_block(header, pending, eol),
{
    let nothing = Seq::<char>::empty();
    let blank = LineView { content: nothing, ending: eol };
    let lines = seq![blank] + block_views(header, pending, eol);
    assert(lines[0] == blank);
    assert(lines.drop_first() == block_views(header, pending, eol));
    reveal_strlit("if L then");
    reveal_strlit("end");
    reveal_strlit("L =");
    assert(trimmed(nothing) == nothing) by {
        crate::text::lemma_trimmed_edges(nothing);
        assert(trimmed(nothing).len() == 0);
    }
    let step = merge_step(phase, nothing, pending, header, eol);
    assert(step.text == nothing && step.pending == pending && !(step.phase is Done));
    lemma_merge_block(step.phase, pending, header, eol);
    assert(nothing + eol + new_block(header, pending, eol) == eol + new_block(
        header,
        pending,
        eol,
    ));
}

/// The lines that a step writes in the place of `line`.
pub open spec fn step_views(
    phase: Phase,
    line: LineView,
    pending: Seq<(Seq<char>, (Seq<char>, bool))>,
    header: Seq<char>,
    eol: Seq<char>,
) -> Seq<LineView> {
    if phase is InsideIf && closes_block(line.content) {
        entry_views(pending, eol) + seq![line]
    } else {
        seq![
            LineView {
                content: merge_step(phase, line.content, pending, header, eol).text,
                ending: line.ending,
            },
        ]
    }
}

/// The lines of the text that a merge of `lines` writes. A last line without
/// a terminator gets the terminator that the merge writes in front of a new
/// block.
pub open spec fn merged_views(
    lines: Seq<LineView>,
    phase: Phase,
    pending: Seq<(Seq<char>, (Seq<char>, bool))>,
    header: Seq<char>,
    eol: Seq<char>,
) -> Seq<LineView>
    decreases lines.len(),
{
    if lines.len() == 0 {
        if phase is Done {
            Seq::empty()
        } else {
            seq![LineView { content: Seq::empty(), ending: eol }] + block_views(
                header,
                pending,
                eol,
            )
        }
    } else {
        let step = merge_step(phase, lines[0].content, pending, header, eol);
        if lines.len() == 1 && lines[0].ending.len() == 0 && !(step.phase is Done) {
            seq![LineView { content: step.text, ending: eol }] + block_views(
                header,
                step.pending,
                eol,
            )
        } else {
            step_views(phase, lines[0], pending, header, eol) + merged_views(
                lines.drop_first(),
                step.phase,
                step.pending,
                header,
                eol,
            )
        }
    }
}

/// Behind the end of the block a merge writes the lines that it reads.
pub proof fn lemma_views_done(
    lines: Seq<LineView>,
    pending: Seq<(Seq<char>, (Seq<char>, bool))>,
    header: Seq<char>,
    eol: Seq<char>,
)
    ensures
        merged_views(lines, Phase::Done, pending, header, eol) == lines,
    decreases lines.len(),
{
    if lines.len() > 0 {
        lemma_views_done(lines.drop_first(), pending, header, eol);
        assert(seq![lines[0]] + lines.drop_first() == lines);
    }
}

/// The lines of what a merge writes for a last line without a terminator.
proof fn lemma_lines_of_merged_last(
    line: LineView,
    phase: Phase,
    pending: Seq<(Seq<char>, (Seq<char>, bool))>,
    header: Seq<char>,
    eol: Seq<char>,
)
    requires
        no_line_feed(line.content),
        line.ending.len() == 0,
        line.content.len() > 0,
        line.content.last() != '\r',
        can_be_merged_again(pending),
        rest_is_suffix(),
        is_findable(header),
        is_line_ending(eol),
    ensures
        lines_of(merge_lines(seq![line], phase, pending, header, eol)) == merged_views(
            seq![line],
            phase,
            pending,
            header,
            eol,
        ),
{
    let nothing = Seq::<char>::empty();
    let no_lines = Seq::<LineView>::empty();
    let lines = seq![line];
    let rest = lines.drop_first();
    assert(rest == no_lines);
    assert(lines[0] == line);
    let step = merge_step(phase, line.content, pending, header, eol);
    let closing = phase is InsideIf && closes_block(line.content);
    let tail = merge_lines(rest, step.phase, step.pending, header, eol);
    let out = merge_lines(lines, phase, pending, header, eol);
    assert(out == step.text + line.ending + tail);
    assert(line.ending == nothing);
    if !closing {
        lemma_step_is_stable(phase, line.content, pending, header, eol);
    }
    if step.phase is Done {
        assert(tail == nothing);
        assert(out == step.text);
        assert(merged_views(rest, step.phase, step.pending, header, eol) == no_lines);
        if closing {
            assert(step.text == entry_lines(pending, eol) + line.content);
            lemma_lines_of_entries(pending, eol, line.content);
            lemma_lines_of_last(line.content);
            assert(step_views(phase, line, pending, header, eol) == entry_views(pending, eol)
                + seq![line]);
            assert(entry_views(pending, eol) + seq![line] + no_lines == entry_views(pending, eol)
                + seq![line]);
        } else {
            assert(step.text == line.content);
            lemma_lines_of_last(line.content);
            assert(step_views(phase, line, pending, header, eol) == seq![line]);
            assert(seq![line] + no_lines == seq![line]);
        }
    } else {
        let block = new_block(header, step.pending, eol);
        assert(tail == eol + block);
        assert(out == step.text + eol + block);
        assert(reads_as_line(step.text, eol));
        lemma_lines_of_first(step.text, eol, block);
        lemma_lines_of_block(header, step.pending, eol);
    }
}

/// The lines of what a merge writes for a line with a terminator, in front of
/// the text `tail`.
proof fn lemma_lines_of_merged_first(
    line: LineView,
    phase: Phase,
    pending: Seq<(Seq<char>, (Seq<char>, bool))>,
    header: Seq<char>,
    eol: Seq<char>,
    tail: Seq<char>,
)
    requires
        reads_as_line(line.content, line.ending),
        can_be_merged_again(pending),
        rest_is_suffix(),
        is_line_ending(eol),
    ensures
        lines_of(merge_step(phase, line.content, pending, header, eol).text + line.ending + tail)
            == step_views(phase, line, pending, header, eol) + lines_of(tail),
{
    let step = merge_step(phase, line.content, pending, header, eol);
    let closing = phase is InsideIf && closes_block(line.content);
    if closing {
        let behind = line.content + line.ending + tail;
        assert(step.text + line.ending + tail == entry_lines(pending, eol) + behind);
        lemma_lines_of_entries(pending, eol, behind);
        lemma_lines_of_first(line.content, line.ending, tail);
        assert(entry_views(pending, eol) + (seq![line] + lines_of(tail)) == entry_views(
            pending,
            eol,
        ) + seq![line] + lines_of(tail));
    } else {
        lemma_step_is_stable(phase, line.content, pending, header, eol);
        assert(reads_as_line(step.text, line.ending));
        lemma_lines_of_first(step.text, line.ending, tail);
    }
}

/// The lines of the text that a merge writes are [`merged_views`].
pub proof fn lemma_lines_of_merged(
    lines: Seq<LineView>,
    phase: Phase,
    pending: Seq<(Seq<char>, (Seq<char>, bool))>,
    header: Seq<char>,
    eol: Seq<char>,
)
    requires
        are_lines(lines),
        last_line_is_plain(lines),
        can_be_merged_again(pending),
        rest_is_suffix(),
        is_findable(header),
        is_line_ending(eol),
    ensures
        lines_of(merge_lines(lines, phase, pending, header, eol)) == merged_views(
            lines,
            phase,
            pending,
            header,
            eol,
        ),
    decreases lines.len(),
{
    let nothing = Seq::<char>::empty();
    let out = merge_lines(lines, phase, pending, header, eol);
    if lines.len() == 0 {
        if phase is Done {
            assert(lines_of(out) == Seq::<LineView>::empty());
        } else {
            let block = new_block(header, pending, eol);
            assert(out == nothing + eol + block);
            lemma_lines_of_first(nothing, eol, block);
            lemma_lines_of_block(header, pending, eol);
        }
    } else {
        let line = lines[0];
        let rest = lines.drop_first();
        lemma_rest_are_lines(lines);
        if lines.len() == 1 && line.ending.len() == 0 {
            assert(lines == seq![line]);
            assert(lines.last() == line);
            lemma_lines_of_merged_last(line, phase, pending, header, eol);
        } else {
            let step = merge_step(phase, line.content, pending, header, eol);
            let closing = phase is InsideIf && closes_block(line.content);
            if !closing {
                lemma_step_is_stable(phase, line.content, pending, header, eol);
            }
            let tail = merge_lines(rest, step.phase, step.pending, header, eol);
            lemma_lines_of_merged(rest, step.phase, step.pending, header, eol);
            lemma_lines_of_merged_first(line, phase, pending, header, eol, tail);
            assert(out == step.text + line.ending + tail);
        }
    }
}

/// A second merge of what a merge wrote for a last line without a terminator
/// and of the new block behind it writes the same text.
proof fn lemma_stable_last(
    line: LineView,
    phase: Phase,
    pending: Seq<(Seq<char>, (Seq<char>, bool))>,
    header: Seq<char>,
    eol: Seq<char>,
)
    requires
        no_line_feed(line.content),
        line.ending.len() == 0,
        !(merge_step(phase, line.content, pending, header, eol).phase is Done),
        can_be_merged_again(pending),
        rest_is_suffix(),
        is_findable(header),
        frame_is_opaque(header),
    ensures
        merge_lines(
            merged_views(seq![line], phase, pending, header, eol),
            phase,
            pending,
            header,
            eol,
        ) == merge_lines(seq![line], phase, pending, header, eol),
{
    let nothing = Seq::<char>::empty();
    let lines = seq![line];
    let rest = lines.drop_first();
    assert(lines[0] == line);
    assert(rest.len() == 0);
    let step = merge_step(phase, line.content, pending, header, eol);
    let block_text = new_block(header, step.pending, eol);
    lemma_step_is_stable(phase, line.content, pending, header, eol);
    lemma_merge_block(step.phase, step.pending, header, eol);
    let written = LineView { content: step.text, ending: eol };
    let block = block_views(header, step.pending, eol);
    let views = merged_views(lines, phase, pending, header, eol);
    assert(views == seq![written] + block);
    assert(views[0] == written);
    assert(views.drop_first() == block);
    assert(merge_lines(views, phase, pending, header, eol) == step.text + eol + block_text);
    assert(merge_lines(rest, step.phase, step.pending, header, eol) == eol + block_text);
    assert(merge_lines(lines, phase, pending, header, eol) == step.text + line.ending + (eol
        + block_text));
    assert(line.ending == nothing);
    assert(step.text + nothing + (eol + block_text) == step.text + eol + block_text);
}

/// A second merge of what a merge wrote at the line that closes the block
/// writes the same text.
proof fn lemma_stable_closing(
    line: LineView,
    rest: Seq<LineView>,
    pending: Seq<(Seq<char>, (Seq<char>, bool))>,
    header: Seq<char>,
    eol: Seq<char>,
)
    requires
        closes_block(line.content),
        can_be_merged_again(pending),
    ensures
        merge_lines(
            entry_views(pending, eol) + seq![line] + rest,
            Phase::InsideIf,
            pending,
            header,
            eol,
        ) == merge_lines(seq![line] + rest, Phase::InsideIf, pending, header, eol),
{
    let lines = seq![line] + rest;
    assert(lines[0] == line);
    assert(lines.drop_first() == rest);
    lemma_merge_entries(pending, line, rest, header, eol);
    lemma_merge_done(rest, pending, header, eol);
    let step = merge_step(Phase::InsideIf, line.content, pending, header, eol);
    assert(step.text == entry_lines(pending, eol) + line.content);
    assert(merge_lines(lines, Phase::InsideIf, pending, header, eol) == step.text + line.ending
        + join_lines(rest));
    assert((entry_lines(pending, eol) + line.content) + line.ending + join_lines(rest)
        == entry_lines(pending, eol) + line.raw() + join_lines(rest));
}

/// A second merge of the lines that a merge wrote writes the same text.
pub proof fn lemma_merged_views_are_stable(
    lines: Seq<LineView>,
    phase: Phase,
    pending: Seq<(Seq<char>, (Seq<char>, bool))>,
    header: Seq<char>,
    eol: Seq<char>,
)
    requires
        are_lines(lines),
        can_be_merged_again(pending),
        rest_is_suffix(),
        is_findable(header),
        frame_is_opaque(header),
    ensures
        merge_lines(
            merged_views(lines, phase, pending, header, eol),
            phase,
            pending,
            header,
            eol,
        ) == merge_lines(lines, phase, pending, header, eol),
    decreases lines.len(),
{
    let views = merged_views(lines, phase, pending, header, eol);
    if lines.len() == 0 {
        if !(phase is Done) {
            lemma_merge_tail(phase, pending, header, eol);
        }
    } else {
        let line = lines[0];
        let rest = lines.drop_first();
        let step = merge_step(phase, line.content, pending, header, eol);
        let closing = phase is InsideIf && closes_block(line.content);
        lemma_rest_are_lines(lines);
        assert(seq![line] + rest == lines);
        if lines.len() == 1 && line.ending.len() == 0 && !(step.phase is Done) {
            assert(lines == seq![line]);
            lemma_stable_last(line, phase, pending, header, eol);
        } else if closing {
            lemma_views_done(rest, pending, header, eol);
            assert(views == entry_views(pending, eol) + seq![line] + rest);
            lemma_stable_closing(line, rest, pending, header, eol);
        } else {
            lemma_step_is_stable(phase, line.content, pending, header, eol);
            lemma_merged_views_are_stable(rest, step.phase, step.pending, header, eol);
            let written = LineView { content: step.text, ending: line.ending };
            let behind = merged_views(rest, step.phase, step.pending, header, eol);
            assert(views == seq![written] + behind);
            assert(views[0] == written);
            assert(views.drop_first() == behind);
        }
    }
}

/// A text is blank when its parts are.
pub proof fn lemma_blank_parts(a: Seq<char>, b: Seq<char>)
    requires
        !has_ink(a),
        !has_ink(b),
    ensures
        !has_ink(a + b),
{
    let s = a + b;
    if has_ink(s) {
        let i = choose|i: int| 0 <= i < s.len() && !is_space(#[trigger] s[i]);
        if i < a.len() {
            assert(s[i] == a[i]);
        } else {
            assert(s[i] == b[i - a.len()]);
        }
    }
}

/// A new block has ink.
pub proof fn lemma_block_has_ink(
    front: Seq<char>,
    header: Seq<char>,
    pending: Seq<(Seq<char>, (Seq<char>, bool))>,
    eol: Seq<char>,
)
    ensures
        has_ink(front + new_block(header, pending, eol)),
{
    reveal_strlit("local ");
    let block = new_block(header, pending, eol);
    let s = front + block;
    assert(block[0] == "local "@[0]);
    assert(s[front.len() as int] == block[0]);
    assert(!is_space(s[front.len() as int]));
}

/// A merge of a text with ink writes a text with ink.
pub proof fn lemma_merged_has_ink(
    lines: Seq<LineView>,
    phase: Phase,
    pending: Seq<(Seq<char>, (Seq<char>, bool))>,
    header: Seq<char>,
    eol: Seq<char>,
)
    requires
        has_ink(join_lines(lines)),
        are_lines(lines),
        can_be_merged_again(pending),
        rest_is_suffix(),
    ensures
        has_ink(merge_lines(lines, phase, pending, header, eol)),
    decreases lines.len(),
{
    let nothing = Seq::<char>::empty();
    if lines.len() > 0 {
        let line = lines[0];
        let rest = lines.drop_first();
        let step = merge_step(phase, line.content, pending, header, eol);
        let closing = phase is InsideIf && closes_block(line.content);
        let tail = merge_lines(rest, step.phase, step.pending, header, eol);
        let out = merge_lines(lines, phase, pending, header, eol);
        lemma_rest_are_lines(lines);
        assert(no_line_feed(line.content));
        if !closing {
            lemma_step_is_stable(phase, line.content, pending, header, eol);
        }
        if has_ink(line.content) {
            if closing {
                lemma_ink_in_part(entry_lines(pending, eol), line.content, nothing);
                assert(entry_lines(pending, eol) + line.content + nothing == step.text);
            }
            lemma_ink_in_part(nothing, step.text, line.ending + tail);
            assert(nothing + step.text + (line.ending + tail) == out);
        } else {
            assert(!has_ink(line.ending)) by {
                if has_ink(line.ending) {
                    let i = choose|i: int|
                        0 <= i < line.ending.len() && !is_space(#[trigger] line.ending[i]);
                    assert(reads_as_line(line.content, line.ending));
                }
            }
            lemma_blank_parts(line.content, line.ending);
            if !has_ink(join_lines(rest)) {
                lemma_blank_parts(line.content + line.ending, join_lines(rest));
            }
            lemma_merged_has_ink(rest, step.phase, step.pending, header, eol);
            lemma_ink_in_part(step.text + line.ending, tail, nothing);
            assert(step.text + line.ending + tail + nothing == out);
        }
    }
}

/// Merging the translations that were merged into a text a second time
/// changes nothing: the merged text is its own merge.
///
/// This holds where no name occurs twice among the translations, each
/// translation stands on one line, the header can be found again in its line,
/// the pattern reads what the merge writes the way it was written, and the
/// text does not end in a carriage return.
pub proof fn lemma_merge_is_idempotent(
    text: Seq<char>,
    header: Seq<char>,
    entries: Seq<(Seq<char>, (Seq<char>, bool))>,
    eol: LineEnding,
)
    requires
        distinct_keys(entries),
        on_one_line(entries),
        is_findable(header),
        pattern_is_faithful(header, entries),
        text.len() > 0 ==> text.last() != '\r',
    ensures
        merged_text(merged_text(text, header, entries, eol.text()), header, entries, eol.text())
            == merged_text(text, header, entries, eol.text()),
{
    let e = eol.text();
    let nothing = Seq::<char>::empty();
    let once = merged_text(text, header, entries, e);
    assert(can_be_merged_again(entries));
    if is_blank(text) {
        lemma_block_has_ink(nothing, header, entries, e);
        assert(nothing + once == once);
        lemma_ink_or_blank(once);
        lemma_lines_of_block(header, entries, e);
        lemma_merge_block(Phase::Initial, entries, header, e);
    } else {
        let lines = lines_of(text);
        lemma_lines_are_lines(text, 0);
        lemma_join_lines_from(text, 0);
        assert(text.subrange(0, text.len() as int) == text);
        lemma_ink_or_blank(text);
        lemma_merged_has_ink(lines, Phase::Initial, entries, header, e);
        lemma_ink_or_blank(once);
        lemma_last_line(text, 0);
        lemma_lines_of_merged(lines, Phase::Initial, entries, header, e);
        lemma_merged_views_are_stable(lines, Phase::Initial, entries, header, e);
    }
}

/// The last line of a text ends where the text ends.
pub proof fn lemma_last_line(t: Seq<char>, pos: int)
    requires
        0 <= pos <= t.len(),
        t.len() > 0 ==> t.last() != '\r',
    ensures
        last_line_is_plain(lines_from(t, pos)),
    decreases t.len() - pos,
{
    if pos < t.len() {
        lemma_lines_from_step(t, pos);
        lemma_newline_at(t, pos);
        let next = line_next(t, pos);
        lemma_last_line(t, next);
        let all = lines_from(t, pos);
        let rest = lines_from(t, next);
        if rest.len() > 0 {
            assert(all.last() == rest.last());
        } else {
            let l = line_view(t, pos);
            assert(all.last() == l);
            if l.ending.len() == 0 {
                assert(next == t.len()) by {
                    if next < t.len() {
                        lemma_lines_from_step(t, next);
                    }
                }
                assert(line_stop(t, pos) == t.len());
                assert(l.content.last() == t.last());
            }
        }
    }
}

} // verus!
