//! Merging translations into the text of a locale file.
//!
//! A locale file holds, for one language, a block of the form
//!
//! ```text
//! local <header>
//! if not L then return end
//! if L then
//!     L.<name> = "<value>"
//!     -- L.<name> = "<value>"
//! end
//! ```
//!
//! Merging rewrites single lines of that block and adds lines in front of its
//! `end`; everything else in the file stays as it is.

use crate::pattern::{compile_onig, onig_find, onig_search, onig_source, Found};
use crate::table::{
    key_index, remove_id, remove_translation, translation_entries, translation_list,
    translation_pairs, id_entries, without_key,
};
use crate::text::{
    contains, has_infix, has_prefix, is_blank, join_lines, lemma_lines_from_step, line_at,
    lines_from, lines_of, push_chars, push_str, same_text, starts_with, to_chars, to_text, trim,
    trimmed, LineView,
};
use indexmap::IndexMap;
use vstd::prelude::*;
use vstd::slice::slice_subrange;

verus! {

/// Source of the pattern that reads one assignment line of a locale block:
/// an optional comment mark, the name, the quoted value, and what follows the
/// closing quote.
pub const ASSIGNMENT_PATTERN: &'static str = r#"\s*(--)?\s*L\.(\w*)\s*=\s*"(.*?)(?<!\\)"(.*)"#;

/// The line terminator that new lines are written with.
#[derive(Clone, Copy, Debug, PartialEq, Eq, Structural)]
pub enum LineEnding {
    Lf,
    CrLf,
}

impl LineEnding {
    pub open spec fn text(self) -> Seq<char> {
        match self {
            LineEnding::Lf => seq!['\n'],
            LineEnding::CrLf => seq!['\r', '\n'],
        }
    }

    /// Appends the terminator to `out`.
    pub fn push_to(self, out: &mut Vec<char>)
        ensures
            final(out)@ == old(out)@ + self.text(),
    {
        match self {
            LineEnding::Lf => {
                out.push('\n');
                assert(out@ == old(out)@ + seq!['\n']);
            },
            LineEnding::CrLf => {
                out.push('\r');
                out.push('\n');
                assert(out@ == old(out)@ + seq!['\r', '\n']);
            },
        }
    }
}

/// Where a scan of a locale file stands.
#[derive(Clone, Copy, Debug, PartialEq, Eq, Structural)]
pub enum Phase {
    /// The header has not been seen.
    Initial,
    /// The header was seen; the block has not been opened.
    FoundLocale,
    /// Inside the block of the header.
    InsideIf,
    /// The block was closed.
    Done,
}

/// What the assignment pattern reads in a line.
#[derive(Clone, Debug, PartialEq, Eq)]
pub struct Assignment {
    pub commented: bool,
    pub name: String,
    pub value: String,
    pub rest: String,
}

/// An [`Assignment`] with its strings as character sequences.
pub ghost struct AssignmentView {
    pub commented: bool,
    pub name: Seq<char>,
    pub value: Seq<char>,
    pub rest: Seq<char>,
}

impl Assignment {
    pub open spec fn view(&self) -> AssignmentView {
        AssignmentView {
            commented: self.commented,
            name: self.name@,
            value: self.value@,
            rest: self.rest@,
        }
    }
}

pub open spec fn assignment_view(a: Option<Assignment>) -> Option<AssignmentView> {
    match a {
        Some(a) => Some(a.view()),
        None => None,
    }
}

/// The assignment that a match of the assignment pattern stands for: group 1
/// is the comment mark, groups 2 to 4 are name, value and rest. A match that
/// lacks one of the last three is no assignment.
pub open spec fn assignment_of(
    found: Option<(Seq<char>, Seq<Option<Seq<char>>>, Seq<char>)>,
) -> Option<AssignmentView> {
    match found {
        Some((_, groups, _)) => if groups.len() >= 5 && groups[2] is Some && groups[3] is Some
            && groups[4] is Some {
            Some(
                AssignmentView {
                    commented: groups[1] is Some,
                    name: groups[2].unwrap(),
                    value: groups[3].unwrap(),
                    rest: groups[4].unwrap(),
                },
            )
        } else {
            None
        },
        None => None,
    }
}

/// The assignment that the assignment pattern reads in `line`.
pub open spec fn assignment_in(line: Seq<char>) -> Option<AssignmentView> {
    assignment_of(onig_search(ASSIGNMENT_PATTERN@, line))
}

/// Turns a match of the assignment pattern into an [`Assignment`].
pub fn read_assignment(found: Option<Found>) -> (a: Option<Assignment>)
    ensures
        assignment_view(a) == assignment_of(crate::pattern::found_view(found)),
{
    match found {
        Some(f) => {
            if f.groups.len() < 5 {
                return None;
            }
            let commented = f.groups[1].is_some();
            match (&f.groups[2], &f.groups[3], &f.groups[4]) {
                (Some(name), Some(value), Some(rest)) => Some(
                    Assignment {
                        commented,
                        name: name.clone(),
                        value: value.clone(),
                        rest: rest.clone(),
                    },
                ),
                _ => None,
            }
        },
        None => None,
    }
}

/// The compiled pattern of a locale file's assignment lines.
pub struct LocalePatterns {
    assignment: onig::Regex,
}

impl LocalePatterns {
    #[verifier::type_invariant]
    spec fn compiled_from_source(self) -> bool {
        onig_source(self.assignment) == ASSIGNMENT_PATTERN@
    }

    /// The source that the pattern was compiled from.
    pub closed spec fn source(&self) -> Seq<char> {
        onig_source(self.assignment)
    }

    /// Compiles [`ASSIGNMENT_PATTERN`]; `None` when `onig` refuses it.
    pub fn new() -> (patterns: Option<Self>)
        ensures
            patterns is Some ==> patterns.unwrap().source() == ASSIGNMENT_PATTERN@,
    {
        Self::from_compiled(compile_onig(ASSIGNMENT_PATTERN))
    }

    /// Takes the assignment pattern as it came out of compilation: there is
    /// a pattern exactly when it compiled.
    pub fn from_compiled(assignment: Option<onig::Regex>) -> (patterns: Option<Self>)
        requires
            assignment is Some ==> onig_source(assignment.unwrap()) == ASSIGNMENT_PATTERN@,
        ensures
            patterns is Some <==> assignment is Some,
            patterns is Some ==> patterns.unwrap().source() == ASSIGNMENT_PATTERN@,
    {
        match assignment {
            Some(assignment) => Some(LocalePatterns { assignment }),
            None => None,
        }
    }

    /// The assignment that `line` holds, if the pattern finds one.
    pub fn assignment(&self, line: &str) -> (a: Option<Assignment>)
        ensures
            assignment_view(a) == assignment_in(line@),
    {
        proof {
            use_type_invariant(self);
        }
        read_assignment(onig_find(&self.assignment, line))
    }
}

/// The line that a translation is written as: `\tL.<name> = "<text>"`, with
/// `-- ` in front of `L` when the translation is a placeholder.
pub open spec fn entry_line(name: Seq<char>, text: Seq<char>, is_valid: bool) -> Seq<char> {
    (if is_valid {
        "\t"@
    } else {
        "\t-- "@
    }) + "L."@ + name + " = \""@ + text + "\""@
}

/// The lines of all `entries`, each with its terminator.
pub open spec fn entry_lines(entries: Seq<(Seq<char>, (Seq<char>, bool))>, eol: Seq<char>) -> Seq<
    char,
>
    decreases entries.len(),
{
    if entries.len() == 0 {
        Seq::empty()
    } else {
        entry_line(entries[0].0, entries[0].1.0, entries[0].1.1) + eol + entry_lines(
            entries.drop_first(),
            eol,
        )
    }
}

/// A complete block for `header` that holds `entries`.
pub open spec fn new_block(
    header: Seq<char>,
    entries: Seq<(Seq<char>, (Seq<char>, bool))>,
    eol: Seq<char>,
) -> Seq<char> {
    "local "@ + header + eol + "if not L then return end"@ + eol + "if L then"@ + eol + entry_lines(
        entries,
        eol,
    ) + "end"@ + eol
}

/// Appends the line of one translation, without a terminator.
pub fn push_entry_line(out: &mut Vec<char>, name: &str, text: &str, is_valid: bool)
    ensures
        final(out)@ == old(out)@ + entry_line(name@, text@, is_valid),
{
    let ghost before = out@;
    let mut line: Vec<char> = Vec::new();
    if is_valid {
        push_str(&mut line, "\t");
    } else {
        push_str(&mut line, "\t-- ");
    }
    push_str(&mut line, "L.");
    push_str(&mut line, name);
    push_str(&mut line, " = \"");
    push_str(&mut line, text);
    push_str(&mut line, "\"");
    assert(line@ == entry_line(name@, text@, is_valid));
    push_chars(out, line.as_slice());
}

/// Appends the lines of all translations in `list`, in order.
pub fn push_entry_lines(out: &mut Vec<char>, list: &Vec<(String, (String, bool))>, eol: LineEnding)
    ensures
        final(out)@ == old(out)@ + entry_lines(translation_pairs(list@), eol.text()),
{
    let ghost entries = translation_pairs(list@);
    let mut i: usize = 0;
    proof {
        assert(entries.skip(0) == entries);
    }
    while i < list.len()
        invariant
            i <= list@.len(),
            entries == translation_pairs(list@),
            out@ + entry_lines(entries.skip(i as int), eol.text()) == old(out)@ + entry_lines(
                entries,
                eol.text(),
            ),
        decreases list.len() - i,
    {
        let ghost rest = entries.skip(i as int);
        let ghost grown = out@;
        push_entry_line(out, list[i].0.as_str(), list[i].1.0.as_str(), list[i].1.1);
        eol.push_to(out);
        proof {
            assert(rest[0] == entries[i as int]);
            assert(rest.drop_first() == entries.skip(i + 1));
            assert(out@ + entry_lines(entries.skip(i + 1), eol.text()) == grown + entry_lines(
                rest,
                eol.text(),
            ));
        }
        i += 1;
    }
    proof {
        assert(entries.skip(list@.len() as int).len() == 0);
        assert(out@ + Seq::<char>::empty() == out@);
    }
}

/// Appends a complete block for `header` that holds the translations in `list`.
pub fn push_new_block(
    out: &mut Vec<char>,
    header: &[char],
    list: &Vec<(String, (String, bool))>,
    eol: LineEnding,
)
    ensures
        final(out)@ == old(out)@ + new_block(header@, translation_pairs(list@), eol.text()),
{
    let mut block: Vec<char> = Vec::new();
    push_str(&mut block, "local ");
    push_chars(&mut block, header);
    eol.push_to(&mut block);
    push_str(&mut block, "if not L then return end");
    eol.push_to(&mut block);
    push_str(&mut block, "if L then");
    eol.push_to(&mut block);
    push_entry_lines(&mut block, list, eol);
    push_str(&mut block, "end");
    eol.push_to(&mut block);
    assert(block@ == new_block(header@, translation_pairs(list@), eol.text()));
    push_chars(out, block.as_slice());
}

/// The phase after `line` was seen while looking for the block of `header`:
/// a line that holds the header is followed by the line `if L then`, unless
/// the header line of another block comes first.
pub open spec fn locate_step(phase: Phase, line: Seq<char>, header: Seq<char>) -> Phase {
    let core = trimmed(line);
    match phase {
        Phase::Initial => if has_infix(core, header) {
            Phase::FoundLocale
        } else {
            Phase::Initial
        },
        Phase::FoundLocale => if core == "if L then"@ {
            Phase::InsideIf
        } else if has_prefix(core, "L ="@) && core != header {
            Phase::Initial
        } else {
            Phase::FoundLocale
        },
        Phase::InsideIf => Phase::InsideIf,
        Phase::Done => Phase::Done,
    }
}

/// Computes [`locate_step`] for the phases `Initial` and `FoundLocale`.
pub fn locate(phase: Phase, line: &[char], header: &[char]) -> (next: Phase)
    ensures
        next == locate_step(phase, line@, header@),
{
    let core = trim(line);
    match phase {
        Phase::Initial => if contains(core, header) {
            Phase::FoundLocale
        } else {
            Phase::Initial
        },
        Phase::FoundLocale => {
            let opener = to_chars("if L then");
            let assign = to_chars("L =");
            if same_text(core, opener.as_slice()) {
                Phase::InsideIf
            } else if starts_with(core, assign.as_slice()) && !same_text(core, header) {
                Phase::Initial
            } else {
                Phase::FoundLocale
            }
        },
        Phase::InsideIf => Phase::InsideIf,
        Phase::Done => Phase::Done,
    }
}

/// Whether `line` closes the block: trimmed, it is `end`.
pub open spec fn closes_block(line: Seq<char>) -> bool {
    trimmed(line) == "end"@
}

/// Whether `line` closes the block: trimmed, it is `end`.
pub fn is_block_end(line: &[char]) -> (r: bool)
    ensures
        r == closes_block(line@),
{
    let closer = to_chars("end");
    same_text(trim(line), closer.as_slice())
}

/// What becomes of a line inside the block, and of the translations that are
/// still to be placed. A line that assigns a pending name takes that name off
/// the pending translations; it is rewritten when the translation is a real
/// one and the line is commented out or holds another value, and then keeps
/// what stood behind its closing quote.
pub open spec fn patched_line(
    line: Seq<char>,
    found: Option<AssignmentView>,
    pending: Seq<(Seq<char>, (Seq<char>, bool))>,
) -> (Seq<char>, Seq<(Seq<char>, (Seq<char>, bool))>) {
    match found {
        Some(a) => match key_index(pending, a.name) {
            Some(i) => {
                let translation = pending[i].1.0;
                let is_valid = pending[i].1.1;
                if is_valid && (a.commented || a.value != translation) {
                    (entry_line(a.name, translation, true) + a.rest, pending.remove(i))
                } else {
                    (line, pending.remove(i))
                }
            },
            None => (line, pending),
        },
        None => (line, pending),
    }
}

/// Appends to `out` what becomes of `line`, and takes the name it assigns off
/// `values`.
pub fn patch_line(
    out: &mut Vec<char>,
    line: &[char],
    found: Option<Assignment>,
    values: &mut IndexMap<String, (String, bool)>,
)
    ensures
        final(out)@ == old(out)@ + patched_line(
            line@,
            assignment_view(found),
            translation_entries(*old(values)),
        ).0,
        translation_entries(*final(values)) == patched_line(
            line@,
            assignment_view(found),
            translation_entries(*old(values)),
        ).1,
{
    match found {
        Some(a) => {
            match remove_translation(values, a.name.as_str()) {
                Some((translation, is_valid)) => {
                    if is_valid && (a.commented || !(a.value == translation)) {
                        push_entry_line(out, a.name.as_str(), translation.as_str(), true);
                        let rest = to_chars(a.rest.as_str());
                        push_chars(out, rest.as_slice());
                        assert(out@ == old(out)@ + (entry_line(a.name@, translation@, true)
                            + a.rest@));
                    } else {
                        push_chars(out, line);
                    }
                },
                None => {
                    push_chars(out, line);
                },
            }
        },
        None => {
            push_chars(out, line);
        },
    }
}

/// What a scan makes of one line: the phase behind the line, the text that
/// takes the line's place, and the translations that are still to be placed.
pub ghost struct MergeStep {
    pub phase: Phase,
    pub text: Seq<char>,
    pub pending: Seq<(Seq<char>, (Seq<char>, bool))>,
}

/// One step of a merge. Lines outside the block are kept. The line that
/// closes the block gets the pending translations written in front of it.
/// Any other line inside the block is patched.
pub open spec fn merge_step(
    phase: Phase,
    line: Seq<char>,
    pending: Seq<(Seq<char>, (Seq<char>, bool))>,
    header: Seq<char>,
    eol: Seq<char>,
) -> MergeStep {
    match phase {
        Phase::Initial | Phase::FoundLocale => MergeStep {
            phase: locate_step(phase, line, header),
            text: line,
            pending,
        },
        Phase::InsideIf => if closes_block(line) {
            MergeStep { phase: Phase::Done, text: entry_lines(pending, eol) + line, pending }
        } else {
            let patched = patched_line(line, assignment_in(line), pending);
            MergeStep { phase: Phase::InsideIf, text: patched.0, pending: patched.1 }
        },
        Phase::Done => MergeStep { phase: Phase::Done, text: line, pending },
    }
}

/// The merged text of `lines`, for a scan that stands in `phase` in front of
/// them with `pending` still to be placed: what each step makes of its line,
/// with the line's own terminator behind it. When the text ends before the
/// block was closed, a terminator and a new block with the pending
/// translations follow it.
pub open spec fn merge_lines(
    lines: Seq<LineView>,
    phase: Phase,
    pending: Seq<(Seq<char>, (Seq<char>, bool))>,
    header: Seq<char>,
    eol: Seq<char>,
) -> Seq<char>
    decreases lines.len(),
{
    if lines.len() == 0 {
        if phase is Done {
            Seq::empty()
        } else {
            eol + new_block(header, pending, eol)
        }
    } else {
        let step = merge_step(phase, lines[0].content, pending, header, eol);
        step.text + lines[0].ending + merge_lines(
            lines.drop_first(),
            step.phase,
            step.pending,
            header,
            eol,
        )
    }
}

/// The text of a locale file after `entries` were merged into `t`.
///
/// A text that holds nothing but white space is replaced by a new block.
pub open spec fn merged_text(
    t: Seq<char>,
    header: Seq<char>,
    entries: Seq<(Seq<char>, (Seq<char>, bool))>,
    eol: Seq<char>,
) -> Seq<char> {
    if is_blank(t) {
        new_block(header, entries, eol)
    } else {
        merge_lines(lines_of(t), Phase::Initial, entries, header, eol)
    }
}

/// Behind the end of the block the text is kept as it is.
pub proof fn lemma_merge_done(
    lines: Seq<LineView>,
    pending: Seq<(Seq<char>, (Seq<char>, bool))>,
    header: Seq<char>,
    eol: Seq<char>,
)
    ensures
        merge_lines(lines, Phase::Done, pending, header, eol) == join_lines(lines),
    decreases lines.len(),
{
    if lines.len() > 0 {
        lemma_merge_done(lines.drop_first(), pending, header, eol);
    }
}

/// Carries out one step of a merge: appends to `out` what the step makes of
/// `line`, takes the name that the line assigns off `values`, and gives the
/// phase behind the line.
pub fn merge_line(
    out: &mut Vec<char>,
    phase: Phase,
    line: &[char],
    values: &mut IndexMap<String, (String, bool)>,
    header: &[char],
    patterns: &LocalePatterns,
    eol: LineEnding,
) -> (next: Phase)
    ensures
        next == merge_step(
            phase,
            line@,
            translation_entries(*old(values)),
            header@,
            eol.text(),
        ).phase,
        final(out)@ == old(out)@ + merge_step(
            phase,
            line@,
            translation_entries(*old(values)),
            header@,
            eol.text(),
        ).text,
        translation_entries(*final(values)) == merge_step(
            phase,
            line@,
            translation_entries(*old(values)),
            header@,
            eol.text(),
        ).pending,
{
    match phase {
        Phase::Initial | Phase::FoundLocale => {
            push_chars(out, line);
            locate(phase, line, header)
        },
        Phase::InsideIf => {
            if is_block_end(line) {
                let list = translation_list(values);
                let ghost before = out@;
                push_entry_lines(out, &list, eol);
                push_chars(out, line);
                assert(out@ == before + (entry_lines(translation_pairs(list@), eol.text())
                    + line@));
                Phase::Done
            } else {
                let as_text = to_text(line);
                let found = patterns.assignment(as_text.as_str());
                patch_line(out, line, found, values);
                Phase::InsideIf
            }
        },
        Phase::Done => {
            push_chars(out, line);
            Phase::Done
        },
    }
}

/// What is to be done with a locale file after a merge.
#[derive(Clone, Debug, PartialEq, Eq)]
pub enum Patch {
    /// The merged text is the text that the file holds: nothing is written.
    Keep,
    /// The file is to hold this text.
    Write(String),
}

impl Patch {
    /// The text of the file once the patch is carried out.
    pub open spec fn text_after(self, before: Seq<char>) -> Seq<char> {
        match self {
            Patch::Keep => before,
            Patch::Write(s) => s@,
        }
    }
}

/// `Keep` when `merged` is the text `before`, else `Write(merged)`.
pub fn patch_for(before: &[char], merged: &[char]) -> (patch: Patch)
    ensures
        patch.text_after(before@) == merged@,
        patch is Keep <==> merged@ == before@,
{
    if same_text(before, merged) {
        Patch::Keep
    } else {
        Patch::Write(to_text(merged))
    }
}

/// Merges `values` into the text `src` of a locale file, in the block of
/// `header`; new lines end with `eol`.
pub fn replace(
    src: &str,
    header: &str,
    values: IndexMap<String, (String, bool)>,
    patterns: &LocalePatterns,
    eol: LineEnding,
) -> (patch: Patch)
    ensures
        patch.text_after(src@) == merged_text(
            src@,
            header@,
            translation_entries(values),
            eol.text(),
        ),
        patch is Keep <==> merged_text(src@, header@, translation_entries(values), eol.text())
            == src@,
{
    let text = to_chars(src);
    let head = to_chars(header);
    let mut values = values;
    let ghost entries = translation_entries(values);
    let mut out: Vec<char> = Vec::new();
    proof {
        crate::text::lemma_trimmed_edges(text@);
    }
    if trim(text.as_slice()).len() == 0 {
        let list = translation_list(&values);
        push_new_block(&mut out, head.as_slice(), &list, eol);
        return patch_for(text.as_slice(), out.as_slice());
    }
    let mut phase = Phase::Initial;
    let mut pos: usize = 0;
    while pos < text.len()
        invariant
            pos <= text@.len(),
            merge_lines(lines_of(text@), Phase::Initial, entries, head@, eol.text()) == out@
                + merge_lines(
                lines_from(text@, pos as int),
                phase,
                translation_entries(values),
                head@,
                eol.text(),
            ),
        decreases text@.len() - pos,
    {
        let line = line_at(text.as_slice(), pos);
        let content = slice_subrange(text.as_slice(), line.start, line.end);
        let ending = slice_subrange(text.as_slice(), line.end, line.next);
        let ghost grown = out@;
        let ghost pending = translation_entries(values);
        let ghost was = phase;
        let ghost step = merge_step(was, content@, pending, head@, eol.text());
        let ghost rest = lines_from(text@, line.next as int);
        proof {
            lemma_lines_from_step(text@, pos as int);
        }
        phase = merge_line(&mut out, phase, content, &mut values, head.as_slice(), patterns, eol);
        push_chars(&mut out, ending);
        proof {
            let tail = merge_lines(rest, step.phase, step.pending, head@, eol.text());
            assert(merge_lines(lines_from(text@, pos as int), was, pending, head@, eol.text())
                == step.text + ending@ + tail);
            assert(out@ == grown + step.text + ending@);
            assert(out@ + tail == grown + (step.text + ending@ + tail));
        }
        pos = line.next;
    }
    if phase != Phase::Done {
        let list = translation_list(&values);
        eol.push_to(&mut out);
        push_new_block(&mut out, head.as_slice(), &list, eol);
    }
    patch_for(text.as_slice(), out.as_slice())
}

/// The text that a locale file is to hold after `entries` were merged into
/// what it holds now; a file that does not exist yet gets a new block.
pub open spec fn merge_result(
    existing: Option<Seq<char>>,
    header: Seq<char>,
    entries: Seq<(Seq<char>, (Seq<char>, bool))>,
    eol: Seq<char>,
) -> Seq<char> {
    match existing {
        Some(t) => merged_text(t, header, entries, eol),
        None => new_block(header, entries, eol),
    }
}

/// The view of an optional text.
pub open spec fn text_view(text: Option<&str>) -> Option<Seq<char>> {
    match text {
        Some(t) => Some(t@),
        None => None,
    }
}

/// Merges `values` into a locale file that holds `existing`, or that does not
/// exist yet. A file that does not exist is always written; one that exists is
/// written only when merging changes its text.
pub fn merge(
    existing: Option<&str>,
    header: &str,
    values: IndexMap<String, (String, bool)>,
    patterns: &LocalePatterns,
    eol: LineEnding,
) -> (patch: Patch)
    ensures
        match existing {
            Some(t) => patch.text_after(t@) == merge_result(
                Some(t@),
                header@,
                translation_entries(values),
                eol.text(),
            ) && (patch is Keep <==> merge_result(
                Some(t@),
                header@,
                translation_entries(values),
                eol.text(),
            ) == t@),
            None => patch is Write && patch->Write_0@ == merge_result(
                None,
                header@,
                translation_entries(values),
                eol.text(),
            ),
        },
{
    match existing {
        Some(t) => replace(t, header, values, patterns, eol),
        None => {
            let head = to_chars(header);
            let list = translation_list(&values);
            let mut out: Vec<char> = Vec::new();
            push_new_block(&mut out, head.as_slice(), &list, eol);
            Patch::Write(to_text(out.as_slice()))
        },
    }
}

/// The table after a line inside the block was seen: a line that assigns a
/// name and is not commented out takes that name off the table.
pub open spec fn discarded(found: Option<AssignmentView>, table: Seq<(Seq<char>, i64)>) -> Seq<
    (Seq<char>, i64),
> {
    match found {
        Some(a) => if a.commented {
            table
        } else {
            without_key(table, a.name)
        },
        None => table,
    }
}

/// Takes the name that a line inside the block assigns off `table`.
pub fn discard_line(found: Option<Assignment>, table: &mut IndexMap<String, i64>)
    ensures
        id_entries(*final(table)) == discarded(assignment_view(found), id_entries(*old(table))),
{
    match found {
        Some(a) => {
            if !a.commented {
                let _ = remove_id(table, a.name.as_str());
            }
        },
        None => {},
    }
}

/// The table after the names that the block of `header` assigns in `lines` were
/// taken off it. Lines are read with their terminators; nothing behind the
/// line that closes the block is read.
pub open spec fn discard_lines(
    lines: Seq<LineView>,
    phase: Phase,
    table: Seq<(Seq<char>, i64)>,
    header: Seq<char>,
) -> Seq<(Seq<char>, i64)>
    decreases lines.len(),
{
    if lines.len() == 0 {
        table
    } else {
        let line = lines[0].raw();
        let rest = lines.drop_first();
        match phase {
            Phase::Initial | Phase::FoundLocale => discard_lines(
                rest,
                locate_step(phase, line, header),
                table,
                header,
            ),
            Phase::InsideIf => if closes_block(line) {
                table
            } else {
                discard_lines(rest, Phase::InsideIf, discarded(assignment_in(line), table), header)
            },
            Phase::Done => table,
        }
    }
}

/// The table without the names that `text` already translates for `header`.
pub open spec fn untranslated(text: Seq<char>, header: Seq<char>, table: Seq<(Seq<char>, i64)>) -> Seq<
    (Seq<char>, i64),
> {
    discard_lines(lines_of(text), Phase::Initial, table, header)
}

/// Takes off `map` every name that the locale file text `text` assigns, not
/// commented out, in the block of `header`.
pub fn discard_existing(
    text: &str,
    header: &str,
    map: &mut IndexMap<String, i64>,
    patterns: &LocalePatterns,
)
    ensures
        id_entries(*final(map)) == untranslated(text@, header@, id_entries(*old(map))),
{
    let chars = to_chars(text);
    let head = to_chars(header);
    let mut phase = Phase::Initial;
    let mut pos: usize = 0;
    while pos < chars.len() && phase != Phase::Done
        invariant
            pos <= chars@.len(),
            phase is Done ==> id_entries(*map) == untranslated(
                text@,
                header@,
                id_entries(*old(map)),
            ),
            !(phase is Done) ==> discard_lines(
                lines_from(chars@, pos as int),
                phase,
                id_entries(*map),
                head@,
            ) == untranslated(text@, header@, id_entries(*old(map))),
            chars@ == text@,
            head@ == header@,
        decreases chars@.len() - pos,
    {
        let line = line_at(chars.as_slice(), pos);
        proof {
            lemma_lines_from_step(chars@, pos as int);
        }
        let raw = slice_subrange(chars.as_slice(), line.start, line.next);
        proof {
            assert(raw@ == crate::text::line_view(chars@, pos as int).raw());
        }
        match phase {
            Phase::Initial | Phase::FoundLocale => {
                phase = locate(phase, raw, head.as_slice());
            },
            Phase::InsideIf => {
                if is_block_end(raw) {
                    phase = Phase::Done;
                } else {
                    let as_text = to_text(raw);
                    let found = patterns.assignment(as_text.as_str());
                    discard_line(found, map);
                }
            },
            Phase::Done => {},
        }
        pos = line.next;
    }
}

} // verus!
