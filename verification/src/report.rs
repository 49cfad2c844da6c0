//! The texts that the extraction tools print.

use crate::extract::{
    entries_view, missing_ids_view, missing_vars_view, CorrelatedEntry, Extraction,
};
use crate::number::{push_signed, signed_text};
use crate::text::{push_str, to_text};
use vstd::prelude::*;

verus! {

/// One line `<name>: <id>` for each entry.
pub open spec fn table_lines(entries: Seq<(Seq<char>, i64)>) -> Seq<char>
    decreases entries.len(),
{
    if entries.len() == 0 {
        Seq::empty()
    } else {
        entries[0].0 + ": "@ + signed_text(entries[0].1 as int) + "\n"@ + table_lines(
            entries.drop_first(),
        )
    }
}

/// One line `<name> ("<text>")` for each variable without an identifier.
pub open spec fn missing_var_lines(list: Seq<(Seq<char>, Seq<char>)>) -> Seq<char>
    decreases list.len(),
{
    if list.len() == 0 {
        Seq::empty()
    } else {
        list[0].0 + " (\""@ + list[0].1 + "\")\n"@ + missing_var_lines(list.drop_first())
    }
}

/// One line `<id> ("<comment>")` for each identifier without a variable.
pub open spec fn missing_id_lines(list: Seq<(i64, Seq<char>)>) -> Seq<char>
    decreases list.len(),
{
    if list.len() == 0 {
        Seq::empty()
    } else {
        signed_text(list[0].0 as int) + " (\""@ + list[0].1 + "\")\n"@ + missing_id_lines(
            list.drop_first(),
        )
    }
}

/// The two lists of what is missing, each under its heading; a list without
/// items is left out with its heading.
pub open spec fn missing_text(
    missing_vars: Seq<(Seq<char>, Seq<char>)>,
    missing_ids: Seq<(i64, Seq<char>)>,
) -> Seq<char> {
    (if missing_vars.len() > 0 {
        "\nMissing variables:\n"@ + missing_var_lines(missing_vars)
    } else {
        Seq::empty()
    }) + (if missing_ids.len() > 0 {
        "\nMissing IDs:\n"@ + missing_id_lines(missing_ids)
    } else {
        Seq::empty()
    })
}

/// Appends one line `<name>: <id>` for each entry.
pub fn push_table_lines(out: &mut Vec<char>, entries: &Vec<CorrelatedEntry>)
    ensures
        final(out)@ == old(out)@ + table_lines(entries_view(entries@)),
{
    let ghost all = entries_view(entries@);
    let mut i: usize = 0;
    proof {
        assert(all.skip(0) == all);
    }
    while i < entries.len()
        invariant
            i <= entries@.len(),
            all == entries_view(entries@),
            out@ + table_lines(all.skip(i as int)) == old(out)@ + table_lines(all),
        decreases entries.len() - i,
    {
        let ghost rest = all.skip(i as int);
        let ghost grown = out@;
        push_str(out, entries[i].variable_name.as_str());
        push_str(out, ": ");
        push_signed(out, entries[i].id);
        push_str(out, "\n");
        proof {
            assert(rest[0] == all[i as int]);
            assert(rest.drop_first() == all.skip(i + 1));
            assert(out@ + table_lines(all.skip(i + 1)) == grown + table_lines(rest));
        }
        i += 1;
    }
    proof {
        assert(all.skip(entries@.len() as int).len() == 0);
        assert(out@ + Seq::<char>::empty() == out@);
    }
}

/// The table of entries in the flat form, one line `<name>: <id>` each.
pub fn flat_table(entries: &Vec<CorrelatedEntry>) -> (text: String)
    ensures
        text@ == table_lines(entries_view(entries@)),
{
    let mut out: Vec<char> = Vec::new();
    push_table_lines(&mut out, entries);
    assert(Seq::<char>::empty() + table_lines(entries_view(entries@)) == table_lines(
        entries_view(entries@),
    ));
    to_text(out.as_slice())
}

fn push_missing_var_lines(out: &mut Vec<char>, list: &Vec<(String, String)>)
    ensures
        final(out)@ == old(out)@ + missing_var_lines(missing_vars_view(list@)),
{
    let ghost all = missing_vars_view(list@);
    let mut i: usize = 0;
    proof {
        assert(all.skip(0) == all);
    }
    while i < list.len()
        invariant
            i <= list@.len(),
            all == missing_vars_view(list@),
            out@ + missing_var_lines(all.skip(i as int)) == old(out)@ + missing_var_lines(all),
        decreases list.len() - i,
    {
        let ghost rest = all.skip(i as int);
        let ghost grown = out@;
        push_str(out, list[i].0.as_str());
        push_str(out, " (\"");
        push_str(out, list[i].1.as_str());
        push_str(out, "\")\n");
        proof {
            assert(rest[0] == all[i as int]);
            assert(rest.drop_first() == all.skip(i + 1));
            assert(out@ + missing_var_lines(all.skip(i + 1)) == grown + missing_var_lines(rest));
        }
        i += 1;
    }
    proof {
        assert(all.skip(list@.len() as int).len() == 0);
        assert(out@ + Seq::<char>::empty() == out@);
    }
}

fn push_missing_id_lines(out: &mut Vec<char>, list: &Vec<(i64, String)>)
    ensures
        final(out)@ == old(out)@ + missing_id_lines(missing_ids_view(list@)),
{
    let ghost all = missing_ids_view(list@);
    let mut i: usize = 0;
    proof {
        assert(all.skip(0) == all);
    }
    while i < list.len()
        invariant
            i <= list@.len(),
            all == missing_ids_view(list@),
            out@ + missing_id_lines(all.skip(i as int)) == old(out)@ + missing_id_lines(all),
        decreases list.len() - i,
    {
        let ghost rest = all.skip(i as int);
        let ghost grown = out@;
        push_signed(out, list[i].0);
        push_str(out, " (\"");
        push_str(out, list[i].1.as_str());
        push_str(out, "\")\n");
        proof {
            assert(rest[0] == all[i as int]);
            assert(rest.drop_first() == all.skip(i + 1));
            assert(out@ + missing_id_lines(all.skip(i + 1)) == grown + missing_id_lines(rest));
        }
        i += 1;
    }
    proof {
        assert(all.skip(list@.len() as int).len() == 0);
        assert(out@ + Seq::<char>::empty() == out@);
    }
}

/// Appends the lists of what is missing, each under its heading.
pub fn push_missing(
    out: &mut Vec<char>,
    missing_vars: &Vec<(String, String)>,
    missing_ids: &Vec<(i64, String)>,
)
    ensures
        final(out)@ == old(out)@ + missing_text(
            missing_vars_view(missing_vars@),
            missing_ids_view(missing_ids@),
        ),
{
    let ghost vars_part = if missing_vars@.len() > 0 {
        "\nMissing variables:\n"@ + missing_var_lines(missing_vars_view(missing_vars@))
    } else {
        Seq::<char>::empty()
    };
    if missing_vars.len() > 0 {
        push_str(out, "\nMissing variables:\n");
        push_missing_var_lines(out, missing_vars);
    }
    assert(out@ == old(out)@ + vars_part);
    let ghost grown = out@;
    if missing_ids.len() > 0 {
        push_str(out, "\nMissing IDs:\n");
        push_missing_id_lines(out, missing_ids);
        assert(out@ == grown + ("\nMissing IDs:\n"@ + missing_id_lines(
            missing_ids_view(missing_ids@),
        )));
    } else {
        assert(out@ == grown + Seq::<char>::empty());
    }
}

/// The lists of what an extraction is missing, each under its heading; the
/// empty text when nothing is missing.
pub fn missing_report(found: &Extraction) -> (text: String)
    ensures
        text@ == missing_text(found@.missing_vars, found@.missing_ids),
{
    let mut out: Vec<char> = Vec::new();
    push_missing(&mut out, &found.missing_vars, &found.missing_ids);
    assert(Seq::<char>::empty() + missing_text(found@.missing_vars, found@.missing_ids)
        == missing_text(found@.missing_vars, found@.missing_ids));
    to_text(out.as_slice())
}

/// How the extraction of one script of a batch ended.
#[derive(Clone, Debug, PartialEq, Eq)]
pub enum FileOutcome {
    /// The script at `path` was read; what is missing in it.
    Parsed { path: String, missing_vars: Vec<(String, String)>, missing_ids: Vec<(i64, String)> },
    /// The script at `path` could not be worked on.
    Failed { path: String, error: String },
}

pub ghost enum FileOutcomeView {
    Parsed {
        path: Seq<char>,
        missing_vars: Seq<(Seq<char>, Seq<char>)>,
        missing_ids: Seq<(i64, Seq<char>)>,
    },
    Failed { path: Seq<char>, error: Seq<char> },
}

impl FileOutcome {
    pub open spec fn view(&self) -> FileOutcomeView {
        match self {
            FileOutcome::Parsed { path, missing_vars, missing_ids } => FileOutcomeView::Parsed {
                path: path@,
                missing_vars: missing_vars_view(missing_vars@),
                missing_ids: missing_ids_view(missing_ids@),
            },
            FileOutcome::Failed { path, error } => FileOutcomeView::Failed {
                path: path@,
                error: error@,
            },
        }
    }
}

pub open spec fn outcomes_view(list: Seq<FileOutcome>) -> Seq<FileOutcomeView> {
    list.map_values(|o: FileOutcome| o@)
}

/// Whether the report says anything about an outcome: a failure is always
/// reported, a script that was read only when the report shows what is
/// missing and something is.
pub open spec fn is_reported(outcome: FileOutcomeView, show_missing: bool) -> bool {
    match outcome {
        FileOutcomeView::Parsed { missing_vars, missing_ids, .. } => show_missing && (
        missing_vars.len() > 0 || missing_ids.len() > 0),
        FileOutcomeView::Failed { .. } => true,
    }
}

/// What the report says about an outcome that it reports.
pub open spec fn outcome_text(outcome: FileOutcomeView) -> Seq<char> {
    match outcome {
        FileOutcomeView::Parsed { path, missing_vars, missing_ids } => path + missing_text(
            missing_vars,
            missing_ids,
        ),
        FileOutcomeView::Failed { path, error } => "Error while working on "@ + path + ": "@ + error
            + "\n"@,
    }
}

/// The report on a batch: what it says about each reported outcome, in order,
/// with a separator line between two of them. `dirty` tells whether something
/// was reported before.
pub open spec fn batch_text(outcomes: Seq<FileOutcomeView>, show_missing: bool, dirty: bool) -> Seq<
    char,
>
    decreases outcomes.len(),
{
    if outcomes.len() == 0 {
        Seq::empty()
    } else if is_reported(outcomes[0], show_missing) {
        (if dirty {
            "\n==========\n\n"@
        } else {
            Seq::empty()
        }) + outcome_text(outcomes[0]) + batch_text(outcomes.drop_first(), show_missing, true)
    } else {
        batch_text(outcomes.drop_first(), show_missing, dirty)
    }
}

/// The report on a batch of scripts. With `show_missing` it lists what is
/// missing in each script that was read, else only the failures.
pub fn batch_report(outcomes: &Vec<FileOutcome>, show_missing: bool) -> (text: String)
    ensures
        text@ == batch_text(outcomes_view(outcomes@), show_missing, false),
{
    let ghost all = outcomes_view(outcomes@);
    let mut out: Vec<char> = Vec::new();
    let mut dirty = false;
    let mut i: usize = 0;
    proof {
        assert(all.skip(0) == all);
        assert(out@ + batch_text(all, show_missing, false) == batch_text(
            all,
            show_missing,
            false,
        ));
    }
    while i < outcomes.len()
        invariant
            i <= outcomes@.len(),
            all == outcomes_view(outcomes@),
            out@ + batch_text(all.skip(i as int), show_missing, dirty) == batch_text(
                all,
                show_missing,
                false,
            ),
        decreases outcomes.len() - i,
    {
        let ghost rest = all.skip(i as int);
        let ghost grown = out@;
        let ghost was_dirty = dirty;
        proof {
            assert(rest[0] == outcomes@[i as int]@);
            assert(rest.drop_first() == all.skip(i + 1));
        }
        match &outcomes[i] {
            FileOutcome::Parsed { path, missing_vars, missing_ids } => {
                if show_missing && (missing_vars.len() > 0 || missing_ids.len() > 0) {
                    if dirty {
                        push_str(&mut out, "\n==========\n\n");
                    }
                    push_str(&mut out, path.as_str());
                    push_missing(&mut out, missing_vars, missing_ids);
                    dirty = true;
                    proof {
                        let sep = if was_dirty {
                            "\n==========\n\n"@
                        } else {
                            Seq::<char>::empty()
                        };
                        assert(out@ == grown + (sep + outcome_text(rest[0])));
                        assert(out@ + batch_text(all.skip(i + 1), show_missing, true) == grown
                            + batch_text(rest, show_missing, was_dirty));
                    }
                }
            },
            FileOutcome::Failed { path, error } => {
                if dirty {
                    push_str(&mut out, "\n==========\n\n");
                }
                push_str(&mut out, "Error while working on ");
                push_str(&mut out, path.as_str());
                push_str(&mut out, ": ");
                push_str(&mut out, error.as_str());
                push_str(&mut out, "\n");
                dirty = true;
                proof {
                    let sep = if was_dirty {
                        "\n==========\n\n"@
                    } else {
                        Seq::<char>::empty()
                    };
                    assert(out@ == grown + (sep + outcome_text(rest[0])));
                    assert(out@ + batch_text(all.skip(i + 1), show_missing, true) == grown
                        + batch_text(rest, show_missing, was_dirty));
                }
            },
        }
        i += 1;
    }
    proof {
        assert(all.skip(outcomes@.len() as int).len() == 0);
        assert(out@ + Seq::<char>::empty() == out@);
    }
    to_text(out.as_slice())
}

} // verus!
