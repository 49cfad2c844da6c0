//! Putting a new text in the place of a locale file.
//!
//! The text is written to a temporary file first and that file is then
//! renamed over the locale file, so that the locale file never holds half a
//! text. Where the rename fails, the temporary file is copied over the locale
//! file and removed. This module decides which step comes next; the caller
//! carries the steps out.

use crate::number::{decimal_text, push_decimal};
use crate::text::{push_str, to_text};
use vstd::prelude::*;

verus! {

/// The name of the file of the language with the locale code `code`.
pub open spec fn locale_file_name_text(code: Seq<char>) -> Seq<char> {
    code + ".lua"@
}

/// The name of the file of the language with the locale code `code`.
pub fn locale_file_name(code: &str) -> (name: String)
    ensures
        name@ == locale_file_name_text(code@),
{
    let mut out: Vec<char> = Vec::new();
    push_str(&mut out, code);
    push_str(&mut out, ".lua");
    to_text(out.as_slice())
}

/// The name of the temporary file for `code`, written `unix_secs` seconds
/// after the epoch.
pub open spec fn temp_file_name_text(code: Seq<char>, unix_secs: u64) -> Seq<char> {
    code + "-"@ + decimal_text(unix_secs as nat) + ".lua.tmp"@
}

/// The name of the temporary file for `code`, written `unix_secs` seconds
/// after the epoch.
pub fn temp_file_name(code: &str, unix_secs: u64) -> (name: String)
    ensures
        name@ == temp_file_name_text(code@, unix_secs),
{
    let mut out: Vec<char> = Vec::new();
    push_str(&mut out, code);
    push_str(&mut out, "-");
    push_decimal(&mut out, unix_secs);
    push_str(&mut out, ".lua.tmp");
    to_text(out.as_slice())
}

/// Whether temporary files go to the system's directory for them: only when
/// it is known to lie on the device of the output directory. Otherwise they
/// go to the output directory itself.
pub fn use_system_temp_dir(output_device: Option<u64>, temp_device: Option<u64>) -> (r: bool)
    ensures
        r == (output_device is Some && temp_device is Some && output_device.unwrap()
            == temp_device.unwrap()),
{
    match (output_device, temp_device) {
        (Some(a), Some(b)) => a == b,
        _ => false,
    }
}

/// A step of a commit that the caller carries out.
#[derive(Clone, Copy, Debug, PartialEq, Eq, Structural)]
pub enum Action {
    /// Write the new text to the temporary file and force it to disk.
    WriteTemp,
    /// Rename the temporary file over the locale file.
    Rename,
    /// Copy the temporary file over the locale file.
    Copy,
    /// Remove the temporary file.
    RemoveTemp,
}

/// Which file an error of a commit is about.
#[derive(Clone, Copy, Debug, PartialEq, Eq, Structural)]
pub enum Culprit {
    TempFile,
    LocaleFile,
}

/// Where a commit stands.
#[derive(Clone, Copy, Debug, PartialEq, Eq, Structural)]
pub enum Commit {
    /// The temporary file is to be written.
    Writing,
    /// The temporary file is to be renamed over the locale file.
    Renaming,
    /// The temporary file is to be copied over the locale file.
    Copying,
    /// The temporary file is to be removed after a copy; `copied` tells
    /// whether the copy went well.
    Cleanup { copied: bool },
    /// The locale file holds the new text.
    Done,
    /// The commit failed at a step on the named file.
    Failed(Culprit),
}

impl Commit {
    /// A commit of which nothing was done yet.
    pub fn start() -> (commit: Self)
        ensures
            commit == Commit::Writing,
    {
        Commit::Writing
    }

    /// The step that the caller is to carry out now, if any.
    pub open spec fn action_of(self) -> Option<Action> {
        match self {
            Commit::Writing => Some(Action::WriteTemp),
            Commit::Renaming => Some(Action::Rename),
            Commit::Copying => Some(Action::Copy),
            Commit::Cleanup { .. } => Some(Action::RemoveTemp),
            Commit::Done | Commit::Failed(_) => None,
        }
    }

    /// Where the commit stands after the step that was due went well
    /// (`ok`) or failed.
    ///
    /// A failed write ends the commit. A failed rename is followed by a copy;
    /// after a copy the temporary file is removed whether the copy went well
    /// or not, and an error in removing it goes before one in copying.
    pub open spec fn after(self, ok: bool) -> Commit {
        match self {
            Commit::Writing => if ok {
                Commit::Renaming
            } else {
                Commit::Failed(Culprit::TempFile)
            },
            Commit::Renaming => if ok {
                Commit::Done
            } else {
                Commit::Copying
            },
            Commit::Copying => Commit::Cleanup { copied: ok },
            Commit::Cleanup { copied } => if !ok {
                Commit::Failed(Culprit::TempFile)
            } else if copied {
                Commit::Done
            } else {
                Commit::Failed(Culprit::LocaleFile)
            },
            Commit::Done => Commit::Done,
            Commit::Failed(c) => Commit::Failed(c),
        }
    }

    /// The step that the caller is to carry out now, if any.
    pub fn action(self) -> (a: Option<Action>)
        ensures
            a == self.action_of(),
    {
        match self {
            Commit::Writing => Some(Action::WriteTemp),
            Commit::Renaming => Some(Action::Rename),
            Commit::Copying => Some(Action::Copy),
            Commit::Cleanup { .. } => Some(Action::RemoveTemp),
            Commit::Done => None,
            Commit::Failed(_) => None,
        }
    }

    /// Where the commit stands after the step that was due went well
    /// (`ok`) or failed.
    pub fn advance(self, ok: bool) -> (next: Self)
        ensures
            next == self.after(ok),
    {
        match self {
            Commit::Writing => if ok {
                Commit::Renaming
            } else {
                Commit::Failed(Culprit::TempFile)
            },
            Commit::Renaming => if ok {
                Commit::Done
            } else {
                Commit::Copying
            },
            Commit::Copying => Commit::Cleanup { copied: ok },
            Commit::Cleanup { copied } => if !ok {
                Commit::Failed(Culprit::TempFile)
            } else if copied {
                Commit::Done
            } else {
                Commit::Failed(Culprit::LocaleFile)
            },
            Commit::Done => Commit::Done,
            Commit::Failed(c) => Commit::Failed(c),
        }
    }
}

/// Where a commit stands after the steps with the results `results`.
pub open spec fn commit_after(results: Seq<bool>) -> Commit
    decreases results.len(),
{
    if results.len() == 0 {
        Commit::Writing
    } else {
        commit_after(results.drop_last()).after(results.last())
    }
}

/// Whether a step touches the locale file.
pub open spec fn touches_locale_file(action: Action) -> bool {
    action == Action::Rename || action == Action::Copy
}

/// However the steps of a commit end: the locale file is touched only after
/// the temporary file was written in full, a commit is over after at most four
/// steps, and it is done only when the last step went well and a rename or a
/// copy did.
pub proof fn lemma_commit_order(results: Seq<bool>)
    ensures
        match commit_after(results).action_of() {
            Some(a) => touches_locale_file(a) ==> results.len() >= 1 && results[0],
            None => true,
        },
        results.len() >= 4 ==> commit_after(results).action_of() is None,
        commit_after(results) is Done ==> results.len() >= 2 && results[0] && (results[1] || (
        results.len() >= 4 && results[2] && results[3])),
    decreases results.len(),
{
    if results.len() > 0 {
        let r1 = results.drop_last();
        lemma_commit_order(r1);
        if r1.len() > 0 {
            let r2 = r1.drop_last();
            lemma_commit_order(r2);
            assert(r1[0] == results[0]);
            if r2.len() > 0 {
                let r3 = r2.drop_last();
                lemma_commit_order(r3);
                assert(r2[0] == results[0]);
                if r3.len() > 0 {
                    let r4 = r3.drop_last();
                    lemma_commit_order(r4);
                    assert(r3[0] == results[0]);
                }
            }
        }
    }
}

} // verus!
