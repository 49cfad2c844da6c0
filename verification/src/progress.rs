//! Counting the outcomes of the lookups and wording what is shown of them.

use crate::number::{decimal_text, push_decimal};
use crate::text::{push_str, to_text};
use vstd::prelude::*;

verus! {

/// What a worker reports.
#[derive(Clone, Debug, PartialEq, Eq)]
pub enum Event {
    /// A lookup gave a translation.
    Fetched,
    /// A lookup gave none: the entry is dropped.
    DataError { language: String, name: String, reason: String },
    /// A file could not be read or written.
    IoError { path: String, reason: String },
}

pub ghost enum EventView {
    Fetched,
    DataError { language: Seq<char>, name: Seq<char>, reason: Seq<char> },
    IoError { path: Seq<char>, reason: Seq<char> },
}

impl Event {
    pub open spec fn view(&self) -> EventView {
        match self {
            Event::Fetched => EventView::Fetched,
            Event::DataError { language, name, reason } => EventView::DataError {
                language: language@,
                name: name@,
                reason: reason@,
            },
            Event::IoError { path, reason } => EventView::IoError { path: path@, reason: reason@ },
        }
    }
}

/// Whether an event counts as one processed entry: every outcome of a lookup
/// does, a file error does not.
pub open spec fn counts(event: EventView) -> bool {
    !(event is IoError)
}

/// The line that tells of an error; nothing for a lookup that went well.
pub open spec fn diagnostic(event: EventView) -> Seq<char> {
    match event {
        EventView::Fetched => Seq::empty(),
        EventView::DataError { language, name, reason } => "\rFailed to collect data for \""@
            + name + "\" ("@ + language + "), error: "@ + reason + "\n"@,
        EventView::IoError { path, reason } => "\rI/O error: "@ + reason + " ("@ + path + ")\n"@,
    }
}

/// The status line: it overwrites the one before it.
pub open spec fn status_line(processed: nat, total: nat) -> Seq<char> {
    "\rProgress: "@ + decimal_text(processed) + " / "@ + decimal_text(total)
}

/// The texts of `lines`, one behind the other.
pub open spec fn concat(lines: Seq<Seq<char>>) -> Seq<char>
    decreases lines.len(),
{
    if lines.len() == 0 {
        Seq::empty()
    } else {
        concat(lines.drop_last()) + lines.last()
    }
}

/// The errors in two groups, file errors first; a group without errors is
/// left out with its heading.
pub open spec fn summary_text(io: Seq<Seq<char>>, data: Seq<Seq<char>>) -> Seq<char> {
    (if io.len() > 0 {
        "I/O errors:\n"@ + concat(io)
    } else {
        Seq::empty()
    }) + (if data.len() > 0 {
        "Data errors:\n"@ + concat(data)
    } else {
        Seq::empty()
    })
}

pub open spec fn texts_view(lines: Seq<String>) -> Seq<Seq<char>> {
    lines.map_values(|s: String| s@)
}

/// What the one consumer of the workers' events has counted and kept.
#[derive(Clone, Debug, PartialEq, Eq)]
pub struct Progress {
    /// Entries processed so far.
    pub processed: usize,
    /// Entries to be processed.
    pub total: usize,
    /// The diagnostics of the file errors, in the order they came.
    pub io_errors: Vec<String>,
    /// The diagnostics of the failed lookups, in the order they came.
    pub data_errors: Vec<String>,
}

pub ghost struct ProgressView {
    pub processed: nat,
    pub total: nat,
    pub io_errors: Seq<Seq<char>>,
    pub data_errors: Seq<Seq<char>>,
}

/// The reporter in front of the first event.
pub open spec fn progress_start(total: nat) -> ProgressView {
    ProgressView { processed: 0, total, io_errors: Seq::empty(), data_errors: Seq::empty() }
}

/// The reporter after one more event.
pub open spec fn recorded(p: ProgressView, event: EventView) -> ProgressView {
    match event {
        EventView::Fetched => ProgressView { processed: p.processed + 1, ..p },
        EventView::DataError { .. } => ProgressView {
            processed: p.processed + 1,
            data_errors: p.data_errors.push(diagnostic(event)),
            ..p
        },
        EventView::IoError { .. } => ProgressView {
            io_errors: p.io_errors.push(diagnostic(event)),
            ..p
        },
    }
}

/// The reporter after `events`.
pub open spec fn recorded_all(p: ProgressView, events: Seq<EventView>) -> ProgressView
    decreases events.len(),
{
    if events.len() == 0 {
        p
    } else {
        recorded(recorded_all(p, events.drop_last()), events.last())
    }
}

/// The number of events of `events` that count.
pub open spec fn counted(events: Seq<EventView>) -> nat
    decreases events.len(),
{
    if events.len() == 0 {
        0
    } else {
        counted(events.drop_last()) + (if counts(events.last()) {
            1nat
        } else {
            0nat
        })
    }
}

/// After any events the reporter has processed as many entries as events
/// count, every event was either counted or kept as a file error, and the
/// total is the same.
pub proof fn lemma_processed_is_counted(total: nat, events: Seq<EventView>)
    ensures
        recorded_all(progress_start(total), events).processed == counted(events),
        recorded_all(progress_start(total), events).total == total,
        recorded_all(progress_start(total), events).io_errors.len() + counted(events)
            == events.len(),
        recorded_all(progress_start(total), events).data_errors.len() <= counted(events),
    decreases events.len(),
{
    if events.len() > 0 {
        lemma_processed_is_counted(total, events.drop_last());
    }
}

impl Progress {
    pub open spec fn view(&self) -> ProgressView {
        ProgressView {
            processed: self.processed as nat,
            total: self.total as nat,
            io_errors: texts_view(self.io_errors@),
            data_errors: texts_view(self.data_errors@),
        }
    }

    /// A reporter that expects `total` entries and has seen no event.
    pub fn new(total: usize) -> (progress: Self)
        ensures
            progress@ == progress_start(total as nat),
    {
        let progress = Progress {
            processed: 0,
            total,
            io_errors: Vec::new(),
            data_errors: Vec::new(),
        };
        proof {
            assert(texts_view(progress.io_errors@) == Seq::<Seq<char>>::empty());
            assert(texts_view(progress.data_errors@) == Seq::<Seq<char>>::empty());
        }
        progress
    }

    /// The status line for what was processed so far.
    pub fn status(&self) -> (line: String)
        ensures
            line@ == status_line(self@.processed, self@.total),
    {
        let mut out: Vec<char> = Vec::new();
        push_str(&mut out, "\rProgress: ");
        push_decimal(&mut out, self.processed as u64);
        push_str(&mut out, " / ");
        push_decimal(&mut out, self.total as u64);
        assert(out@ == status_line(self@.processed, self@.total));
        to_text(out.as_slice())
    }

    /// Records one event and gives what is to be shown for it: the diagnostic
    /// of an error, and the status line after the event.
    pub fn record(&mut self, event: &Event) -> (shown: String)
        requires
            old(self).processed < usize::MAX,
        ensures
            final(self)@ == recorded(old(self)@, event@),
            shown@ == diagnostic(event@) + status_line(final(self)@.processed, final(self)@.total),
    {
        let mut out: Vec<char> = Vec::new();
        match event {
            Event::Fetched => {
                self.processed = self.processed + 1;
            },
            Event::DataError { language, name, reason } => {
                push_str(&mut out, "\rFailed to collect data for \"");
                push_str(&mut out, name.as_str());
                push_str(&mut out, "\" (");
                push_str(&mut out, language.as_str());
                push_str(&mut out, "), error: ");
                push_str(&mut out, reason.as_str());
                push_str(&mut out, "\n");
                let ghost before = texts_view(self.data_errors@);
                self.data_errors.push(to_text(out.as_slice()));
                assert(texts_view(self.data_errors@) == before.push(out@));
                self.processed = self.processed + 1;
            },
            Event::IoError { path, reason } => {
                push_str(&mut out, "\rI/O error: ");
                push_str(&mut out, reason.as_str());
                push_str(&mut out, " (");
                push_str(&mut out, path.as_str());
                push_str(&mut out, ")\n");
                let ghost before = texts_view(self.io_errors@);
                self.io_errors.push(to_text(out.as_slice()));
                assert(texts_view(self.io_errors@) == before.push(out@));
            },
        }
        assert(out@ == diagnostic(event@));
        push_str(&mut out, "\rProgress: ");
        push_decimal(&mut out, self.processed as u64);
        push_str(&mut out, " / ");
        push_decimal(&mut out, self.total as u64);
        assert(out@ == diagnostic(event@) + status_line(
            self.processed as nat,
            self.total as nat,
        ));
        to_text(out.as_slice())
    }

    /// The errors recorded so far in two groups, file errors first.
    pub fn summary(&self) -> (text: String)
        ensures
            text@ == summary_text(self@.io_errors, self@.data_errors),
    {
        let mut out: Vec<char> = Vec::new();
        if self.io_errors.len() > 0 {
            push_str(&mut out, "I/O errors:\n");
            push_lines(&mut out, &self.io_errors);
        }
        let ghost first = out@;
        if self.data_errors.len() > 0 {
            push_str(&mut out, "Data errors:\n");
            push_lines(&mut out, &self.data_errors);
            assert(out@ == first + ("Data errors:\n"@ + concat(texts_view(self.data_errors@))));
        } else {
            assert(out@ == first + Seq::<char>::empty());
        }
        to_text(out.as_slice())
    }
}

fn push_lines(out: &mut Vec<char>, lines: &Vec<String>)
    ensures
        final(out)@ == old(out)@ + concat(texts_view(lines@)),
{
    let ghost all = texts_view(lines@);
    let mut i: usize = 0;
    proof {
        assert(all.take(0).len() == 0);
        assert(out@ + concat(all.take(0)) == out@);
    }
    while i < lines.len()
        invariant
            i <= lines@.len(),
            all == texts_view(lines@),
            out@ == old(out)@ + concat(all.take(i as int)),
        decreases lines.len() - i,
    {
        push_str(out, lines[i].as_str());
        proof {
            assert(all.take(i + 1).drop_last() == all.take(i as int));
            assert(all.take(i + 1).last() == lines@[i as int]@);
            assert(out@ == old(out)@ + (concat(all.take(i as int)) + lines@[i as int]@));
        }
        i += 1;
    }
    proof {
        assert(all.take(lines@.len() as int) == all);
    }
}

} // verus!
