//! Reconciling one entry of the walk with the cache.
//!
//! The engine decides and the caller reads. [`begin`] looks an entry up and
//! says which metadata read, if any, comes first; [`advance`] takes what the
//! read returned and says what comes next. An entry needs at most two reads:
//! one to probe a cached record, and a fresh one where there is no record or
//! the probe showed it stale. Every decision depends on the entry, on the
//! reads and on the store as [`begin`] saw it, and on nothing else, so
//! entries can be settled in any order and side by side.

use crate::entry::{Entry, EntryKind, EntryView};
use crate::fault::{Fault, FaultKind};
use crate::predicate::{Predicate, PredicateView};
use crate::record::{fresh, is_fresh, FileRecord, RecordView, Stamp};
use crate::store::MetadataStore;
use vstd::prelude::*;

verus! {

/// What became of one entry of the walk.
#[derive(Clone, Debug, PartialEq, Eq)]
pub enum Outcome {
    /// A directory or another object that is no regular file: enumerated,
    /// never counted or classified.
    Passed,
    /// The walker met a fault; no file was scanned.
    TraversalFault(FaultKind),
    /// A file was scanned, but its metadata could not be read. The cache is
    /// left as it was.
    ReadFault(FaultKind),
    /// A file was scanned and its cached record was confirmed by the probe.
    Hit { record: FileRecord, matched: bool },
    /// A file was scanned and read afresh; `record` is to be stored.
    Refreshed { record: FileRecord, matched: bool },
}

/// Mathematical value of an [`Outcome`].
pub enum OutcomeView {
    Passed,
    TraversalFault(FaultKind),
    ReadFault(FaultKind),
    Hit { record: RecordView, matched: bool },
    Refreshed { record: RecordView, matched: bool },
}

impl View for Outcome {
    type V = OutcomeView;

    open spec fn view(&self) -> OutcomeView {
        match self {
            Outcome::Passed => OutcomeView::Passed,
            Outcome::TraversalFault(kind) => OutcomeView::TraversalFault(*kind),
            Outcome::ReadFault(kind) => OutcomeView::ReadFault(*kind),
            Outcome::Hit { record, matched } => OutcomeView::Hit {
                record: record@,
                matched: *matched,
            },
            Outcome::Refreshed { record, matched } => OutcomeView::Refreshed {
                record: record@,
                matched: *matched,
            },
        }
    }
}

/// How far the engine has come with one entry, and what it waits for.
#[derive(Clone, Debug, PartialEq, Eq)]
pub enum Progress {
    /// The file has a cached record. The caller reads the file's metadata
    /// so that the record can be judged.
    Probe { name: String, cached: FileRecord },
    /// The file has no record, or a stale one. The caller reads the file's
    /// metadata afresh.
    Read { path: String, name: String },
    /// The entry is settled.
    Done(Outcome),
}

/// Mathematical value of a [`Progress`].
pub enum ProgressView {
    Probe { name: Seq<char>, cached: RecordView },
    Read { path: Seq<char>, name: Seq<char> },
    Done(OutcomeView),
}

impl View for Progress {
    type V = ProgressView;

    open spec fn view(&self) -> ProgressView {
        match self {
            Progress::Probe { name, cached } => ProgressView::Probe {
                name: name@,
                cached: cached@,
            },
            Progress::Read { path, name } => ProgressView::Read { path: path@, name: name@ },
            Progress::Done(outcome) => ProgressView::Done(outcome@),
        }
    }
}

impl ProgressView {
    /// Where an entry starts, given the store at the beginning of the scan.
    /// A fault is settled at once under its tally, and so is every object
    /// that is no regular file. A file with a record is probed; a file
    /// without one is read afresh.
    pub open spec fn begin(store: Map<Seq<char>, Stamp>, entry: EntryView) -> ProgressView {
        match entry {
            EntryView::Fault(fault) => ProgressView::Done(OutcomeView::TraversalFault(fault.kind())),
            EntryView::Found { kind, path, name } => {
                if kind != EntryKind::File {
                    ProgressView::Done(OutcomeView::Passed)
                } else if store.contains_key(path) {
                    ProgressView::Probe { name, cached: RecordView::of(path, store[path]) }
                } else {
                    ProgressView::Read { path, name }
                }
            },
        }
    }

    /// The step taken when a metadata read returns `reading`.
    ///
    /// A failed read settles the entry as a read fault, whichever read it
    /// was. A probe that confirms the cached record settles the entry as a
    /// hit, classified by the cached values; a probe that does not asks for
    /// a fresh read. A fresh read that succeeds settles the entry with a new
    /// record, classified by the fresh values. A settled entry stays as it
    /// is.
    pub open spec fn advance(
        self,
        reading: Result<Stamp, Fault>,
        predicate: PredicateView,
    ) -> ProgressView {
        match self {
            ProgressView::Probe { name, cached } => match reading {
                Err(fault) => ProgressView::Done(OutcomeView::ReadFault(fault.kind())),
                Ok(live) => if fresh(cached.stamp(), live) {
                    ProgressView::Done(
                        OutcomeView::Hit {
                            record: cached,
                            matched: predicate.accepts(name, cached.size),
                        },
                    )
                } else {
                    ProgressView::Read { path: cached.path, name }
                },
            },
            ProgressView::Read { path, name } => match reading {
                Err(fault) => ProgressView::Done(OutcomeView::ReadFault(fault.kind())),
                Ok(live) => ProgressView::Done(
                    OutcomeView::Refreshed {
                        record: RecordView::of(path, live),
                        matched: predicate.accepts(name, live.size),
                    },
                ),
            },
            ProgressView::Done(outcome) => ProgressView::Done(outcome),
        }
    }
}

/// Takes up one entry of the walk: looks it up in `store` and says what is
/// to be read first, or settles it where nothing is to be read.
pub fn begin(store: &MetadataStore, entry: Entry) -> (progress: Progress)
    ensures
        progress@ == ProgressView::begin(store@, entry@),
{
    match entry {
        Entry::Fault(fault) => Progress::Done(Outcome::TraversalFault(fault.classify())),
        Entry::Found { kind, path, name } => match kind {
            EntryKind::File => match store.get(path.as_str()) {
                Some(cached) => Progress::Probe { name, cached },
                None => Progress::Read { path, name },
            },
            EntryKind::Directory => Progress::Done(Outcome::Passed),
            EntryKind::Other => Progress::Done(Outcome::Passed),
        },
    }
}

/// Takes the result of the metadata read that `progress` waited for and
/// says what comes next.
pub fn advance(progress: Progress, reading: Result<Stamp, Fault>, predicate: &Predicate) -> (next:
    Progress)
    ensures
        next@ == progress@.advance(reading, predicate@),
{
    match progress {
        Progress::Probe { name, cached } => match reading {
            Err(fault) => Progress::Done(Outcome::ReadFault(fault.classify())),
            Ok(live) => {
                if is_fresh(&cached, live.size, live.modified_at) {
                    let matched = predicate.matches(&name, cached.size);
                    Progress::Done(Outcome::Hit { record: cached, matched })
                } else {
                    Progress::Read { path: cached.path, name }
                }
            },
        },
        Progress::Read { path, name } => match reading {
            Err(fault) => Progress::Done(Outcome::ReadFault(fault.classify())),
            Ok(live) => {
                let matched = predicate.matches(&name, live.size);
                Progress::Done(Outcome::Refreshed { record: FileRecord::new(path, live), matched })
            },
        },
        Progress::Done(outcome) => Progress::Done(outcome),
    }
}

} // verus!
