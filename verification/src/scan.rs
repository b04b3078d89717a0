//! The running scan: the store and the result that outcomes are merged into.

use crate::engine::{Outcome, OutcomeView};
use crate::fault::FaultKind;
use crate::record::{FileRecord, RecordView, Stamp};
use crate::store::{record_views, MetadataStore};
use vstd::multiset::Multiset;
use vstd::prelude::*;

verus! {

/// What one run reports: the files that satisfy the predicate and three
/// counters. The order of `matches` carries no meaning.
#[derive(Clone, Debug, PartialEq, Eq)]
pub struct ScanResult {
    /// The matching files, each with the size and time the scan settled on.
    pub matches: Vec<FileRecord>,
    /// Regular files that the walk passed on to the engine.
    pub files_scanned: u64,
    /// Faults that the platform reported as a refusal of access.
    pub permission_denied: u64,
    /// All other faults.
    pub other_errors: u64,
}

/// Mathematical value of a [`ScanResult`]: the matches as a multiset, the
/// counters as natural numbers.
#[verifier::ext_equal]
pub struct ResultView {
    pub matches: Multiset<RecordView>,
    pub files_scanned: nat,
    pub permission_denied: nat,
    pub other_errors: nat,
}

impl View for ScanResult {
    type V = ResultView;

    open spec fn view(&self) -> ResultView {
        ResultView {
            matches: record_views(self.matches@).to_multiset(),
            files_scanned: self.files_scanned as nat,
            permission_denied: self.permission_denied as nat,
            other_errors: self.other_errors as nat,
        }
    }
}

impl ResultView {
    /// The result of a run that has seen nothing yet.
    pub open spec fn empty() -> ResultView {
        ResultView {
            matches: Multiset::empty(),
            files_scanned: 0,
            permission_denied: 0,
            other_errors: 0,
        }
    }

    /// One more file scanned.
    pub open spec fn count_file(self) -> ResultView {
        ResultView { files_scanned: self.files_scanned + 1, ..self }
    }

    /// One more fault under the given tally.
    pub open spec fn count_fault(self, kind: FaultKind) -> ResultView {
        match kind {
            FaultKind::PermissionDenied => ResultView {
                permission_denied: self.permission_denied + 1,
                ..self
            },
            FaultKind::Other => ResultView { other_errors: self.other_errors + 1, ..self },
        }
    }

    /// The record joins the matches where the predicate accepted it.
    pub open spec fn report(self, record: RecordView, matched: bool) -> ResultView {
        if matched {
            ResultView { matches: self.matches.insert(record), ..self }
        } else {
            self
        }
    }

    /// Every counter can be held in 64 bits.
    pub open spec fn fits(self) -> bool {
        &&& self.files_scanned <= u64::MAX
        &&& self.permission_denied <= u64::MAX
        &&& self.other_errors <= u64::MAX
    }

    /// The largest of the three counters.
    pub open spec fn highest_count(self) -> nat {
        if self.files_scanned >= self.permission_denied && self.files_scanned
            >= self.other_errors {
            self.files_scanned
        } else if self.permission_denied >= self.other_errors {
            self.permission_denied
        } else {
            self.other_errors
        }
    }
}

/// Mathematical value of a [`Scan`].
#[verifier::ext_equal]
pub struct ScanView {
    pub store: Map<Seq<char>, Stamp>,
    pub result: ResultView,
}

impl ScanView {
    /// A scan that starts from `store` and has seen nothing yet.
    pub open spec fn start(store: Map<Seq<char>, Stamp>) -> ScanView {
        ScanView { store, result: ResultView::empty() }
    }

    /// The scan after one outcome is merged.
    ///
    /// Only a scanned file counts as scanned, only a fault is counted under
    /// a tally, only a refreshed record is stored, and a record is reported
    /// exactly when its outcome says that it matched.
    pub open spec fn merge(self, outcome: OutcomeView) -> ScanView {
        match outcome {
            OutcomeView::Passed => self,
            OutcomeView::TraversalFault(kind) => ScanView {
                result: self.result.count_fault(kind),
                ..self
            },
            OutcomeView::ReadFault(kind) => ScanView {
                result: self.result.count_file().count_fault(kind),
                ..self
            },
            OutcomeView::Hit { record, matched } => ScanView {
                result: self.result.count_file().report(record, matched),
                ..self
            },
            OutcomeView::Refreshed { record, matched } => ScanView {
                store: self.store.insert(record.path, record.stamp()),
                result: self.result.count_file().report(record, matched),
            },
        }
    }

    /// The scan after a list of outcomes is merged, first to last.
    pub open spec fn merge_all(self, outcomes: Seq<OutcomeView>) -> ScanView
        decreases outcomes.len(),
    {
        if outcomes.len() == 0 {
            self
        } else {
            self.merge_all(outcomes.drop_last()).merge(outcomes.last())
        }
    }
}

/// The values of a list of outcomes, in the same order.
pub open spec fn outcome_views(outcomes: Seq<Outcome>) -> Seq<OutcomeView> {
    outcomes.map_values(|outcome: Outcome| outcome@)
}

/// Merging never lowers a counter, and raises each by at most one for each
/// outcome.
pub proof fn lemma_counters_grow(scan: ScanView, outcomes: Seq<OutcomeView>)
    ensures
        scan.result.files_scanned <= scan.merge_all(outcomes).result.files_scanned
            <= scan.result.files_scanned + outcomes.len(),
        scan.result.permission_denied <= scan.merge_all(outcomes).result.permission_denied
            <= scan.result.permission_denied + outcomes.len(),
        scan.result.other_errors <= scan.merge_all(outcomes).result.other_errors
            <= scan.result.other_errors + outcomes.len(),
    decreases outcomes.len(),
{
    if outcomes.len() > 0 {
        lemma_counters_grow(scan, outcomes.drop_last());
    }
}

/// A scan in progress: the store as updated so far and the result so far.
pub struct Scan {
    store: MetadataStore,
    result: ScanResult,
}

impl View for Scan {
    type V = ScanView;

    closed spec fn view(&self) -> ScanView {
        ScanView { store: self.store@, result: self.result@ }
    }
}

impl Scan {
    /// Starts a scan from `store` with an empty result.
    pub fn new(store: MetadataStore) -> (scan: Scan)
        ensures
            scan@ == ScanView::start(store@),
    {
        let scan = Scan {
            store,
            result: ScanResult {
                matches: Vec::new(),
                files_scanned: 0,
                permission_denied: 0,
                other_errors: 0,
            },
        };
        proof {
            let none = record_views(scan.result.matches@);
            vstd::seq_lib::to_multiset_len(none);
            vstd::multiset::lemma_multiset_empty_len(none.to_multiset());
        }
        scan
    }

    /// The store as updated so far.
    pub fn store(&self) -> (store: &MetadataStore)
        ensures
            store@ == self@.store,
    {
        &self.store
    }

    /// The result so far.
    pub fn result(&self) -> (result: &ScanResult)
        ensures
            result@ == self@.result,
    {
        &self.result
    }

    /// How many more outcomes can be merged, whatever they are, before a
    /// counter could pass what 64 bits hold.
    pub fn room(&self) -> (room: u64)
        ensures
            room == u64::MAX - self@.result.highest_count(),
    {
        let mut highest: u64 = self.result.files_scanned;
        if self.result.permission_denied > highest {
            highest = self.result.permission_denied;
        }
        if self.result.other_errors > highest {
            highest = self.result.other_errors;
        }
        u64::MAX - highest
    }

    /// Merges the outcome of one entry into the scan.
    pub fn merge(&mut self, outcome: Outcome)
        requires
            old(self)@.merge(outcome@).result.fits(),
        ensures
            final(self)@ == old(self)@.merge(outcome@),
    {
        match outcome {
            Outcome::Passed => {},
            Outcome::TraversalFault(kind) => {
                self.count_fault(kind);
            },
            Outcome::ReadFault(kind) => {
                self.result.files_scanned = self.result.files_scanned + 1;
                self.count_fault(kind);
            },
            Outcome::Hit { record, matched } => {
                self.result.files_scanned = self.result.files_scanned + 1;
                if matched {
                    self.report(record);
                }
            },
            Outcome::Refreshed { record, matched } => {
                self.result.files_scanned = self.result.files_scanned + 1;
                if matched {
                    self.report(record.clone());
                }
                self.store.upsert(record);
            },
        }
    }

    /// Merges the outcomes of many entries, first to last.
    pub fn merge_all(&mut self, outcomes: Vec<Outcome>)
        requires
            old(self)@.merge_all(outcome_views(outcomes@)).result.fits(),
        ensures
            final(self)@ == old(self)@.merge_all(outcome_views(outcomes@)),
    {
        let ghost all = outcome_views(outcomes@);
        for outcome in iter: outcomes
            invariant
                iter.seq() == outcomes@,
                all == outcome_views(outcomes@),
                self@ == old(self)@.merge_all(all.take(iter.index() as int)),
                old(self)@.merge_all(all).result.fits(),
        {
            proof {
                let done = iter.index() as int;
                assert(all.take(done + 1).drop_last() == all.take(done));
                assert(all.take(done + 1).last() == outcome@);
                assert(all == all.take(done + 1) + all.skip(done + 1));
                lemma_merge_all_concat(old(self)@, all.take(done + 1), all.skip(done + 1));
                lemma_counters_grow(
                    old(self)@.merge_all(all.take(done + 1)),
                    all.skip(done + 1),
                );
            }
            self.merge(outcome);
        }
        assert(all.take(all.len() as int) == all);
    }

    /// Ends the scan: hands out the updated store, to be committed, and the
    /// result, to be reported.
    pub fn finish(self) -> (parts: (MetadataStore, ScanResult))
        ensures
            parts.0@ == self@.store,
            parts.1@ == self@.result,
    {
        (self.store, self.result)
    }

    fn count_fault(&mut self, kind: FaultKind)
        requires
            old(self)@.result.count_fault(kind).fits(),
        ensures
            final(self)@ == (ScanView {
                result: old(self)@.result.count_fault(kind),
                ..old(self)@
            }),
    {
        match kind {
            FaultKind::PermissionDenied => {
                self.result.permission_denied = self.result.permission_denied + 1;
            },
            FaultKind::Other => {
                self.result.other_errors = self.result.other_errors + 1;
            },
        }
    }

    fn report(&mut self, record: FileRecord)
        ensures
            final(self)@ == (ScanView {
                result: old(self)@.result.report(record@, true),
                ..old(self)@
            }),
    {
        proof {
            let before = record_views(self.result.matches@);
            assert(record_views(self.result.matches@.push(record)) == before.push(record@));
            vstd::seq_lib::to_multiset_build(before, record@);
        }
        self.result.matches.push(record);
    }
}

/// Merging two lists one after the other is merging their concatenation.
pub proof fn lemma_merge_all_concat(
    scan: ScanView,
    first: Seq<OutcomeView>,
    second: Seq<OutcomeView>,
)
    ensures
        scan.merge_all(first + second) == scan.merge_all(first).merge_all(second),
    decreases second.len(),
{
    if second.len() == 0 {
        assert(first + second == first);
    } else {
        assert((first + second).drop_last() == first + second.drop_last());
        lemma_merge_all_concat(scan, first, second.drop_last());
    }
}

/// A scan whose counters leave room for as many outcomes as a list holds
/// can merge the list.
pub proof fn lemma_room_suffices(scan: ScanView, outcomes: Seq<OutcomeView>)
    requires
        scan.result.highest_count() + outcomes.len() <= u64::MAX,
    ensures
        scan.merge_all(outcomes).result.fits(),
{
    lemma_counters_grow(scan, outcomes);
}

} // verus!
