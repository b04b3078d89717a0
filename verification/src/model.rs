//! A whole scan as mathematics: what the outside world shows of each entry,
//! the outcome the engine settles on, and the scan that merging all
//! outcomes gives.

use crate::engine::{OutcomeView, ProgressView};
use crate::entry::EntryView;
use crate::fault::Fault;
use crate::predicate::PredicateView;
use crate::record::Stamp;
use crate::scan::ScanView;
use vstd::prelude::*;

verus! {

/// Everything the outside world shows of one entry during one scan: the
/// entry as the walker yields it, and what each of the two metadata reads
/// returns if the engine asks for it.
pub struct Sighting {
    pub entry: EntryView,
    /// What the probe of a cached record returns.
    pub probe: Result<Stamp, Fault>,
    /// What the fresh read returns.
    pub read: Result<Stamp, Fault>,
}

impl Sighting {
    /// The sighting of a regular file.
    pub open spec fn is_file(self) -> bool {
        self.entry.is_file()
    }

    /// The path of a sighted file.
    pub open spec fn path(self) -> Seq<char>
        recommends
            self.is_file(),
    {
        self.entry->path
    }

    /// The file does not change while the scan looks at it: both reads
    /// return the same.
    pub open spec fn steady(self) -> bool {
        self.probe == self.read
    }

    /// How far the engine is after the probe, where it asks for one.
    pub open spec fn probed(self, store: Map<Seq<char>, Stamp>, predicate: PredicateView) -> ProgressView {
        let first = ProgressView::begin(store, self.entry);
        if first is Probe {
            first.advance(self.probe, predicate)
        } else {
            first
        }
    }

    /// The outcome that the engine settles on when it is run to the end:
    /// begun against `store`, advanced with the probe where it asks for one,
    /// and with the fresh read where it asks for that.
    pub open spec fn settle(self, store: Map<Seq<char>, Stamp>, predicate: PredicateView) -> OutcomeView {
        let last = self.probed(store, predicate).advance(self.read, predicate);
        if last is Done {
            last->Done_0
        } else {
            OutcomeView::Passed
        }
    }

    /// Whether settling the sighting takes a fresh read.
    pub open spec fn reads_afresh(self, store: Map<Seq<char>, Stamp>, predicate: PredicateView) -> bool {
        self.probed(store, predicate) is Read
    }
}

/// The outcomes of a list of sightings, each settled against `store`.
pub open spec fn outcomes_of(
    store: Map<Seq<char>, Stamp>,
    predicate: PredicateView,
    sightings: Seq<Sighting>,
) -> Seq<OutcomeView> {
    sightings.map_values(|sighting: Sighting| sighting.settle(store, predicate))
}

/// One scan: every sighting is settled against the store as it was when the
/// scan began, and the outcomes are merged in the order of the list.
pub open spec fn scan(
    store: Map<Seq<char>, Stamp>,
    predicate: PredicateView,
    sightings: Seq<Sighting>,
) -> ScanView {
    ScanView::start(store).merge_all(outcomes_of(store, predicate, sightings))
}

/// No two sightings of the list are of files with one path.
pub open spec fn files_apart(sightings: Seq<Sighting>) -> bool {
    forall|i: int, j: int|
        0 <= i < j < sightings.len() && (#[trigger] sightings[i]).is_file() && (
        #[trigger] sightings[j]).is_file() ==> sightings[i].path() != sightings[j].path()
}

/// One scan in which the sightings are taken one after the other: each is
/// settled against the store as the merges before it left it, and merged
/// before the next is taken up.
pub open spec fn scan_in_turn(
    store: Map<Seq<char>, Stamp>,
    predicate: PredicateView,
    sightings: Seq<Sighting>,
) -> ScanView
    decreases sightings.len(),
{
    if sightings.len() == 0 {
        ScanView::start(store)
    } else {
        let before = scan_in_turn(store, predicate, sightings.drop_last());
        before.merge(sightings.last().settle(before.store, predicate))
    }
}

} // verus!
