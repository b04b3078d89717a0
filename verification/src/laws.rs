//! What holds of every scan.

use crate::engine::OutcomeView;
use crate::fault::{Fault, FaultKind, IoKind};
use crate::model::{files_apart, outcomes_of, scan, scan_in_turn, Sighting};
use crate::predicate::PredicateView;
use crate::record::{fresh, RecordView, Stamp};
use crate::scan::{ResultView, ScanView};
use vstd::prelude::*;
use vstd::seq_lib::{to_multiset_contains, to_multiset_insert, to_multiset_len, to_multiset_remove};

verus! {

/// Two outcomes are independent unless both store a record under one path.
pub open spec fn independent(one: OutcomeView, other: OutcomeView) -> bool {
    !(one is Refreshed && other is Refreshed && one->Refreshed_record.path
        == other->Refreshed_record.path)
}

/// No two outcomes of the list store a record under one path.
pub open spec fn stores_apart(outcomes: Seq<OutcomeView>) -> bool {
    forall|i: int, j: int|
        0 <= i < j < outcomes.len() ==> independent(#[trigger] outcomes[i], #[trigger] outcomes[j])
}

/// Two independent outcomes can be merged in either order.
pub proof fn lemma_merge_commutes(start: ScanView, one: OutcomeView, other: OutcomeView)
    requires
        independent(one, other),
    ensures
        start.merge(one).merge(other) == start.merge(other).merge(one),
{
    broadcast use vstd::multiset::group_multiset_axioms;

    assert(start.merge(one).merge(other) =~= start.merge(other).merge(one));
}

/// An outcome that is independent of all that follow it can be merged last.
pub proof fn lemma_merge_last(start: ScanView, outcomes: Seq<OutcomeView>, at: int)
    requires
        0 <= at < outcomes.len(),
        forall|k: int| at < k < outcomes.len() ==> independent(outcomes[at], #[trigger] outcomes[k]),
    ensures
        start.merge_all(outcomes) == start.merge_all(outcomes.remove(at)).merge(outcomes[at]),
    decreases outcomes.len(),
{
    let front = outcomes.drop_last();
    if at == outcomes.len() - 1 {
        assert(outcomes.remove(at) == front);
    } else {
        assert(front[at] == outcomes[at]);
        assert forall|k: int| at < k < front.len() implies independent(
            front[at],
            #[trigger] front[k],
        ) by {
            assert(front[k] == outcomes[k]);
        }
        lemma_merge_last(start, front, at);
        lemma_merge_commutes(start.merge_all(front.remove(at)), outcomes[at], outcomes.last());
        assert(outcomes.remove(at).drop_last() == front.remove(at));
        assert(outcomes.remove(at).last() == outcomes.last());
    }
}

/// Order independence of the merge: two lists that hold the same outcomes,
/// each as often as the other, give the same scan, whatever their order,
/// provided that no two outcomes store a record under one path.
pub proof fn lemma_merge_order_is_irrelevant(
    start: ScanView,
    one: Seq<OutcomeView>,
    other: Seq<OutcomeView>,
)
    requires
        one.to_multiset() == other.to_multiset(),
        stores_apart(one),
    ensures
        start.merge_all(one) == start.merge_all(other),
    decreases one.len(),
{
    to_multiset_len(one);
    to_multiset_len(other);
    if one.len() == 0 {
        assert(other.len() == 0);
    } else {
        let last = one.last();
        let front = one.drop_last();
        assert(one.contains(last)) by {
            assert(one[one.len() - 1] == last);
        }
        to_multiset_contains(one, last);
        to_multiset_contains(other, last);
        let at = choose|at: int| 0 <= at < other.len() && other[at] == last;
        let rest = other.remove(at);
        assert(front == one.remove(one.len() - 1));
        to_multiset_remove(one, one.len() - 1);
        to_multiset_remove(other, at);
        assert(stores_apart(front)) by {
            assert forall|i: int, j: int| 0 <= i < j < front.len() implies independent(
                #[trigger] front[i],
                #[trigger] front[j],
            ) by {
                assert(independent(one[i], one[j]));
            }
        }
        lemma_merge_order_is_irrelevant(start, front, rest);
        assert forall|k: int| at < k < other.len() implies independent(
            other[at],
            #[trigger] other[k],
        ) by {
            assert(rest[k - 1] == other[k]);
            assert(rest.contains(other[k]));
            to_multiset_contains(rest, other[k]);
            to_multiset_contains(front, other[k]);
            let i = choose|i: int| 0 <= i < front.len() && front[i] == other[k];
            assert(independent(one[i], one[one.len() - 1]));
        }
        lemma_merge_last(start, other, at);
    }
}

/// Two lists that hold the same items, each as often as the other, still do
/// so after one function is applied to every item.
pub proof fn lemma_map_keeps_items<A, B>(one: Seq<A>, other: Seq<A>, f: spec_fn(A) -> B)
    requires
        one.to_multiset() == other.to_multiset(),
    ensures
        one.map_values(f).to_multiset() == other.map_values(f).to_multiset(),
    decreases one.len(),
{
    to_multiset_len(one);
    to_multiset_len(other);
    if one.len() == 0 {
        assert(one.map_values(f) == other.map_values(f));
    } else {
        let last = one.last();
        let front = one.drop_last();
        assert(one.contains(last)) by {
            assert(one[one.len() - 1] == last);
        }
        to_multiset_contains(one, last);
        to_multiset_contains(other, last);
        let at = choose|at: int| 0 <= at < other.len() && other[at] == last;
        let rest = other.remove(at);
        assert(front == one.remove(one.len() - 1));
        to_multiset_remove(one, one.len() - 1);
        to_multiset_remove(other, at);
        lemma_map_keeps_items(front, rest, f);
        assert(one.map_values(f) == front.map_values(f).insert(front.len() as int, f(last)));
        assert(other.map_values(f) == rest.map_values(f).insert(at, f(last)));
        to_multiset_insert(front.map_values(f), front.len() as int, f(last));
        to_multiset_insert(rest.map_values(f), at, f(last));
    }
}

/// Only a file is ever stored, and under its own path.
pub proof fn lemma_stored_under_own_path(
    store: Map<Seq<char>, Stamp>,
    predicate: PredicateView,
    sighting: Sighting,
)
    requires
        sighting.settle(store, predicate) is Refreshed,
    ensures
        sighting.is_file(),
        sighting.settle(store, predicate)->Refreshed_record.path == sighting.path(),
{
}

/// Order independence of the scan: for a fixed store, a fixed predicate and
/// a fixed set of sightings, no two of them of one file, the scan ends with
/// the same store, the same matches and the same counters in whatever order
/// the sightings are processed.
pub proof fn lemma_scan_order_is_irrelevant(
    store: Map<Seq<char>, Stamp>,
    predicate: PredicateView,
    one: Seq<Sighting>,
    other: Seq<Sighting>,
)
    requires
        one.to_multiset() == other.to_multiset(),
        files_apart(one),
    ensures
        scan(store, predicate, one) == scan(store, predicate, other),
{
    let settle = |sighting: Sighting| sighting.settle(store, predicate);
    lemma_map_keeps_items(one, other, settle);
    lemma_outcomes_apart(store, predicate, one);
    lemma_merge_order_is_irrelevant(
        ScanView::start(store),
        outcomes_of(store, predicate, one),
        outcomes_of(store, predicate, other),
    );
}

/// Sightings of different files give outcomes that store under different
/// paths.
pub proof fn lemma_outcomes_apart(
    store: Map<Seq<char>, Stamp>,
    predicate: PredicateView,
    sightings: Seq<Sighting>,
)
    requires
        files_apart(sightings),
    ensures
        stores_apart(outcomes_of(store, predicate, sightings)),
{
    let outcomes = outcomes_of(store, predicate, sightings);
    assert forall|i: int, j: int| 0 <= i < j < outcomes.len() implies independent(
        #[trigger] outcomes[i],
        #[trigger] outcomes[j],
    ) by {
        if outcomes[i] is Refreshed && outcomes[j] is Refreshed {
            lemma_stored_under_own_path(store, predicate, sightings[i]);
            lemma_stored_under_own_path(store, predicate, sightings[j]);
        }
    }
}

/// The outcome stores a record under `path`.
pub open spec fn stores_under(outcome: OutcomeView, path: Seq<char>) -> bool {
    outcome is Refreshed && outcome->Refreshed_record.path == path
}

/// A path under which no outcome stores keeps what the store held for it.
pub proof fn lemma_untouched_path_stays(
    start: ScanView,
    outcomes: Seq<OutcomeView>,
    path: Seq<char>,
)
    requires
        forall|k: int| 0 <= k < outcomes.len() ==> !stores_under(#[trigger] outcomes[k], path),
    ensures
        start.merge_all(outcomes).store.contains_key(path) == start.store.contains_key(path),
        start.store.contains_key(path) ==> start.merge_all(outcomes).store[path]
            == start.store[path],
    decreases outcomes.len(),
{
    if outcomes.len() > 0 {
        let front = outcomes.drop_last();
        assert forall|k: int| 0 <= k < front.len() implies !stores_under(
            #[trigger] front[k],
            path,
        ) by {
            assert(front[k] == outcomes[k]);
        }
        lemma_untouched_path_stays(start, front, path);
        assert(!stores_under(outcomes[outcomes.len() - 1], path));
    }
}

/// A record that an outcome stores, and that no later outcome replaces, is
/// in the store when the scan ends.
pub proof fn lemma_stored_record_stays(start: ScanView, outcomes: Seq<OutcomeView>, at: int)
    requires
        0 <= at < outcomes.len(),
        outcomes[at] is Refreshed,
        forall|k: int| at < k < outcomes.len() ==> independent(outcomes[at], #[trigger] outcomes[k]),
    ensures
        start.merge_all(outcomes).store.contains_key(outcomes[at]->Refreshed_record.path),
        start.merge_all(outcomes).store[outcomes[at]->Refreshed_record.path]
            == outcomes[at]->Refreshed_record.stamp(),
{
    lemma_merge_last(start, outcomes, at);
}

/// Where no outcome stores a record, the store stays as it was.
pub proof fn lemma_store_kept_without_refresh(start: ScanView, outcomes: Seq<OutcomeView>)
    requires
        forall|k: int| 0 <= k < outcomes.len() ==> !(#[trigger] outcomes[k] is Refreshed),
    ensures
        start.merge_all(outcomes).store == start.store,
    decreases outcomes.len(),
{
    if outcomes.len() > 0 {
        let front = outcomes.drop_last();
        assert forall|k: int| 0 <= k < front.len() implies !(#[trigger] front[k] is Refreshed) by {
            assert(front[k] == outcomes[k]);
        }
        lemma_store_kept_without_refresh(start, front);
        assert(!(outcomes[outcomes.len() - 1] is Refreshed));
    }
}

/// What an outcome adds to the result: a refreshed record counts and is
/// reported as a confirmed one is.
pub open spec fn as_report(outcome: OutcomeView) -> OutcomeView {
    match outcome {
        OutcomeView::Refreshed { record, matched } => OutcomeView::Hit { record, matched },
        _ => outcome,
    }
}

/// Two lists of outcomes that add the same to the result, item by item,
/// give the same result.
pub proof fn lemma_result_follows_reports(
    one: ScanView,
    other: ScanView,
    ones: Seq<OutcomeView>,
    others: Seq<OutcomeView>,
)
    requires
        one.result == other.result,
        ones.len() == others.len(),
        forall|k: int| 0 <= k < ones.len() ==> as_report(#[trigger] ones[k]) == as_report(others[k]),
    ensures
        one.merge_all(ones).result == other.merge_all(others).result,
    decreases ones.len(),
{
    if ones.len() > 0 {
        let front = ones.drop_last();
        let others_front = others.drop_last();
        assert forall|k: int| 0 <= k < front.len() implies as_report(#[trigger] front[k])
            == as_report(others_front[k]) by {
            assert(front[k] == ones[k]);
            assert(others_front[k] == others[k]);
        }
        lemma_result_follows_reports(one, other, front, others_front);
        assert(as_report(ones[ones.len() - 1]) == as_report(others[ones.len() - 1]));
    }
}

/// Every sighting of the list is steady.
pub open spec fn all_steady(sightings: Seq<Sighting>) -> bool {
    forall|i: int| 0 <= i < sightings.len() ==> (#[trigger] sightings[i]).steady()
}

/// After a scan of steady sightings, no two of one file, the store holds
/// for every file that could be read the stamp that was read.
pub proof fn lemma_store_holds_what_was_read(
    store: Map<Seq<char>, Stamp>,
    predicate: PredicateView,
    sightings: Seq<Sighting>,
    at: int,
)
    requires
        files_apart(sightings),
        0 <= at < sightings.len(),
        sightings[at].is_file(),
        sightings[at].steady(),
        sightings[at].read is Ok,
    ensures
        scan(store, predicate, sightings).store.contains_key(sightings[at].path()),
        scan(store, predicate, sightings).store[sightings[at].path()] == sightings[at].read->Ok_0,
{
    let outcomes = outcomes_of(store, predicate, sightings);
    let start = ScanView::start(store);
    let path = sightings[at].path();
    lemma_outcomes_apart(store, predicate, sightings);
    if outcomes[at] is Refreshed {
        lemma_stored_record_stays(start, outcomes, at);
    } else {
        assert forall|k: int| 0 <= k < outcomes.len() implies !stores_under(
            #[trigger] outcomes[k],
            path,
        ) by {
            if k != at && outcomes[k] is Refreshed {
                lemma_stored_under_own_path(store, predicate, sightings[k]);
            }
        }
        lemma_untouched_path_stays(start, outcomes, path);
    }
}

/// After a scan of steady sightings, no two of one file, a second
/// settling of any of them against the store that the scan left adds to the
/// result what the first settling added, stores nothing, and needs no
/// fresh read where the file can be read.
pub proof fn lemma_second_settling(
    store: Map<Seq<char>, Stamp>,
    predicate: PredicateView,
    sightings: Seq<Sighting>,
    at: int,
)
    requires
        files_apart(sightings),
        all_steady(sightings),
        0 <= at < sightings.len(),
    ensures
        as_report(sightings[at].settle(scan(store, predicate, sightings).store, predicate))
            == as_report(sightings[at].settle(store, predicate)),
        !(sightings[at].settle(scan(store, predicate, sightings).store, predicate) is Refreshed),
        sightings[at].is_file() && sightings[at].read is Ok ==> sightings[at].settle(
            scan(store, predicate, sightings).store,
            predicate,
        ) is Hit && !sightings[at].reads_afresh(scan(store, predicate, sightings).store, predicate),
{
    assert(sightings[at].steady());
    if sightings[at].is_file() && sightings[at].read is Ok {
        lemma_store_holds_what_was_read(store, predicate, sightings, at);
    }
}

/// Idempotence: a second scan of an unchanged tree changes nothing.
///
/// Let a scan run over sightings of which no two are of one file and in
/// which no file changes between its two reads, and let a second scan run
/// over the same sightings from the store that the first one left. Then the
/// second scan ends with the same store and with the same matches and
/// counters as the first, and it settles every file whose metadata can be
/// read by the probe alone, without a fresh read.
pub proof fn lemma_second_scan_changes_nothing(
    store: Map<Seq<char>, Stamp>,
    predicate: PredicateView,
    sightings: Seq<Sighting>,
)
    requires
        files_apart(sightings),
        all_steady(sightings),
    ensures
        scan(scan(store, predicate, sightings).store, predicate, sightings).store == scan(
            store,
            predicate,
            sightings,
        ).store,
        scan(scan(store, predicate, sightings).store, predicate, sightings).result == scan(
            store,
            predicate,
            sightings,
        ).result,
        forall|i: int|
            0 <= i < sightings.len() && (#[trigger] sightings[i]).is_file() && sightings[i].read is Ok
                ==> sightings[i].settle(scan(store, predicate, sightings).store, predicate) is Hit
                && !sightings[i].reads_afresh(scan(store, predicate, sightings).store, predicate),
{
    let first = scan(store, predicate, sightings);
    let ones = outcomes_of(store, predicate, sightings);
    let others = outcomes_of(first.store, predicate, sightings);
    assert forall|k: int| 0 <= k < ones.len() implies as_report(#[trigger] ones[k]) == as_report(
        others[k],
    ) by {
        lemma_second_settling(store, predicate, sightings, k);
    }
    assert forall|k: int| 0 <= k < others.len() implies !(#[trigger] others[k] is Refreshed) by {
        lemma_second_settling(store, predicate, sightings, k);
    }
    assert forall|i: int|
        0 <= i < sightings.len() && (#[trigger] sightings[i]).is_file()
            && sightings[i].read is Ok implies sightings[i].settle(first.store, predicate) is Hit
        && !sightings[i].reads_afresh(first.store, predicate) by {
        lemma_second_settling(store, predicate, sightings, i);
    }
    lemma_store_kept_without_refresh(ScanView::start(first.store), others);
    lemma_result_follows_reports(ScanView::start(store), ScanView::start(first.store), ones, others);
}

/// Cache correctness: a file whose size or modification time no longer
/// equals the cached ones is read again, and the store ends with the values
/// that were read.
///
/// For a file with a record whose probe returns a stamp other than the
/// cached one, the oracle denies freshness, the engine asks for a fresh
/// read, and, where that read succeeds and no other sighting is of the same
/// file, the scan ends with the stamp of the fresh read under the file's
/// path.
pub proof fn lemma_changed_file_is_read_again(
    store: Map<Seq<char>, Stamp>,
    predicate: PredicateView,
    sightings: Seq<Sighting>,
    at: int,
)
    requires
        files_apart(sightings),
        0 <= at < sightings.len(),
        sightings[at].is_file(),
        store.contains_key(sightings[at].path()),
        sightings[at].probe is Ok,
        sightings[at].probe->Ok_0 != store[sightings[at].path()],
        sightings[at].read is Ok,
    ensures
        !fresh(store[sightings[at].path()], sightings[at].probe->Ok_0),
        sightings[at].reads_afresh(store, predicate),
        sightings[at].settle(store, predicate) == (OutcomeView::Refreshed {
            record: RecordView::of(sightings[at].path(), sightings[at].read->Ok_0),
            matched: predicate.accepts(sightings[at].entry->name, sightings[at].read->Ok_0.size),
        }),
        scan(store, predicate, sightings).store.contains_key(sightings[at].path()),
        scan(store, predicate, sightings).store[sightings[at].path()] == sightings[at].read->Ok_0,
{
    let outcomes = outcomes_of(store, predicate, sightings);
    lemma_outcomes_apart(store, predicate, sightings);
    lemma_stored_record_stays(ScanView::start(store), outcomes, at);
}

/// Error isolation: a file that cannot be read for want of permission adds
/// one to the scanned files and one to the permission-denied faults, and
/// nothing else. Wherever its sighting stands among the others, the store,
/// the matches and the count of other faults are those of the scan without
/// it.
pub proof fn lemma_denied_file_is_isolated(
    store: Map<Seq<char>, Stamp>,
    predicate: PredicateView,
    sightings: Seq<Sighting>,
    at: int,
    denied: Sighting,
)
    requires
        0 <= at <= sightings.len(),
        denied.is_file(),
        denied.probe == Err::<Stamp, Fault>(Fault { io: Some(IoKind::PermissionDenied) }),
        denied.read == Err::<Stamp, Fault>(Fault { io: Some(IoKind::PermissionDenied) }),
    ensures
        scan(store, predicate, sightings.insert(at, denied)).store == scan(
            store,
            predicate,
            sightings,
        ).store,
        scan(store, predicate, sightings.insert(at, denied)).result == (ResultView {
            files_scanned: scan(store, predicate, sightings).result.files_scanned + 1,
            permission_denied: scan(store, predicate, sightings).result.permission_denied + 1,
            ..scan(store, predicate, sightings).result
        }),
{
    let with = sightings.insert(at, denied);
    let outcomes = outcomes_of(store, predicate, with);
    assert(with[at] == denied);
    assert(outcomes[at] == OutcomeView::ReadFault(FaultKind::PermissionDenied));
    assert(with.remove(at) == sightings);
    assert(outcomes.remove(at) == outcomes_of(store, predicate, sightings));
    lemma_merge_last(ScanView::start(store), outcomes, at);
}

/// Settling side by side and settling in turn give the same scan: where no
/// two sightings are of one file, it makes no difference whether every
/// sighting is settled against the store as the scan found it or against
/// the store as the merges before it left it.
pub proof fn lemma_scan_in_turn_is_the_same(
    store: Map<Seq<char>, Stamp>,
    predicate: PredicateView,
    sightings: Seq<Sighting>,
)
    requires
        files_apart(sightings),
    ensures
        scan_in_turn(store, predicate, sightings) == scan(store, predicate, sightings),
    decreases sightings.len(),
{
    if sightings.len() > 0 {
        let front = sightings.drop_last();
        let last = sightings.last();
        assert(files_apart(front)) by {
            assert forall|i: int, j: int|
                0 <= i < j < front.len() && (#[trigger] front[i]).is_file() && (
                #[trigger] front[j]).is_file() implies front[i].path() != front[j].path() by {
                assert(front[i] == sightings[i]);
                assert(front[j] == sightings[j]);
            }
        }
        lemma_scan_in_turn_is_the_same(store, predicate, front);
        let outcomes = outcomes_of(store, predicate, sightings);
        let before = outcomes_of(store, predicate, front);
        assert(outcomes.drop_last() == before);
        assert(outcomes.last() == last.settle(store, predicate));
        if last.is_file() {
            assert forall|k: int| 0 <= k < before.len() implies !stores_under(
                #[trigger] before[k],
                last.path(),
            ) by {
                if before[k] is Refreshed {
                    lemma_stored_under_own_path(store, predicate, front[k]);
                    assert(front[k] == sightings[k]);
                    assert(last == sightings[sightings.len() - 1]);
                }
            }
            lemma_untouched_path_stays(ScanView::start(store), before, last.path());
        }
    }
}

} // verus!
