//! The metadata store: last-known size and modification time by path.

use crate::record::{FileRecord, RecordView, Stamp};
use vstd::hash_map::StringHashMap;
use vstd::prelude::*;

verus! {

/// The values of a list of records, in the same order.
pub open spec fn record_views(records: Seq<FileRecord>) -> Seq<RecordView> {
    records.map_values(|record: FileRecord| record@)
}

/// The mapping that a list of records denotes: every record is stored under
/// its path, and of two records with one path the later one stays.
pub open spec fn store_of(records: Seq<RecordView>) -> Map<Seq<char>, Stamp>
    decreases records.len(),
{
    if records.len() == 0 {
        Map::empty()
    } else {
        store_of(records.drop_last()).insert(records.last().path, records.last().stamp())
    }
}

/// No two records of the list share a path.
pub open spec fn distinct_paths(records: Seq<RecordView>) -> bool {
    forall|i: int, j: int|
        0 <= i < j < records.len() ==> (#[trigger] records[i]).path != (#[trigger] records[j]).path
}

/// A path is stored by `store_of` exactly when some record of the list has it.
pub proof fn lemma_store_of_keys(records: Seq<RecordView>, path: Seq<char>)
    ensures
        store_of(records).contains_key(path) <==> exists|i: int|
            0 <= i < records.len() && (#[trigger] records[i]).path == path,
    decreases records.len(),
{
    if records.len() > 0 {
        let front = records.drop_last();
        lemma_store_of_keys(front, path);
        if store_of(records).contains_key(path) {
            if records.last().path == path {
                assert(records[records.len() - 1].path == path);
            } else {
                let i = choose|i: int| 0 <= i < front.len() && (#[trigger] front[i]).path == path;
                assert(records[i].path == path);
            }
        }
        if exists|i: int| 0 <= i < records.len() && (#[trigger] records[i]).path == path {
            let i = choose|i: int| 0 <= i < records.len() && (#[trigger] records[i]).path == path;
            if i < front.len() {
                assert(front[i].path == path);
            }
        }
    }
}

/// Where no two records share a path, `store_of` holds the stamp of each.
pub proof fn lemma_store_of_distinct(records: Seq<RecordView>, i: int)
    requires
        distinct_paths(records),
        0 <= i < records.len(),
    ensures
        store_of(records).contains_key(records[i].path),
        store_of(records)[records[i].path] == records[i].stamp(),
    decreases records.len(),
{
    let front = records.drop_last();
    if i < front.len() {
        assert(distinct_paths(front)) by {
            assert forall|a: int, b: int| 0 <= a < b < front.len() implies (#[trigger] front[a]).path
                != (#[trigger] front[b]).path by {
                assert(records[a].path != records[b].path);
            }
        }
        lemma_store_of_distinct(front, i);
        assert(front[i] == records[i]);
        assert(records[i].path != records[records.len() - 1].path);
    }
}

/// In-memory mapping from absolute path to the last-known stamp of the file.
///
/// The records lie in a list, and an index from path to position in the
/// list makes lookups and updates constant-time.
pub struct MetadataStore {
    records: Vec<FileRecord>,
    index: StringHashMap<usize>,
}

impl View for MetadataStore {
    type V = Map<Seq<char>, Stamp>;

    closed spec fn view(&self) -> Map<Seq<char>, Stamp> {
        Map::new(
            |path: Seq<char>| self.index@.contains_key(path),
            |path: Seq<char>| self.records@[self.index@[path] as int]@.stamp(),
        )
    }
}

impl MetadataStore {
    /// The index knows exactly the paths of the records, each at its position.
    #[verifier::type_invariant]
    spec fn well_formed(self) -> bool {
        &&& forall|i: int|
            #![trigger self.records@[i]]
            0 <= i < self.records@.len() ==> {
                &&& self.index@.contains_key(self.records@[i].path@)
                &&& self.index@[self.records@[i].path@] == i
            }
        &&& forall|path: Seq<char>| #[trigger]
            self.index@.contains_key(path) ==> {
                &&& self.index@[path] < self.records@.len()
                &&& self.records@[self.index@[path] as int].path@ == path
            }
    }

    /// An empty store.
    pub fn new() -> (store: MetadataStore)
        ensures
            store@ == Map::<Seq<char>, Stamp>::empty(),
    {
        let store = MetadataStore { records: Vec::new(), index: StringHashMap::new() };
        assert(store@ =~= Map::<Seq<char>, Stamp>::empty());
        store
    }

    /// Builds the store that a decoded cache denotes. Of two records with
    /// one path the later one stays.
    pub fn from_records(records: Vec<FileRecord>) -> (store: MetadataStore)
        ensures
            store@ == store_of(record_views(records@)),
    {
        let mut store = MetadataStore::new();
        for record in iter: records
            invariant
                iter.seq() == records@,
                store@ == store_of(record_views(records@.take(iter.index() as int))),
        {
            let ghost done = iter.index() as int;
            assert(records@.take(done + 1).drop_last() == records@.take(done));
            assert(record_views(records@.take(done + 1)).drop_last() == record_views(
                records@.take(done),
            ));
            store.upsert(record);
        }
        assert(records@.take(records@.len() as int) == records@);
        store
    }

    /// Opens the store for a run. `decoded` is what the durable cache held,
    /// or `None` where it was absent or could not be decoded: the run then
    /// starts cold, with an empty store.
    pub fn load(decoded: Option<Vec<FileRecord>>) -> (store: MetadataStore)
        ensures
            store@ == match decoded {
                Some(records) => store_of(record_views(records@)),
                None => Map::<Seq<char>, Stamp>::empty(),
            },
    {
        match decoded {
            Some(records) => MetadataStore::from_records(records),
            None => MetadataStore::new(),
        }
    }

    /// The number of paths stored.
    pub fn len(&self) -> (count: usize)
        ensures
            count == self@.len(),
    {
        assert(self@.dom() =~= self.index@.dom());
        self.index.len()
    }

    /// Tells whether a record is stored under `path`.
    pub fn contains(&self, path: &str) -> (found: bool)
        ensures
            found == self@.contains_key(path@),
    {
        self.index.contains_key(path)
    }

    /// Looks up the record stored under `path`.
    pub fn get(&self, path: &str) -> (found: Option<FileRecord>)
        ensures
            match found {
                Some(record) => self@.contains_key(path@) && record@ == RecordView::of(
                    path@,
                    self@[path@],
                ),
                None => !self@.contains_key(path@),
            },
    {
        proof {
            use_type_invariant(self);
        }
        match self.index.get(path) {
            Some(position) => Some(self.records[*position].clone()),
            None => None,
        }
    }

    /// Lists every record of the store, one per path; the order of the list
    /// carries no meaning. Building a store from the list again gives a
    /// store equal to this one.
    pub fn snapshot(&self) -> (records: Vec<FileRecord>)
        ensures
            distinct_paths(record_views(records@)),
            store_of(record_views(records@)) == self@,
    {
        proof {
            use_type_invariant(self);
        }
        let mut records: Vec<FileRecord> = Vec::with_capacity(self.records.len());
        let mut i: usize = 0;
        while i < self.records.len()
            invariant
                i <= self.records.len(),
                records@ == self.records@.take(i as int),
            decreases self.records.len() - i,
        {
            records.push(self.records[i].clone());
            i += 1;
        }
        proof {
            assert(records@ == self.records@);
            let views = record_views(records@);
            assert forall|path: Seq<char>| #[trigger]
                store_of(views).contains_key(path) == self@.contains_key(path) by {
                lemma_store_of_keys(views, path);
                if self@.contains_key(path) {
                    assert(views[self.index@[path] as int].path == path);
                }
            }
            assert forall|path: Seq<char>| #[trigger] self@.contains_key(path) implies store_of(
                views,
            )[path] == self@[path] by {
                lemma_store_of_distinct(views, self.index@[path] as int);
            }
            assert(store_of(views) =~= self@);
        }
        records
    }

    /// Stores `record` under its path, replacing what was stored there.
    pub fn upsert(&mut self, record: FileRecord)
        ensures
            final(self)@ == old(self)@.insert(record@.path, record@.stamp()),
    {
        proof {
            use_type_invariant(&*self);
        }
        let mut taken = MetadataStore::new();
        std::mem::swap(self, &mut taken);
        let MetadataStore { mut records, mut index } = taken;
        match index.get(record.path.as_str()) {
            Some(position) => {
                let at: usize = *position;
                records.set(at, record);
            },
            None => {
                let at: usize = records.len();
                index.insert(record.path.clone(), at);
                records.push(record);
            },
        }
        let updated = MetadataStore { records, index };
        assert(updated@ =~= old(self)@.insert(record@.path, record@.stamp()));
        *self = updated;
    }
}

} // verus!
