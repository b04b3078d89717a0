//! File records and the staleness oracle.

use vstd::prelude::*;

verus! {

/// Size and modification time of a file, as one metadata read reports them.
#[derive(Clone, Copy, Debug, PartialEq, Eq, Structural)]
pub struct Stamp {
    /// Length of the file in bytes.
    pub size: u64,
    /// Whole seconds since the Unix epoch, or `None` where the platform
    /// reports no modification time.
    pub modified_at: Option<u64>,
}

/// What the cache remembers of one regular file.
#[derive(Debug, PartialEq, Eq)]
pub struct FileRecord {
    /// Absolute path of the file: the key under which it is stored.
    pub path: String,
    /// Length in bytes when the file was last read.
    pub size: u64,
    /// Modification time when the file was last read.
    pub modified_at: Option<u64>,
}

/// Mathematical value of a [`FileRecord`].
pub struct RecordView {
    pub path: Seq<char>,
    pub size: u64,
    pub modified_at: Option<u64>,
}

impl RecordView {
    /// The size and time the record holds.
    pub open spec fn stamp(self) -> Stamp {
        Stamp { size: self.size, modified_at: self.modified_at }
    }

    /// The record that stores `stamp` under `path`.
    pub open spec fn of(path: Seq<char>, stamp: Stamp) -> RecordView {
        RecordView { path, size: stamp.size, modified_at: stamp.modified_at }
    }
}

impl View for FileRecord {
    type V = RecordView;

    open spec fn view(&self) -> RecordView {
        RecordView { path: self.path@, size: self.size, modified_at: self.modified_at }
    }
}

impl Clone for FileRecord {
    fn clone(&self) -> (copy: Self)
        ensures
            copy == *self,
    {
        FileRecord { path: self.path.clone(), size: self.size, modified_at: self.modified_at }
    }
}

impl FileRecord {
    /// Builds the record that stores `stamp` under `path`.
    pub fn new(path: String, stamp: Stamp) -> (record: FileRecord)
        ensures
            record@ == RecordView::of(path@, stamp),
    {
        FileRecord { path, size: stamp.size, modified_at: stamp.modified_at }
    }

    /// The size and time the record holds.
    pub fn stamp(&self) -> (stamp: Stamp)
        ensures
            stamp == self@.stamp(),
    {
        Stamp { size: self.size, modified_at: self.modified_at }
    }
}

/// A cached stamp is fresh when both its size and its modification time
/// equal the live ones. A missing time equals only a missing time.
pub open spec fn fresh(cached: Stamp, live: Stamp) -> bool {
    cached.size == live.size && cached.modified_at == live.modified_at
}

/// The staleness oracle: tells whether `cached` still describes a file whose
/// live metadata read returned `live_size` and `live_modified`.
pub fn is_fresh(cached: &FileRecord, live_size: u64, live_modified: Option<u64>) -> (hit: bool)
    ensures
        hit == fresh(cached@.stamp(), Stamp { size: live_size, modified_at: live_modified }),
        hit == (cached.size == live_size && cached.modified_at == live_modified),
{
    let same_time = match (cached.modified_at, live_modified) {
        (Some(then), Some(now)) => then == now,
        (None, None) => true,
        _ => false,
    };
    cached.size == live_size && same_time
}

} // verus!
