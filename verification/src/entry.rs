//! What a walk of the tree yields.

use crate::fault::Fault;
use vstd::prelude::*;

verus! {

/// The type of a filesystem object.
#[derive(Clone, Copy, Debug, PartialEq, Eq, Structural)]
pub enum EntryKind {
    /// A regular file.
    File,
    /// A directory.
    Directory,
    /// Anything else: a link, a socket, a device.
    Other,
}

/// One item of a walk: an object that was found, or a fault that kept the
/// walker from reading one. The order in which a walk yields its items is
/// not specified.
#[derive(Clone, Debug, PartialEq, Eq)]
pub enum Entry {
    /// An object of the tree.
    Found {
        kind: EntryKind,
        /// Path of the object.
        path: String,
        /// Name of the object, without its directory.
        name: String,
    },
    /// The walker could not descend into a directory or read an entry.
    Fault(Fault),
}

/// Mathematical value of an [`Entry`].
pub enum EntryView {
    Found { kind: EntryKind, path: Seq<char>, name: Seq<char> },
    Fault(Fault),
}

impl View for Entry {
    type V = EntryView;

    open spec fn view(&self) -> EntryView {
        match self {
            Entry::Found { kind, path, name } => EntryView::Found {
                kind: *kind,
                path: path@,
                name: name@,
            },
            Entry::Fault(fault) => EntryView::Fault(*fault),
        }
    }
}

impl EntryView {
    /// Whether the entry is a regular file: only those are looked up,
    /// counted as scanned and classified.
    pub open spec fn is_file(self) -> bool {
        self matches EntryView::Found { kind, .. } && kind == EntryKind::File
    }
}

} // verus!
