//! Faults met while walking the tree or reading metadata, and how they are
//! counted.

use vstd::prelude::*;

verus! {

/// The kind of I/O error that lies under a fault, as far as the scan tells
/// kinds apart.
#[derive(Clone, Copy, Debug, PartialEq, Eq, Structural)]
pub enum IoKind {
    /// The platform refused access.
    PermissionDenied,
    /// Any other I/O error: a broken link, a vanished file, a device error.
    Other,
}

/// A failure to read a directory entry or the metadata of a file.
#[derive(Clone, Copy, Debug, PartialEq, Eq, Structural)]
pub struct Fault {
    /// The underlying I/O error, or `None` where the failure carries none
    /// (a cycle of links, for one).
    pub io: Option<IoKind>,
}

/// The two tallies that faults are counted under.
#[derive(Clone, Copy, Debug, PartialEq, Eq, Structural)]
pub enum FaultKind {
    PermissionDenied,
    Other,
}

impl Fault {
    /// The tally a fault counts under: permission-denied when the underlying
    /// I/O error says so, other in every other case.
    pub open spec fn kind(self) -> FaultKind {
        if self.io == Some(IoKind::PermissionDenied) {
            FaultKind::PermissionDenied
        } else {
            FaultKind::Other
        }
    }

    /// Classifies the fault.
    pub fn classify(&self) -> (kind: FaultKind)
        ensures
            kind == self.kind(),
    {
        match self.io {
            Some(IoKind::PermissionDenied) => FaultKind::PermissionDenied,
            Some(IoKind::Other) => FaultKind::Other,
            None => FaultKind::Other,
        }
    }
}

} // verus!
