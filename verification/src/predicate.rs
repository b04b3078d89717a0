//! The classification rule of a run.

use vstd::prelude::*;

verus! {

/// The rule that decides which files a run reports. It is fixed before the
/// scan begins.
#[derive(Clone, Debug, PartialEq, Eq)]
pub enum Predicate {
    /// Files of at least this many bytes.
    SizeAtLeast(u64),
    /// Files whose name, without its directory, is exactly this string.
    NameEquals(String),
}

/// Mathematical value of a [`Predicate`].
pub enum PredicateView {
    SizeAtLeast(u64),
    NameEquals(Seq<char>),
}

impl View for Predicate {
    type V = PredicateView;

    open spec fn view(&self) -> PredicateView {
        match self {
            Predicate::SizeAtLeast(threshold) => PredicateView::SizeAtLeast(*threshold),
            Predicate::NameEquals(target) => PredicateView::NameEquals(target@),
        }
    }
}

impl PredicateView {
    /// Whether a file called `name` of `size` bytes satisfies the rule.
    pub open spec fn accepts(self, name: Seq<char>, size: u64) -> bool {
        match self {
            PredicateView::SizeAtLeast(threshold) => size >= threshold,
            PredicateView::NameEquals(target) => name == target,
        }
    }
}

impl Predicate {
    /// Applies the rule to a file called `name` of `size` bytes.
    pub fn matches(&self, name: &String, size: u64) -> (accepted: bool)
        ensures
            accepted == self@.accepts(name@, size),
    {
        match self {
            Predicate::SizeAtLeast(threshold) => size >= *threshold,
            Predicate::NameEquals(target) => *name == *target,
        }
    }
}

} // verus!
