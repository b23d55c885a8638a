//! The state of one token: a drop count that is 0 until the token is dropped
//! and 1 from then on.

use vstd::prelude::*;

verus! {

/// The state of a particular `DropToken`.
///
/// The count has two legal values, 0 and 1, and moves from 0 to 1 at most once.
#[derive(Debug)]
pub struct DropState {
    count: usize,
}

impl DropState {
    #[verifier::type_invariant]
    spec fn legal(self) -> bool {
        self.count <= 1
    }

    /// True when the token associated with this state has been dropped.
    pub closed spec fn dropped(&self) -> bool {
        self.count == 1
    }

    /// The drop count that stands for a state: 1 once dropped, 0 before.
    pub open spec fn count_of(dropped: bool) -> nat {
        if dropped {
            1
        } else {
            0
        }
    }

    /// A fresh state, not yet dropped.
    pub fn new() -> (state: Self)
        ensures
            !state.dropped(),
    {
        DropState { count: 0 }
    }

    /// The state that a raw drop count stands for. Counts other than 0 and 1
    /// stand for no state.
    pub fn from_count(count: usize) -> (state: Option<Self>)
        ensures
            state.is_some() <==> count <= 1,
            state matches Some(s) ==> s.dropped() == (count == 1),
    {
        if count <= 1 {
            Some(DropState { count })
        } else {
            None
        }
    }

    /// The drop count of this state.
    pub fn count(&self) -> (count: usize)
        ensures
            count == Self::count_of(self.dropped()),
    {
        proof {
            use_type_invariant(self);
        }
        self.count
    }

    /// Returns true if the token associated with this state has been dropped.
    pub fn is_dropped(&self) -> (b: bool)
        ensures
            b == self.dropped(),
    {
        !self.is_not_dropped()
    }

    /// The inverse of `is_dropped()`.
    pub fn is_not_dropped(&self) -> (b: bool)
        ensures
            b == !self.dropped(),
    {
        proof {
            use_type_invariant(self);
        }
        self.count == 0
    }

    /// Records the drop of the token. A state is marked once: marking a state
    /// that is already dropped is a double drop, which the precondition
    /// excludes.
    pub fn set_dropped(&mut self)
        requires
            !old(self).dropped(),
        ensures
            final(self).dropped(),
    {
        self.count = 1;
    }

    /// Gives up a state whose token has been dropped. A state that is given
    /// up while not dropped is a leaked token, which the precondition
    /// excludes.
    pub fn release(self)
        requires
            self.dropped(),
    {
    }
}

} // verus!
