//! The set of drop states and the tokens issued from it.

use crate::model::{every_cell_dropped, is_live, issue, mark, no_cell_dropped};
use crate::state::DropState;
use vstd::prelude::*;

verus! {

/// Where the state of a token is kept.
#[derive(Debug)]
enum Place {
    /// In the set that issued the token, at this position.
    InSet(usize),
    /// With the token itself: no set lists it.
    Alone(DropState),
}

/// A drop-checking token.
///
/// Created by `DropCheck`. A token stands for one state, and is given back to
/// the set that issued it to be dropped. It cannot be copied:
/// `DropToken::clone_in` makes a token with a state of its own.
#[derive(Debug)]
pub struct DropToken {
    place: Place,
}

impl DropToken {
    #[verifier::type_invariant]
    spec fn own_state_is_live(self) -> bool {
        self.place matches Place::Alone(state) ==> !state.dropped()
    }

    /// The position of this token's state in the set that issued the token,
    /// or `None` for a token that no set tracks.
    pub closed spec fn slot(&self) -> Option<int> {
        match self.place {
            Place::InSet(slot) => Some(slot as int),
            Place::Alone(_) => None,
        }
    }

    /// The position of this token's state in the set that issued the token,
    /// or `None` for a token that no set tracks.
    pub fn index(&self) -> (index: Option<usize>)
        ensures
            index.is_some() == self.slot().is_some(),
            index matches Some(i) ==> self.slot() == Some(i as int),
    {
        match &self.place {
            Place::InSet(slot) => Some(*slot),
            Place::Alone(_) => None,
        }
    }

    /// Creates a token with a fresh state. `set` is the set that issued this
    /// token, or `None` when that set is gone.
    ///
    /// Where this token is tracked and its set is still there, the new state
    /// is appended to the set, and the two tokens are tracked apart: each has
    /// to be dropped, and dropping one leaves the state of the other as it
    /// is. Otherwise the clone keeps its state to itself, no set tracks it,
    /// and `set` is left as it was.
    pub fn clone_in(&self, set: Option<&mut DropCheck>) -> (clone: DropToken)
        ensures
            set matches Some(s) ==> final(s)@ == (if self.slot().is_some() {
                issue(s@)
            } else {
                s@
            }),
            set matches Some(s) ==> clone.slot() == (if self.slot().is_some() {
                Some(s@.len() as int)
            } else {
                None
            }),
            set matches Some(s) ==> (s.holds(self) ==> final(s).holds(self) && final(s).holds(
                &clone,
            ) && clone.slot() != self.slot()),
            set.is_none() ==> clone.slot().is_none(),
    {
        let state = DropState::new();
        match set {
            Some(set) => match &self.place {
                Place::InSet(_) => {
                    let slot = set.len();
                    set.push(state);
                    DropToken { place: Place::InSet(slot) }
                },
                Place::Alone(_) => DropToken { place: Place::Alone(state) },
            },
            None => DropToken { place: Place::Alone(state) },
        }
    }

    /// Drops a token whose set is gone, or that no set tracks. A state that
    /// the token kept to itself is marked as dropped and handed back, to be
    /// given up by `DropState::release`; a token whose state is listed in a
    /// set hands back `None`.
    pub fn drop_alone(self) -> (state: Option<DropState>)
        ensures
            state.is_some() == self.slot().is_none(),
            state matches Some(s) ==> s.dropped(),
    {
        proof {
            use_type_invariant(&self);
        }
        match self.place {
            Place::InSet(_) => None,
            Place::Alone(state) => {
                let mut state = state;
                state.set_dropped();
                Some(state)
            },
        }
    }
}

/// One of `tokens` stands for the state at `slot`.
pub open spec fn names(tokens: Seq<DropToken>, slot: int) -> bool {
    exists|i: int| 0 <= i < tokens.len() && (#[trigger] tokens[i].slot()) == Some(slot)
}

/// A set of `DropToken`'s.
///
/// The set holds the state of every token it has issued, in order of issue.
/// States are never removed: a state stays listed after its token is dropped.
#[derive(Debug)]
pub struct DropCheck {
    set: Vec<DropState>,
}

impl View for DropCheck {
    type V = Seq<bool>;

    /// One flag per issued state, in order of issue: true once dropped.
    closed spec fn view(&self) -> Seq<bool> {
        self.set@.map_values(|state: DropState| state.dropped())
    }
}

impl Default for DropCheck {
    /// The empty set.
    fn default() -> (set: Self)
        ensures
            set@ == Seq::<bool>::empty(),
    {
        let set = DropCheck { set: Vec::new() };
        assert(set@ =~= Seq::<bool>::empty());
        set
    }
}

impl DropCheck {
    /// `token` stands for a state of this set that has not been dropped.
    ///
    /// Tokens are told apart by position alone. A set does not tell its own
    /// tokens from those of another set, so each token is to go back to the
    /// set that issued it.
    pub open spec fn holds(&self, token: &DropToken) -> bool {
        token.slot() matches Some(slot) && is_live(self@, slot)
    }

    /// Creates a new `DropCheck` set. Nothing is tracked yet, so it holds
    /// both that no token has been dropped and that every token has been
    /// dropped.
    pub fn new() -> (set: Self)
        ensures
            set@ == Seq::<bool>::empty(),
            no_cell_dropped(set@),
            every_cell_dropped(set@),
    {
        Self::default()
    }

    /// The number of states in the set: one for each token issued so far.
    pub fn len(&self) -> (len: usize)
        ensures
            len == self@.len(),
    {
        self.set.len()
    }

    /// Appends a state to the set.
    pub fn push(&mut self, state: DropState)
        ensures
            final(self)@ == old(self)@.push(state.dropped()),
    {
        self.set.push(state);
        assert(self@ =~= old(self)@.push(state.dropped()));
    }

    /// Creates a new `DropToken`, whose state is part of this set.
    pub fn token(&mut self) -> (token: DropToken)
        ensures
            final(self)@ == issue(old(self)@),
            token.slot() == Some(old(self)@.len() as int),
            final(self).holds(&token),
    {
        let slot = self.set.len();
        self.push(DropState::new());
        DropToken { place: Place::InSet(slot) }
    }

    /// Creates a new `DropToken`, and also gives you the position of its
    /// state, by which `state` finds it for as long as the set lives.
    pub fn pair(&mut self) -> (pair: (DropToken, usize))
        ensures
            final(self)@ == issue(old(self)@),
            pair.0.slot() == Some(old(self)@.len() as int),
            pair.1 == old(self)@.len(),
            final(self).holds(&pair.0),
    {
        let slot = self.set.len();
        self.push(DropState::new());
        (DropToken { place: Place::InSet(slot) }, slot)
    }

    /// The state at `slot`, if the set holds that many states.
    pub fn state(&self, slot: usize) -> (state: Option<&DropState>)
        ensures
            state.is_some() <==> slot < self@.len(),
            state matches Some(s) ==> s.dropped() == self@[slot as int],
    {
        if slot < self.set.len() {
            Some(&self.set[slot])
        } else {
            None
        }
    }

    /// Returns true if `token` stands for a state of this set that has not
    /// been dropped: if the token may be dropped here.
    pub fn tracks(&self, token: &DropToken) -> (b: bool)
        ensures
            b == self.holds(token),
    {
        match &token.place {
            Place::InSet(slot) => *slot < self.set.len() && self.set[*slot].is_not_dropped(),
            Place::Alone(_) => false,
        }
    }

    /// Drops `token`: marks its state as dropped, and leaves every other
    /// state as it is. The token has to stand for a state of this set that
    /// is not dropped yet, so that no state is marked twice.
    pub fn drop_token(&mut self, token: DropToken)
        requires
            old(self).holds(&token),
        ensures
            final(self)@ == mark(old(self)@, token.slot().unwrap()),
    {
        match token.place {
            Place::InSet(slot) => {
                self.set[slot].set_dropped();
                assert(self@ =~= mark(old(self)@, slot as int));
            },
            Place::Alone(_) => {},
        }
    }

    /// Drops every token of a container, last to first, as dropping the
    /// container would. Each token has to stand for a state of this set that
    /// is not dropped yet, and no two of them for the same state. The states
    /// of exactly these tokens become dropped.
    pub fn drop_all(&mut self, tokens: Vec<DropToken>)
        requires
            forall|i: int| 0 <= i < tokens.len() ==> old(self).holds(&tokens[i]),
            forall|i: int, j: int|
                0 <= i < j < tokens.len() ==> tokens[i].slot() != tokens[j].slot(),
        ensures
            final(self)@.len() == old(self)@.len(),
            forall|slot: int|
                0 <= slot < old(self)@.len() ==> final(self)@[slot] == (old(self)@[slot]
                    || names(tokens@, slot)),
    {
        let ghost before = self@;
        let ghost all = tokens@;
        let mut rest = tokens;
        while rest.len() > 0
            invariant
                rest.len() <= all.len(),
                rest@ =~= all.subrange(0, rest.len() as int),
                self@.len() == before.len(),
                forall|i: int|
                    0 <= i < all.len() ==> ((#[trigger] all[i].slot()) matches Some(slot)
                        && is_live(before, slot)),
                forall|i: int, j: int| 0 <= i < j < all.len() ==> all[i].slot() != all[j].slot(),
                forall|slot: int|
                    0 <= slot < before.len() ==> self@[slot] == (before[slot] || names(
                        all.skip(rest.len() as int),
                        slot,
                    )),
            decreases rest.len(),
        {
            let ghost done = all.skip(rest.len() as int);
            let token = rest.pop().unwrap();
            let ghost at = token.slot().unwrap();
            proof {
                assert(token == all[rest.len() as int]);
                if names(done, at) {
                    let i = choose|i: int| 0 <= i < done.len() && done[i].slot() == Some(at);
                    assert(all[rest.len() + 1 + i].slot() == Some(at));
                }
            }
            self.drop_token(token);
            proof {
                let now = all.skip(rest.len() as int);
                assert(now[0] == token);
                assert forall|slot: int| 0 <= slot < before.len() implies self@[slot] == (
                before[slot] || names(now, slot)) by {
                    if names(done, slot) {
                        let i = choose|i: int| 0 <= i < done.len() && done[i].slot() == Some(slot);
                        assert(now[i + 1] == done[i]);
                    }
                    if names(now, slot) && slot != at {
                        let i = choose|i: int| 0 <= i < now.len() && now[i].slot() == Some(slot);
                        assert(done[i - 1] == now[i]);
                    }
                }
            }
        }
        assert(all.skip(0) =~= all);
    }

    /// Returns true if none of the `Token`s in this set have been dropped.
    pub fn none_dropped(&self) -> (b: bool)
        ensures
            b == no_cell_dropped(self@),
    {
        let mut i: usize = 0;
        while i < self.set.len()
            invariant
                i <= self.set.len(),
                forall|j: int| 0 <= j < i ==> !self@[j],
            decreases self.set.len() - i,
        {
            if !self.set[i].is_not_dropped() {
                assert(self@[i as int]);
                return false;
            }
            i += 1;
        }
        true
    }

    /// Returns true if all of the `Token`s have been dropped.
    pub fn all_dropped(&self) -> (b: bool)
        ensures
            b == every_cell_dropped(self@),
    {
        let mut i: usize = 0;
        while i < self.set.len()
            invariant
                i <= self.set.len(),
                forall|j: int| 0 <= j < i ==> self@[j],
            decreases self.set.len() - i,
        {
            if !self.set[i].is_dropped() {
                assert(!self@[i as int]);
                return false;
            }
            i += 1;
        }
        true
    }

    /// Ends the life of the set, and of every state in it. Every token has
    /// to have been dropped: a set with a state that is not dropped holds a
    /// leaked token, which the precondition excludes.
    pub fn finish(self)
        requires
            every_cell_dropped(self@),
    {
        assert forall|j: int| 0 <= j < self.set.len() implies self.set[j].dropped() by {
            assert(self@[j]);
        }
        let mut set = self.set;
        while set.len() > 0
            invariant
                forall|j: int| 0 <= j < set.len() ==> set[j].dropped(),
            decreases set.len(),
        {
            let state = set.pop().unwrap();
            state.release();
        }
    }
}

} // verus!
