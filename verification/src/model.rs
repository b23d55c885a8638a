//! The mathematical model of a set of drop states.
//!
//! A set is seen as a sequence of flags, one per issued state in order of
//! issue, where a flag is true once the state's token has been dropped. The
//! contracts of `DropCheck` are stated over the functions of this module.

use vstd::prelude::*;

verus! {

/// No state in the set has been dropped. Holds of the empty set.
pub open spec fn no_cell_dropped(cells: Seq<bool>) -> bool {
    forall|i: int| 0 <= i < cells.len() ==> !cells[i]
}

/// Every state in the set has been dropped. Holds of the empty set.
pub open spec fn every_cell_dropped(cells: Seq<bool>) -> bool {
    forall|i: int| 0 <= i < cells.len() ==> cells[i]
}

/// The set after one more state has been issued: a fresh flag at the end.
pub open spec fn issue(cells: Seq<bool>) -> Seq<bool> {
    cells.push(false)
}

/// `slot` names a state of the set whose token has not been dropped.
pub open spec fn is_live(cells: Seq<bool>, slot: int) -> bool {
    0 <= slot < cells.len() && !cells[slot]
}

/// The set after the token of the state at `slot` has been dropped.
pub open spec fn mark(cells: Seq<bool>, slot: int) -> Seq<bool> {
    cells.update(slot, true)
}

/// How many states of the set have been dropped.
pub open spec fn dropped_count(cells: Seq<bool>) -> nat
    decreases cells.len(),
{
    if cells.len() == 0 {
        0
    } else {
        dropped_count(cells.drop_last()) + if cells.last() {
            1nat
        } else {
            0nat
        }
    }
}

/// One event in the life of a set.
pub enum Step {
    /// A token is issued (by `token`, `pair` or `clone_in`).
    Issue,
    /// The token of the state at `slot` is dropped.
    Drop { slot: int },
}

/// A step is legal where it drops nothing twice and nothing unknown.
pub open spec fn legal(cells: Seq<bool>, step: Step) -> bool {
    match step {
        Step::Issue => true,
        Step::Drop { slot } => is_live(cells, slot),
    }
}

/// The set after one step.
pub open spec fn apply(cells: Seq<bool>, step: Step) -> Seq<bool> {
    match step {
        Step::Issue => issue(cells),
        Step::Drop { slot } => mark(cells, slot),
    }
}

/// The set that `cells` becomes by a sequence of steps.
pub open spec fn run_from(cells: Seq<bool>, steps: Seq<Step>) -> Seq<bool>
    decreases steps.len(),
{
    if steps.len() == 0 {
        cells
    } else {
        apply(run_from(cells, steps.drop_last()), steps.last())
    }
}

/// Every step of the sequence is legal at the point where it is taken, when
/// the sequence starts from `cells`.
pub open spec fn legal_from(cells: Seq<bool>, steps: Seq<Step>) -> bool
    decreases steps.len(),
{
    steps.len() == 0 || (legal_from(cells, steps.drop_last()) && legal(
        run_from(cells, steps.drop_last()),
        steps.last(),
    ))
}

/// The set that a fresh set becomes by a sequence of steps.
pub open spec fn run(steps: Seq<Step>) -> Seq<bool> {
    run_from(Seq::empty(), steps)
}

/// Every step of the sequence is legal at the point where it is taken, when
/// the sequence starts from a fresh set.
pub open spec fn legal_run(steps: Seq<Step>) -> bool {
    legal_from(Seq::empty(), steps)
}

/// How many tokens the sequence issues.
pub open spec fn issues(steps: Seq<Step>) -> nat
    decreases steps.len(),
{
    if steps.len() == 0 {
        0
    } else {
        issues(steps.drop_last()) + if steps.last() is Issue {
            1nat
        } else {
            0nat
        }
    }
}

/// How many tokens the sequence drops.
pub open spec fn drops(steps: Seq<Step>) -> nat
    decreases steps.len(),
{
    if steps.len() == 0 {
        0
    } else {
        drops(steps.drop_last()) + if steps.last() is Drop {
            1nat
        } else {
            0nat
        }
    }
}

/// No more states are dropped than the set holds.
pub proof fn lemma_dropped_count_bound(cells: Seq<bool>)
    ensures
        dropped_count(cells) <= cells.len(),
    decreases cells.len(),
{
    if cells.len() > 0 {
        lemma_dropped_count_bound(cells.drop_last());
    }
}

/// Nothing is dropped exactly when the count of dropped states is zero.
pub proof fn lemma_none_dropped_is_count_zero(cells: Seq<bool>)
    ensures
        no_cell_dropped(cells) <==> dropped_count(cells) == 0,
    decreases cells.len(),
{
    if cells.len() > 0 {
        let front = cells.drop_last();
        lemma_none_dropped_is_count_zero(front);
        if no_cell_dropped(cells) {
            assert(!cells[cells.len() - 1]);
            assert forall|i: int| 0 <= i < front.len() implies !front[i] by {
                assert(front[i] == cells[i]);
            }
        }
        if dropped_count(cells) == 0 {
            assert forall|i: int| 0 <= i < cells.len() implies !cells[i] by {
                if i < front.len() {
                    assert(front[i] == cells[i]);
                }
            }
        }
    }
}

/// Everything is dropped exactly when the count of dropped states is the
/// number of states.
pub proof fn lemma_all_dropped_is_count_full(cells: Seq<bool>)
    ensures
        every_cell_dropped(cells) <==> dropped_count(cells) == cells.len(),
    decreases cells.len(),
{
    if cells.len() > 0 {
        let front = cells.drop_last();
        lemma_all_dropped_is_count_full(front);
        lemma_dropped_count_bound(front);
        if every_cell_dropped(cells) {
            assert(cells[cells.len() - 1]);
            assert forall|i: int| 0 <= i < front.len() implies front[i] by {
                assert(front[i] == cells[i]);
            }
        }
        if dropped_count(cells) == cells.len() {
            assert forall|i: int| 0 <= i < cells.len() implies cells[i] by {
                if i < front.len() {
                    assert(front[i] == cells[i]);
                }
            }
        }
    }
}

/// Issuing a token leaves the count of dropped states as it was.
pub proof fn lemma_issue_keeps_count(cells: Seq<bool>)
    ensures
        dropped_count(issue(cells)) == dropped_count(cells),
{
    assert(issue(cells).drop_last() =~= cells);
}

/// Dropping a live token raises the count of dropped states by one.
pub proof fn lemma_mark_adds_one(cells: Seq<bool>, slot: int)
    requires
        is_live(cells, slot),
    ensures
        dropped_count(mark(cells, slot)) == dropped_count(cells) + 1,
    decreases cells.len(),
{
    let after = mark(cells, slot);
    if slot == cells.len() - 1 {
        assert(after.drop_last() =~= cells.drop_last());
    } else {
        lemma_mark_adds_one(cells.drop_last(), slot);
        assert(after.drop_last() =~= mark(cells.drop_last(), slot));
    }
}

/// After a legal sequence of steps the set holds as many more states as were
/// issued, and as many more of them are dropped as there were drops.
pub proof fn lemma_run_counts(cells: Seq<bool>, steps: Seq<Step>)
    requires
        legal_from(cells, steps),
    ensures
        run_from(cells, steps).len() == cells.len() + issues(steps),
        dropped_count(run_from(cells, steps)) == dropped_count(cells) + drops(steps),
    decreases steps.len(),
{
    if steps.len() > 0 {
        let before = run_from(cells, steps.drop_last());
        lemma_run_counts(cells, steps.drop_last());
        match steps.last() {
            Step::Issue => {
                lemma_issue_keeps_count(before);
            },
            Step::Drop { slot } => {
                lemma_mark_adds_one(before, slot);
            },
        }
    }
}

/// Taking one sequence of steps and then another is taking the two as one,
/// and the whole is legal exactly when both parts are.
pub proof fn lemma_run_in_two_parts(cells: Seq<bool>, first: Seq<Step>, then: Seq<Step>)
    ensures
        run_from(cells, first + then) == run_from(run_from(cells, first), then),
        legal_from(cells, first + then) == (legal_from(cells, first) && legal_from(
            run_from(cells, first),
            then,
        )),
    decreases then.len(),
{
    if then.len() == 0 {
        assert(first + then =~= first);
    } else {
        lemma_run_in_two_parts(cells, first, then.drop_last());
        assert((first + then).drop_last() =~= first + then.drop_last());
        assert((first + then).last() == then.last());
    }
}

/// Through a legal sequence of steps, the state at `slot` is dropped at the
/// end exactly if it was dropped at the start or the drop of its token is one
/// of the steps.
pub proof fn lemma_state_after_run(cells: Seq<bool>, slot: int, steps: Seq<Step>)
    requires
        0 <= slot < cells.len(),
        legal_from(cells, steps),
    ensures
        slot < run_from(cells, steps).len(),
        run_from(cells, steps)[slot] == (cells[slot] || steps.contains(Step::Drop { slot })),
    decreases steps.len(),
{
    let token_drop = Step::Drop { slot };
    if steps.len() > 0 {
        let front = steps.drop_last();
        lemma_state_after_run(cells, slot, front);
        if front.contains(token_drop) {
            let i = choose|i: int| 0 <= i < front.len() && front[i] == token_drop;
            assert(steps[i] == token_drop);
        }
        if steps.last() == token_drop {
            assert(steps[steps.len() - 1] == token_drop);
        }
        if steps.contains(token_drop) {
            let i = choose|i: int| 0 <= i < steps.len() && steps[i] == token_drop;
            if i < front.len() {
                assert(front[i] == token_drop);
            }
        }
    }
}

} // verus!
