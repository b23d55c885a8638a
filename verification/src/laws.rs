//! What holds of every set of drop states, whatever was issued and dropped.
//!
//! Each statement is over the model that the contracts of `DropCheck` use, so
//! it carries over to any sequence of calls whose preconditions were met.

use crate::model::{
    apply, drops, every_cell_dropped, is_live, issue, issues, legal, legal_from, legal_run,
    lemma_all_dropped_is_count_full, lemma_none_dropped_is_count_zero, lemma_run_counts,
    lemma_run_in_two_parts, lemma_state_after_run, mark, no_cell_dropped, run, run_from, Step,
};
use vstd::prelude::*;

verus! {

/// A set from which nothing was issued has no dropped token, and all of its
/// tokens are dropped: both hold for want of a token.
pub proof fn lemma_fresh_set_none_and_all()
    ensures
        no_cell_dropped(run(Seq::empty())),
        every_cell_dropped(run(Seq::empty())),
{
}

/// Once every issued token has been dropped, in whatever order issues and
/// drops came, all tokens of the set are dropped, so the set can be finished.
pub proof fn lemma_all_dropped_after_every_drop(steps: Seq<Step>)
    requires
        legal_run(steps),
        drops(steps) == issues(steps),
    ensures
        every_cell_dropped(run(steps)),
{
    lemma_run_counts(Seq::empty(), steps);
    lemma_all_dropped_is_count_full(run(steps));
}

/// While some but not all of the issued tokens have been dropped, it holds
/// neither that none is dropped nor that all are.
pub proof fn lemma_some_dropped_is_neither(steps: Seq<Step>)
    requires
        legal_run(steps),
        0 < drops(steps) < issues(steps),
    ensures
        !no_cell_dropped(run(steps)),
        !every_cell_dropped(run(steps)),
{
    lemma_run_counts(Seq::empty(), steps);
    lemma_none_dropped_is_count_zero(run(steps));
    lemma_all_dropped_is_count_full(run(steps));
}

/// Before the first drop, however many tokens were issued, none is dropped;
/// and unless nothing was issued, not all are.
pub proof fn lemma_none_dropped_before_first_drop(steps: Seq<Step>)
    requires
        legal_run(steps),
        drops(steps) == 0,
    ensures
        no_cell_dropped(run(steps)),
        every_cell_dropped(run(steps)) <==> issues(steps) == 0,
{
    lemma_run_counts(Seq::empty(), steps);
    lemma_none_dropped_is_count_zero(run(steps));
    lemma_all_dropped_is_count_full(run(steps));
}

/// A token that was never dropped keeps its set from being finished: with a
/// live token in it, not all tokens of the set are dropped.
pub proof fn lemma_live_token_is_a_leak(cells: Seq<bool>, slot: int)
    requires
        is_live(cells, slot),
    ensures
        !every_cell_dropped(cells),
{
}

/// A token is dropped once: right after its drop, a second drop of it is not
/// a legal step.
pub proof fn lemma_no_second_drop(cells: Seq<bool>, slot: int)
    requires
        is_live(cells, slot),
    ensures
        !legal(mark(cells, slot), Step::Drop { slot }),
{
}

/// A token is dropped once: no legal sequence of steps, from whatever set it
/// starts, holds the drop of one token twice.
pub proof fn lemma_never_dropped_twice(cells: Seq<bool>, steps: Seq<Step>, i: int, j: int)
    requires
        legal_from(cells, steps),
        0 <= i < j < steps.len(),
        steps[i] is Drop,
    ensures
        steps[j] != steps[i],
{
    let slot = steps[i]->slot;
    let upto_i = steps.subrange(0, i + 1);
    let between = steps.subrange(i + 1, j);
    let upto_j = steps.subrange(0, j + 1);
    let after_j = steps.subrange(j + 1, steps.len() as int);

    assert(steps =~= upto_j + after_j);
    lemma_run_in_two_parts(cells, upto_j, after_j);
    assert(upto_j.drop_last() =~= upto_i + between);
    lemma_run_in_two_parts(cells, upto_i, between);
    assert(upto_i.last() == steps[i]);

    let at_i = run_from(cells, upto_i);
    assert(at_i[slot]);
    lemma_state_after_run(at_i, slot, between);
    assert(!is_live(run_from(cells, upto_j.drop_last()), slot));
    assert(upto_j.last() == steps[j]);
}

/// A clone is tracked apart from `first`, the token it was made from. Its
/// state is a new one; dropping either token leaves the other live; and the
/// set reports that all are dropped only when both have been.
pub proof fn lemma_clone_is_tracked_apart(cells: Seq<bool>, first: int)
    requires
        is_live(cells, first),
    ensures
        ({
            let clone = cells.len() as int;
            let both = issue(cells);
            &&& clone != first
            &&& is_live(both, first)
            &&& is_live(both, clone)
            &&& is_live(mark(both, clone), first)
            &&& is_live(mark(both, first), clone)
            &&& !every_cell_dropped(mark(both, clone))
            &&& !every_cell_dropped(mark(both, first))
            &&& every_cell_dropped(mark(mark(both, first), clone)) == every_cell_dropped(
                mark(cells, first),
            )
        }),
{
    let clone = cells.len() as int;
    let both = issue(cells);
    let one = mark(cells, first);
    let two = mark(mark(both, first), clone);
    assert(is_live(mark(both, clone), first));
    assert(is_live(mark(both, first), clone));
    assert(two =~= one.push(true));
    if every_cell_dropped(two) {
        assert forall|i: int| 0 <= i < one.len() implies one[i] by {
            assert(two[i]);
        }
    }
}

/// The state of a token changes at the drop of that token and at no other
/// step: after any legal step, the state at `slot` is dropped exactly if it
/// was so before, or the step was the drop of the token at `slot`.
pub proof fn lemma_state_follows_its_token(cells: Seq<bool>, slot: int, step: Step)
    requires
        0 <= slot < cells.len(),
        legal(cells, step),
    ensures
        slot < apply(cells, step).len(),
        apply(cells, step)[slot] == (cells[slot] || step == (Step::Drop { slot })),
{
}

/// The state that comes with a token from `pair` is not dropped for as long
/// as the token is not, whatever else is issued and dropped, and is dropped
/// from the drop of the token on.
pub proof fn lemma_paired_state_follows_its_token(cells: Seq<bool>, steps: Seq<Step>)
    requires
        legal_from(issue(cells), steps),
    ensures
        ({
            let slot = cells.len() as int;
            &&& slot < run_from(issue(cells), steps).len()
            &&& run_from(issue(cells), steps)[slot] == steps.contains(Step::Drop { slot })
        }),
{
    lemma_state_after_run(issue(cells), cells.len() as int, steps);
}

} // verus!
