//! The order of a rollout's stages, and how actions are drawn in it.

use crate::engine::plan::RolloutPlan;
use crate::engine::rollout::{drawn_action, first_stage, slot_counts, stage_after, used_slot, Stage};
use crate::sampler::{pcg_output, peak, running_sum, unit, weights_of, Gen};
use crate::scalar::{gt, minus, num, plus, times, value_of, Scalar};
use vstd::prelude::*;

verus! {

/// Opponent `s` is the first from `from` on that has agents.
pub open spec fn next_to_play(plan: RolloutPlan, from: int, s: int) -> bool {
    &&& from <= s < plan.opp_idx@.len()
    &&& plan.opp_idx@[s]@.len() > 0
    &&& forall|q: int| from <= q < s ==> (#[trigger] plan.opp_idx@[q])@.len() == 0
}

/// No opponent from `from` on has agents.
pub open spec fn none_to_play(plan: RolloutPlan, from: int) -> bool {
    forall|q: int| from <= q < plan.opp_idx@.len() ==> (#[trigger] plan.opp_idx@[q])@.len() == 0
}

proof fn lemma_next_slot(plan: RolloutPlan, from: int, s: int)
    requires
        0 <= from,
    ensures
        next_to_play(plan, from, s) ==> used_slot(slot_counts(plan), from) == Some(s),
        none_to_play(plan, from) ==> used_slot(slot_counts(plan), from) is None,
    decreases plan.opp_idx@.len() - from,
{
    let n = plan.opp_idx@.len();
    if from < n {
        lemma_next_slot(plan, from + 1, s);
        assert(slot_counts(plan)[from] == plan.opp_idx@[from]@.len());
        if next_to_play(plan, from, s) && plan.opp_idx@[from]@.len() > 0 {
            assert(s == from);
        }
    }
}

/// In every step the arenas are observed, then the learner is asked if it has agents,
/// then every opponent that has agents, in the order of the slots; then actions are
/// drawn and the arenas stepped. Only where a recorded agent's episode has ended are
/// final values asked for. Steps follow one another from the first; after the last the
/// arenas are observed once more, and the learner is asked for what its agents expect.
pub proof fn law_order_of_the_stages(
    plan: RolloutPlan,
    steps: usize,
    t: usize,
    s: usize,
    next: int,
    ended: usize,
)
    requires
        t < steps,
        s < plan.opp_idx@.len(),
    ensures
        steps > 0 ==> first_stage(steps) == Stage::Observe(0),
        first_stage(0) == Stage::ObserveLast,
        plan.fwd_idx@.len() > 0 ==> stage_after(plan, steps, Stage::Observe(t), ended)
            == Stage::Forward(t),
        plan.fwd_idx@.len() == 0 ==> stage_after(plan, steps, Stage::Observe(t), ended)
            == stage_after(plan, steps, Stage::Forward(t), ended),
        next_to_play(plan, 0, next) ==> stage_after(plan, steps, Stage::Forward(t), ended)
            == Stage::Opponent(t, next as usize),
        none_to_play(plan, 0) ==> stage_after(plan, steps, Stage::Forward(t), ended)
            == Stage::Sample(t),
        next_to_play(plan, s + 1, next) ==> stage_after(plan, steps, Stage::Opponent(t, s), ended)
            == Stage::Opponent(t, next as usize),
        none_to_play(plan, s + 1) ==> stage_after(plan, steps, Stage::Opponent(t, s), ended)
            == Stage::Sample(t),
        stage_after(plan, steps, Stage::Sample(t), ended) == Stage::Step(t),
        ended > 0 ==> stage_after(plan, steps, Stage::Step(t), ended) == Stage::FinalValues(t),
        ended == 0 ==> stage_after(plan, steps, Stage::Step(t), ended) == stage_after(
            plan,
            steps,
            Stage::FinalValues(t),
            ended,
        ),
        t + 1 < steps ==> stage_after(plan, steps, Stage::FinalValues(t), ended)
            == Stage::Observe((t + 1) as usize),
        t + 1 == steps ==> stage_after(plan, steps, Stage::FinalValues(t), ended)
            == Stage::ObserveLast,
        plan.learner_idx@.len() > 0 ==> stage_after(plan, steps, Stage::ObserveLast, ended)
            == Stage::Bootstrap,
        plan.learner_idx@.len() == 0 ==> stage_after(plan, steps, Stage::ObserveLast, ended)
            == Stage::Finished,
        stage_after(plan, steps, Stage::Bootstrap, ended) == Stage::Finished,
{
    lemma_next_slot(plan, 0, next);
    lemma_next_slot(plan, s + 1, next);
}

/// An action's weight is the exponential of its logit less the greatest logit. The
/// action that is drawn is the first at which the weights, added up, exceed the drawn
/// fraction of their sum, or the last one if none does. Its log-probability is its logit
/// less the greatest, less the logarithm of the sum.
pub proof fn law_how_actions_are_drawn<F: Scalar, E: Fn(F) -> F, L: Fn(F) -> F>(
    logits: Seq<F>,
    g: Gen,
    exp: E,
    ln: L,
    idx: int,
    lp: F,
    i: int,
)
    requires
        drawn_action(logits, g, exp, ln, idx, lp),
    ensures
        ({
            let n = logits.len() as int;
            let m = peak(logits, n);
            let w = weights_of(logits, exp);
            let z = running_sum(w, n);
            let target = times(unit::<F>(pcg_output(g)), z);
            &&& w.len() == n
            &&& 0 <= i < n ==> w[i] == value_of(exp, minus(logits[i], m))
            &&& running_sum(w, 0) == num::<F>(0)
            &&& 0 <= i < n ==> running_sum(w, i + 1) == plus(running_sum(w, i), w[i])
            &&& 0 <= idx < n
            &&& 0 <= i < idx ==> !gt(running_sum(w, i + 1), target)
            &&& gt(running_sum(w, idx + 1), target) || idx == n - 1
            &&& lp == minus(minus(logits[idx], m), value_of(ln, z))
        }),
{
    reveal(drawn_action);
    let w = weights_of(logits, exp);
    assert(w.len() == logits.len());
}

} // verus!
