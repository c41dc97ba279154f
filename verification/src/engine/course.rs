//! Whole rollouts: what holds of the buffers once the last stage is done.

use crate::engine::collect::{
    all_ended, law_ended_are_recorded, planned_view, step_recorded, stored_by_column, with_actions,
    with_entities, with_final_values, with_flat, with_last_values, with_step, with_values,
    BatchView, CollectView,
};
use crate::engine::merge::mergeable_view;
use crate::engine::plan::RolloutPlan;
use crate::engine::rollout::{drawn_action, first_stage, stage_after, Stage};
use crate::episode::{ObsMode, StepFlags};
use crate::obs::OBS_SIZE;
use crate::rows::{gathered, has_rows, lemma_gathered_row, lemma_row_bounds, row, rows_within};
use crate::sampler::{weights_of, Gen};
use crate::scalar::{num, Scalar};
use vstd::prelude::*;

verus! {

/// Actions that name rows of a table of `k` rows.
pub open spec fn actions_below(acts: Seq<i64>, k: int) -> bool {
    forall|a: int| 0 <= a < acts.len() ==> 0 <= #[trigger] acts[a] < k
}

/// The flags are those that were recorded as step `t`.
pub open spec fn flags_recorded<F>(
    v: CollectView<F>,
    plan: RolloutPlan,
    t: int,
    flags: Seq<StepFlags>,
) -> bool {
    forall|c: int|
        0 <= c < plan.learner_idx@.len() ==> {
            let f = flags[#[trigger] plan.learner_idx@[c] as int];
            &&& v.terminated[t * plan.learner_idx@.len() + c] == f.terminated
            &&& v.truncated[t * plan.learner_idx@.len() + c] == f.truncated
        }
}

/// Flat observations of all agents are given exactly where they are asked for.
pub open spec fn flat_beside<F>(
    flat: Option<Seq<F>>,
    emit_v0_obs: bool,
    plan: RolloutPlan,
) -> bool {
    match flat {
        Some(o) => emit_v0_obs && has_rows(o, plan.agents as int, OBS_SIZE as int),
        None => !emit_v0_obs,
    }
}

/// What a stage makes of the buffers: what is recorded in it. Drawn actions name rows of a table of `k`
/// rows; `count` is how many recorded agents' episodes ended in the stage.
pub open spec fn stage_records<F>(
    plan: RolloutPlan,
    mode: ObsMode,
    emit_v0_obs: bool,
    k: int,
    stage: Stage,
    count: usize,
    v: CollectView<F>,
    w: CollectView<F>,
) -> bool {
    match stage {
        Stage::Observe(t) => match mode {
            ObsMode::V0 => exists|obs: Seq<F>|
                has_rows(obs, plan.agents as int, OBS_SIZE as int) && w == #[trigger] with_flat(
                    v,
                    plan,
                    t as int,
                    obs,
                ),
            ObsMode::V1 => exists|batch: BatchView<F>, flat: Option<Seq<F>>|
                batch.holds(plan.agents as int) && flat_beside(flat, emit_v0_obs, plan) && w
                    == #[trigger] with_entities(v, plan, t as int, batch, flat),
        },
        Stage::Forward(t) => exists|values: Seq<F>|
            values.len() == plan.fwd_idx@.len() && w == #[trigger] with_values(
                v,
                plan,
                t as int,
                values,
            ),
        Stage::Opponent(t, s) => w == v,
        Stage::Sample(t) => exists|acts: Seq<i64>, logprobs: Seq<F>|
            acts.len() == plan.agents && logprobs.len() == plan.agents && actions_below(acts, k)
                && w == #[trigger] with_actions(v, plan, t as int, acts, logprobs),
        Stage::Step(t) => exists|rewards: Seq<F>, flags: Seq<StepFlags>|
            rewards.len() == plan.agents && flags.len() == plan.agents && count == all_ended(
                plan,
                flags,
            ).len() && w == #[trigger] with_step(v, plan, t as int, rewards, flags),
        Stage::FinalValues(t) => exists|flags: Seq<StepFlags>, values: Seq<F>|
            flags.len() == plan.agents && values.len() == all_ended(plan, flags).len()
                && flags_recorded(v, plan, t as int, flags) && w == #[trigger] with_final_values(
                v,
                plan,
                t as int,
                all_ended(plan, flags),
                values,
            ),
        Stage::ObserveLast => w == v,
        Stage::Bootstrap => exists|values: Seq<F>|
            values.len() == plan.learner_idx@.len() && w == #[trigger] with_last_values(v, values),
        Stage::Finished => w == v,
    }
}

/// A rollout: its stages, what the buffers hold at the start of each, and how many
/// recorded agents' episodes ended in each.
pub struct Course<F> {
    pub stages: Seq<Stage>,
    pub buffers: Seq<CollectView<F>>,
    pub counts: Seq<usize>,
}

/// The rollout begins with empty buffers, and each stage follows from the one
/// before.
pub open spec fn runs<F: Scalar>(
    c: Course<F>,
    plan: RolloutPlan,
    steps: usize,
    mode: ObsMode,
    emit_v0_obs: bool,
    k: int,
) -> bool {
    &&& c.stages.len() == c.buffers.len() == c.counts.len()
    &&& c.stages.len() > 0
    &&& c.stages[0] == first_stage(steps)
    &&& c.buffers[0] == planned_view::<F>(plan, steps as int, mode, emit_v0_obs)
    &&& forall|i: int|
        0 <= i < c.stages.len() - 1 ==> {
            &&& #[trigger] c.stages[i + 1] == stage_after(plan, steps, c.stages[i], c.counts[i])
            &&& stage_records(
                plan,
                mode,
                emit_v0_obs,
                k,
                c.stages[i],
                c.counts[i],
                c.buffers[i],
                c.buffers[i + 1],
            )
        }
}

/// How many steps have their actions recorded before a stage.
spec fn steps_drawn(stage: Stage, steps: int) -> int {
    match stage {
        Stage::Observe(t) => t as int,
        Stage::Forward(t) => t as int,
        Stage::Opponent(t, s) => t as int,
        Stage::Sample(t) => t as int,
        Stage::Step(t) => t + 1,
        Stage::FinalValues(t) => t + 1,
        _ => steps,
    }
}

/// How many steps have their flags recorded before a stage.
spec fn steps_taken(stage: Stage, steps: int) -> int {
    match stage {
        Stage::Step(t) => t as int,
        _ => steps_drawn(stage, steps),
    }
}

/// The labels of the recorded rows are the plan's; a flat rollout has none.
pub open spec fn labelled_by<F>(v: CollectView<F>, plan: RolloutPlan, mode: ObsMode) -> bool {
    &&& v.learner_agents == plan.learner_idx@.len()
    &&& mode == ObsMode::V1 ==> v.learner_team_size == plan.learner_team_size@
    &&& mode == ObsMode::V1 ==> v.forward_rows == plan.fwd_idx@.len()
    &&& mode == ObsMode::V0 ==> v.learner_team_size == Seq::<i8>::empty()
    &&& mode == ObsMode::V0 ==> v.forward_rows == v.learner_agents
}

/// The rows of a plan can be recorded: each recorded agent has its column, and the
/// forwarded agents are agents of the plan.
pub open spec fn recordable(plan: RolloutPlan) -> bool {
    &&& plan.columns_invert_rows()
    &&& rows_within(plan.fwd_idx@, plan.agents as int)
    &&& plan.learner_idx@.len() <= usize::MAX
    &&& plan.fwd_idx@.len() <= usize::MAX
}

/// What holds of the buffers before a stage.
spec fn in_order<F: Scalar>(
    v: CollectView<F>,
    plan: RolloutPlan,
    mode: ObsMode,
    emit_v0_obs: bool,
    steps: int,
    k: int,
    stage: Stage,
) -> bool {
    let n = plan.learner_idx@.len() as int;
    &&& labelled_by(v, plan, mode)
    &&& mergeable_view(v, mode, steps, emit_v0_obs)
    &&& 0 <= steps_taken(stage, steps) <= steps_drawn(stage, steps) <= steps
    &&& stage matches Stage::Observe(t) ==> t < steps
    &&& stage matches Stage::Forward(t) ==> t < steps
    &&& stage matches Stage::Opponent(t, s) ==> t < steps
    &&& stage matches Stage::Sample(t) ==> t < steps
    &&& forall|i: int| 0 <= i < steps_drawn(stage, steps) * n ==> 0 <= #[trigger] v.actions[i] < k
    &&& forall|i: int|
        0 <= i < steps * n && !(i < steps_taken(stage, steps) * n && (v.terminated[i]
            || v.truncated[i])) ==> #[trigger] v.final_values[i] == num::<F>(0)
}

/// Recording a step writes its row and leaves the others.
proof fn lemma_recorded<T>(
    buf: Seq<T>,
    t: int,
    steps: int,
    idx: Seq<usize>,
    src: Seq<T>,
)
    requires
        0 <= t < steps,
        buf.len() == steps * idx.len(),
        rows_within(idx, src.len() as int),
    ensures
        step_recorded(buf, t, idx, src, 1).len() == buf.len(),
        forall|i: int|
            0 <= i < buf.len() ==> #[trigger] step_recorded(buf, t, idx, src, 1)[i] == if t
                * idx.len() <= i < t * idx.len() + idx.len() {
                src[idx[i - t * idx.len()] as int]
            } else {
                buf[i]
            },
{
    let n = idx.len() as int;
    lemma_row_bounds(t, steps, n);
    assert(has_rows(src, src.len() as int, 1));
    if n > 0 {
        lemma_gathered_row(src, idx, 1, src.len() as int, 0);
    }
    let g = gathered(src, idx, 1);
    assert(g.len() == n);
    assert forall|j: int| 0 <= j < n implies #[trigger] g[j] == src[idx[j] as int] by {
        lemma_gathered_row(src, idx, 1, src.len() as int, j);
        assert(row(g, j, 1)[0] == g[j]);
        assert(row(src, idx[j] as int, 1)[0] == src[idx[j] as int]);
    }
}

proof fn lemma_taken_next(plan: RolloutPlan, steps: usize, stage: Stage, count: usize)
    requires
        steps_drawn(stage, steps as int) <= steps,
        stage matches Stage::Observe(t) ==> t < steps,
        stage matches Stage::Forward(t) ==> t < steps,
        stage matches Stage::Opponent(t, s) ==> t < steps,
        stage matches Stage::Sample(t) ==> t < steps,
    ensures
        ({
            let next = stage_after(plan, steps, stage, count);
            &&& steps_drawn(next, steps as int) == match stage {
                Stage::Sample(t) => t + 1,
                _ => steps_drawn(stage, steps as int),
            }
            &&& steps_taken(next, steps as int) == match stage {
                Stage::Step(t) => t + 1,
                _ => steps_taken(stage, steps as int),
            }
            &&& next matches Stage::Observe(t) ==> t < steps
            &&& next matches Stage::Forward(t) ==> t < steps
            &&& next matches Stage::Opponent(t, s) ==> t < steps
            &&& next matches Stage::Sample(t) ==> t < steps
        }),
{
}

/// Storing by column touches only the columns of the agents given.
proof fn lemma_stores_columns<F>(
    buf: Seq<F>,
    base: int,
    col: Seq<Option<usize>>,
    idx: Seq<usize>,
    vals: Seq<F>,
    m: int,
)
    requires
        0 <= base,
        0 <= m <= idx.len(),
        forall|j: int|
            0 <= j < m ==> (col[#[trigger] idx[j] as int] matches Some(c) ==> base + c
                < buf.len()),
    ensures
        stored_by_column(buf, base, col, idx, vals, m).len() == buf.len(),
        forall|i: int|
            0 <= i < buf.len() && (forall|j: int|
                0 <= j < m ==> (col[#[trigger] idx[j] as int] matches Some(c) ==> base + c != i))
                ==> #[trigger] stored_by_column(buf, base, col, idx, vals, m)[i] == buf[i],
    decreases m,
{
    if m > 0 {
        lemma_stores_columns(buf, base, col, idx, vals, m - 1);
        assert(idx[m - 1] == idx[m - 1]);
    }
}

proof fn lemma_stage_keeps_order<F: Scalar>(
    plan: RolloutPlan,
    mode: ObsMode,
    emit_v0_obs: bool,
    steps: usize,
    k: int,
    stage: Stage,
    count: usize,
    v: CollectView<F>,
    w: CollectView<F>,
)
    requires
        recordable(plan),
        in_order(v, plan, mode, emit_v0_obs, steps as int, k, stage),
        stage_records(plan, mode, emit_v0_obs, k, stage, count, v, w),
    ensures
        in_order(
            w,
            plan,
            mode,
            emit_v0_obs,
            steps as int,
            k,
            stage_after(plan, steps, stage, count),
        ),
{
    let n = plan.learner_idx@.len() as int;
    let idx = plan.learner_idx@;
    let next = stage_after(plan, steps, stage, count);
    lemma_taken_next(plan, steps, stage, count);
    match stage {
        Stage::Forward(t) => {
            let values = choose|values: Seq<F>|
                values.len() == plan.fwd_idx@.len() && w == #[trigger] with_values(
                    v,
                    plan,
                    t as int,
                    values,
                );
            lemma_row_bounds(t as int, steps as int, n);
            assert forall|j: int| 0 <= j < plan.fwd_idx@.len() implies (
            plan.learner_col@[#[trigger] plan.fwd_idx@[j] as int] matches Some(c) ==> t * n + c
                < v.values.len()) by {
                assert(plan.fwd_idx@[j] < plan.agents);
                assert(plan.learner_col@[plan.fwd_idx@[j] as int] is Some
                    ==> plan.learner_col@[plan.fwd_idx@[j] as int]->0 < n);
            }
            lemma_stores_columns(
                v.values,
                t * n,
                plan.learner_col@,
                plan.fwd_idx@,
                values,
                plan.fwd_idx@.len() as int,
            );
        },
        Stage::Sample(t) => {
            let (acts, logprobs) = choose|acts: Seq<i64>, logprobs: Seq<F>|
                acts.len() == plan.agents && logprobs.len() == plan.agents && actions_below(acts, k)
                    && w == #[trigger] with_actions(v, plan, t as int, acts, logprobs);
            assert(rows_within(idx, acts.len() as int));
            lemma_recorded(v.actions, t as int, steps as int, idx, acts);
            lemma_row_bounds(t as int, steps as int, n);
            assert forall|i: int| 0 <= i < (t + 1) * n implies 0 <= #[trigger] w.actions[i] < k by {
                if i >= t * n {
                    let a = idx[i - t * n];
                    assert(0 <= acts[a as int] < k);
                } else {
                    assert(0 <= v.actions[i] < k);
                }
            }
        },
        Stage::Step(t) => {
            let (rewards, flags) = choose|rewards: Seq<F>, flags: Seq<StepFlags>|
                rewards.len() == plan.agents && flags.len() == plan.agents && count == all_ended(
                    plan,
                    flags,
                ).len() && w == #[trigger] with_step(v, plan, t as int, rewards, flags);
            assert(rows_within(idx, plan.agents as int));
            let term = flags.map_values(|f: StepFlags| f.terminated);
            let trunc = flags.map_values(|f: StepFlags| f.truncated);
            lemma_recorded(v.terminated, t as int, steps as int, idx, term);
            lemma_recorded(v.truncated, t as int, steps as int, idx, trunc);
            lemma_row_bounds(t as int, steps as int, n);
            assert forall|i: int|
                0 <= i < steps * n && !(i < (t + 1) * n && (w.terminated[i] || w.truncated[i]))
                implies #[trigger] w.final_values[i] == num::<F>(0) by {
                assert(v.final_values[i] == w.final_values[i]);
                if i < t * n {
                    assert(w.terminated[i] == v.terminated[i]);
                    assert(w.truncated[i] == v.truncated[i]);
                }
            }
        },
        Stage::FinalValues(t) => {
            let (flags, values) = choose|flags: Seq<StepFlags>, values: Seq<F>|
                flags.len() == plan.agents && values.len() == all_ended(plan, flags).len()
                    && flags_recorded(v, plan, t as int, flags) && w
                    == #[trigger] with_final_values(
                    v,
                    plan,
                    t as int,
                    all_ended(plan, flags),
                    values,
                );
            let done = all_ended(plan, flags);
            let base = t * n;
            lemma_row_bounds(t as int, steps as int, n);
            law_ended_are_recorded(&plan, flags, n);
            assert forall|j: int| 0 <= j < done.len() implies (
            plan.learner_col@[#[trigger] done[j] as int] matches Some(c) ==> base + c
                < v.final_values.len()) by {
                let a = done[j];
                assert(plan.learner_col@[a as int]->0 < n);
            }
            lemma_stores_columns(
                v.final_values,
                base,
                plan.learner_col@,
                done,
                values,
                done.len() as int,
            );
            assert forall|i: int|
                0 <= i < steps * n && !(i < (t + 1) * n && (w.terminated[i] || w.truncated[i]))
                implies #[trigger] w.final_values[i] == num::<F>(0) by {
                assert forall|j: int| 0 <= j < done.len() implies (
                plan.learner_col@[#[trigger] done[j] as int] matches Some(c) ==> base + c != i) by {
                    let a = done[j];
                    let c = plan.learner_col@[a as int]->0;
                    assert(idx[c as int] == a);
                }
                assert(v.final_values[i] == num::<F>(0));
            }
        },
        _ => {},
    }
}

proof fn lemma_course_in_order<F: Scalar>(
    c: Course<F>,
    plan: RolloutPlan,
    steps: usize,
    mode: ObsMode,
    emit_v0_obs: bool,
    k: int,
    i: int,
)
    requires
        runs(c, plan, steps, mode, emit_v0_obs, k),
        recordable(plan),
        steps * plan.learner_idx@.len() <= usize::MAX,
        0 <= i < c.stages.len(),
    ensures
        in_order(c.buffers[i], plan, mode, emit_v0_obs, steps as int, k, c.stages[i]),
    decreases i,
{
    let n = plan.learner_idx@.len() as int;
    if i == 0 {
        assert(0 <= steps * n) by (nonlinear_arith)
            requires
                0 <= steps,
                0 <= n,
        ;
        assert(0 * n == 0);
        let v = planned_view::<F>(plan, steps as int, mode, emit_v0_obs);
        assert(v.learner_agents == n);
    } else {
        lemma_course_in_order(c, plan, steps, mode, emit_v0_obs, k, i - 1);
        assert(c.stages[(i - 1) + 1] == stage_after(
            plan,
            steps,
            c.stages[i - 1],
            c.counts[i - 1],
        ));
        lemma_stage_keeps_order(
            plan,
            mode,
            emit_v0_obs,
            steps,
            k,
            c.stages[i - 1],
            c.counts[i - 1],
            c.buffers[i - 1],
            c.buffers[i],
        );
    }
}

/// Once a rollout has reached its end, its buffers can be merged and hold the rows
/// of the plan, with the plan's labels. Every row of every step has an action of
/// the table, and a final value other than zero only where its episode ended.
pub proof fn law_finished_rollouts_are_complete<F: Scalar>(
    c: Course<F>,
    plan: RolloutPlan,
    steps: usize,
    mode: ObsMode,
    emit_v0_obs: bool,
    k: int,
)
    requires
        runs(c, plan, steps, mode, emit_v0_obs, k),
        recordable(plan),
        steps * plan.learner_idx@.len() <= usize::MAX,
        c.stages.last() == Stage::Finished,
    ensures
        ({
            let n = plan.learner_idx@.len() as int;
            let v = c.buffers.last();
            &&& mergeable_view(v, mode, steps as int, emit_v0_obs)
            &&& labelled_by(v, plan, mode)
            &&& actions_below(v.actions, k)
            &&& forall|i: int|
                0 <= i < steps * n && !v.terminated[i] && !v.truncated[i]
                    ==> #[trigger] v.final_values[i] == num::<F>(0)
        }),
{
    lemma_course_in_order(c, plan, steps, mode, emit_v0_obs, k, c.stages.len() - 1);
}

/// The drawn actions of a rollout name rows of the table: there is one logit for
/// each row.
pub proof fn law_drawn_actions_are_rows<F: Scalar, E: Fn(F) -> F, L: Fn(F) -> F>(
    logits: Seq<F>,
    g: Gen,
    exp: E,
    ln: L,
    idx: int,
    lp: F,
)
    requires
        drawn_action(logits, g, exp, ln, idx, lp),
    ensures
        0 <= idx < logits.len(),
{
    reveal(drawn_action);
    assert(weights_of(logits, exp).len() == logits.len());
}

} // verus!
