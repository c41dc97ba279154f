//! Where every recorded number of a rollout comes from, field by field.

use crate::engine::collect::{
    all_ended, ended, law_stored_by_column, planned_view, step_recorded, stored_by_column,
    with_actions, with_entities, with_final_values, with_flat, with_last_values, with_step,
    with_values, BatchView, CollectView,
};
use crate::engine::merge::{
    end_to_end, law_merged_row, lemma_side_len, lemma_sum_monotone, mergeable_view, merged_view,
    parts_hold, rows_together, sum_of,
};
use crate::engine::plan::RolloutPlan;
use crate::episode::{ObsMode, StepFlags};
use crate::rows::{
    gathered, has_rows, lemma_gathered_row, lemma_row_bounds, row, rows_within, side_by_side,
};
use crate::scalar::{num, Scalar};
use vstd::prelude::*;

verus! {

proof fn lemma_rows_match<F, T>(
    outs: Seq<CollectView<F>>,
    part: spec_fn(CollectView<F>) -> Seq<T>,
    steps: int,
    k: int,
    t: int,
    w: int,
    j: int,
)
    requires
        0 <= t < steps,
        0 <= k,
        0 <= w < outs.len(),
        0 <= j < outs[w].learner_agents,
        forall|i: int|
            0 <= i < outs.len() ==> has_rows(
                part(#[trigger] outs[i]),
                steps * outs[i].learner_agents,
                k,
            ),
    ensures
        ({
            let ns = outs.map_values(|o: CollectView<F>| o.learner_agents);
            row(
                side_by_side(outs.map_values(part), ns, steps, k),
                t * rows_together(outs) + sum_of(ns, w) + j,
                k,
            ) == row(part(outs[w]), t * outs[w].learner_agents + j, k)
        }),
{
    let ns = outs.map_values(|o: CollectView<F>| o.learner_agents);
    let parts = outs.map_values(part);
    assert forall|i: int| 0 <= i < ns.len() implies has_rows(#[trigger] parts[i], steps * ns[i], k)
        by {
        assert(parts[i] == part(outs[i]));
    }
    assert(parts_hold(parts, ns, steps, k));
    law_merged_row(parts, ns, steps, k, t, w, j);
}

/// A recorded row of a worker has its place among all recorded rows.
proof fn lemma_place<F>(outs: Seq<CollectView<F>>, steps: int, t: int, w: int, j: int)
    requires
        0 <= t < steps,
        0 <= w < outs.len(),
        0 <= j < outs[w].learner_agents,
    ensures
        ({
            let ns = outs.map_values(|o: CollectView<F>| o.learner_agents);
            let at = t * rows_together(outs) + sum_of(ns, w) + j;
            let from = t * outs[w].learner_agents + j;
            &&& 0 <= at < steps * rows_together(outs)
            &&& 0 <= from < steps * outs[w].learner_agents
        }),
{
    let ns = outs.map_values(|o: CollectView<F>| o.learner_agents);
    let total = rows_together(outs);
    lemma_sum_monotone(ns, w, w + 1);
    lemma_sum_monotone(ns, w + 1, outs.len() as int);
    lemma_row_bounds(t, steps, total);
    lemma_row_bounds(t, steps, outs[w].learner_agents as int);
}

proof fn lemma_cells_match<F, T>(
    outs: Seq<CollectView<F>>,
    part: spec_fn(CollectView<F>) -> Seq<T>,
    steps: int,
    t: int,
    w: int,
    j: int,
)
    requires
        0 <= t < steps,
        0 <= w < outs.len(),
        0 <= j < outs[w].learner_agents,
        forall|i: int|
            0 <= i < outs.len() ==> has_rows(
                part(#[trigger] outs[i]),
                steps * outs[i].learner_agents,
                1,
            ),
    ensures
        ({
            let ns = outs.map_values(|o: CollectView<F>| o.learner_agents);
            let at = t * rows_together(outs) + sum_of(ns, w) + j;
            side_by_side(outs.map_values(part), ns, steps, 1)[at] == part(
                outs[w],
            )[t * outs[w].learner_agents + j]
        }),
{
    lemma_rows_match(outs, part, steps, 1, t, w, j);
    lemma_place(outs, steps, t, w, j);
    let ns = outs.map_values(|o: CollectView<F>| o.learner_agents);
    let at = t * rows_together(outs) + sum_of(ns, w) + j;
    let parts = outs.map_values(part);
    let all = side_by_side(parts, ns, steps, 1);
    let from = t * outs[w].learner_agents + j;
    assert forall|i: int| 0 <= i < ns.len() implies has_rows(#[trigger] parts[i], steps * ns[i], 1)
        by {
        assert(parts[i] == part(outs[i]));
    }
    lemma_side_len(parts, ns, steps, steps, 1);
    assert(has_rows(part(outs[w]), steps * outs[w].learner_agents, 1));
    assert(row(all, at, 1)[0] == all[at]);
    assert(row(part(outs[w]), from, 1)[0] == part(outs[w])[from]);
}

/// Merging keeps every number in its field: what worker `w` recorded for row `j`
/// in step `t` stands in the same field of the merged rollout, behind the rows of
/// the earlier steps and, in its step, those of the earlier workers.
pub proof fn law_merging_keeps_the_fields<F: Scalar>(
    outs: Seq<CollectView<F>>,
    mode: ObsMode,
    steps: int,
    learner_count: usize,
    emit_v0_obs: bool,
    t: int,
    w: int,
    j: int,
)
    requires
        forall|i: int|
            0 <= i < outs.len() ==> mergeable_view(#[trigger] outs[i], mode, steps, emit_v0_obs),
        0 <= t < steps,
        0 <= w < outs.len(),
        0 <= j < outs[w].learner_agents,
    ensures
        ({
            let m = merged_view(outs, mode, steps, learner_count, emit_v0_obs);
            let ns = outs.map_values(|o: CollectView<F>| o.learner_agents);
            let at = t * rows_together(outs) + sum_of(ns, w) + j;
            let from = t * outs[w].learner_agents + j;
            let o = outs[w];
            &&& m.actions[at] == o.actions[from]
            &&& m.logprobs[at] == o.logprobs[from]
            &&& m.values[at] == o.values[from]
            &&& m.rewards[at] == o.rewards[from]
            &&& m.terminated[at] == o.terminated[from]
            &&& m.truncated[at] == o.truncated[from]
            &&& m.final_values[at] == o.final_values[from]
            &&& mode == ObsMode::V0 ==> row(m.obs, at, 94) == row(o.obs, from, 94)
            &&& mode == ObsMode::V1 ==> {
                &&& row(m.ents, at, 442) == row(o.ents, from, 442)
                &&& row(m.mask, at, 17) == row(o.mask, from, 17)
                &&& row(m.query, at, 64) == row(o.query, from, 64)
                &&& row(m.prev, at, 5) == row(o.prev, from, 5)
                &&& emit_v0_obs ==> row(m.obs_v0, at, 94) == row(o.obs_v0, from, 94)
            }
        }),
{
    assert forall|i: int| 0 <= i < outs.len() implies #[trigger] mergeable_view(
        outs[i],
        mode,
        steps,
        emit_v0_obs,
    ) by {}
    lemma_cells_match(outs, |o: CollectView<F>| o.actions, steps, t, w, j);
    lemma_cells_match(outs, |o: CollectView<F>| o.logprobs, steps, t, w, j);
    lemma_cells_match(outs, |o: CollectView<F>| o.values, steps, t, w, j);
    lemma_cells_match(outs, |o: CollectView<F>| o.rewards, steps, t, w, j);
    lemma_cells_match(outs, |o: CollectView<F>| o.terminated, steps, t, w, j);
    lemma_cells_match(outs, |o: CollectView<F>| o.truncated, steps, t, w, j);
    lemma_cells_match(outs, |o: CollectView<F>| o.final_values, steps, t, w, j);
    if mode == ObsMode::V0 {
        lemma_rows_match(outs, |o: CollectView<F>| o.obs, steps, 94, t, w, j);
    } else {
        lemma_rows_match(outs, |o: CollectView<F>| o.ents, steps, 442, t, w, j);
        lemma_rows_match(outs, |o: CollectView<F>| o.mask, steps, 17, t, w, j);
        lemma_rows_match(outs, |o: CollectView<F>| o.query, steps, 64, t, w, j);
        lemma_rows_match(outs, |o: CollectView<F>| o.prev, steps, 5, t, w, j);
        if emit_v0_obs {
            lemma_rows_match(outs, |o: CollectView<F>| o.obs_v0, steps, 94, t, w, j);
        }
    }
}

proof fn lemma_end_to_end_at<T>(parts: Seq<Seq<T>>, ns: Seq<usize>, w: int, j: int)
    requires
        parts.len() == ns.len(),
        forall|i: int| 0 <= i < ns.len() ==> (#[trigger] parts[i]).len() == ns[i],
        0 <= w < ns.len(),
        0 <= j < ns[w],
    ensures
        end_to_end(parts).len() == sum_of(ns, ns.len() as int),
        end_to_end(parts)[sum_of(ns, w) + j] == parts[w][j],
    decreases parts.len(),
{
    let last = parts.len() - 1;
    let head = parts.drop_last();
    let hs = ns.drop_last();
    lemma_sums_agree(hs, ns, last);
    lemma_sums_agree(hs, ns, w);
    lemma_sum_monotone(ns, 0, w);
    assert forall|i: int| 0 <= i < hs.len() implies (#[trigger] head[i]).len() == hs[i] by {
        assert(head[i] == parts[i]);
    }
    if w < last {
        lemma_end_to_end_at(head, hs, w, j);
        lemma_sum_monotone(ns, w + 1, last);
    } else {
        lemma_end_to_end_size(head, hs);
    }
}

proof fn lemma_end_to_end_size<T>(parts: Seq<Seq<T>>, ns: Seq<usize>)
    requires
        parts.len() == ns.len(),
        forall|i: int| 0 <= i < ns.len() ==> (#[trigger] parts[i]).len() == ns[i],
    ensures
        end_to_end(parts).len() == sum_of(ns, ns.len() as int),
    decreases parts.len(),
{
    if parts.len() > 0 {
        let head = parts.drop_last();
        let hs = ns.drop_last();
        assert forall|i: int| 0 <= i < hs.len() implies (#[trigger] head[i]).len() == hs[i] by {
            assert(head[i] == parts[i]);
        }
        lemma_end_to_end_size(head, hs);
        lemma_sums_agree(hs, ns, parts.len() - 1);
    }
}

proof fn lemma_sums_agree(a: Seq<usize>, b: Seq<usize>, n: int)
    requires
        n <= a.len(),
        n <= b.len(),
        forall|i: int| 0 <= i < n ==> a[i] == b[i],
    ensures
        sum_of(a, n) == sum_of(b, n),
    decreases n,
{
    if n > 0 {
        lemma_sums_agree(a, b, n - 1);
    }
}

/// Merging keeps the bootstrap values and the team sizes of the rows: those of
/// worker `w` follow those of the earlier workers.
pub proof fn law_merging_keeps_the_rows_labels<F: Scalar>(
    outs: Seq<CollectView<F>>,
    mode: ObsMode,
    steps: int,
    learner_count: usize,
    emit_v0_obs: bool,
    w: int,
    j: int,
)
    requires
        forall|i: int|
            0 <= i < outs.len() ==> (#[trigger] outs[i]).last_values.len()
                == outs[i].learner_agents,
        mode == ObsMode::V1 ==> forall|i: int|
            0 <= i < outs.len() ==> (#[trigger] outs[i]).learner_team_size.len()
                == outs[i].learner_agents,
        0 <= w < outs.len(),
        0 <= j < outs[w].learner_agents,
    ensures
        ({
            let m = merged_view(outs, mode, steps, learner_count, emit_v0_obs);
            let ns = outs.map_values(|o: CollectView<F>| o.learner_agents);
            let at = sum_of(ns, w) + j;
            &&& m.last_values[at] == outs[w].last_values[j]
            &&& mode == ObsMode::V1 ==> m.learner_team_size[at] == outs[w].learner_team_size[j]
        }),
{
    let ns = outs.map_values(|o: CollectView<F>| o.learner_agents);
    let last = outs.map_values(|o: CollectView<F>| o.last_values);
    assert forall|i: int| 0 <= i < ns.len() implies (#[trigger] last[i]).len() == ns[i] by {
        assert(outs[i].last_values.len() == outs[i].learner_agents);
    }
    lemma_end_to_end_at(last, ns, w, j);
    if mode == ObsMode::V1 {
        let sizes = outs.map_values(|o: CollectView<F>| o.learner_team_size);
        assert forall|i: int| 0 <= i < ns.len() implies (#[trigger] sizes[i]).len() == ns[i] by {
            assert(outs[i].learner_team_size.len() == outs[i].learner_agents);
        }
        lemma_end_to_end_at(sizes, ns, w, j);
    }
}

/// Recording the rows `idx` of `src` as step `t` puts row `idx[c]` behind the rows
/// of the earlier steps at place `c`, and leaves all other steps as they were.
proof fn lemma_recorded_rows<T>(
    buf: Seq<T>,
    t: int,
    steps: int,
    idx: Seq<usize>,
    src: Seq<T>,
    agents: int,
    k: int,
    u: int,
    c: int,
)
    requires
        0 <= t < steps,
        0 <= u < steps,
        0 <= k,
        0 <= c < idx.len(),
        has_rows(buf, steps * idx.len(), k),
        has_rows(src, agents, k),
        rows_within(idx, agents),
    ensures
        row(step_recorded(buf, t, idx, src, k), u * idx.len() + c, k) == if u == t {
            row(src, idx[c] as int, k)
        } else {
            row(buf, u * idx.len() + c, k)
        },
{
    let n = idx.len() as int;
    let g = gathered(src, idx, k);
    let after = step_recorded(buf, t, idx, src, k);
    lemma_gathered_row(src, idx, k, agents, c);
    lemma_row_bounds(t, steps, n);
    lemma_row_bounds(u, steps, n);
    lemma_row_bounds(c, n, k);
    let at = u * n + c;
    lemma_row_bounds(at, steps * n, k);
    assert(at * k == u * n * k + c * k) by (nonlinear_arith)
        requires
            at == u * n + c,
    ;
    assert(g.len() == n * k);
    if u == t {
        assert(row(after, at, k) =~= row(g, c, k));
    } else {
        if u < t {
            assert((u + 1) * n * k <= t * n * k) by (nonlinear_arith)
                requires
                    u + 1 <= t,
                    0 <= n,
                    0 <= k,
            ;
            assert((at + 1) * k <= (u + 1) * n * k) by (nonlinear_arith)
                requires
                    at == u * n + c,
                    c + 1 <= n,
                    0 <= k,
            ;
        } else {
            assert(t * n * k + n * k <= u * n * k) by (nonlinear_arith)
                requires
                    t + 1 <= u,
                    0 <= n,
                    0 <= k,
            ;
            assert(0 <= c * k) by (nonlinear_arith)
                requires
                    0 <= c,
                    0 <= k,
            ;
        }
        assert(row(after, at, k) =~= row(buf, at, k));
    }
}

proof fn lemma_recorded_cell<T>(
    buf: Seq<T>,
    t: int,
    steps: int,
    idx: Seq<usize>,
    src: Seq<T>,
    u: int,
    c: int,
)
    requires
        0 <= t < steps,
        0 <= u < steps,
        0 <= c < idx.len(),
        buf.len() == steps * idx.len(),
        rows_within(idx, src.len() as int),
    ensures
        step_recorded(buf, t, idx, src, 1)[u * idx.len() + c] == if u == t {
            src[idx[c] as int]
        } else {
            buf[u * idx.len() + c]
        },
{
    let n = idx.len() as int;
    let at = u * n + c;
    lemma_recorded_rows(buf, t, steps, idx, src, src.len() as int, 1, u, c);
    lemma_row_bounds(u, steps, n);
    let after = step_recorded(buf, t, idx, src, 1);
    assert(row(after, at, 1)[0] == after[at]);
    assert(row(buf, at, 1)[0] == buf[at]);
    assert(idx[c] < src.len());
    assert(row(src, idx[c] as int, 1)[0] == src[idx[c] as int]);
}

/// The recorded agents are agents of the plan.
pub open spec fn learners_within(plan: RolloutPlan) -> bool {
    rows_within(plan.learner_idx@, plan.agents as int)
}

/// Recorded actions: step `t` has for every recorded agent its action and its
/// log-probability; the other steps and the other fields are as they were.
pub proof fn law_actions_are_the_agents<F>(
    v: CollectView<F>,
    plan: RolloutPlan,
    steps: int,
    t: int,
    acts: Seq<i64>,
    logprobs: Seq<F>,
    u: int,
    c: int,
)
    requires
        learners_within(plan),
        0 <= t < steps,
        0 <= u < steps,
        0 <= c < plan.learner_idx@.len(),
        v.actions.len() == steps * plan.learner_idx@.len(),
        v.logprobs.len() == steps * plan.learner_idx@.len(),
        acts.len() == plan.agents,
        logprobs.len() == plan.agents,
    ensures
        ({
            let w = with_actions(v, plan, t, acts, logprobs);
            let at = u * plan.learner_idx@.len() + c;
            let a = plan.learner_idx@[c] as int;
            &&& w.actions[at] == if u == t {
                acts[a]
            } else {
                v.actions[at]
            }
            &&& w.logprobs[at] == if u == t {
                logprobs[a]
            } else {
                v.logprobs[at]
            }
            &&& w == (CollectView { actions: w.actions, logprobs: w.logprobs, ..v })
        }),
{
    let idx = plan.learner_idx@;
    lemma_recorded_cell(v.actions, t, steps, idx, acts, u, c);
    lemma_recorded_cell(v.logprobs, t, steps, idx, logprobs, u, c);
}

/// Recorded steps: step `t` has for every recorded agent its reward, whether its
/// episode came to its end and whether it was cut off; the other steps and the
/// other fields are as they were.
pub proof fn law_steps_are_the_agents<F>(
    v: CollectView<F>,
    plan: RolloutPlan,
    steps: int,
    t: int,
    rewards: Seq<F>,
    flags: Seq<StepFlags>,
    u: int,
    c: int,
)
    requires
        learners_within(plan),
        0 <= t < steps,
        0 <= u < steps,
        0 <= c < plan.learner_idx@.len(),
        v.rewards.len() == steps * plan.learner_idx@.len(),
        v.terminated.len() == steps * plan.learner_idx@.len(),
        v.truncated.len() == steps * plan.learner_idx@.len(),
        rewards.len() == plan.agents,
        flags.len() == plan.agents,
    ensures
        ({
            let w = with_step(v, plan, t, rewards, flags);
            let at = u * plan.learner_idx@.len() + c;
            let a = plan.learner_idx@[c] as int;
            &&& w.rewards[at] == if u == t {
                rewards[a]
            } else {
                v.rewards[at]
            }
            &&& w.terminated[at] == if u == t {
                flags[a].terminated
            } else {
                v.terminated[at]
            }
            &&& w.truncated[at] == if u == t {
                flags[a].truncated
            } else {
                v.truncated[at]
            }
            &&& w == (CollectView {
                rewards: w.rewards,
                terminated: w.terminated,
                truncated: w.truncated,
                ..v
            })
        }),
{
    let idx = plan.learner_idx@;
    let terminated = flags.map_values(|f: StepFlags| f.terminated);
    let truncated = flags.map_values(|f: StepFlags| f.truncated);
    lemma_recorded_cell(v.rewards, t, steps, idx, rewards, u, c);
    lemma_recorded_cell(v.terminated, t, steps, idx, terminated, u, c);
    lemma_recorded_cell(v.truncated, t, steps, idx, truncated, u, c);
    assert(idx[c] < flags.len());
}

/// Recorded flat observations: step `t` has for every recorded agent its row.
pub proof fn law_flat_observations_are_the_agents<F>(
    v: CollectView<F>,
    plan: RolloutPlan,
    steps: int,
    t: int,
    obs: Seq<F>,
    u: int,
    c: int,
)
    requires
        learners_within(plan),
        0 <= t < steps,
        0 <= u < steps,
        0 <= c < plan.learner_idx@.len(),
        has_rows(v.obs, steps * plan.learner_idx@.len(), 94),
        has_rows(obs, plan.agents as int, 94),
    ensures
        ({
            let w = with_flat(v, plan, t, obs);
            let at = u * plan.learner_idx@.len() + c;
            &&& row(w.obs, at, 94) == if u == t {
                row(obs, plan.learner_idx@[c] as int, 94)
            } else {
                row(v.obs, at, 94)
            }
            &&& w == (CollectView { obs: w.obs, ..v })
        }),
{
    lemma_recorded_rows(
        v.obs,
        t,
        steps,
        plan.learner_idx@,
        obs,
        plan.agents as int,
        94,
        u,
        c,
    );
}

/// Recorded entity observations: step `t` has for every recorded agent its
/// entities, mask, query and recent actions, and its flat row where those are
/// given.
pub proof fn law_entity_observations_are_the_agents<F>(
    v: CollectView<F>,
    plan: RolloutPlan,
    steps: int,
    t: int,
    batch: BatchView<F>,
    flat: Option<Seq<F>>,
    u: int,
    c: int,
)
    requires
        learners_within(plan),
        0 <= t < steps,
        0 <= u < steps,
        0 <= c < plan.learner_idx@.len(),
        has_rows(v.ents, steps * plan.learner_idx@.len(), 442),
        has_rows(v.mask, steps * plan.learner_idx@.len(), 17),
        has_rows(v.query, steps * plan.learner_idx@.len(), 64),
        has_rows(v.prev, steps * plan.learner_idx@.len(), 5),
        batch.holds(plan.agents as int),
        flat matches Some(o) ==> has_rows(v.obs_v0, steps * plan.learner_idx@.len(), 94)
            && has_rows(o, plan.agents as int, 94),
    ensures
        ({
            let w = with_entities(v, plan, t, batch, flat);
            let at = u * plan.learner_idx@.len() + c;
            let a = plan.learner_idx@[c] as int;
            let now = u == t;
            &&& row(w.ents, at, 442) == if now {
                row(batch.ents, a, 442)
            } else {
                row(v.ents, at, 442)
            }
            &&& row(w.mask, at, 17) == if now {
                row(batch.mask, a, 17)
            } else {
                row(v.mask, at, 17)
            }
            &&& row(w.query, at, 64) == if now {
                row(batch.query, a, 64)
            } else {
                row(v.query, at, 64)
            }
            &&& row(w.prev, at, 5) == if now {
                row(batch.prev, a, 5)
            } else {
                row(v.prev, at, 5)
            }
            &&& flat matches Some(o) ==> row(w.obs_v0, at, 94) == if now {
                row(o, a, 94)
            } else {
                row(v.obs_v0, at, 94)
            }
            &&& flat is None ==> w.obs_v0 == v.obs_v0
        }),
{
    let idx = plan.learner_idx@;
    let n = plan.agents as int;
    lemma_recorded_rows(v.ents, t, steps, idx, batch.ents, n, 442, u, c);
    lemma_recorded_rows(v.mask, t, steps, idx, batch.mask, n, 17, u, c);
    lemma_recorded_rows(v.query, t, steps, idx, batch.query, n, 64, u, c);
    lemma_recorded_rows(v.prev, t, steps, idx, batch.prev, n, 5, u, c);
    if let Some(o) = flat {
        lemma_recorded_rows(v.obs_v0, t, steps, idx, o, n, 94, u, c);
    }
}

/// Storing values by column, seen from a column: the value of the agent that has
/// it, if that agent is among those given; nothing else changes.
proof fn lemma_stored_at<F>(
    buf: Seq<F>,
    plan: RolloutPlan,
    steps: int,
    t: int,
    idx: Seq<usize>,
    vals: Seq<F>,
    u: int,
    c: int,
)
    requires
        plan.columns_invert_rows(),
        plan.learner_idx@.len() <= usize::MAX,
        0 <= t < steps,
        0 <= u < steps,
        0 <= c < plan.learner_idx@.len(),
        buf.len() == steps * plan.learner_idx@.len(),
        rows_within(idx, plan.agents as int),
        idx.no_duplicates(),
        vals.len() == idx.len(),
    ensures
        ({
            let n = plan.learner_idx@.len() as int;
            let at = u * n + c;
            let w = stored_by_column(buf, t * n, plan.learner_col@, idx, vals, idx.len() as int);
            &&& forall|j: int|
                0 <= j < idx.len() && #[trigger] idx[j] == plan.learner_idx@[c] && u == t
                    ==> w[at] == vals[j]
            &&& !idx.contains(plan.learner_idx@[c]) || u != t ==> w[at] == buf[at]
        }),
{
    let n = plan.learner_idx@.len() as int;
    let at = u * n + c;
    let base = t * n;
    let col = plan.learner_col@;
    lemma_row_bounds(t, steps, n);
    lemma_row_bounds(u, steps, n);
    if u < t {
        lemma_row_bounds(u, t, n);
    } else if t < u {
        lemma_row_bounds(t, u, n);
    }
    assert forall|j: int| 0 <= j < idx.len() implies match col[#[trigger] idx[j] as int] {
        Some(d) => base + d < buf.len(),
        None => true,
    } by {
        assert(idx[j] < plan.agents);
    }
    assert forall|i: int, j: int|
        0 <= i < j < idx.len() && col[#[trigger] idx[i] as int] is Some implies col[idx[i] as int]
        != col[#[trigger] idx[j] as int] by {
        assert(idx[i] < plan.agents && idx[j] < plan.agents);
        assert(idx[i] != idx[j]);
    }
    law_stored_by_column(buf, base, col, idx, vals, idx.len() as int);
    let mine = plan.learner_idx@[c];
    assert(col[mine as int] == Some(c as usize));
    if !idx.contains(mine) || u != t {
        assert forall|j: int| 0 <= j < idx.len() implies match col[#[trigger] idx[j] as int] {
            Some(d) => base + d != at,
            None => true,
        } by {
            assert(idx[j] < plan.agents);
            if let Some(d) = col[idx[j] as int] {
                assert(d < n && plan.learner_idx@[d as int] == idx[j]);
                if u == t && d == c {
                    assert(idx.contains(mine));
                }
            }
        }
    }
}

/// Recorded values: step `t` has for every recorded agent the value that the
/// learner's policy gave for it.
pub proof fn law_values_are_the_agents<F>(
    v: CollectView<F>,
    plan: RolloutPlan,
    steps: int,
    t: int,
    values: Seq<F>,
    u: int,
    c: int,
    j: int,
)
    requires
        plan.columns_invert_rows(),
        v.learner_agents == plan.learner_idx@.len(),
        0 <= t < steps,
        0 <= u < steps,
        0 <= c < plan.learner_idx@.len(),
        v.values.len() == steps * plan.learner_idx@.len(),
        rows_within(plan.fwd_idx@, plan.agents as int),
        plan.fwd_idx@.no_duplicates(),
        values.len() == plan.fwd_idx@.len(),
        0 <= j < values.len(),
        plan.fwd_idx@[j] == plan.learner_idx@[c],
    ensures
        ({
            let w = with_values(v, plan, t, values);
            let at = u * plan.learner_idx@.len() + c;
            &&& w.values[at] == if u == t {
                values[j]
            } else {
                v.values[at]
            }
            &&& w == (CollectView { values: w.values, ..v })
        }),
{
    lemma_stored_at(v.values, plan, steps, t, plan.fwd_idx@, values, u, c);
}

/// The agents whose final observations are asked for are the recorded agents whose
/// episode came to its end or was cut off, each once.
pub proof fn law_ended_agents_are_listed(plan: RolloutPlan, flags: Seq<StepFlags>)
    requires
        plan.columns_invert_rows(),
    ensures
        all_ended(plan, flags).no_duplicates(),
        rows_within(all_ended(plan, flags), plan.agents as int),
        forall|c: int|
            0 <= c < plan.learner_idx@.len() ==> (all_ended(plan, flags).contains(
                #[trigger] plan.learner_idx@[c],
            ) <==> flags[plan.learner_idx@[c] as int].terminated
                || flags[plan.learner_idx@[c] as int].truncated),
{
    lemma_ended(plan, flags, plan.learner_idx@.len() as int);
}

proof fn lemma_ended(plan: RolloutPlan, flags: Seq<StepFlags>, m: int)
    requires
        plan.columns_invert_rows(),
        0 <= m <= plan.learner_idx@.len(),
    ensures
        ({
            let idx = plan.learner_idx@;
            let done = ended(idx, flags, m);
            &&& done.no_duplicates()
            &&& rows_within(done, plan.agents as int)
            &&& forall|c: int|
                0 <= c < idx.len() ==> (done.contains(#[trigger] idx[c]) <==> c < m && (
                flags[idx[c] as int].terminated || flags[idx[c] as int].truncated))
        }),
    decreases m,
{
    let idx = plan.learner_idx@;
    if m > 0 {
        lemma_ended(plan, flags, m - 1);
        let before = ended(idx, flags, m - 1);
        let done = ended(idx, flags, m);
        let x = idx[m - 1];
        let f = flags[x as int];
        assert(plan.learner_idx.len() == idx.len());
        if f.terminated || f.truncated {
            assert(done == before.push(x));
            assert(!before.contains(x));
            assert forall|c: int| 0 <= c < idx.len() implies (done.contains(#[trigger] idx[c])
                <==> c < m && (flags[idx[c] as int].terminated
                || flags[idx[c] as int].truncated)) by {
                let y = idx[c];
                assert(plan.learner_col@[y as int] == Some(c as usize));
                assert(plan.learner_col@[x as int] == Some((m - 1) as usize));
                assert(x == y ==> c == m - 1);
                if before.contains(y) {
                    let k = choose|k: int| 0 <= k < before.len() && before[k] == y;
                    assert(done[k] == y);
                }
                if done.contains(y) {
                    let k = choose|k: int| 0 <= k < done.len() && done[k] == y;
                    if k < before.len() {
                        assert(before[k] == y);
                    }
                }
                if c == m - 1 {
                    assert(done[before.len() as int] == y);
                }
            }
        } else {
            assert forall|c: int| 0 <= c < idx.len() implies (done.contains(#[trigger] idx[c])
                <==> c < m && (flags[idx[c] as int].terminated
                || flags[idx[c] as int].truncated)) by {}
        }
    }
}

/// Recorded final values: step `t` has for every recorded agent whose episode ended
/// the value of its final observation; for the others nothing changes.
pub proof fn law_final_values_are_the_agents<F>(
    v: CollectView<F>,
    plan: RolloutPlan,
    steps: int,
    t: int,
    flags: Seq<StepFlags>,
    values: Seq<F>,
    u: int,
    c: int,
)
    requires
        plan.columns_invert_rows(),
        v.learner_agents == plan.learner_idx@.len(),
        0 <= t < steps,
        0 <= u < steps,
        0 <= c < plan.learner_idx@.len(),
        v.final_values.len() == steps * plan.learner_idx@.len(),
        values.len() == all_ended(plan, flags).len(),
    ensures
        ({
            let done = all_ended(plan, flags);
            let w = with_final_values(v, plan, t, done, values);
            let at = u * plan.learner_idx@.len() + c;
            let a = plan.learner_idx@[c];
            let f = flags[a as int];
            &&& u == t ==> forall|j: int|
                0 <= j < done.len() && #[trigger] done[j] == a ==> w.final_values[at] == values[j]
            &&& u != t || !(f.terminated || f.truncated) ==> w.final_values[at]
                == v.final_values[at]
            &&& w == (CollectView { final_values: w.final_values, ..v })
        }),
{
    law_ended_agents_are_listed(plan, flags);
    lemma_stored_at(v.final_values, plan, steps, t, all_ended(plan, flags), values, u, c);
    assert(plan.learner_idx@[c] == plan.learner_idx@[c]);
}

/// All of `n` values are there, and they are `z`.
pub open spec fn all_are<T>(s: Seq<T>, n: int, z: T) -> bool {
    s.len() == n && forall|i: int| 0 <= i < n ==> #[trigger] s[i] == z
}

/// A rollout begins with nothing recorded: zeros everywhere, no episode ended, one row
/// per recorded agent and step, of the width that its kind of observation has.
pub proof fn law_buffers_begin_with_zeros<F: Scalar>(
    plan: RolloutPlan,
    steps: int,
    mode: ObsMode,
    emit_v0_obs: bool,
)
    requires
        0 <= steps,
        plan.learner_idx@.len() <= usize::MAX,
        plan.fwd_idx@.len() <= usize::MAX,
    ensures
        ({
            let v = planned_view::<F>(plan, steps, mode, emit_v0_obs);
            let n = plan.learner_idx@.len() as int;
            let cells = steps * n;
            let zero = num::<F>(0);
            &&& all_are(v.actions, cells, 0i64)
            &&& all_are(v.logprobs, cells, zero)
            &&& all_are(v.values, cells, zero)
            &&& all_are(v.rewards, cells, zero)
            &&& all_are(v.terminated, cells, false)
            &&& all_are(v.truncated, cells, false)
            &&& all_are(v.final_values, cells, zero)
            &&& all_are(v.last_values, n, zero)
            &&& v.learner_agents == n
            &&& mode == ObsMode::V0 ==> {
                &&& all_are(v.obs, cells * 94, zero)
                &&& v.ents.len() == 0 && v.mask.len() == 0 && v.query.len() == 0
                &&& v.prev.len() == 0 && v.obs_v0.len() == 0
                &&& v.forward_rows == n
            }
            &&& mode == ObsMode::V1 ==> {
                &&& all_are(v.ents, cells * 442, zero)
                &&& all_are(v.mask, cells * 17, false)
                &&& all_are(v.query, cells * 64, zero)
                &&& all_are(v.prev, cells * 5, 0i64)
                &&& emit_v0_obs ==> all_are(v.obs_v0, cells * 94, zero)
                &&& !emit_v0_obs ==> v.obs_v0.len() == 0
                &&& v.obs.len() == 0
                &&& v.learner_team_size == plan.learner_team_size@
                &&& v.forward_rows == plan.fwd_idx@.len()
            }
        }),
{
    let cells = steps * plan.learner_idx@.len();
    assert(0 <= cells) by (nonlinear_arith)
        requires
            cells == steps * plan.learner_idx@.len(),
            0 <= steps,
    ;
}

/// The bootstrap values are kept as they come, and nothing else changes.
pub proof fn law_last_values_are_kept<F>(v: CollectView<F>, values: Seq<F>)
    ensures
        ({
            let w = with_last_values(v, values);
            &&& w.last_values == values
            &&& w.obs == v.obs && w.ents == v.ents && w.mask == v.mask && w.query == v.query
            &&& w.prev == v.prev && w.obs_v0 == v.obs_v0
            &&& w.actions == v.actions && w.logprobs == v.logprobs
            &&& w.values == v.values && w.rewards == v.rewards
            &&& w.terminated == v.terminated && w.truncated == v.truncated
            &&& w.final_values == v.final_values
            &&& w.learner_agents == v.learner_agents
            &&& w.learner_team_size == v.learner_team_size
            &&& w.forward_rows == v.forward_rows
        }),
{
}

} // verus!
