//! The rollout of all workers: from the assignment of the arenas to the merged
//! buffers.

use crate::engine::collect::CollectView;
use crate::engine::course::{
    actions_below, labelled_by, law_finished_rollouts_are_complete, recordable, runs, Course,
};
use crate::engine::merge::{
    law_merged_lengths, mergeable_view, merged_view, rows_together, sum_of,
};
use crate::engine::multi::{law_workers_cover_all_agents, span_of, MultiEngine, WorkerSpan};
use crate::engine::plan::{
    agent_offset, law_forward_rows_ascend, law_rows_concatenate, learner_cars, learner_rows, lemma_offset_monotone, shifted,
    RolloutPlan, TeamSizes,
};
use crate::engine::rollout::Stage;
use crate::engine::shares::{assigned_to, law_even_split};
use crate::episode::ObsMode;
use crate::obs::OBS_SIZE;
use crate::obs_v1::{ENT_FEAT, MAX_ENT, PREV_ACTIONS, Q_FEAT};
use crate::rows::{has_rows, lemma_row_bounds, side_by_side, step_side_by_side};
use crate::scalar::Scalar;
use vstd::prelude::*;

verus! {

/// How many cars of the first `n` arenas are learned from.
pub open spec fn cars_learned_from(sizes: Seq<TeamSizes>, asg: Seq<i32>, n: int) -> int
    decreases n,
{
    if n <= 0 {
        0
    } else {
        cars_learned_from(sizes, asg, n - 1) + learner_cars(sizes[n - 1], asg[n - 1])
    }
}

/// The recorded agents of one worker, numbered among its own.
pub open spec fn rows_of_worker(
    sizes: Seq<TeamSizes>,
    asg: Seq<i32>,
    w: WorkerSpan,
) -> Seq<usize> {
    let first = w.first_arena as int;
    let next = w.first_arena + w.num_arenas;
    learner_rows(sizes.subrange(first, next), asg.subrange(first, next), w.num_arenas as int)
}

/// Every worker recorded the agents that the assignment gives it.
pub open spec fn recorded_as_assigned<F>(
    e: MultiEngine,
    asg: Seq<i32>,
    outs: Seq<CollectView<F>>,
) -> bool {
    &&& outs.len() == e.workers@.len()
    &&& forall|w: int|
        0 <= w < outs.len() ==> (#[trigger] outs[w]).learner_agents == rows_of_worker(
            e.sizes@,
            asg,
            e.workers@[w],
        ).len()
}

proof fn lemma_rows_counted(sizes: Seq<TeamSizes>, asg: Seq<i32>, n: int)
    requires
        0 <= n,
    ensures
        learner_rows(sizes, asg, n).len() == cars_learned_from(sizes, asg, n),
    decreases n,
{
    if n > 0 {
        lemma_rows_counted(sizes, asg, n - 1);
    }
}

proof fn lemma_rows_local(
    sizes: Seq<TeamSizes>,
    asg: Seq<i32>,
    other: Seq<TeamSizes>,
    codes: Seq<i32>,
    n: int,
)
    requires
        n <= sizes.len(),
        n <= other.len(),
        n <= asg.len(),
        n <= codes.len(),
        forall|i: int| 0 <= i < n ==> sizes[i] == other[i],
        forall|i: int| 0 <= i < n ==> asg[i] == codes[i],
    ensures
        agent_offset(sizes, n) == agent_offset(other, n),
        learner_rows(sizes, asg, n) == learner_rows(other, codes, n),
    decreases n,
{
    if n > 0 {
        lemma_rows_local(sizes, asg, other, codes, n - 1);
    }
}

/// The recorded rows of the first arenas and of one more worker.
proof fn lemma_worker_rows(e: MultiEngine, asg: Seq<i32>, w: int)
    requires
        e.valid(),
        asg.len() == e.sizes@.len(),
        0 <= w < e.workers@.len(),
    ensures
        ({
            let span = e.workers@[w];
            let first = span.first_arena as int;
            learner_rows(e.sizes@, asg, first + span.num_arenas) == learner_rows(
                e.sizes@,
                asg,
                first,
            ) + shifted(rows_of_worker(e.sizes@, asg, span), agent_offset(e.sizes@, first))
        }),
{
    let n = e.sizes@.len() as int;
    let threads = e.workers@.len() as int;
    let span = e.workers@[w];
    let first = span.first_arena as int;
    let next = first + span.num_arenas;
    law_workers_cover_all_agents(e, w);
    law_even_split(n, threads, w);
    assert(span == span_of(e.sizes@, threads, w));
    lemma_offset_monotone(e.sizes@, next, n);
    law_rows_concatenate(e.sizes@, asg, first, next);
    lemma_rows_local(
        e.sizes@.skip(first),
        asg.skip(first),
        e.sizes@.subrange(first, next),
        asg.subrange(first, next),
        next - first,
    );
}

proof fn lemma_rows_so_far<F>(e: MultiEngine, asg: Seq<i32>, outs: Seq<CollectView<F>>, w: int)
    requires
        e.valid(),
        asg.len() == e.sizes@.len(),
        recorded_as_assigned(e, asg, outs),
        0 <= w <= outs.len(),
    ensures
        ({
            let n = e.sizes@.len() as int;
            let ns = outs.map_values(|o: CollectView<F>| o.learner_agents);
            sum_of(ns, w) == learner_rows(
                e.sizes@,
                asg,
                assigned_to(n, e.workers@.len() as int, w),
            ).len()
        }),
    decreases w,
{
    if w > 0 {
        let n = e.sizes@.len() as int;
        let threads = e.workers@.len() as int;
        lemma_rows_so_far(e, asg, outs, w - 1);
        lemma_worker_rows(e, asg, w - 1);
        law_even_split(n, threads, w - 1);
        assert(e.workers@[w - 1] == span_of(e.sizes@, threads, w - 1));
        assert(outs[w - 1].learner_agents == rows_of_worker(
            e.sizes@,
            asg,
            e.workers@[w - 1],
        ).len());
    }
}

/// The workers record as many rows as cars are learned from: all cars of an arena
/// that plays itself, the blue ones of every other.
pub proof fn law_every_learner_is_recorded<F>(
    e: MultiEngine,
    asg: Seq<i32>,
    outs: Seq<CollectView<F>>,
)
    requires
        e.valid(),
        asg.len() == e.sizes@.len(),
        recorded_as_assigned(e, asg, outs),
    ensures
        rows_together(outs) == cars_learned_from(e.sizes@, asg, e.num_arenas as int),
        learner_rows(e.sizes@, asg, e.num_arenas as int).len() == cars_learned_from(
            e.sizes@,
            asg,
            e.num_arenas as int,
        ),
{
    let n = e.sizes@.len() as int;
    lemma_rows_counted(e.sizes@, asg, n);
    lemma_rows_so_far(e, asg, outs, outs.len() as int);
    if e.workers@.len() > 0 {
        law_even_split(n, e.workers@.len() as int, 0);
    }
}

/// The merged rows are in the order of all agents: row `j` of worker `w`, which
/// follows the rows of the earlier workers, is that of the worker's agent `j`
/// counted on from the agents of the earlier workers.
pub proof fn law_merged_rows_are_in_order<F>(
    e: MultiEngine,
    asg: Seq<i32>,
    outs: Seq<CollectView<F>>,
    w: int,
    j: int,
)
    requires
        e.valid(),
        asg.len() == e.sizes@.len(),
        recorded_as_assigned(e, asg, outs),
        0 <= w < outs.len(),
        0 <= j < outs[w].learner_agents,
    ensures
        ({
            let ns = outs.map_values(|o: CollectView<F>| o.learner_agents);
            let span = e.workers@[w];
            learner_rows(e.sizes@, asg, e.num_arenas as int)[sum_of(ns, w) + j] == (agent_offset(
                e.sizes@,
                span.first_arena as int,
            ) + rows_of_worker(e.sizes@, asg, span)[j]) as usize
        }),
{
    let n = e.sizes@.len() as int;
    let threads = e.workers@.len() as int;
    let span = e.workers@[w];
    let next = span.first_arena + span.num_arenas;
    law_even_split(n, threads, w);
    assert(span == span_of(e.sizes@, threads, w));
    lemma_rows_so_far(e, asg, outs, w);
    lemma_worker_rows(e, asg, w);
    law_workers_cover_all_agents(e, w);
    lemma_offset_monotone(e.sizes@, next, n);
    law_rows_concatenate(e.sizes@, asg, next, n);
}

/// A rollout of `steps` steps with `n` rows in each.
pub open spec fn whole_rollout<F>(m: CollectView<F>, mode: ObsMode, steps: int, n: int) -> bool {
    let cells = steps * n;
    &&& m.learner_agents == n
    &&& m.actions.len() == cells
    &&& m.logprobs.len() == cells
    &&& m.values.len() == cells
    &&& m.rewards.len() == cells
    &&& m.terminated.len() == cells
    &&& m.truncated.len() == cells
    &&& m.final_values.len() == cells
    &&& m.last_values.len() == n
    &&& mode == ObsMode::V0 ==> {
        &&& m.obs.len() == cells * OBS_SIZE
        &&& m.ents == Seq::<F>::empty()
        &&& m.mask == Seq::<bool>::empty()
        &&& m.query == Seq::<F>::empty()
        &&& m.prev == Seq::<i64>::empty()
    }
    &&& mode == ObsMode::V1 ==> {
        &&& m.obs == Seq::<F>::empty()
        &&& m.ents.len() == cells * (MAX_ENT * ENT_FEAT)
        &&& m.mask.len() == cells * MAX_ENT
        &&& m.query.len() == cells * Q_FEAT
        &&& m.prev.len() == cells * PREV_ACTIONS
    }
}

/// From the assignment to the merged rollout: as many rows per step as cars are
/// learned from, in every buffer and in either observation family, whatever
/// drives the other cars.
pub proof fn law_rollout_has_every_learner<F: Scalar>(
    e: MultiEngine,
    asg: Seq<i32>,
    outs: Seq<CollectView<F>>,
    steps: int,
    learner_count: usize,
)
    requires
        e.valid(),
        asg.len() == e.sizes@.len(),
        recorded_as_assigned(e, asg, outs),
        0 <= steps,
        learner_count == learner_rows(e.sizes@, asg, e.num_arenas as int).len(),
        forall|w: int|
            0 <= w < outs.len() ==> mergeable_view(
                #[trigger] outs[w],
                e.obs_mode,
                steps,
                e.emit_v0_obs,
            ),
    ensures
        ({
            let m = merged_view(outs, e.obs_mode, steps, learner_count, e.emit_v0_obs);
            whole_rollout(
                m,
                e.obs_mode,
                steps,
                cars_learned_from(e.sizes@, asg, e.num_arenas as int),
            )
        }),
{
    law_every_learner_is_recorded(e, asg, outs);
    law_merged_lengths(outs, e.obs_mode, steps, learner_count, e.emit_v0_obs);
}

/// The arenas of one worker, with their codes.
pub open spec fn share_of_worker(
    e: MultiEngine,
    asg: Seq<i32>,
    w: int,
) -> (Seq<TeamSizes>, Seq<i32>) {
    let first = e.workers@[w].first_arena as int;
    let next = first + e.workers@[w].num_arenas;
    (e.sizes@.subrange(first, next), asg.subrange(first, next))
}

/// Worker `w` has planned its share of the assignment and run its rollout of
/// `steps` steps to the end; its bots drive `bot_cars` cars, and the action table
/// has `k` rows.
pub open spec fn worker_finished<F: Scalar>(
    e: MultiEngine,
    asg: Seq<i32>,
    w: int,
    plan: RolloutPlan,
    bot_cars: Seq<u32>,
    c: Course<F>,
    steps: usize,
    k: int,
) -> bool {
    let (sizes, codes) = share_of_worker(e, asg, w);
    &&& plan.follows(sizes, codes, e.opponent_slots as nat, bot_cars)
    &&& steps * plan.learner_idx@.len() <= usize::MAX
    &&& runs(c, plan, steps, e.obs_mode, e.emit_v0_obs, k)
    &&& c.stages.last() == Stage::Finished
}

proof fn lemma_plan_is_recordable(
    plan: RolloutPlan,
    sizes: Seq<TeamSizes>,
    asg: Seq<i32>,
    opponents: nat,
    bot_cars: Seq<u32>,
)
    requires
        plan.follows(sizes, asg, opponents, bot_cars),
    ensures
        recordable(plan),
        plan.learner_idx@.len() == learner_rows(sizes, asg, sizes.len() as int).len(),
{
    let n = sizes.len() as int;
    assert(agent_offset(sizes, n) == plan.agents);
    law_forward_rows_ascend(sizes, asg, bot_cars, n);
    assert(plan.learner_idx.len() == plan.learner_idx@.len());
    assert(plan.fwd_idx.len() == plan.fwd_idx@.len());
}

/// A worker that has finished its rollout hands in buffers that can be merged and
/// that hold the rows which the assignment gives it.
pub proof fn law_finished_workers_record_their_share<F: Scalar>(
    e: MultiEngine,
    asg: Seq<i32>,
    w: int,
    plan: RolloutPlan,
    bot_cars: Seq<u32>,
    c: Course<F>,
    steps: usize,
    k: int,
)
    requires
        e.valid(),
        asg.len() == e.sizes@.len(),
        0 <= w < e.workers@.len(),
        worker_finished(e, asg, w, plan, bot_cars, c, steps, k),
    ensures
        ({
            let v = c.buffers.last();
            &&& mergeable_view(v, e.obs_mode, steps as int, e.emit_v0_obs)
            &&& labelled_by(v, plan, e.obs_mode)
            &&& v.learner_agents == rows_of_worker(e.sizes@, asg, e.workers@[w]).len()
            &&& actions_below(v.actions, k)
        }),
{
    let (sizes, codes) = share_of_worker(e, asg, w);
    law_workers_cover_all_agents(e, w);
    law_even_split(e.sizes@.len() as int, e.workers@.len() as int, w);
    assert(e.workers@[w] == span_of(e.sizes@, e.workers@.len() as int, w));
    assert(sizes.len() == e.workers@[w].num_arenas);
    lemma_plan_is_recordable(plan, sizes, codes, e.opponent_slots as nat, bot_cars);
    law_finished_rollouts_are_complete(c, plan, steps, e.obs_mode, e.emit_v0_obs, k);
}

/// From the assignment to the merged rollout, with nothing assumed of the
/// workers' buffers: where every worker plans its share and runs its stages to
/// the end, the merged rollout has in every buffer and step one row for each car
/// that is learned from, each worker recorded the agents that are its own, and
/// every action is one of the table.
pub proof fn law_collected_rollouts_are_whole<F: Scalar>(
    e: MultiEngine,
    asg: Seq<i32>,
    plans: Seq<RolloutPlan>,
    bot_cars: Seq<Seq<u32>>,
    courses: Seq<Course<F>>,
    steps: usize,
    learner_count: usize,
    k: int,
)
    requires
        e.valid(),
        asg.len() == e.sizes@.len(),
        courses.len() == e.workers@.len(),
        learner_count == learner_rows(e.sizes@, asg, e.num_arenas as int).len(),
        forall|w: int|
            0 <= w < courses.len() ==> worker_finished(
                e,
                asg,
                w,
                plans[w],
                bot_cars[w],
                #[trigger] courses[w],
                steps,
                k,
            ),
    ensures
        ({
            let outs = handed_in(courses);
            let m = merged_view(outs, e.obs_mode, steps as int, learner_count, e.emit_v0_obs);
            let n = cars_learned_from(e.sizes@, asg, e.num_arenas as int);
            &&& recorded_as_assigned(e, asg, outs)
            &&& whole_rollout(m, e.obs_mode, steps as int, n)
            &&& actions_below(m.actions, k)
        }),
{
    let outs = handed_in(courses);
    assert forall|w: int| 0 <= w < outs.len() implies mergeable_view(
        #[trigger] outs[w],
        e.obs_mode,
        steps as int,
        e.emit_v0_obs,
    ) && outs[w].learner_agents == rows_of_worker(e.sizes@, asg, e.workers@[w]).len()
        && actions_below(outs[w].actions, k) by {
        assert(outs[w] == courses[w].buffers.last());
        law_finished_workers_record_their_share(
            e,
            asg,
            w,
            plans[w],
            bot_cars[w],
            courses[w],
            steps,
            k,
        );
    }
    law_rollout_has_every_learner(e, asg, outs, steps as int, learner_count);
    let parts = outs.map_values(|o: CollectView<F>| o.actions);
    let ns = outs.map_values(|o: CollectView<F>| o.learner_agents);
    assert forall|w: int| 0 <= w < parts.len() implies actions_below(#[trigger] parts[w], k)
        && has_rows(parts[w], steps * ns[w], 1) by {
        assert(mergeable_view(outs[w], e.obs_mode, steps as int, e.emit_v0_obs));
        assert(parts[w] == outs[w].actions);
    }
    lemma_merged_actions(parts, ns, steps as int, steps as int, k);
}

/// What the workers hand in at the end of their rollouts.
pub open spec fn handed_in<F>(courses: Seq<Course<F>>) -> Seq<CollectView<F>> {
    courses.map_values(|c: Course<F>| c.buffers.last())
}

proof fn lemma_step_actions(
    parts: Seq<Seq<i64>>,
    ns: Seq<usize>,
    steps: int,
    t: int,
    k: int,
    w: int,
)
    requires
        0 <= t < steps,
        0 <= w <= parts.len(),
        parts.len() == ns.len(),
        forall|i: int|
            0 <= i < parts.len() ==> actions_below(#[trigger] parts[i], k) && has_rows(
                parts[i],
                steps * ns[i],
                1,
            ),
    ensures
        actions_below(step_side_by_side(parts, ns, t, 1, w), k),
    decreases w,
{
    if w > 0 {
        lemma_step_actions(parts, ns, steps, t, k, w - 1);
        let n = ns[w - 1] as int;
        let part = parts[w - 1];
        lemma_row_bounds(t, steps, n);
        assert(actions_below(part, k));
        let before = step_side_by_side(parts, ns, t, 1, w - 1);
        let all = step_side_by_side(parts, ns, t, 1, w);
        assert forall|a: int| 0 <= a < all.len() implies 0 <= #[trigger] all[a] < k by {
            if a < before.len() {
                assert(all[a] == before[a]);
            } else {
                assert(all[a] == part[t * n * 1 + (a - before.len())]);
            }
        }
    }
}

proof fn lemma_merged_actions(
    parts: Seq<Seq<i64>>,
    ns: Seq<usize>,
    steps: int,
    upto: int,
    k: int,
)
    requires
        0 <= upto <= steps,
        parts.len() == ns.len(),
        forall|i: int|
            0 <= i < parts.len() ==> actions_below(#[trigger] parts[i], k) && has_rows(
                parts[i],
                steps * ns[i],
                1,
            ),
    ensures
        actions_below(side_by_side(parts, ns, upto, 1), k),
    decreases upto,
{
    if upto > 0 {
        lemma_merged_actions(parts, ns, steps, upto - 1, k);
        lemma_step_actions(parts, ns, steps, upto - 1, k, parts.len() as int);
        let before = side_by_side(parts, ns, upto - 1, 1);
        let last = step_side_by_side(parts, ns, upto - 1, 1, parts.len() as int);
        let all = side_by_side(parts, ns, upto, 1);
        assert forall|a: int| 0 <= a < all.len() implies 0 <= #[trigger] all[a] < k by {
            if a < before.len() {
                assert(all[a] == before[a]);
            } else {
                assert(all[a] == last[a - before.len()]);
            }
        }
    }
}

} // verus!
