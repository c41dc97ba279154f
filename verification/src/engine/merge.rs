//! Putting the workers' rollout buffers together.

use crate::engine::collect::{CollectOut, CollectView, ENTS_WIDTH};
use crate::episode::ObsMode;
use crate::obs::OBS_SIZE;
use crate::obs_v1::{MAX_ENT, PREV_ACTIONS, Q_FEAT};
use crate::rows::{append_range, has_rows, lemma_row_bounds, row, side_by_side, step_side_by_side};
use crate::scalar::Scalar;
use vstd::arithmetic::mul::{lemma_mul_inequality, lemma_mul_is_distributive_add_other_way};
use vstd::prelude::*;

verus! {

/// The contents of each of several buffers.
pub open spec fn contents<T>(parts: Seq<Vec<T>>) -> Seq<Seq<T>> {
    parts.map_values(|v: Vec<T>| v@)
}

/// All buffers one after the other.
pub open spec fn end_to_end<T>(parts: Seq<Seq<T>>) -> Seq<T>
    decreases parts.len(),
{
    if parts.len() == 0 {
        Seq::empty()
    } else {
        end_to_end(parts.drop_last()) + parts.last()
    }
}

/// The first `n` buffers have these contents.
pub open spec fn column<T>(parts: Seq<Vec<T>>, whole: Seq<Seq<T>>, n: int) -> bool {
    &&& parts.len() == n
    &&& forall|w: int| 0 <= w < n ==> (#[trigger] parts[w])@ == whole[w]
}

/// Sum of the first `n` numbers.
pub open spec fn sum_of(ns: Seq<usize>, n: int) -> int
    decreases n,
{
    if n <= 0 {
        0
    } else {
        sum_of(ns, n - 1) + ns[n - 1]
    }
}

/// Sets the buffers of several workers side by side, step by step.
fn set_side_by_side<T: Copy>(
    parts: &Vec<Vec<T>>,
    ns: &Vec<usize>,
    steps: usize,
    k: usize,
) -> (r: Vec<T>)
    requires
        parts@.len() == ns@.len(),
        forall|w: int|
            0 <= w < ns@.len() ==> has_rows((#[trigger] parts@[w])@, steps * ns@[w], k as int)
                && steps * ns@[w] <= usize::MAX,
    ensures
        r@ == side_by_side(contents(parts@), ns@, steps as int, k as int),
{
    let ghost bufs = contents(parts@);
    let mut out: Vec<T> = Vec::new();
    let mut t: usize = 0;
    while t < steps
        invariant
            t <= steps,
            bufs == contents(parts@),
            parts@.len() == ns@.len(),
            forall|w: int|
                0 <= w < ns@.len() ==> has_rows((#[trigger] parts@[w])@, steps * ns@[w], k as int)
                    && steps * ns@[w] <= usize::MAX,
            out@ == side_by_side(bufs, ns@, t as int, k as int),
        decreases steps - t,
    {
        let ghost before = out@;
        let mut w: usize = 0;
        while w < parts.len()
            invariant
                w <= parts@.len(),
                t < steps,
                bufs == contents(parts@),
                parts@.len() == ns@.len(),
                forall|w: int|
                    0 <= w < ns@.len() ==> has_rows(
                        (#[trigger] parts@[w])@,
                        steps * ns@[w],
                        k as int,
                    ) && steps * ns@[w] <= usize::MAX,
                out@ =~= before + step_side_by_side(bufs, ns@, t as int, k as int, w as int),
            decreases parts.len() - w,
        {
            let n: usize = ns[w];
            proof {
                let part = parts@[w as int];
                lemma_row_bounds(t as int, steps as int, n as int);
                assert(part.len() == steps * n * k);
                lemma_block(t as int, steps as int, n as int, k as int);
            }
            append_range(&mut out, &parts[w], t * n * k, n * k);
            w = w + 1;
        }
        t = t + 1;
    }
    out
}

proof fn lemma_block(t: int, steps: int, n: int, k: int)
    requires
        0 <= t < steps,
        0 <= n,
        0 <= k,
    ensures
        0 <= t * n * k,
        0 <= n * k,
        t * n * k + n * k == (t * n + n) * k,
        (t * n + n) * k <= steps * n * k,
        0 <= t * n <= steps * n,
{
    lemma_row_bounds(t, steps, n);
    lemma_mul_is_distributive_add_other_way(k, t * n, n);
    lemma_mul_inequality(t * n + n, steps * n, k);
    lemma_mul_inequality(0, t * n, k);
    lemma_mul_inequality(0, n, k);
}

/// Sets the buffers of several workers one after the other.
fn set_end_to_end<T: Copy>(parts: &Vec<Vec<T>>) -> (r: Vec<T>)
    ensures
        r@ == end_to_end(contents(parts@)),
{
    let ghost bufs = contents(parts@);
    let mut out: Vec<T> = Vec::new();
    let mut w: usize = 0;
    assert(bufs.subrange(0, 0) =~= Seq::empty());
    while w < parts.len()
        invariant
            w <= parts@.len(),
            bufs == contents(parts@),
            out@ == end_to_end(bufs.subrange(0, w as int)),
        decreases parts.len() - w,
    {
        let len: usize = parts[w].len();
        append_range(&mut out, &parts[w], 0, len);
        proof {
            let next = bufs.subrange(0, w + 1);
            assert(next.drop_last() =~= bufs.subrange(0, w as int));
            assert(parts@[w as int]@.subrange(0, len as int) =~= next.last());
        }
        w = w + 1;
    }
    assert(bufs.subrange(0, w as int) =~= bufs);
    out
}

/// What the merged buffers of a rollout hold.
pub open spec fn merged_view<F: Scalar>(
    outs: Seq<CollectView<F>>,
    mode: ObsMode,
    steps: int,
    learner_count: usize,
    emit_v0_obs: bool,
) -> CollectView<F> {
    let ns = outs.map_values(|o: CollectView<F>| o.learner_agents);
    let entity = mode == ObsMode::V1;
    CollectView {
        obs: if entity {
            Seq::empty()
        } else {
            side_by_side(outs.map_values(|o: CollectView<F>| o.obs), ns, steps, OBS_SIZE as int)
        },
        ents: if entity {
            side_by_side(outs.map_values(|o: CollectView<F>| o.ents), ns, steps, ENTS_WIDTH as int)
        } else {
            Seq::empty()
        },
        mask: if entity {
            side_by_side(outs.map_values(|o: CollectView<F>| o.mask), ns, steps, MAX_ENT as int)
        } else {
            Seq::empty()
        },
        query: if entity {
            side_by_side(outs.map_values(|o: CollectView<F>| o.query), ns, steps, Q_FEAT as int)
        } else {
            Seq::empty()
        },
        prev: if entity {
            side_by_side(
                outs.map_values(|o: CollectView<F>| o.prev),
                ns,
                steps,
                PREV_ACTIONS as int,
            )
        } else {
            Seq::empty()
        },
        obs_v0: if entity && emit_v0_obs {
            side_by_side(outs.map_values(|o: CollectView<F>| o.obs_v0), ns, steps, OBS_SIZE as int)
        } else {
            Seq::empty()
        },
        actions: side_by_side(outs.map_values(|o: CollectView<F>| o.actions), ns, steps, 1),
        logprobs: side_by_side(outs.map_values(|o: CollectView<F>| o.logprobs), ns, steps, 1),
        values: side_by_side(outs.map_values(|o: CollectView<F>| o.values), ns, steps, 1),
        rewards: side_by_side(outs.map_values(|o: CollectView<F>| o.rewards), ns, steps, 1),
        terminated: side_by_side(outs.map_values(|o: CollectView<F>| o.terminated), ns, steps, 1),
        truncated: side_by_side(outs.map_values(|o: CollectView<F>| o.truncated), ns, steps, 1),
        final_values: side_by_side(
            outs.map_values(|o: CollectView<F>| o.final_values),
            ns,
            steps,
            1,
        ),
        last_values: end_to_end(outs.map_values(|o: CollectView<F>| o.last_values)),
        learner_agents: learner_count,
        learner_team_size: if entity {
            end_to_end(outs.map_values(|o: CollectView<F>| o.learner_team_size))
        } else {
            Seq::empty()
        },
        forward_rows: if entity {
            sum_of(outs.map_values(|o: CollectView<F>| o.forward_rows), outs.len() as int) as usize
        } else {
            learner_count
        },
    }
}

/// The contents of each worker's buffers.
pub open spec fn views<F>(outs: Seq<CollectOut<F>>) -> Seq<CollectView<F>> {
    outs.map_values(|o: CollectOut<F>| o@)
}

/// The worker's buffers have the shape that merging expects.
pub open spec fn mergeable<F: Scalar>(
    out: CollectOut<F>,
    mode: ObsMode,
    steps: int,
    emit_v0_obs: bool,
) -> bool {
    match mode {
        ObsMode::V0 => out.shaped_v0(steps),
        ObsMode::V1 => out.shaped_v1(steps, emit_v0_obs),
    }
}

/// The contents have the shape that merging expects.
pub open spec fn mergeable_view<F>(
    out: CollectView<F>,
    mode: ObsMode,
    steps: int,
    emit_v0_obs: bool,
) -> bool {
    let cells = steps * out.learner_agents;
    &&& cells <= usize::MAX
    &&& mode == ObsMode::V0 ==> has_rows(out.obs, cells, OBS_SIZE as int)
    &&& mode == ObsMode::V1 ==> {
        &&& has_rows(out.ents, cells, ENTS_WIDTH as int)
        &&& has_rows(out.mask, cells, MAX_ENT as int)
        &&& has_rows(out.query, cells, Q_FEAT as int)
        &&& has_rows(out.prev, cells, PREV_ACTIONS as int)
        &&& emit_v0_obs ==> has_rows(out.obs_v0, cells, OBS_SIZE as int)
    }
    &&& has_rows(out.actions, cells, 1)
    &&& has_rows(out.logprobs, cells, 1)
    &&& has_rows(out.values, cells, 1)
    &&& has_rows(out.rewards, cells, 1)
    &&& has_rows(out.terminated, cells, 1)
    &&& has_rows(out.truncated, cells, 1)
    &&& has_rows(out.final_values, cells, 1)
    &&& out.last_values.len() == out.learner_agents
}

/// Sets the workers' rollouts side by side: in every step the rows of the first
/// worker, then those of the second, and so on.
pub fn merge<F: Scalar>(
    outs: Vec<CollectOut<F>>,
    mode: ObsMode,
    steps: usize,
    learner_count: usize,
    emit_v0_obs: bool,
) -> (merged: CollectOut<F>)
    requires
        forall|w: int|
            0 <= w < outs@.len() ==> mergeable(
                #[trigger] outs@[w],
                mode,
                steps as int,
                emit_v0_obs,
            ),
        sum_of(
            views(outs@).map_values(|o: CollectView<F>| o.forward_rows),
            outs@.len() as int,
        ) <= usize::MAX,
    ensures
        merged@ == merged_view(views(outs@), mode, steps as int, learner_count, emit_v0_obs),
{
    let ghost all = views(outs@);
    let mut ns: Vec<usize> = Vec::new();
    let mut obs: Vec<Vec<F>> = Vec::new();
    let mut ents: Vec<Vec<F>> = Vec::new();
    let mut mask: Vec<Vec<bool>> = Vec::new();
    let mut query: Vec<Vec<F>> = Vec::new();
    let mut prev: Vec<Vec<i64>> = Vec::new();
    let mut obs_v0: Vec<Vec<F>> = Vec::new();
    let mut actions: Vec<Vec<i64>> = Vec::new();
    let mut logprobs: Vec<Vec<F>> = Vec::new();
    let mut values: Vec<Vec<F>> = Vec::new();
    let mut rewards: Vec<Vec<F>> = Vec::new();
    let mut terminated: Vec<Vec<bool>> = Vec::new();
    let mut truncated: Vec<Vec<bool>> = Vec::new();
    let mut final_values: Vec<Vec<F>> = Vec::new();
    let mut last_values: Vec<Vec<F>> = Vec::new();
    let mut team_size: Vec<Vec<i8>> = Vec::new();
    let mut fwd: usize = 0;
    let ghost taken = outs@;
    for out in it: outs
        invariant
            it.seq() == taken,
            all == views(taken),
            sum_of(all.map_values(|o: CollectView<F>| o.forward_rows), taken.len() as int)
                <= usize::MAX,
            ns@ =~= all.take(it.index()).map_values(|o: CollectView<F>| o.learner_agents),
            all.len() == taken.len(),
            column(obs@, all.map_values(|o: CollectView<F>| o.obs), it.index()),
            column(ents@, all.map_values(|o: CollectView<F>| o.ents), it.index()),
            column(mask@, all.map_values(|o: CollectView<F>| o.mask), it.index()),
            column(query@, all.map_values(|o: CollectView<F>| o.query), it.index()),
            column(prev@, all.map_values(|o: CollectView<F>| o.prev), it.index()),
            column(obs_v0@, all.map_values(|o: CollectView<F>| o.obs_v0), it.index()),
            column(actions@, all.map_values(|o: CollectView<F>| o.actions), it.index()),
            column(logprobs@, all.map_values(|o: CollectView<F>| o.logprobs), it.index()),
            column(values@, all.map_values(|o: CollectView<F>| o.values), it.index()),
            column(rewards@, all.map_values(|o: CollectView<F>| o.rewards), it.index()),
            column(terminated@, all.map_values(|o: CollectView<F>| o.terminated), it.index()),
            column(truncated@, all.map_values(|o: CollectView<F>| o.truncated), it.index()),
            column(final_values@, all.map_values(|o: CollectView<F>| o.final_values), it.index()),
            column(last_values@, all.map_values(|o: CollectView<F>| o.last_values), it.index()),
            column(team_size@, all.map_values(|o: CollectView<F>| o.learner_team_size), it.index()),
            fwd == sum_of(
                all.map_values(|o: CollectView<F>| o.forward_rows),
                it.index(),
            ),
    {
        proof {
            let rows = all.map_values(|o: CollectView<F>| o.forward_rows);
            lemma_sum_monotone(rows, it.index() + 1, taken.len() as int);
        }
        ns.push(out.learner_agents);
        fwd = fwd + out.forward_rows;
        obs.push(out.obs);
        ents.push(out.ents);
        mask.push(out.mask);
        query.push(out.query);
        prev.push(out.prev);
        obs_v0.push(out.obs_v0);
        actions.push(out.actions);
        logprobs.push(out.logprobs);
        values.push(out.values);
        rewards.push(out.rewards);
        terminated.push(out.terminated);
        truncated.push(out.truncated);
        final_values.push(out.final_values);
        last_values.push(out.last_values);
        team_size.push(out.learner_team_size);
    }
    assert(all.take(taken.len() as int) =~= all);
    proof {
        assert(contents(obs@) =~= all.map_values(|o: CollectView<F>| o.obs));
        assert(contents(ents@) =~= all.map_values(|o: CollectView<F>| o.ents));
        assert(contents(mask@) =~= all.map_values(|o: CollectView<F>| o.mask));
        assert(contents(query@) =~= all.map_values(|o: CollectView<F>| o.query));
        assert(contents(prev@) =~= all.map_values(|o: CollectView<F>| o.prev));
        assert(contents(obs_v0@) =~= all.map_values(|o: CollectView<F>| o.obs_v0));
        assert(contents(actions@) =~= all.map_values(|o: CollectView<F>| o.actions));
        assert(contents(logprobs@) =~= all.map_values(|o: CollectView<F>| o.logprobs));
        assert(contents(values@) =~= all.map_values(|o: CollectView<F>| o.values));
        assert(contents(rewards@) =~= all.map_values(|o: CollectView<F>| o.rewards));
        assert(contents(terminated@) =~= all.map_values(|o: CollectView<F>| o.terminated));
        assert(contents(truncated@) =~= all.map_values(|o: CollectView<F>| o.truncated));
        assert(contents(final_values@) =~= all.map_values(|o: CollectView<F>| o.final_values));
        assert(contents(last_values@) =~= all.map_values(|o: CollectView<F>| o.last_values));
        assert(contents(team_size@) =~= all.map_values(|o: CollectView<F>| o.learner_team_size));
        assert forall|w: int| 0 <= w < all.len() implies mergeable_view(
            #[trigger] all[w],
            mode,
            steps as int,
            emit_v0_obs,
        ) by {
            assert(mergeable(taken[w], mode, steps as int, emit_v0_obs));
        }
    }
    let entity: bool = mode == ObsMode::V1;
    CollectOut {
        obs: if entity {
            Vec::new()
        } else {
            set_side_by_side(&obs, &ns, steps, OBS_SIZE)
        },
        ents: if entity {
            set_side_by_side(&ents, &ns, steps, ENTS_WIDTH)
        } else {
            Vec::new()
        },
        mask: if entity {
            set_side_by_side(&mask, &ns, steps, MAX_ENT)
        } else {
            Vec::new()
        },
        query: if entity {
            set_side_by_side(&query, &ns, steps, Q_FEAT)
        } else {
            Vec::new()
        },
        prev: if entity {
            set_side_by_side(&prev, &ns, steps, PREV_ACTIONS)
        } else {
            Vec::new()
        },
        obs_v0: if entity && emit_v0_obs {
            set_side_by_side(&obs_v0, &ns, steps, OBS_SIZE)
        } else {
            Vec::new()
        },
        actions: set_side_by_side(&actions, &ns, steps, 1),
        logprobs: set_side_by_side(&logprobs, &ns, steps, 1),
        values: set_side_by_side(&values, &ns, steps, 1),
        rewards: set_side_by_side(&rewards, &ns, steps, 1),
        terminated: set_side_by_side(&terminated, &ns, steps, 1),
        truncated: set_side_by_side(&truncated, &ns, steps, 1),
        final_values: set_side_by_side(&final_values, &ns, steps, 1),
        last_values: set_end_to_end(&last_values),
        learner_agents: learner_count,
        learner_team_size: if entity {
            set_end_to_end(&team_size)
        } else {
            Vec::new()
        },
        forward_rows: if entity {
            fwd
        } else {
            learner_count
        },
    }
}

/// Sums of more numbers are no smaller.
pub proof fn lemma_sum_monotone(ns: Seq<usize>, m: int, n: int)
    requires
        0 <= m <= n,
    ensures
        0 <= sum_of(ns, m) <= sum_of(ns, n),
    decreases n,
{
    if m < n {
        lemma_sum_monotone(ns, m, n - 1);
    } else if m > 0 {
        lemma_sum_monotone(ns, m - 1, n - 1);
    }
}

/// Every worker's buffer holds its rows of every step.
pub open spec fn parts_hold<T>(parts: Seq<Seq<T>>, ns: Seq<usize>, steps: int, k: int) -> bool {
    &&& parts.len() == ns.len()
    &&& forall|w: int|
        0 <= w < ns.len() ==> has_rows(#[trigger] parts[w], steps * ns[w], k)
}

proof fn lemma_step_len<T>(
    parts: Seq<Seq<T>>,
    ns: Seq<usize>,
    steps: int,
    t: int,
    k: int,
    w: int,
)
    requires
        parts_hold(parts, ns, steps, k),
        0 <= t < steps,
        0 <= k,
        0 <= w <= ns.len(),
    ensures
        step_side_by_side(parts, ns, t, k, w).len() == sum_of(ns, w) * k,
    decreases w,
{
    if w > 0 {
        lemma_step_len(parts, ns, steps, t, k, w - 1);
        let n = ns[w - 1] as int;
        assert(has_rows(parts[w - 1], steps * n, k));
        lemma_block(t, steps, n, k);
        lemma_mul_is_distributive_add_other_way(k, sum_of(ns, w - 1), n);
    }
}

proof fn lemma_step_row<T>(
    parts: Seq<Seq<T>>,
    ns: Seq<usize>,
    steps: int,
    t: int,
    k: int,
    upto: int,
    w: int,
    j: int,
)
    requires
        parts_hold(parts, ns, steps, k),
        0 <= t < steps,
        0 <= k,
        0 <= w < upto <= ns.len(),
        0 <= j < ns[w],
    ensures
        row(step_side_by_side(parts, ns, t, k, upto), sum_of(ns, w) + j, k) == row(
            parts[w],
            t * ns[w] + j,
            k,
        ),
    decreases upto,
{
    lemma_step_len(parts, ns, steps, t, k, upto);
    lemma_step_len(parts, ns, steps, t, k, upto - 1);
    lemma_sum_monotone(ns, w, upto - 1);
    lemma_sum_monotone(ns, w + 1, upto);
    let all = step_side_by_side(parts, ns, t, k, upto);
    let before = step_side_by_side(parts, ns, t, k, upto - 1);
    let r = sum_of(ns, w) + j;
    lemma_row_bounds(r, sum_of(ns, upto), k);
    if w < upto - 1 {
        lemma_step_row(parts, ns, steps, t, k, upto - 1, w, j);
        lemma_sum_monotone(ns, w + 1, upto - 1);
        lemma_row_bounds(r, sum_of(ns, upto - 1), k);
        assert(row(all, r, k) =~= row(before, r, k));
    } else {
        let n = ns[w] as int;
        assert(has_rows(parts[w], steps * n, k));
        lemma_block(t, steps, n, k);
        lemma_row_bounds(t * n + j, t * n + n, k);
        lemma_row_bounds(j, n, k);
        lemma_mul_is_distributive_add_other_way(k, t * n, j);
        lemma_mul_is_distributive_add_other_way(k, sum_of(ns, w), j);
        assert(row(all, r, k) =~= row(parts[w], t * n + j, k));
    }
}

/// The merged buffer has one row per worker row and step.
pub proof fn lemma_side_len<T>(parts: Seq<Seq<T>>, ns: Seq<usize>, steps: int, upto: int, k: int)
    requires
        parts_hold(parts, ns, steps, k),
        0 <= upto <= steps,
        0 <= k,
    ensures
        has_rows(side_by_side(parts, ns, upto, k), upto * sum_of(ns, ns.len() as int), k),
    decreases upto,
{
    if upto > 0 {
        lemma_side_len(parts, ns, steps, upto - 1, k);
        lemma_step_len(parts, ns, steps, upto - 1, k, ns.len() as int);
        let total = sum_of(ns, ns.len() as int);
        lemma_mul_is_distributive_add_other_way(total, upto - 1, 1);
        lemma_mul_is_distributive_add_other_way(k, (upto - 1) * total, total);
    } else {
        let total = sum_of(ns, ns.len() as int);
        assert(upto * total * k == 0) by (nonlinear_arith)
            requires
                upto == 0,
        ;
    }
}

proof fn lemma_end_to_end_len<T>(parts: Seq<Seq<T>>, ns: Seq<usize>)
    requires
        parts.len() == ns.len(),
        forall|w: int| 0 <= w < ns.len() ==> (#[trigger] parts[w]).len() == ns[w],
    ensures
        end_to_end(parts).len() == sum_of(ns, ns.len() as int),
    decreases parts.len(),
{
    if parts.len() > 0 {
        let n = ns.len() - 1;
        lemma_end_to_end_len(parts.drop_last(), ns.drop_last());
        lemma_sum_prefix(ns.drop_last(), ns, n);
    }
}

proof fn lemma_sum_prefix(a: Seq<usize>, b: Seq<usize>, n: int)
    requires
        n <= a.len(),
        n <= b.len(),
        forall|i: int| 0 <= i < n ==> a[i] == b[i],
    ensures
        sum_of(a, n) == sum_of(b, n),
    decreases n,
{
    if n > 0 {
        lemma_sum_prefix(a, b, n - 1);
    }
}

/// How many rows the workers record together.
pub open spec fn rows_together<F>(outs: Seq<CollectView<F>>) -> int {
    sum_of(outs.map_values(|o: CollectView<F>| o.learner_agents), outs.len() as int)
}

/// Every buffer of a merged rollout has one row per recorded row and step, the
/// bootstrap values one per recorded row, and the buffers of the other
/// observation family are empty.
pub proof fn law_merged_lengths<F: Scalar>(
    outs: Seq<CollectView<F>>,
    mode: ObsMode,
    steps: int,
    learner_count: usize,
    emit_v0_obs: bool,
)
    requires
        0 <= steps,
        forall|w: int|
            0 <= w < outs.len() ==> mergeable_view(#[trigger] outs[w], mode, steps, emit_v0_obs),
    ensures
        ({
            let m = merged_view(outs, mode, steps, learner_count, emit_v0_obs);
            let cells = steps * rows_together(outs);
            &&& m.actions.len() == cells
            &&& m.logprobs.len() == cells
            &&& m.values.len() == cells
            &&& m.rewards.len() == cells
            &&& m.terminated.len() == cells
            &&& m.truncated.len() == cells
            &&& m.final_values.len() == cells
            &&& m.last_values.len() == rows_together(outs)
            &&& m.obs.len() == if mode == ObsMode::V0 {
                cells * OBS_SIZE
            } else {
                0
            }
            &&& m.ents.len() == if mode == ObsMode::V1 {
                cells * ENTS_WIDTH
            } else {
                0
            }
            &&& m.mask.len() == if mode == ObsMode::V1 {
                cells * MAX_ENT
            } else {
                0
            }
            &&& m.query.len() == if mode == ObsMode::V1 {
                cells * Q_FEAT
            } else {
                0
            }
            &&& m.prev.len() == if mode == ObsMode::V1 {
                cells * PREV_ACTIONS
            } else {
                0
            }
            &&& m.obs_v0.len() == if mode == ObsMode::V1 && emit_v0_obs {
                cells * OBS_SIZE
            } else {
                0
            }
        }),
{
    let ns = outs.map_values(|o: CollectView<F>| o.learner_agents);
    assert forall|w: int| 0 <= w < outs.len() implies #[trigger] mergeable_view(
        outs[w],
        mode,
        steps,
        emit_v0_obs,
    ) && ns[w] == outs[w].learner_agents by {}
    let last = outs.map_values(|o: CollectView<F>| o.last_values);
    assert forall|w: int| 0 <= w < ns.len() implies (#[trigger] last[w]).len() == ns[w] by {
        assert(mergeable_view(outs[w], mode, steps, emit_v0_obs));
    }
    lemma_end_to_end_len(last, ns);
    lemma_column_len(outs, |o: CollectView<F>| o.actions, ns, mode, steps, 1, emit_v0_obs);
    lemma_column_len(outs, |o: CollectView<F>| o.logprobs, ns, mode, steps, 1, emit_v0_obs);
    lemma_column_len(outs, |o: CollectView<F>| o.values, ns, mode, steps, 1, emit_v0_obs);
    lemma_column_len(outs, |o: CollectView<F>| o.rewards, ns, mode, steps, 1, emit_v0_obs);
    lemma_column_len(outs, |o: CollectView<F>| o.terminated, ns, mode, steps, 1, emit_v0_obs);
    lemma_column_len(outs, |o: CollectView<F>| o.truncated, ns, mode, steps, 1, emit_v0_obs);
    lemma_column_len(outs, |o: CollectView<F>| o.final_values, ns, mode, steps, 1, emit_v0_obs);
    if mode == ObsMode::V0 {
        let k = OBS_SIZE as int;
        lemma_column_len(outs, |o: CollectView<F>| o.obs, ns, mode, steps, k, emit_v0_obs);
    } else {
        let k = ENTS_WIDTH as int;
        lemma_column_len(outs, |o: CollectView<F>| o.ents, ns, mode, steps, k, emit_v0_obs);
        let k = MAX_ENT as int;
        lemma_column_len(outs, |o: CollectView<F>| o.mask, ns, mode, steps, k, emit_v0_obs);
        let k = Q_FEAT as int;
        lemma_column_len(outs, |o: CollectView<F>| o.query, ns, mode, steps, k, emit_v0_obs);
        let k = PREV_ACTIONS as int;
        lemma_column_len(outs, |o: CollectView<F>| o.prev, ns, mode, steps, k, emit_v0_obs);
        if emit_v0_obs {
            let k = OBS_SIZE as int;
            lemma_column_len(outs, |o: CollectView<F>| o.obs_v0, ns, mode, steps, k, emit_v0_obs);
        }
    }
}

proof fn lemma_column_len<F, T>(
    outs: Seq<CollectView<F>>,
    part: spec_fn(CollectView<F>) -> Seq<T>,
    ns: Seq<usize>,
    mode: ObsMode,
    steps: int,
    k: int,
    emit_v0_obs: bool,
)
    requires
        0 <= steps,
        0 <= k,
        ns == outs.map_values(|o: CollectView<F>| o.learner_agents),
        forall|w: int|
            0 <= w < outs.len() ==> mergeable_view(#[trigger] outs[w], mode, steps, emit_v0_obs)
                && has_rows(part(outs[w]), steps * outs[w].learner_agents, k),
    ensures
        side_by_side(outs.map_values(part), ns, steps, k).len() == steps * sum_of(
            ns,
            outs.len() as int,
        ) * k,
{
    let parts = outs.map_values(part);
    assert forall|w: int| 0 <= w < ns.len() implies has_rows(
        #[trigger] parts[w],
        steps * ns[w],
        k,
    ) by {
        assert(mergeable_view(outs[w], mode, steps, emit_v0_obs));
        assert(parts[w] == part(outs[w]));
    }
    lemma_side_len(parts, ns, steps, steps, k);
}

/// In the merged buffer, row `j` of worker `w` in step `t` follows the rows of
/// the earlier steps and, in its step, those of the earlier workers.
pub proof fn law_merged_row<T>(
    parts: Seq<Seq<T>>,
    ns: Seq<usize>,
    steps: int,
    k: int,
    t: int,
    w: int,
    j: int,
)
    requires
        parts_hold(parts, ns, steps, k),
        0 <= t < steps,
        0 <= k,
        0 <= w < ns.len(),
        0 <= j < ns[w],
    ensures
        row(
            side_by_side(parts, ns, steps, k),
            t * sum_of(ns, ns.len() as int) + sum_of(ns, w) + j,
            k,
        ) == row(parts[w], t * ns[w] + j, k),
{
    lemma_merged_row(parts, ns, steps, steps, k, t, w, j);
}

proof fn lemma_merged_row<T>(
    parts: Seq<Seq<T>>,
    ns: Seq<usize>,
    steps: int,
    upto: int,
    k: int,
    t: int,
    w: int,
    j: int,
)
    requires
        parts_hold(parts, ns, steps, k),
        0 <= t < upto <= steps,
        0 <= k,
        0 <= w < ns.len(),
        0 <= j < ns[w],
    ensures
        row(
            side_by_side(parts, ns, upto, k),
            t * sum_of(ns, ns.len() as int) + sum_of(ns, w) + j,
            k,
        ) == row(parts[w], t * ns[w] + j, k),
    decreases upto,
{
    let total = sum_of(ns, ns.len() as int);
    let all = side_by_side(parts, ns, upto, k);
    let before = side_by_side(parts, ns, upto - 1, k);
    let r = t * total + sum_of(ns, w) + j;
    lemma_side_len(parts, ns, steps, upto, k);
    lemma_side_len(parts, ns, steps, upto - 1, k);
    lemma_sum_monotone(ns, w, ns.len() as int);
    lemma_sum_monotone(ns, w + 1, ns.len() as int);
    lemma_row_bounds(t, upto, total);
    lemma_row_bounds(r, upto * total, k);
    if t < upto - 1 {
        lemma_merged_row(parts, ns, steps, upto - 1, k, t, w, j);
        lemma_row_bounds(t, upto - 1, total);
        lemma_row_bounds(r, (upto - 1) * total, k);
        assert(row(all, r, k) =~= row(before, r, k));
    } else {
        let last = step_side_by_side(parts, ns, t, k, ns.len() as int);
        lemma_step_len(parts, ns, steps, t, k, ns.len() as int);
        lemma_step_row(parts, ns, steps, t, k, ns.len() as int, w, j);
        let q = sum_of(ns, w) + j;
        lemma_row_bounds(q, total, k);
        lemma_mul_is_distributive_add_other_way(k, t * total, q);
        assert(row(all, r, k) =~= row(last, q, k));
    }
}

} // verus!
