//! The course of a rollout: what comes after what, and which generator every
//! action is drawn from.

use crate::engine::plan::{
    agent_offset, arena_of_agents, lemma_offset_monotone, RolloutPlan, TeamSizes,
};
use crate::foreign::arena_of;
use crate::rows::{append_range, has_rows, lemma_row_bounds, row};
use crate::sampler::{
    after_draws, crosses_at, pcg_next, pcg_output, peak, running_sum, sample_categorical, unit,
    weights_of, Gen, Pcg32,
};
use crate::scalar::{functional, minus, times, total, value_of, Scalar};
use vstd::prelude::*;

verus! {

/// What a worker does next in a rollout.
#[derive(Clone, Copy, Debug, PartialEq, Eq, Structural)]
pub enum Stage {
    /// Build and record the observations of step `t`.
    Observe(usize),
    /// Ask the learner's policy for step `t`.
    Forward(usize),
    /// Ask native opponent `slot` for step `t`.
    Opponent(usize, usize),
    /// Draw every agent's action of step `t`.
    Sample(usize),
    /// Step the arenas.
    Step(usize),
    /// Ask the learner's policy for the final observations of step `t`.
    FinalValues(usize),
    /// Build the observations after the last step.
    ObserveLast,
    /// Ask the learner's policy for the bootstrap values.
    Bootstrap,
    /// The rollout is complete.
    Finished,
}

/// The first slot from `from` on that has agents to play.
pub open spec fn used_slot(counts: Seq<nat>, from: int) -> Option<int>
    decreases counts.len() - from,
{
    if from < 0 || from >= counts.len() {
        None
    } else if counts[from] > 0 {
        Some(from)
    } else {
        used_slot(counts, from + 1)
    }
}

/// Number of agents of each native opponent.
pub open spec fn slot_counts(plan: RolloutPlan) -> Seq<nat> {
    plan.opp_idx@.map_values(|v: Vec<usize>| v@.len())
}

/// What comes after the opponents before `slot` were asked in step `t`.
pub open spec fn opponents_from(plan: RolloutPlan, t: usize, slot: int) -> Stage {
    match used_slot(slot_counts(plan), slot) {
        Some(s) => Stage::Opponent(t, s as usize),
        None => Stage::Sample(t),
    }
}

/// What comes after step `t`.
pub open spec fn round_after(steps: usize, t: usize) -> Stage {
    if t + 1 < steps {
        Stage::Observe((t + 1) as usize)
    } else {
        Stage::ObserveLast
    }
}

/// What a rollout begins with.
pub open spec fn first_stage(steps: usize) -> Stage {
    if steps > 0 {
        Stage::Observe(0)
    } else {
        Stage::ObserveLast
    }
}

/// What comes after `stage`; `ended` is how many recorded agents' episodes ended
/// in it.
pub open spec fn stage_after(
    plan: RolloutPlan,
    steps: usize,
    stage: Stage,
    ended: usize,
) -> Stage {
    match stage {
        Stage::Observe(t) => if plan.fwd_idx@.len() > 0 {
            Stage::Forward(t)
        } else {
            opponents_from(plan, t, 0)
        },
        Stage::Forward(t) => opponents_from(plan, t, 0),
        Stage::Opponent(t, s) => opponents_from(plan, t, s + 1),
        Stage::Sample(t) => Stage::Step(t),
        Stage::Step(t) => if ended > 0 {
            Stage::FinalValues(t)
        } else {
            round_after(steps, t)
        },
        Stage::FinalValues(t) => round_after(steps, t),
        Stage::ObserveLast => if plan.learner_idx@.len() > 0 {
            Stage::Bootstrap
        } else {
            Stage::Finished
        },
        Stage::Bootstrap => Stage::Finished,
        Stage::Finished => Stage::Finished,
    }
}

/// What a rollout begins with.
pub fn begin_stage(steps: usize) -> (s: Stage)
    ensures
        s == first_stage(steps),
{
    if steps > 0 {
        Stage::Observe(0)
    } else {
        Stage::ObserveLast
    }
}

fn find_used_slot(plan: &RolloutPlan, from: usize) -> (r: Option<usize>)
    ensures
        match r {
            Some(s) => s < plan.opp_idx@.len() && used_slot(slot_counts(*plan), from as int)
                == Some(s as int),
            None => used_slot(slot_counts(*plan), from as int) is None,
        },
{
    let mut s: usize = from;
    while s < plan.opp_idx.len()
        invariant
            from <= s,
            used_slot(slot_counts(*plan), from as int) == used_slot(slot_counts(*plan), s as int),
        decreases plan.opp_idx.len() - s,
    {
        assert(slot_counts(*plan)[s as int] == plan.opp_idx@[s as int]@.len());
        if plan.opp_idx[s].len() > 0 {
            return Some(s);
        }
        s = s + 1;
    }
    None
}

/// What comes after `stage`; `ended` is how many recorded agents' episodes ended
/// in it.
pub fn next_stage(plan: &RolloutPlan, steps: usize, stage: Stage, ended: usize) -> (r: Stage)
    requires
        stage matches Stage::Step(t) ==> t < usize::MAX,
        stage matches Stage::FinalValues(t) ==> t < usize::MAX,
        stage matches Stage::Opponent(t, s) ==> s < usize::MAX,
    ensures
        r == stage_after(*plan, steps, stage, ended),
{
    let after_slots: Option<(usize, usize)> = match stage {
        Stage::Observe(t) => {
            if plan.fwd_idx.len() > 0 {
                return Stage::Forward(t);
            }
            Some((t, 0))
        },
        Stage::Forward(t) => Some((t, 0)),
        Stage::Opponent(t, s) => Some((t, s + 1)),
        _ => None,
    };
    if let Some((t, from)) = after_slots {
        return match find_used_slot(plan, from) {
            Some(s) => Stage::Opponent(t, s),
            None => Stage::Sample(t),
        };
    }
    match stage {
        Stage::Sample(t) => Stage::Step(t),
        Stage::Step(t) => {
            if ended > 0 {
                Stage::FinalValues(t)
            } else if t + 1 < steps {
                Stage::Observe(t + 1)
            } else {
                Stage::ObserveLast
            }
        },
        Stage::FinalValues(t) => {
            if t + 1 < steps {
                Stage::Observe(t + 1)
            } else {
                Stage::ObserveLast
            }
        },
        Stage::ObserveLast => {
            if plan.learner_idx.len() > 0 {
                Stage::Bootstrap
            } else {
                Stage::Finished
            }
        },
        _ => Stage::Finished,
    }
}

/// How far a rollout has come: the step, the phase of it, the opponent.
pub open spec fn progress(stage: Stage, steps: usize) -> (int, int, int) {
    match stage {
        Stage::Observe(t) => (t as int, 0, 0),
        Stage::Forward(t) => (t as int, 1, 0),
        Stage::Opponent(t, s) => (t as int, 2, s as int),
        Stage::Sample(t) => (t as int, 3, 0),
        Stage::Step(t) => (t as int, 4, 0),
        Stage::FinalValues(t) => (t as int, 5, 0),
        Stage::ObserveLast => (steps as int, 0, 0),
        Stage::Bootstrap => (steps as int, 1, 0),
        Stage::Finished => (steps as int, 2, 0),
    }
}

/// Whether one point of a rollout comes before another.
pub open spec fn earlier(a: (int, int, int), b: (int, int, int)) -> bool {
    a.0 < b.0 || (a.0 == b.0 && (a.1 < b.1 || (a.1 == b.1 && a.2 < b.2)))
}

proof fn lemma_used_slot(counts: Seq<nat>, from: int)
    requires
        0 <= from,
    ensures
        used_slot(counts, from) matches Some(s) ==> from <= s < counts.len() && counts[s] > 0,
    decreases counts.len() - from,
{
    if from < counts.len() && counts[from] == 0 {
        lemma_used_slot(counts, from + 1);
    }
}

/// A rollout only moves forward, and it never asks an opponent without agents.
pub proof fn law_rollout_moves_forward(
    plan: RolloutPlan,
    steps: usize,
    stage: Stage,
    ended: usize,
)
    requires
        stage != Stage::Finished,
        progress(stage, steps).0 < steps || stage == Stage::ObserveLast || stage
            == Stage::Bootstrap,
        plan.opp_idx@.len() <= usize::MAX,
    ensures
        ({
            let next = stage_after(plan, steps, stage, ended);
            &&& earlier(progress(stage, steps), progress(next, steps))
            &&& progress(next, steps).0 < steps || next == Stage::ObserveLast || next
                == Stage::Bootstrap || next == Stage::Finished
            &&& next matches Stage::Opponent(t, s) ==> s < plan.opp_idx@.len()
                && plan.opp_idx@[s as int]@.len() > 0
        }),
{
    let counts = slot_counts(plan);
    lemma_used_slot(counts, 0);
    if let Stage::Opponent(t, s) = stage {
        lemma_used_slot(counts, s + 1);
    }
}

/// How many of the first `a` agents play in arena `i`.
pub open spec fn draws_before(arenas: Seq<usize>, i: int, a: int) -> nat
    decreases a,
{
    if a <= 0 {
        0
    } else {
        draws_before(arenas, i, a - 1) + if arenas[a - 1] == i {
            1nat
        } else {
            0
        }
    }
}

/// The generator that agent `a` draws from: that of its arena, after one draw
/// for each earlier agent of the arena.
pub open spec fn generator_of(rngs: Seq<Pcg32>, arenas: Seq<usize>, a: int) -> Gen {
    after_draws(rngs[arenas[a] as int]@, draws_before(arenas, arenas[a] as int, a))
}

/// Action `idx` with log-probability `lp` was drawn from `g` by these logits.
#[verifier::opaque]
pub open spec fn drawn_action<F: Scalar, E: Fn(F) -> F, L: Fn(F) -> F>(
    logits: Seq<F>,
    g: Gen,
    exp: E,
    ln: L,
    idx: int,
    lp: F,
) -> bool {
    let m = peak(logits, logits.len() as int);
    let w = weights_of(logits, exp);
    let z = running_sum(w, w.len() as int);
    &&& crosses_at(w, times(unit::<F>(pcg_output(g)), z), idx)
    &&& lp == minus(minus(logits[idx], m), value_of(ln, z))
}

/// Draws the action of agent `a` from its row of logits.
fn sample_row<F: Scalar, E: Fn(F) -> F, L: Fn(F) -> F>(
    logits_all: &Vec<F>,
    action_count: usize,
    a: usize,
    rng: &mut Pcg32,
    exp: &E,
    ln: &L,
) -> (r: (i64, F))
    requires
        total::<F>(),
        functional(*exp),
        functional(*ln),
        0 < action_count <= i64::MAX,
        (a + 1) * action_count <= logits_all@.len(),
    ensures
        drawn_action(
            row(logits_all@, a as int, action_count as int),
            old(rng)@,
            *exp,
            *ln,
            r.0 as int,
            r.1,
        ),
        final(rng)@ == pcg_next(old(rng)@),
{
    proof {
        lemma_row_bounds(a as int, a + 1, action_count as int);
        assert((a + 1) * action_count <= logits_all.len());
    }
    let mut logits: Vec<F> = Vec::new();
    append_range(&mut logits, logits_all, a * action_count, action_count);
    assert(logits@ =~= row(logits_all@, a as int, action_count as int));
    let (idx, lp) = sample_categorical(&logits, rng, exp, ln);
    reveal(drawn_action);
    (idx as i64, lp)
}

proof fn lemma_draw_step(g: Gen, arenas: Seq<usize>, i: int, a: int)
    requires
        0 <= a,
    ensures
        after_draws(g, draws_before(arenas, i, a + 1)) == if arenas[a] == i {
            pcg_next(after_draws(g, draws_before(arenas, i, a)))
        } else {
            after_draws(g, draws_before(arenas, i, a))
        },
{
}

/// Draws every agent's action from its row of logits and its arena's generator,
/// in the order of the agents.
pub fn sample_all<F: Scalar, E: Fn(F) -> F, L: Fn(F) -> F>(
    logits_all: &Vec<F>,
    action_count: usize,
    rngs: &mut Vec<Pcg32>,
    a_to_arena: &Vec<usize>,
    exp: &E,
    ln: &L,
) -> (r: (Vec<i64>, Vec<F>))
    requires
        total::<F>(),
        functional(*exp),
        functional(*ln),
        0 < action_count <= i64::MAX,
        has_rows(logits_all@, a_to_arena@.len() as int, action_count as int),
        forall|a: int|
            0 <= a < a_to_arena@.len() ==> #[trigger] a_to_arena@[a] < old(rngs)@.len(),
    ensures
        r.0@.len() == a_to_arena@.len(),
        r.1@.len() == a_to_arena@.len(),
        forall|a: int|
            0 <= a < a_to_arena@.len() ==> drawn_action(
                row(logits_all@, a, action_count as int),
                generator_of(old(rngs)@, a_to_arena@, a),
                *exp,
                *ln,
                #[trigger] r.0@[a] as int,
                r.1@[a],
            ),
        final(rngs)@.len() == old(rngs)@.len(),
        forall|i: int|
            0 <= i < final(rngs)@.len() ==> (#[trigger] final(rngs)@[i])@ == after_draws(
                old(rngs)@[i]@,
                draws_before(a_to_arena@, i, a_to_arena@.len() as int),
            ),
{
    let ghost start = rngs@;
    let ghost k = action_count as int;
    let mut acts: Vec<i64> = Vec::new();
    let mut lps: Vec<F> = Vec::new();
    let mut a: usize = 0;
    while a < a_to_arena.len()
        invariant
            a <= a_to_arena@.len(),
            total::<F>(),
            functional(*exp),
            functional(*ln),
            0 < action_count <= i64::MAX,
            k == action_count,
            has_rows(logits_all@, a_to_arena@.len() as int, k),
            rngs@.len() == start.len(),
            forall|j: int|
                0 <= j < a_to_arena@.len() ==> #[trigger] a_to_arena@[j] < start.len(),
            acts@.len() == a,
            lps@.len() == a,
            forall|j: int|
                0 <= j < a ==> drawn_action(
                    row(logits_all@, j, k),
                    generator_of(start, a_to_arena@, j),
                    *exp,
                    *ln,
                    #[trigger] acts@[j] as int,
                    lps@[j],
                ),
            forall|i: int|
                0 <= i < rngs@.len() ==> (#[trigger] rngs@[i])@ == after_draws(
                    start[i]@,
                    draws_before(a_to_arena@, i, a as int),
                ),
        decreases a_to_arena.len() - a,
    {
        proof {
            lemma_row_bounds(a as int, a_to_arena@.len() as int, k);
            assert(logits_all.len() == a_to_arena@.len() * k);
            assert(a_to_arena@[a as int] < start.len());
        }
        let arena: usize = a_to_arena[a];
        let ghost before = rngs@;
        assert(rngs@[arena as int]@ == generator_of(start, a_to_arena@, a as int));
        let (act, lp) = sample_row(logits_all, action_count, a, &mut rngs[arena], exp, ln);
        acts.push(act);
        lps.push(lp);
        proof {
            assert forall|i: int| 0 <= i < rngs@.len() implies (#[trigger] rngs@[i])@
                == after_draws(
                start[i]@,
                draws_before(a_to_arena@, i, a + 1),
            ) by {
                lemma_draw_step(start[i]@, a_to_arena@, i, a as int);
                assert(before[i]@ == after_draws(
                    start[i]@,
                    draws_before(a_to_arena@, i, a as int),
                ));
            }
        }
        a = a + 1;
    }
    (acts, lps)
}

proof fn lemma_arena_count(sizes: Seq<TeamSizes>, n: int)
    requires
        0 <= n,
    ensures
        arena_of_agents(sizes, n).len() == agent_offset(sizes, n),
    decreases n,
{
    if n > 0 {
        lemma_arena_count(sizes, n - 1);
    }
}

proof fn lemma_arena_at(sizes: Seq<TeamSizes>, n: int, li: int, a: int)
    requires
        0 <= li < n <= sizes.len() <= usize::MAX,
        agent_offset(sizes, li) <= a < agent_offset(sizes, li + 1),
    ensures
        arena_of_agents(sizes, n)[a] == li,
    decreases n,
{
    lemma_arena_count(sizes, n - 1);
    lemma_offset_monotone(sizes, 0, li);
    if li < n - 1 {
        lemma_offset_monotone(sizes, li + 1, n - 1);
        lemma_arena_at(sizes, n - 1, li, a);
    }
}

proof fn lemma_no_draws(arenas: Seq<usize>, i: int, a: int)
    requires
        0 <= a <= arenas.len(),
        forall|k: int| 0 <= k < a ==> arenas[k] != i,
    ensures
        draws_before(arenas, i, a) == 0,
    decreases a,
{
    if a > 0 {
        lemma_no_draws(arenas, i, a - 1);
    }
}

/// The cars of an arena draw from its generator one after the other, blue before
/// orange, whatever other arenas the worker has.
pub proof fn law_cars_draw_in_order(sizes: Seq<TeamSizes>, rngs: Seq<Pcg32>, li: int, car: int)
    requires
        0 <= li < sizes.len() <= usize::MAX,
        0 <= car < sizes[li].0 + sizes[li].1,
    ensures
        generator_of(
            rngs,
            arena_of_agents(sizes, sizes.len() as int),
            agent_offset(sizes, li) + car,
        ) == after_draws(rngs[li]@, car as nat),
{
    lemma_arena_at(sizes, sizes.len() as int, li, agent_offset(sizes, li) + car);
    lemma_run_of_draws(sizes, li, car);
}

proof fn lemma_run_of_draws(sizes: Seq<TeamSizes>, li: int, car: int)
    requires
        0 <= li < sizes.len() <= usize::MAX,
        0 <= car < sizes[li].0 + sizes[li].1,
    ensures
        draws_before(
            arena_of_agents(sizes, sizes.len() as int),
            li,
            agent_offset(sizes, li) + car,
        ) == car,
    decreases car,
{
    let n = sizes.len() as int;
    let arenas = arena_of_agents(sizes, n);
    let first = agent_offset(sizes, li);
    lemma_offset_monotone(sizes, 0, li);
    lemma_offset_monotone(sizes, li, n);
    lemma_arena_count(sizes, n);
    if car == 0 {
        assert forall|k: int| 0 <= k < first implies arenas[k] != li by {
            lemma_earlier_arena(sizes, li, k);
        }
        lemma_no_draws(arenas, li, first);
    } else {
        lemma_run_of_draws(sizes, li, car - 1);
        lemma_arena_at(sizes, n, li, first + car - 1);
    }
}

/// An agent before the first one of arena `li` plays in an earlier arena.
proof fn lemma_earlier_arena(sizes: Seq<TeamSizes>, li: int, k: int)
    requires
        0 <= li <= sizes.len() <= usize::MAX,
        0 <= k < agent_offset(sizes, li),
    ensures
        arena_of_agents(sizes, sizes.len() as int)[k] < li,
    decreases li,
{
    if li > 0 {
        let n = sizes.len() as int;
        if k >= agent_offset(sizes, li - 1) {
            lemma_arena_at(sizes, n, li - 1, k);
        } else {
            lemma_earlier_arena(sizes, li - 1, k);
        }
    }
}

/// Key of a car among all arenas: its arena in the upper half, its id in the
/// lower.
pub open spec fn key_of(arena: u32, car_id: u32) -> int {
    arena * 0x1_0000_0000 + car_id
}

/// Key of a car among all arenas: its arena in the upper half, its id in the
/// lower.
pub fn car_key(arena: u32, car_id: u32) -> (key: u64)
    ensures
        key == key_of(arena, car_id),
        key == arena * 0x1_0000_0000 + car_id,
        arena_of(key) == arena,
{
    let key: u64 = arena as u64 * 0x1_0000_0000 + car_id as u64;
    assert(key >> 32 == arena as u64) by (bit_vector)
        requires
            key == arena as u64 * 0x1_0000_0000 + car_id as u64,
    ;
    key
}

/// Cars of different arenas, or different cars of an arena, have different keys.
pub proof fn law_car_keys_differ(a: u32, i: u32, b: u32, j: u32)
    requires
        a != b || i != j,
    ensures
        key_of(a, i) != key_of(b, j),
        key_of(a, i) / 0x1_0000_0000 == a,
        key_of(a, i) % 0x1_0000_0000 == i,
{
}

} // verus!
