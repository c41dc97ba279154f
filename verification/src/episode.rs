//! Episodes: resets, match clock, scoring and termination of one arena.

pub mod arena;
pub mod ready;
pub mod steps;

use crate::ballpred::{vec3_finite, vec_finite};
use crate::sampler::{pcg_next, pcg_output, running_sum, unit, Pcg32};
use crate::scalar::{
    abs, absolute, count, gt, le, lt, minus, num, number, over, plus, times, total, whole, Scalar,
};
use crate::sim::{CarInfo, GameState, Vec3};
use vstd::prelude::*;

verus! {

/// Observation family.
#[derive(Clone, Copy, Debug, PartialEq, Eq, Structural)]
pub enum ObsMode {
    /// Flat rows.
    V0,
    /// Entity sets.
    V1,
}

/// Action table of an entity policy.
#[derive(Clone, Copy, Debug, PartialEq, Eq, Structural)]
pub enum ActionTableKind {
    /// The table with stalls.
    V1,
    /// The table with stalls and clean jumps.
    V1Air,
}

/// How a step ended for one agent.
#[derive(Clone, Copy, Debug, PartialEq, Eq, Structural)]
pub struct StepFlags {
    /// The episode came to its end.
    pub terminated: bool,
    /// The episode was cut off.
    pub truncated: bool,
}

impl Default for StepFlags {
    fn default() -> (f: StepFlags)
        ensures
            !f.terminated && !f.truncated,
    {
        StepFlags { terminated: false, truncated: false }
    }
}

/// Physics ticks per second.
pub const TICKS_PER_SEC: u64 = 120;

/// Ticks without a touch after which an episode is cut off.
pub const NO_TOUCH_TICKS: u64 = 3600;

/// Ticks after which an episode is cut off, and length of a match.
pub const MAX_TICKS: u64 = 36000;

/// What an episode starts from.
#[derive(Clone, Copy, Debug, PartialEq, Eq, Structural)]
pub enum ResetKind {
    /// A recorded state.
    Replay(usize),
    /// A random scenario.
    Random,
    /// A kickoff.
    Kickoff,
}

/// Whether a draw of `g` picks a recorded state.
pub open spec fn draws_replay<F: Scalar>(
    g: (u64, u64),
    replay: F,
    kickoff: F,
    random: F,
    pool_len: usize,
) -> bool {
    let sum = plus(plus(replay, kickoff), random);
    pool_len > 0 && gt(sum, num::<F>(0)) && lt(unit::<F>(pcg_output(g)), over(replay, sum))
}

/// What a draw of `g` picks. The unit interval is divided in the order recorded
/// state, random scenario, kickoff.
pub open spec fn drawn_kind<F: Scalar>(
    g: (u64, u64),
    replay: F,
    kickoff: F,
    random: F,
    pool_len: usize,
) -> ResetKind {
    let sum = plus(plus(replay, kickoff), random);
    if draws_replay(g, replay, kickoff, random, pool_len) {
        ResetKind::Replay((pcg_output(pcg_next(g)) as int % pool_len as int) as usize)
    } else if gt(sum, num::<F>(0)) && lt(
        unit::<F>(pcg_output(g)),
        over(plus(replay, random), sum),
    ) {
        ResetKind::Random
    } else {
        ResetKind::Kickoff
    }
}

/// The generator after a draw: one number, and one more to pick a recorded state.
pub open spec fn after_kind<F: Scalar>(
    g: (u64, u64),
    replay: F,
    kickoff: F,
    random: F,
    pool_len: usize,
) -> (u64, u64) {
    if draws_replay(g, replay, kickoff, random, pool_len) {
        pcg_next(pcg_next(g))
    } else {
        pcg_next(g)
    }
}

/// Draws what an episode starts from.
pub fn draw_reset_kind<F: Scalar>(
    rng: &mut Pcg32,
    replay_eff: F,
    kickoff_weight: F,
    random_weight: F,
    pool_len: usize,
) -> (k: ResetKind)
    requires
        total::<F>(),
    ensures
        k == drawn_kind(old(rng)@, replay_eff, kickoff_weight, random_weight, pool_len),
        final(rng)@ == after_kind(
            old(rng)@,
            replay_eff,
            kickoff_weight,
            random_weight,
            pool_len,
        ),
{
    let zero: F = whole(0);
    let sum: F = replay_eff + kickoff_weight + random_weight;
    let u: F = rng.next_f32();
    if pool_len > 0 && sum > zero && u < replay_eff / sum {
        let x: u32 = rng.next_u32();
        ResetKind::Replay(x as usize % pool_len)
    } else if sum > zero && u < (replay_eff + random_weight) / sum {
        ResetKind::Random
    } else {
        ResetKind::Kickoff
    }
}

/// A recorded state that was drawn is in the pool.
pub proof fn law_drawn_state_is_in_the_pool<F: Scalar>(
    g: (u64, u64),
    replay: F,
    kickoff: F,
    random: F,
    pool_len: usize,
)
    ensures
        drawn_kind(g, replay, kickoff, random, pool_len) matches ResetKind::Replay(i) ==> i
            < pool_len,
{
}

/// Without recorded states exactly one number is drawn and no recorded state is
/// picked, whatever the replay weight.
pub proof fn law_no_pool_no_replay<F: Scalar>(g: (u64, u64), replay: F, kickoff: F, random: F)
    ensures
        !(drawn_kind(g, replay, kickoff, random, 0) is Replay),
        after_kind(g, replay, kickoff, random, 0) == pcg_next(g),
{
}

/// What the two-way draw between random scenarios and kickoffs picks.
pub open spec fn two_way_kind<F: Scalar>(g: (u64, u64), kickoff: F, random: F) -> ResetKind {
    let sum = plus(random, kickoff);
    if gt(sum, num::<F>(0)) && lt(unit::<F>(pcg_output(g)), over(random, sum)) {
        ResetKind::Random
    } else {
        ResetKind::Kickoff
    }
}

/// With a replay weight of zero the draw is the two-way draw, in what it picks
/// and in how many numbers it takes: as far as zero is neutral in addition,
/// addition of the two other weights commutes, and nothing is below zero.
pub proof fn law_zero_replay_is_two_way<F: Scalar>(
    g: (u64, u64),
    zero: F,
    kickoff: F,
    random: F,
    pool_len: usize,
)
    requires
        plus(zero, kickoff) == kickoff,
        plus(zero, random) == random,
        plus(kickoff, random) == plus(random, kickoff),
        !lt(unit::<F>(pcg_output(g)), over(zero, plus(random, kickoff))),
    ensures
        drawn_kind(g, zero, kickoff, random, pool_len) == two_way_kind(g, kickoff, random),
        after_kind(g, zero, kickoff, random, pool_len) == pcg_next(g),
{
}

/// The mean of a run of numbers, 0 if there are none.
pub open spec fn mean_of<F: Scalar>(xs: Seq<F>) -> F {
    if xs.len() == 0 {
        num::<F>(0)
    } else {
        over(running_sum(xs, xs.len() as int), number::<F>(xs.len() as int))
    }
}

/// A reward after it was shared: less of its own, more of the team's mean, less
/// the opponents' mean.
pub open spec fn shared_reward<F: Scalar>(r: F, own: F, other: F, tau: F, opp: F) -> F {
    minus(plus(times(minus(num::<F>(1), tau), r), times(tau, own)), times(opp, other))
}

/// The rewards of all agents after they were shared.
pub open spec fn shared_rewards<F: Scalar>(rs: Seq<F>, blue: int, tau: F, opp: F) -> Seq<F> {
    let bm = mean_of(rs.take(blue));
    let om = mean_of(rs.skip(blue));
    Seq::new(
        rs.len(),
        |i: int|
            if i < blue {
                shared_reward(rs[i], bm, om, tau, opp)
            } else {
                shared_reward(rs[i], om, bm, tau, opp)
            },
    )
}

/// The mean of `v[from .. to)`, 0 if it is empty.
fn mean<F: Scalar>(v: &Vec<F>, from: usize, to: usize) -> (m: F)
    requires
        total::<F>(),
        from <= to <= v@.len(),
    ensures
        m == mean_of(v@.subrange(from as int, to as int)),
{
    let ghost part = v@.subrange(from as int, to as int);
    if from == to {
        return whole(0);
    }
    let mut sum: F = whole(0);
    let mut i: usize = from;
    while i < to
        invariant
            from <= i <= to <= v@.len(),
            total::<F>(),
            part == v@.subrange(from as int, to as int),
            sum == running_sum(part, i - from),
        decreases to - i,
    {
        sum = sum + v[i];
        i = i + 1;
    }
    sum / count((to - from) as u64)
}

/// Shares the rewards among the teams; the first `blue_count` are blue.
pub fn blend_team_spirit<F: Scalar>(rewards: &mut Vec<F>, blue_count: usize, tau: F, opp: F)
    requires
        total::<F>(),
        blue_count <= old(rewards)@.len(),
    ensures
        final(rewards)@ == shared_rewards(old(rewards)@, blue_count as int, tau, opp),
{
    let n: usize = rewards.len();
    let ghost start = rewards@;
    let bm: F = mean(rewards, 0, blue_count);
    let om: F = mean(rewards, blue_count, n);
    assert(start.subrange(0, blue_count as int) =~= start.take(blue_count as int));
    assert(start.subrange(blue_count as int, n as int) =~= start.skip(blue_count as int));
    let ghost done = shared_rewards(start, blue_count as int, tau, opp);
    let mut i: usize = 0;
    while i < n
        invariant
            i <= n,
            n == start.len(),
            rewards@.len() == n,
            blue_count <= n,
            total::<F>(),
            bm == mean_of(start.take(blue_count as int)),
            om == mean_of(start.skip(blue_count as int)),
            done == shared_rewards(start, blue_count as int, tau, opp),
            forall|j: int| 0 <= j < i ==> #[trigger] rewards@[j] == done[j],
            forall|j: int| i <= j < n ==> #[trigger] rewards@[j] == start[j],
        decreases n - i,
    {
        let one: F = whole(1);
        let r: F = rewards[i];
        if i < blue_count {
            rewards[i] = (one - tau) * r + tau * bm - opp * om;
        } else {
            rewards[i] = (one - tau) * r + tau * om - opp * bm;
        }
        i = i + 1;
    }
    assert(rewards@ =~= done);
}

/// No coordinate is further than `limit` from zero.
pub open spec fn vec_within<F: Scalar>(v: Vec3<F>, limit: F) -> bool {
    le(absolute(v.x), limit) && le(absolute(v.y), limit) && le(absolute(v.z), limit)
}

/// Everything about a car that is used is finite.
pub open spec fn car_state_finite<F: Scalar>(c: CarInfo<F>) -> bool {
    vec_finite(c.state.pos) && vec_finite(c.state.vel) && vec_finite(c.state.ang_vel)
        && vec_finite(c.state.rot_mat.forward) && vec_finite(c.state.rot_mat.up)
}

/// A car moves within reason.
pub open spec fn car_state_within<F: Scalar>(c: CarInfo<F>) -> bool {
    vec_within(c.state.pos, num::<F>(12000)) && vec_within(c.state.vel, num::<F>(20000))
        && vec_within(c.state.ang_vel, num::<F>(100))
}

/// Everything that is used of a state is finite.
pub open spec fn finite_state<F: Scalar>(gs: GameState<F>) -> bool {
    &&& vec_finite(gs.ball.pos) && vec_finite(gs.ball.vel) && vec_finite(gs.ball.ang_vel)
    &&& forall|i: int| 0 <= i < gs.cars@.len() ==> car_state_finite(#[trigger] gs.cars@[i])
}

/// Everything that is used of a state is finite and moves within reason.
pub open spec fn sane_state<F: Scalar>(gs: GameState<F>) -> bool {
    &&& finite_state(gs)
    &&& vec_within(gs.ball.pos, num::<F>(12000))
    &&& vec_within(gs.ball.vel, num::<F>(20000))
    &&& vec_within(gs.ball.ang_vel, num::<F>(100))
    &&& forall|i: int| 0 <= i < gs.cars@.len() ==> car_state_within(#[trigger] gs.cars@[i])
}

fn vec3_within<F: Scalar>(v: &Vec3<F>, limit: F) -> (r: bool)
    requires
        total::<F>(),
    ensures
        r == vec_within(*v, limit),
{
    abs(v.x) <= limit && abs(v.y) <= limit && abs(v.z) <= limit
}

fn is_car_finite<F: Scalar>(c: &CarInfo<F>) -> (r: bool)
    requires
        total::<F>(),
    ensures
        r == car_state_finite(*c),
{
    vec3_finite(&c.state.pos) && vec3_finite(&c.state.vel) && vec3_finite(&c.state.ang_vel)
        && vec3_finite(&c.state.rot_mat.forward) && vec3_finite(&c.state.rot_mat.up)
}

fn is_car_within<F: Scalar>(c: &CarInfo<F>) -> (r: bool)
    requires
        total::<F>(),
    ensures
        r == car_state_within(*c),
{
    vec3_within(&c.state.pos, whole(12000)) && vec3_within(&c.state.vel, whole(20000))
        && vec3_within(&c.state.ang_vel, whole(100))
}

/// Whether everything that is used of a state is finite.
pub fn state_is_finite<F: Scalar>(gs: &GameState<F>) -> (r: bool)
    requires
        total::<F>(),
    ensures
        r == finite_state(*gs),
{
    if !(vec3_finite(&gs.ball.pos) && vec3_finite(&gs.ball.vel) && vec3_finite(&gs.ball.ang_vel)) {
        return false;
    }
    let mut i: usize = 0;
    while i < gs.cars.len()
        invariant
            i <= gs.cars@.len(),
            total::<F>(),
            forall|j: int| 0 <= j < i ==> car_state_finite(#[trigger] gs.cars@[j]),
        decreases gs.cars.len() - i,
    {
        if !is_car_finite(&gs.cars[i]) {
            assert(!car_state_finite(gs.cars@[i as int]));
            return false;
        }
        i = i + 1;
    }
    true
}

/// Whether everything that is used of a state is finite and moves within reason.
pub fn state_is_sane<F: Scalar>(gs: &GameState<F>) -> (r: bool)
    requires
        total::<F>(),
    ensures
        r == sane_state(*gs),
{
    if !state_is_finite(gs) {
        return false;
    }
    if !(vec3_within(&gs.ball.pos, whole(12000)) && vec3_within(&gs.ball.vel, whole(20000))
        && vec3_within(&gs.ball.ang_vel, whole(100))) {
        return false;
    }
    let mut i: usize = 0;
    while i < gs.cars.len()
        invariant
            i <= gs.cars@.len(),
            total::<F>(),
            forall|j: int| 0 <= j < i ==> car_state_within(#[trigger] gs.cars@[j]),
        decreases gs.cars.len() - i,
    {
        if !is_car_within(&gs.cars[i]) {
            assert(!car_state_within(gs.cars@[i as int]));
            return false;
        }
        i = i + 1;
    }
    true
}

} // verus!
