//! Potentials and the payments for their change.

use crate::reward::config::RewardConfig;
use crate::scalar::{
    apply, clamp, clamped, functional, larger, max_of, minus, negate, num, opposite, over, plus,
    ratio, same, signed, signed_number, times, total, value_of, whole, Scalar,
};
use crate::sim::{GameState, Team, Vec3};
use vstd::prelude::*;

verus! {

/// A vector from `a` to `b`.
pub open spec fn vec_between<F: Scalar>(a: Vec3<F>, b: Vec3<F>) -> Vec3<F> {
    Vec3 { x: minus(b.x, a.x), y: minus(b.y, a.y), z: minus(b.z, a.z) }
}

/// Inner product.
pub open spec fn inner<F: Scalar>(a: Vec3<F>, b: Vec3<F>) -> F {
    plus(plus(times(a.x, b.x), times(a.y, b.y)), times(a.z, b.z))
}

/// The cross product.
pub open spec fn cross<F: Scalar>(a: Vec3<F>, b: Vec3<F>) -> Vec3<F> {
    Vec3 {
        x: minus(times(a.y, b.z), times(a.z, b.y)),
        y: minus(times(a.z, b.x), times(a.x, b.z)),
        z: minus(times(a.x, b.y), times(a.y, b.x)),
    }
}

/// A vector from `a` to `b`.
pub fn between<F: Scalar>(a: Vec3<F>, b: Vec3<F>) -> (r: Vec3<F>)
    requires
        total::<F>(),
    ensures
        r == vec_between(a, b),
{
    Vec3 { x: b.x - a.x, y: b.y - a.y, z: b.z - a.z }
}

/// Inner product.
pub fn dot<F: Scalar>(a: Vec3<F>, b: Vec3<F>) -> (r: F)
    requires
        total::<F>(),
    ensures
        r == inner(a, b),
{
    a.x * b.x + a.y * b.y + a.z * b.z
}

/// The aerial setup potential: 0 on the ground, otherwise how high the ball is
/// times how near the car is to it.
pub open spec fn air_potential_of<F: Scalar, S: Fn(F) -> F>(
    on_ground: bool,
    car_pos: Vec3<F>,
    ball_pos: Vec3<F>,
    cfg: RewardConfig<F>,
    sqrt: S,
) -> F {
    if on_ground {
        num::<F>(0)
    } else {
        let d = vec_between(car_pos, ball_pos);
        let dist = value_of(sqrt, inner(d, d));
        times(
            cfg.setup_ramp_at(ball_pos.z),
            clamped(
                minus(num::<F>(1), over(dist, num::<F>(2500))),
                num::<F>(0),
                num::<F>(1),
            ),
        )
    }
}

/// The aerial setup potential.
pub fn air_potential<F: Scalar, S: Fn(F) -> F>(
    on_ground: bool,
    car_pos: Vec3<F>,
    ball_pos: Vec3<F>,
    cfg: &RewardConfig<F>,
    sqrt: &S,
) -> (r: F)
    requires
        total::<F>(),
        functional(*sqrt),
    ensures
        r == air_potential_of(on_ground, car_pos, ball_pos, *cfg, *sqrt),
{
    if on_ground {
        return whole(0);
    }
    let d: Vec3<F> = between(car_pos, ball_pos);
    let dist: F = apply(sqrt, dot(d, d));
    let one: F = whole(1);
    let reach: F = whole(2500);
    cfg.setup_ramp(ball_pos.z) * clamp(one - dist / reach, whole(0), one)
}

/// The aerial setup potential of a car.
pub open spec fn car_air_potential<F: Scalar, S: Fn(F) -> F>(
    gs: GameState<F>,
    car_idx: int,
    cfg: RewardConfig<F>,
    sqrt: S,
) -> F {
    let c = gs.cars@[car_idx].state;
    air_potential_of(c.is_on_ground, c.pos, gs.ball.pos, cfg, sqrt)
}

/// The payment for a change of potential, `w * (gamma * now - before)`; exactly
/// zero where the weight is.
pub open spec fn shaping_of<F: Scalar>(w: F, gamma: F, before: F, now: F) -> F {
    if same(w, num::<F>(0)) {
        num::<F>(0)
    } else {
        times(w, minus(times(gamma, now), before))
    }
}

/// The payment for the change of the aerial setup potential; zero where the
/// term is off.
pub fn air_shaping<F: Scalar, S: Fn(F) -> F>(
    prev: &GameState<F>,
    cur: &GameState<F>,
    car_idx: usize,
    gamma: F,
    cfg: &RewardConfig<F>,
    sqrt: &S,
) -> (r: F)
    requires
        total::<F>(),
        functional(*sqrt),
        car_idx < prev.cars@.len(),
        car_idx < cur.cars@.len(),
    ensures
        r == shaping_of(
            cfg.air_setup,
            gamma,
            car_air_potential(*prev, car_idx as int, *cfg, *sqrt),
            car_air_potential(*cur, car_idx as int, *cfg, *sqrt),
        ),
{
    let zero: F = whole(0);
    if cfg.air_setup == zero {
        return zero;
    }
    let c = &cur.cars[car_idx].state;
    let now: F = air_potential(c.is_on_ground, c.pos, cur.ball.pos, cfg, sqrt);
    let p = &prev.cars[car_idx].state;
    let before: F = air_potential(p.is_on_ground, p.pos, prev.ball.pos, cfg, sqrt);
    cfg.air_setup * (gamma * now - before)
}

/// Score and clock of a match.
#[derive(Debug)]
pub struct MatchState<F> {
    pub score_blue: u32,
    pub score_orange: u32,
    /// Fraction of the clock that remains: 1 at kickoff, 0 at the end.
    pub t_frac: F,
}

impl<F: Copy> Clone for MatchState<F> {
    fn clone(&self) -> (r: Self)
        ensures
            r == *self,
    {
        *self
    }
}

impl<F: Copy> Copy for MatchState<F> {

}

/// Goals that `team` is ahead by.
pub open spec fn lead(team: Team, blue: u32, orange: u32) -> int {
    match team {
        Team::Blue => blue - orange,
        Team::Orange => orange - blue,
    }
}

/// The lead of either team is an `i32`.
pub open spec fn scores_in_range(blue: u32, orange: u32) -> bool {
    -i32::MAX <= blue - orange <= i32::MAX
}

impl<F> MatchState<F> {
    /// Goals that `team` is ahead by.
    pub fn score_diff(&self, team: Team) -> (d: i32)
        requires
            scores_in_range(self.score_blue, self.score_orange),
        ensures
            d == lead(team, self.score_blue, self.score_orange),
    {
        match team {
            Team::Blue => (self.score_blue as i64 - self.score_orange as i64) as i32,
            Team::Orange => (self.score_orange as i64 - self.score_blue as i64) as i32,
        }
    }
}

/// What one team is ahead by, the other is behind by.
pub proof fn law_leads_are_opposite(team: Team, blue: u32, orange: u32)
    ensures
        lead(team, blue, orange) == -lead(team.opponent(), blue, orange),
{
}

/// The probability that a team ahead by `score_diff` wins with `t_frac` of the
/// clock to go: a sigmoid that sharpens as the clock runs down to `t_floor`.
pub open spec fn win_prob_of<F: Scalar, E: Fn(F) -> F>(
    score_diff: int,
    t_frac: F,
    k_base: F,
    t_floor: F,
    exp: E,
) -> F {
    let k = over(k_base, larger(t_frac, t_floor));
    over(
        num::<F>(1),
        plus(num::<F>(1), value_of(exp, times(opposite(k), signed_number::<F>(score_diff)))),
    )
}

/// The probability that a team ahead by `score_diff` wins.
pub fn win_prob<F: Scalar, E: Fn(F) -> F>(
    score_diff: i32,
    t_frac: F,
    k_base: F,
    t_floor: F,
    exp: &E,
) -> (r: F)
    requires
        total::<F>(),
        functional(*exp),
    ensures
        r == win_prob_of(score_diff as int, t_frac, k_base, t_floor, *exp),
{
    let k: F = k_base / max_of(t_frac, t_floor);
    let d: F = signed(score_diff as i64);
    let one: F = whole(1);
    one / (one + apply(exp, negate(k) * d))
}

/// The win potential: the win probability less one half.
pub open spec fn win_potential_of<F: Scalar, E: Fn(F) -> F>(
    score_diff: int,
    t_frac: F,
    k_base: F,
    t_floor: F,
    exp: E,
) -> F {
    minus(win_prob_of(score_diff, t_frac, k_base, t_floor, exp), over(num::<F>(1), num::<F>(2)))
}

/// The win potential.
pub fn win_potential<F: Scalar, E: Fn(F) -> F>(
    score_diff: i32,
    t_frac: F,
    k_base: F,
    t_floor: F,
    exp: &E,
) -> (r: F)
    requires
        total::<F>(),
        functional(*exp),
    ensures
        r == win_potential_of(score_diff as int, t_frac, k_base, t_floor, *exp),
{
    win_prob(score_diff, t_frac, k_base, t_floor, exp) - ratio(1, 2)
}

/// The win potential of a team in a match.
pub open spec fn match_potential<F: Scalar, E: Fn(F) -> F>(
    m: MatchState<F>,
    team: Team,
    cfg: RewardConfig<F>,
    exp: E,
) -> F {
    win_potential_of(
        lead(team, m.score_blue, m.score_orange),
        m.t_frac,
        cfg.win_prob_k_base,
        cfg.win_prob_t_floor,
        exp,
    )
}

/// The payment for the change of the win potential; zero where the term is off.
pub fn win_prob_shaping<F: Scalar, E: Fn(F) -> F>(
    prev: &MatchState<F>,
    cur: &MatchState<F>,
    team: Team,
    gamma: F,
    cfg: &RewardConfig<F>,
    exp: &E,
) -> (r: F)
    requires
        total::<F>(),
        functional(*exp),
        scores_in_range(prev.score_blue, prev.score_orange),
        scores_in_range(cur.score_blue, cur.score_orange),
    ensures
        r == shaping_of(
            cfg.win_prob_weight,
            gamma,
            match_potential(*prev, team, *cfg, *exp),
            match_potential(*cur, team, *cfg, *exp),
        ),
{
    let zero: F = whole(0);
    if cfg.win_prob_weight == zero {
        return zero;
    }
    let now: F = win_potential(
        cur.score_diff(team),
        cur.t_frac,
        cfg.win_prob_k_base,
        cfg.win_prob_t_floor,
        exp,
    );
    let before: F = win_potential(
        prev.score_diff(team),
        prev.t_frac,
        cfg.win_prob_k_base,
        cfg.win_prob_t_floor,
        exp,
    );
    cfg.win_prob_weight * (gamma * now - before)
}

} // verus!
