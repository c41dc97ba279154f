//! How likely a lead is to win, and what the clock says.

use crate::episode::arena::clock_left;
use crate::exact::{
    add_comm, add_opposite, add_zero, divide, exact, inverse_is_positive, minus_is_plus, mul_comm,
    mul_one, mul_opposite, mul_zero, next_number, number_steps, numbers_ascend, opposite_facts,
    order_chain, order_facts, order_opposite, order_scale, order_shift, over_is_times, sorted,
};
use crate::reward::config::RewardConfig;
use crate::reward::shaping::{
    car_air_potential, lead, match_potential, shaping_of, win_prob_of, MatchState,
};
use crate::scalar::{
    gt, larger, lt, minus, num, number, opposite, over, plus, same, times, value_of, Scalar,
};
use crate::sim::{GameState, Team};
use vstd::prelude::*;

verus! {

/// `exp` gives positive numbers, 1 for 0, and grows.
pub open spec fn grows<F: Scalar, E: Fn(F) -> F>(exp: E) -> bool {
    &&& value_of(exp, num::<F>(0)) == num::<F>(1)
    &&& forall|x: F| lt(num::<F>(0), #[trigger] value_of(exp, x))
    &&& forall|x: F, y: F|
        #![trigger value_of(exp, x), value_of(exp, y)]
        lt(x, y) ==> lt(value_of(exp, x), value_of(exp, y))
}

/// Whole numbers above zero are above zero, and larger ones are larger.
pub proof fn law_numbers_ascend<F: Scalar>(a: int, b: int)
    requires
        exact::<F>(),
        sorted::<F>(),
        0 <= a < b,
    ensures
        lt(number::<F>(a), number::<F>(b)),
    decreases b,
{
    let c = number::<F>(b - 1);
    number_steps::<F>(b - 1);
    order_facts(num::<F>(0), num::<F>(1));
    order_shift(num::<F>(0), num::<F>(1), c);
    add_zero(c);
    add_comm(num::<F>(1), c);
    if a < b - 1 {
        law_numbers_ascend::<F>(a, b - 1);
        order_chain(number::<F>(a), c, number::<F>(b));
    }
}

/// The win probability is that of a sigmoid over the lead, the steeper the less of
/// the clock is left, down to a floor.
pub proof fn law_win_probability_is_a_sigmoid<F: Scalar, E: Fn(F) -> F>(
    d: int,
    t_frac: F,
    k_base: F,
    t_floor: F,
    exp: E,
)
    requires
        -16384 < d < 16384,
    ensures
        ({
            let left = if gt(t_frac, t_floor) {
                t_frac
            } else {
                t_floor
            };
            let lead = if d < 0 {
                opposite(num::<F>(-d))
            } else {
                num::<F>(d)
            };
            let one = num::<F>(1);
            same(t_floor, t_floor) ==> win_prob_of(
                d,
                t_frac,
                k_base,
                t_floor,
                exp,
            ) == over(
                one,
                plus(one, value_of(exp, times(opposite(over(k_base, left)), lead))),
            )
        }),
{
}

/// The team ahead is more likely to win than not, and no lead is certain to win.
pub proof fn law_leaders_are_favoured<F: Scalar, E: Fn(F) -> F>(
    d: int,
    t_frac: F,
    k_base: F,
    t_floor: F,
    exp: E,
)
    requires
        exact::<F>(),
        sorted::<F>(),
        grows(exp),
        d > 0,
        lt(num::<F>(0), k_base),
        lt(num::<F>(0), larger(t_frac, t_floor)),
    ensures
        gt(win_prob_of(d, t_frac, k_base, t_floor, exp), over(num::<F>(1), num::<F>(2))),
        lt(win_prob_of(d, t_frac, k_base, t_floor, exp), num::<F>(1)),
{
    let (zero, one, two) = (num::<F>(0), num::<F>(1), num::<F>(2));
    let m = larger(t_frac, t_floor);
    let k = over(k_base, m);
    let s = number::<F>(d);
    order_facts(zero, one);
    order_facts(zero, m);
    // the exponent is negative
    law_numbers_ascend::<F>(0, d);
    inverse_is_positive(m);
    over_is_times(k_base, m);
    order_scale(zero, k_base, over(one, m));
    mul_zero(over(one, m));
    order_scale(zero, k, s);
    mul_zero(s);
    let x = times(opposite(k), s);
    mul_comm(opposite(k), s);
    mul_opposite(s, k);
    mul_comm(s, k);
    order_opposite(zero, times(k, s));
    opposite_facts(s);
    assert(lt(x, zero));
    // so its exponential lies between 0 and 1
    let e = value_of(exp, x);
    assert(lt(e, value_of(exp, zero)));
    assert(lt(zero, e));
    let p = plus(one, e);
    order_shift(zero, e, one);
    add_zero(one);
    add_comm(one, e);
    order_shift(e, one, one);
    next_number::<F>(1);
    order_chain(zero, one, p);
    order_facts(zero, p);
    let u = over(one, p);
    divide(one, p);
    inverse_is_positive(p);
    order_facts(u, one);
    // u < 1, for otherwise u * p would be above 1
    if !lt(u, one) {
        order_facts(one, u);
        order_scale(one, u, p);
        mul_one(p);
        order_facts(one, p);
        order_facts(p, one);
        order_chain(one, p, times(u, p));
        order_facts(one, one);
        order_facts(p, p);
    }
    // u > 1 / 2, for otherwise u * p would be below 1
    numbers_ascend::<F>(0, 2);
    order_facts(zero, two);
    let h = over(one, two);
    divide(one, two);
    inverse_is_positive(two);
    order_facts(u, h);
    order_facts(h, u);
    if !gt(u, h) {
        order_scale(u, h, p);
        mul_comm(h, p);
        mul_comm(h, two);
        order_scale(p, two, h);
        order_facts(times(u, p), times(h, p));
        order_chain(times(u, p), times(h, p), one);
        order_facts(one, one);
    }
}

/// The clock of a match of five minutes is full when the match begins and empty
/// after it; in between it says what part of the 36000 ticks is left.
pub proof fn law_clock_runs_down<F: Scalar>(start: u64, now: u64)
    requires
        exact::<F>(),
        sorted::<F>(),
    ensures
        now <= start ==> clock_left::<F>(start, now) == num::<F>(1),
        now - start >= 36000 ==> clock_left::<F>(start, now) == num::<F>(0),
        0 <= now - start < 36000 ==> clock_left::<F>(start, now) == minus(
            num::<F>(1),
            over(number::<F>(now - start), number::<F>(36000)),
        ),
{
    let (zero, one) = (num::<F>(0), num::<F>(1));
    let n = number::<F>(36000);
    law_numbers_ascend::<F>(0, 36000);
    order_facts(zero, n);
    inverse_is_positive(n);
    let inv = over(one, n);
    divide(one, n);
    mul_comm(inv, n);
    let passed = if now > start {
        now - start
    } else {
        0
    };
    let x = number::<F>(passed);
    let q = over(x, n);
    over_is_times(x, n);
    mul_zero(inv);
    minus_is_plus(one, q);
    order_facts(zero, one);
    order_facts(one, one);
    order_facts(zero, zero);
    // 1 - q is below 1 where q is above 0
    order_opposite(zero, q);
    opposite_facts(q);
    order_shift(opposite(q), zero, one);
    add_comm(opposite(q), one);
    add_zero(one);
    // 1 - q is above 0 where q is below 1
    order_shift(q, one, opposite(q));
    order_shift(one, q, opposite(q));
    add_opposite(q);
    add_comm(one, opposite(q));
    let left = minus(one, q);
    order_facts(left, zero);
    order_facts(left, one);
    order_facts(zero, left);
    if passed == 0 {
        assert(q == zero);
        add_zero(one);
        opposite_facts(zero);
    } else {
        law_numbers_ascend::<F>(0, passed);
        order_scale(zero, x, inv);
        if passed < 36000 {
            law_numbers_ascend::<F>(passed, 36000);
            order_scale(x, n, inv);
        } else if passed > 36000 {
            law_numbers_ascend::<F>(36000, passed);
            order_scale(n, x, inv);
        } else {
            assert(q == one);
        }
    }
}

/// A level score is a lead of none for both; a goal brings its team one further ahead
/// and the other one further behind.
pub proof fn law_goals_move_the_lead(blue: u32, orange: u32)
    requires
        blue < u32::MAX,
        orange < u32::MAX,
    ensures
        lead(Team::Blue, blue, blue) == 0,
        lead(Team::Orange, orange, orange) == 0,
        lead(Team::Blue, (blue + 1) as u32, orange) == lead(Team::Blue, blue, orange) + 1,
        lead(Team::Blue, blue, (orange + 1) as u32) == lead(Team::Blue, blue, orange) - 1,
        lead(Team::Orange, blue, (orange + 1) as u32) == lead(Team::Orange, blue, orange) + 1,
        lead(Team::Orange, (blue + 1) as u32, orange) == lead(Team::Orange, blue, orange) - 1,
{
}

/// The change of a match pays the weight times what the odds of the score and clock
/// now, discounted, are above the odds before; odds are the win probability, with the
/// steepness and floor of the settings, less one half. A term without weight pays
/// nothing.
pub proof fn law_match_changes_pay_the_odds<F: Scalar, E: Fn(F) -> F>(
    prev: MatchState<F>,
    cur: MatchState<F>,
    team: Team,
    gamma: F,
    cfg: RewardConfig<F>,
    exp: E,
)
    ensures
        ({
            let ahead = |m: MatchState<F>|
                if team is Blue {
                    m.score_blue - m.score_orange
                } else {
                    m.score_orange - m.score_blue
                };
            let odds = |m: MatchState<F>|
                minus(
                    win_prob_of(
                        ahead(m),
                        m.t_frac,
                        cfg.win_prob_k_base,
                        cfg.win_prob_t_floor,
                        exp,
                    ),
                    over(num::<F>(1), num::<F>(2)),
                );
            shaping_of(
                cfg.win_prob_weight,
                gamma,
                match_potential(prev, team, cfg, exp),
                match_potential(cur, team, cfg, exp),
            ) == if same(cfg.win_prob_weight, num::<F>(0)) {
                num::<F>(0)
            } else {
                times(cfg.win_prob_weight, minus(times(gamma, odds(cur)), odds(prev)))
            }
        }),
{
}

/// A car that stays on the ground is paid nothing for its setup, and one that takes
/// off is paid for what it has gained in full, discounted; one that lands pays back
/// all that it had.
pub proof fn law_flights_pay_and_landings_refund<F: Scalar, S: Fn(F) -> F>(
    prev: GameState<F>,
    cur: GameState<F>,
    car_idx: int,
    gamma: F,
    cfg: RewardConfig<F>,
    sqrt: S,
)
    requires
        exact::<F>(),
        !same(cfg.air_setup, num::<F>(0)),
    ensures
        ({
            let was = car_air_potential(prev, car_idx, cfg, sqrt);
            let is = car_air_potential(cur, car_idx, cfg, sqrt);
            let paid = shaping_of(cfg.air_setup, gamma, was, is);
            let stood = prev.cars@[car_idx].state.is_on_ground;
            let stands = cur.cars@[car_idx].state.is_on_ground;
            &&& stood && stands ==> paid == num::<F>(0)
            &&& stood && !stands ==> paid == times(cfg.air_setup, times(gamma, is))
            &&& !stood && stands ==> paid == times(cfg.air_setup, opposite(was))
        }),
{
    let zero = num::<F>(0);
    let was = car_air_potential(prev, car_idx, cfg, sqrt);
    let is = car_air_potential(cur, car_idx, cfg, sqrt);
    mul_zero(gamma);
    mul_zero(cfg.air_setup);
    minus_is_plus(zero, zero);
    opposite_facts(zero);
    add_zero(zero);
    minus_is_plus(times(gamma, is), zero);
    add_zero(times(gamma, is));
    minus_is_plus(zero, was);
    add_zero(opposite(was));
    add_comm(zero, opposite(was));
}

} // verus!
