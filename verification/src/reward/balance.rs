//! What shaping and sharing leave unchanged, for scalars that do not round.

use crate::episode::{mean_of, shared_reward, shared_rewards};
use crate::exact::{
    add_assoc, add_comm, add_opposite, add_swap, add_zero, distribute, distribute_minus, divide,
    exact, minus_chain, minus_is_plus, minus_opposites, mul_assoc, mul_cancel, mul_comm, mul_one,
    mul_opposite, mul_zero, next_number, opposite_facts, opposite_sum, opposite_unique,
    order_facts, sorted, sum_of_prefix, sum_of_scaled, sum_splits,
};
use crate::reward::config::RewardConfig;
use crate::reward::shaping::{
    car_air_potential, lead, match_potential, shaping_of, win_potential_of, win_prob_of,
    MatchState,
};
use crate::reward::terms::climb;
use crate::sampler::running_sum;
use crate::scalar::{
    larger, minus, num, number, opposite, over, plus, same, signed_number, times, value_of, Scalar,
};
use crate::sim::{GameState, Team};
use vstd::prelude::*;

verus! {

/// `exp` turns opposite numbers into reciprocal ones, and never into -1.
pub open spec fn exponential<F: Scalar, E: Fn(F) -> F>(exp: E) -> bool {
    forall|x: F|
        times(#[trigger] value_of(exp, x), value_of(exp, opposite(x))) == num::<F>(1) && plus(
            num::<F>(1),
            value_of(exp, x),
        ) != num::<F>(0)
}

proof fn lemma_signed_opposite<F: Scalar>(d: int)
    requires
        exact::<F>(),
    ensures
        signed_number::<F>(-d) == opposite(signed_number::<F>(d)),
{
    if d == 0 {
        opposite_facts(num::<F>(0));
    } else if d < 0 {
        opposite_facts(number::<F>(-d));
    }
}

/// One team wins or the other does: the win probabilities for a lead and for
/// the same deficit add up to one, whatever the clock says.
pub proof fn law_win_probabilities_add_up<F: Scalar, E: Fn(F) -> F>(
    d: int,
    t_frac: F,
    k_base: F,
    t_floor: F,
    exp: E,
)
    requires
        exact::<F>(),
        exponential(exp),
    ensures
        plus(
            win_prob_of(d, t_frac, k_base, t_floor, exp),
            win_prob_of(-d, t_frac, k_base, t_floor, exp),
        ) == num::<F>(1),
{
    let one = num::<F>(1);
    let k = opposite(over(k_base, larger(t_frac, t_floor)));
    let s = signed_number::<F>(d);
    lemma_signed_opposite::<F>(d);
    mul_opposite(k, s);
    let x = times(k, s);
    let e = value_of(exp, x);
    let f = value_of(exp, opposite(x));
    let p = plus(one, e);
    let q = plus(one, f);
    let u = over(one, p);
    let v = over(one, q);
    divide(one, p);
    divide(one, q);
    assert(times(e, q) == p) by {
        distribute(e, one, f);
        mul_one(e);
        add_comm(e, one);
    }
    assert(times(v, p) == e) by {
        mul_comm(e, q);
        mul_assoc(v, q, e);
        mul_one(e);
    }
    distribute(p, u, v);
    mul_one(p);
    mul_cancel(p, plus(u, v), one);
}

proof fn lemma_halves<F: Scalar>()
    requires
        exact::<F>(),
        num::<F>(2) != num::<F>(0),
    ensures
        plus(over(num::<F>(1), num::<F>(2)), over(num::<F>(1), num::<F>(2))) == num::<F>(1),
{
    let h = over(num::<F>(1), num::<F>(2));
    divide(num::<F>(1), num::<F>(2));
    next_number::<F>(1);
    distribute(h, num::<F>(1), num::<F>(1));
    mul_one(h);
}

/// At a level score either team wins with probability one half, whatever the
/// clock says, and nobody has a potential.
pub proof fn law_level_score_is_even<F: Scalar, E: Fn(F) -> F>(
    t_frac: F,
    k_base: F,
    t_floor: F,
    exp: E,
)
    requires
        exact::<F>(),
        exponential(exp),
        num::<F>(2) != num::<F>(0),
    ensures
        win_prob_of(0, t_frac, k_base, t_floor, exp) == over(num::<F>(1), num::<F>(2)),
        win_potential_of(0, t_frac, k_base, t_floor, exp) == num::<F>(0),
{
    let one = num::<F>(1);
    let two = num::<F>(2);
    let p = win_prob_of(0, t_frac, k_base, t_floor, exp);
    let h = over(one, two);
    law_win_probabilities_add_up(0, t_frac, k_base, t_floor, exp);
    next_number::<F>(1);
    distribute(p, one, one);
    mul_one(p);
    divide(one, two);
    mul_cancel(two, p, h);
    minus_is_plus(h, h);
    add_opposite(h);
}

/// The win potential of the team behind is the opposite of that of the team
/// ahead.
pub proof fn law_win_potentials_are_opposite<F: Scalar, E: Fn(F) -> F>(
    d: int,
    t_frac: F,
    k_base: F,
    t_floor: F,
    exp: E,
)
    requires
        exact::<F>(),
        exponential(exp),
        num::<F>(2) != num::<F>(0),
    ensures
        win_potential_of(-d, t_frac, k_base, t_floor, exp) == opposite(
            win_potential_of(d, t_frac, k_base, t_floor, exp),
        ),
{
    let u = win_prob_of(d, t_frac, k_base, t_floor, exp);
    let v = win_prob_of(-d, t_frac, k_base, t_floor, exp);
    let h = over(num::<F>(1), num::<F>(2));
    law_win_probabilities_add_up(d, t_frac, k_base, t_floor, exp);
    lemma_halves::<F>();
    minus_is_plus(u, h);
    minus_is_plus(v, h);
    add_swap(u, opposite(h), v, opposite(h));
    opposite_sum(h, h);
    add_opposite(num::<F>(1));
    opposite_unique(minus(u, h), minus(v, h));
}

proof fn lemma_opposite_payments<F: Scalar>(w: F, gamma: F, before: F, now: F)
    requires
        exact::<F>(),
    ensures
        plus(
            shaping_of(w, gamma, before, now),
            shaping_of(w, gamma, opposite(before), opposite(now)),
        ) == num::<F>(0),
{
    if same(w, num::<F>(0)) {
        add_zero(num::<F>(0));
    } else {
        let change = minus(times(gamma, now), before);
        mul_opposite(gamma, now);
        minus_opposites(times(gamma, now), before);
        mul_opposite(w, change);
        add_opposite(times(w, change));
    }
}

/// Match shaping is a zero-sum game between the teams, at every discount.
pub proof fn law_match_shaping_is_zero_sum<F: Scalar, E: Fn(F) -> F>(
    prev: MatchState<F>,
    cur: MatchState<F>,
    team: Team,
    gamma: F,
    cfg: RewardConfig<F>,
    exp: E,
)
    requires
        exact::<F>(),
        exponential(exp),
        num::<F>(2) != num::<F>(0),
    ensures
        plus(
            shaping_of(
                cfg.win_prob_weight,
                gamma,
                match_potential(prev, team, cfg, exp),
                match_potential(cur, team, cfg, exp),
            ),
            shaping_of(
                cfg.win_prob_weight,
                gamma,
                match_potential(prev, team.opponent(), cfg, exp),
                match_potential(cur, team.opponent(), cfg, exp),
            ),
        ) == num::<F>(0),
{
    let k = cfg.win_prob_k_base;
    let floor = cfg.win_prob_t_floor;
    let was = lead(team, prev.score_blue, prev.score_orange);
    let is = lead(team, cur.score_blue, cur.score_orange);
    assert(lead(team.opponent(), prev.score_blue, prev.score_orange) == -was);
    assert(lead(team.opponent(), cur.score_blue, cur.score_orange) == -is);
    law_win_potentials_are_opposite(was, prev.t_frac, k, floor, exp);
    law_win_potentials_are_opposite(is, cur.t_frac, k, floor, exp);
    lemma_opposite_payments(
        cfg.win_prob_weight,
        gamma,
        match_potential(prev, team, cfg, exp),
        match_potential(cur, team, cfg, exp),
    );
}

/// `gamma` to the power of `n`.
pub open spec fn power<F: Scalar>(gamma: F, n: int) -> F
    decreases n,
{
    if n <= 0 {
        num::<F>(1)
    } else {
        times(power(gamma, n - 1), gamma)
    }
}

/// The discounted return of the first `n` payments for a path of potentials.
pub open spec fn path_return<F: Scalar>(w: F, gamma: F, phi: Seq<F>, n: int) -> F
    decreases n,
{
    if n <= 0 {
        num::<F>(0)
    } else {
        plus(
            path_return(w, gamma, phi, n - 1),
            times(power(gamma, n - 1), shaping_of(w, gamma, phi[n - 1], phi[n])),
        )
    }
}

/// Shaping telescopes: the discounted return of a path is the weight times the
/// change from its first potential to its last, discounted. Where the weight is
/// zero nothing is paid.
pub proof fn law_shaping_telescopes<F: Scalar>(w: F, gamma: F, phi: Seq<F>, n: int)
    requires
        exact::<F>(),
        0 <= n < phi.len(),
    ensures
        same(w, num::<F>(0)) ==> path_return(w, gamma, phi, n) == num::<F>(0),
        !same(w, num::<F>(0)) ==> path_return(w, gamma, phi, n) == times(
            w,
            minus(times(power(gamma, n), phi[n]), phi[0]),
        ),
    decreases n,
{
    if n == 0 {
        mul_one(phi[0]);
        minus_is_plus(phi[0], phi[0]);
        add_opposite(phi[0]);
        mul_zero(w);
    } else {
        law_shaping_telescopes(w, gamma, phi, n - 1);
        let g = power(gamma, n - 1);
        if same(w, num::<F>(0)) {
            mul_zero(g);
            add_zero(num::<F>(0));
        } else {
            let before = phi[n - 1];
            let now = phi[n];
            let change = minus(times(gamma, now), before);
            let first = minus(times(g, before), phi[0]);
            let second = minus(times(times(g, gamma), now), times(g, before));
            assert(times(g, times(w, change)) == times(w, times(g, change))) by {
                mul_assoc(g, w, change);
                mul_comm(g, w);
                mul_assoc(w, g, change);
            }
            distribute_minus(g, times(gamma, now), before);
            mul_assoc(g, gamma, now);
            assert(times(g, change) == second);
            distribute(w, first, second);
            minus_chain(phi[0], times(g, before), times(times(g, gamma), now));
        }
    }
}

/// Without a discount a closed loop pays nothing in all.
pub proof fn law_closed_loops_pay_nothing<F: Scalar>(w: F, phi: Seq<F>)
    requires
        exact::<F>(),
        phi.len() > 0,
        phi.last() == phi[0],
    ensures
        path_return(w, num::<F>(1), phi, phi.len() - 1) == num::<F>(0),
{
    let n = phi.len() - 1;
    law_shaping_telescopes(w, num::<F>(1), phi, n);
    lemma_power_of_one::<F>(n);
    mul_one(phi[0]);
    minus_is_plus(phi[0], phi[0]);
    add_opposite(phi[0]);
    mul_zero(w);
}

/// Holding a potential pays the weight times `(gamma - 1)` times the potential:
/// with a discount, staying costs.
pub proof fn law_holding_pays_the_discount<F: Scalar>(w: F, gamma: F, phi: F)
    requires
        exact::<F>(),
        !same(w, num::<F>(0)),
    ensures
        shaping_of(w, gamma, phi, phi) == times(w, times(minus(gamma, num::<F>(1)), phi)),
{
    let one = num::<F>(1);
    distribute_minus(phi, gamma, one);
    mul_comm(phi, minus(gamma, one));
    mul_comm(phi, gamma);
    mul_one(phi);
}

/// The win potentials of a team along a match.
pub open spec fn match_path<F: Scalar, E: Fn(F) -> F>(
    states: Seq<MatchState<F>>,
    team: Team,
    cfg: RewardConfig<F>,
    exp: E,
) -> Seq<F> {
    states.map_values(|m: MatchState<F>| match_potential(m, team, cfg, exp))
}

/// Without a discount, what match shaping pays over a match is the weight times
/// the change of the win potential from its first state to its last, whatever the
/// states in between and whatever the weight.
pub proof fn law_match_shaping_telescopes<F: Scalar, E: Fn(F) -> F>(
    states: Seq<MatchState<F>>,
    team: Team,
    cfg: RewardConfig<F>,
    exp: E,
)
    requires
        exact::<F>(),
        sorted::<F>(),
        states.len() > 0,
    ensures
        path_return(
            cfg.win_prob_weight,
            num::<F>(1),
            match_path(states, team, cfg, exp),
            states.len() - 1,
        ) == times(
            cfg.win_prob_weight,
            minus(
                match_potential(states.last(), team, cfg, exp),
                match_potential(states[0], team, cfg, exp),
            ),
        ),
{
    let phi = match_path(states, team, cfg, exp);
    let last = states.len() - 1;
    let w = cfg.win_prob_weight;
    law_shaping_telescopes(w, num::<F>(1), phi, last);
    lemma_power_of_one::<F>(last);
    mul_one(phi[last]);
    order_facts(w, num::<F>(0));
    mul_zero(minus(phi[last], phi[0]));
}

/// Without a discount, what match shaping pays over a match is the weight times
/// the change of the win probability from its first state to its last.
pub proof fn law_match_pays_its_outcome<F: Scalar, E: Fn(F) -> F>(
    states: Seq<MatchState<F>>,
    team: Team,
    cfg: RewardConfig<F>,
    exp: E,
)
    requires
        exact::<F>(),
        states.len() > 0,
        !same(cfg.win_prob_weight, num::<F>(0)),
    ensures
        ({
            let last = states.len() - 1;
            let prob = |i: int|
                win_prob_of(
                    lead(team, states[i].score_blue, states[i].score_orange),
                    states[i].t_frac,
                    cfg.win_prob_k_base,
                    cfg.win_prob_t_floor,
                    exp,
                );
            path_return(
                cfg.win_prob_weight,
                num::<F>(1),
                match_path(states, team, cfg, exp),
                last,
            ) == times(cfg.win_prob_weight, minus(prob(last), prob(0)))
        }),
{
    let phi = match_path(states, team, cfg, exp);
    let last = states.len() - 1;
    let one = num::<F>(1);
    let h = over(one, num::<F>(2));
    law_shaping_telescopes(cfg.win_prob_weight, one, phi, last);
    lemma_power_of_one::<F>(last);
    mul_one(phi[last]);
    let p = win_prob_of(
        lead(team, states[0].score_blue, states[0].score_orange),
        states[0].t_frac,
        cfg.win_prob_k_base,
        cfg.win_prob_t_floor,
        exp,
    );
    let q = win_prob_of(
        lead(team, states[last].score_blue, states[last].score_orange),
        states[last].t_frac,
        cfg.win_prob_k_base,
        cfg.win_prob_t_floor,
        exp,
    );
    assert(phi[0] == minus(p, h));
    assert(phi[last] == minus(q, h));
    lemma_shift_cancels(q, p, h);
}

proof fn lemma_power_of_one<F: Scalar>(n: int)
    requires
        exact::<F>(),
    ensures
        power(num::<F>(1), n) == num::<F>(1),
    decreases n,
{
    if n > 0 {
        lemma_power_of_one::<F>(n - 1);
        mul_one(num::<F>(1));
    }
}

/// `(q - h) - (p - h) == q - p`.
proof fn lemma_shift_cancels<F: Scalar>(q: F, p: F, h: F)
    requires
        exact::<F>(),
    ensures
        minus(minus(q, h), minus(p, h)) == minus(q, p),
{
    minus_chain(p, h, q);
    // (h - p) + (q - h) == q - p, and h - p is the opposite of p - h
    minus_is_plus(h, p);
    minus_is_plus(p, h);
    opposite_sum(p, opposite(h));
    opposite_facts(h);
    add_comm(opposite(p), h);
    minus_is_plus(minus(q, h), minus(p, h));
    add_comm(minus(q, h), minus(h, p));
}

/// The aerial setup potentials of a car along a flight.
pub open spec fn air_path<F: Scalar, S: Fn(F) -> F>(
    states: Seq<GameState<F>>,
    car_idx: int,
    cfg: RewardConfig<F>,
    sqrt: S,
) -> Seq<F> {
    states.map_values(|gs: GameState<F>| car_air_potential(gs, car_idx, cfg, sqrt))
}

/// A flight that starts and ends on the ground pays nothing in all, at every
/// discount and however it went.
pub proof fn law_landing_refunds_the_flight<F: Scalar, S: Fn(F) -> F>(
    states: Seq<GameState<F>>,
    car_idx: int,
    gamma: F,
    cfg: RewardConfig<F>,
    sqrt: S,
)
    requires
        exact::<F>(),
        states.len() > 0,
        states[0].cars@[car_idx].state.is_on_ground,
        states.last().cars@[car_idx].state.is_on_ground,
    ensures
        path_return(
            cfg.air_setup,
            gamma,
            air_path(states, car_idx, cfg, sqrt),
            states.len() - 1,
        ) == num::<F>(0),
{
    let phi = air_path(states, car_idx, cfg, sqrt);
    let last = states.len() - 1;
    law_shaping_telescopes(cfg.air_setup, gamma, phi, last);
    assert(phi[0] == num::<F>(0));
    assert(phi[last] == num::<F>(0));
    mul_zero(power(gamma, last));
    minus_is_plus(num::<F>(0), num::<F>(0));
    add_opposite(num::<F>(0));
    mul_zero(cfg.air_setup);
}

/// Collecting boost in one go or in two pays the same.
pub proof fn law_split_climbs_pay_the_same<F: Scalar, S: Fn(F) -> F>(
    w: F,
    low: F,
    middle: F,
    high: F,
    sqrt: S,
)
    requires
        exact::<F>(),
        num::<F>(10) != num::<F>(0),
    ensures
        plus(times(w, climb(low, middle, sqrt)), times(w, climb(middle, high, sqrt))) == times(
            w,
            climb(low, high, sqrt),
        ),
{
    let zero = num::<F>(0);
    let ten = num::<F>(10);
    let a = value_of(sqrt, larger(low, zero));
    let b = value_of(sqrt, larger(middle, zero));
    let c = value_of(sqrt, larger(high, zero));
    let (x, y, z) = (climb(low, middle, sqrt), climb(middle, high, sqrt), climb(low, high, sqrt));
    divide(minus(b, a), ten);
    divide(minus(c, b), ten);
    divide(minus(c, a), ten);
    minus_chain(a, b, c);
    distribute(ten, x, y);
    mul_cancel(ten, plus(x, y), z);
    distribute(w, x, y);
}

/// What a team has after sharing: its own sum less the other team's share.
pub proof fn lemma_team_total<F: Scalar>(xs: Seq<F>, ys: Seq<F>, other: F, tau: F, opp: F)
    requires
        exact::<F>(),
        xs.len() > 0,
        xs.len() == ys.len(),
        number::<F>(xs.len() as int) != num::<F>(0),
        forall|i: int|
            0 <= i < xs.len() ==> ys[i] == shared_reward(xs[i], mean_of(xs), other, tau, opp),
    ensures
        running_sum(ys, ys.len() as int) == minus(
            running_sum(xs, xs.len() as int),
            times(opp, times(other, number::<F>(xs.len() as int))),
        ),
{
    let one = num::<F>(1);
    let n = xs.len() as int;
    let size = number::<F>(n);
    let own = mean_of(xs);
    let s = running_sum(xs, n);
    let a = minus(one, tau);
    let cost = times(opp, other);
    let c = minus(times(tau, own), cost);
    assert forall|i: int| 0 <= i < n implies ys[i] == plus(times(a, xs[i]), c) by {
        let mine = times(a, xs[i]);
        let part = times(tau, own);
        minus_is_plus(plus(mine, part), cost);
        minus_is_plus(part, cost);
        add_assoc(mine, part, opposite(cost));
    }
    sum_of_scaled(xs, ys, a, c, n);
    divide(s, size);
    assert(times(own, size) == s);
    // size * (tau * own - cost) == tau * s - size * cost
    distribute_minus(size, times(tau, own), cost);
    mul_comm(size, times(tau, own));
    mul_assoc(tau, own, size);
    let rest = times(size, cost);
    assert(times(size, c) == minus(times(tau, s), rest));
    // (1 - tau) * s + tau * s == s
    minus_is_plus(one, tau);
    distribute(s, one, opposite(tau));
    distribute(s, plus(one, opposite(tau)), tau);
    add_assoc(one, opposite(tau), tau);
    add_opposite(tau);
    add_zero(one);
    mul_one(s);
    assert(plus(times(a, s), times(tau, s)) == s);
    minus_is_plus(times(tau, s), rest);
    add_assoc(times(a, s), times(tau, s), opposite(rest));
    minus_is_plus(s, rest);
    // size * (opp * other) == opp * (other * size)
    mul_comm(size, cost);
    mul_assoc(opp, other, size);
}

/// Sharing between teams of equal size leaves `1 - opp` times the sum of what
/// was earned; with a full share of the opponents' mean the game is zero-sum.
pub proof fn law_sharing_scales_the_sum<F: Scalar>(rs: Seq<F>, size: int, tau: F, opp: F)
    requires
        exact::<F>(),
        size > 0,
        rs.len() == 2 * size,
        number::<F>(size) != num::<F>(0),
    ensures
        ({
            let shared = shared_rewards(rs, size, tau, opp);
            running_sum(shared, 2 * size) == times(
                minus(num::<F>(1), opp),
                running_sum(rs, 2 * size),
            )
        }),
        opp == num::<F>(1) ==> running_sum(shared_rewards(rs, size, tau, opp), 2 * size)
            == num::<F>(0),
{
    let one = num::<F>(1);
    let shared = shared_rewards(rs, size, tau, opp);
    let blue = rs.take(size);
    let orange = rs.skip(size);
    let bm = mean_of(blue);
    let om = mean_of(orange);
    let b = running_sum(blue, size);
    let o = running_sum(orange, size);
    lemma_team_total(blue, shared.take(size), om, tau, opp);
    lemma_team_total(orange, shared.skip(size), bm, tau, opp);
    divide(b, number::<F>(size));
    divide(o, number::<F>(size));
    sum_splits(rs, size, 2 * size);
    sum_splits(shared, size, 2 * size);
    sum_of_prefix(rs, blue, size);
    sum_of_prefix(shared, shared.take(size), size);
    let total = plus(b, o);
    assert(running_sum(rs, 2 * size) == total);
    // (b - opp * o) + (o - opp * b) == (b + o) - opp * (b + o)
    minus_is_plus(b, times(opp, o));
    minus_is_plus(o, times(opp, b));
    add_swap(b, opposite(times(opp, o)), o, opposite(times(opp, b)));
    opposite_sum(times(opp, o), times(opp, b));
    distribute(opp, o, b);
    add_comm(o, b);
    minus_is_plus(total, times(opp, total));
    assert(running_sum(shared, 2 * size) == minus(total, times(opp, total)));
    // (1 - opp) * total == total - opp * total
    distribute_minus(total, one, opp);
    mul_comm(total, minus(one, opp));
    mul_one(total);
    mul_comm(total, opp);
    if opp == one {
        minus_is_plus(one, one);
        add_opposite(one);
        mul_zero(total);
    }
}

} // verus!
