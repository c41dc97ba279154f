//! How large single payments are, and which of them cancel out.

use crate::exact::{
    add_opposite, clamp_bounds, clamp_opposite, exact, inverse_is_positive, minus_is_plus,
    minus_one, minus_turned, mul_comm, mul_opposite, mul_zero, numbers_ascend, opposite_facts,
    order_chain, order_facts, order_opposite, order_scale, order_shift, over_is_times,
    over_opposite, sorted, within, within_scaled,
};
use crate::reward::account::{booked, law_aerial_term, law_boost_terms, AgentStep};
use crate::reward::balance::law_split_climbs_pay_the_same;
use crate::reward::config::RewardConfig;
use crate::reward::shaping::{inner, vec_between};
use crate::reward::terms::{
    aerial_amount, aim, boost_postings, climb, forward_share, length, N_TERMS, T_AERIAL_TOUCH,
    T_BOOST_GAINED, T_BOOST_PICKUP,
};
use crate::scalar::{
    gt, larger, le, lt, minus, num, opposite, over, plus, same, times, value_of, widened, Scalar,
};
use crate::sim::{Team, Vec3};
use vstd::prelude::*;

verus! {

/// The vector that points the other way.
pub open spec fn turned<F: Scalar>(v: Vec3<F>) -> Vec3<F> {
    Vec3 { x: opposite(v.x), y: opposite(v.y), z: opposite(v.z) }
}

proof fn lemma_signs_cancel<F: Scalar>(a: F, b: F)
    requires
        exact::<F>(),
    ensures
        times(opposite(a), opposite(b)) == times(a, b),
{
    mul_opposite(opposite(a), b);
    mul_comm(opposite(a), b);
    mul_opposite(b, a);
    mul_comm(b, a);
    opposite_facts(times(a, b));
}

proof fn lemma_inner_turned<F: Scalar>(a: Vec3<F>, b: Vec3<F>)
    requires
        exact::<F>(),
    ensures
        inner(turned(a), turned(b)) == inner(a, b),
{
    lemma_signs_cancel(a.x, b.x);
    lemma_signs_cancel(a.y, b.y);
    lemma_signs_cancel(a.z, b.z);
}

proof fn lemma_aim_turned<F: Scalar, S: Fn(F) -> F>(dv: Vec3<F>, d: Vec3<F>, sqrt: S)
    requires
        exact::<F>(),
    ensures
        aim(turned(dv), turned(d), sqrt) == aim(dv, d, sqrt),
{
    lemma_inner_turned(dv, d);
    lemma_inner_turned(dv, dv);
    lemma_inner_turned(d, d);
}

proof fn lemma_unit_limits<F: Scalar>()
    requires
        exact::<F>(),
        sorted::<F>(),
    ensures
        num::<F>(-1) == opposite(num::<F>(1)),
        le(num::<F>(0), num::<F>(1)),
        le(opposite(num::<F>(1)), num::<F>(1)),
        lt(opposite(num::<F>(1)), num::<F>(0)),
        num::<F>(2300) != num::<F>(0),
{
    let (zero, one) = (num::<F>(0), num::<F>(1));
    minus_one::<F>();
    order_facts(zero, one);
    order_opposite(zero, one);
    opposite_facts(one);
    order_facts(opposite(one), one);
    order_chain(opposite(one), zero, one);
    numbers_ascend::<F>(0, 2300);
    order_facts(zero, num::<F>(2300));
}

proof fn lemma_forward_turned<F: Scalar>(team: Team, dv: Vec3<F>)
    requires
        exact::<F>(),
        sorted::<F>(),
    ensures
        forward_share(team, turned(dv)) == opposite(forward_share(team, dv)),
{
    lemma_unit_limits::<F>();
    let side = match team {
        Team::Blue => num::<F>(1),
        Team::Orange => num::<F>(-1),
    };
    let n = num::<F>(2300);
    mul_opposite(side, dv.y);
    over_opposite(times(side, dv.y), n);
    clamp_opposite(over(times(side, dv.y), n), num::<F>(1));
}

/// A touch with the opposite impulse, on the opposite side of the car, pays the
/// opposite.
pub proof fn law_turned_touches_pay_the_opposite<F: Scalar, S: Fn(F) -> F>(
    team: Team,
    dv: Vec3<F>,
    d: Vec3<F>,
    z: F,
    cfg: RewardConfig<F>,
    sqrt: S,
)
    requires
        exact::<F>(),
        sorted::<F>(),
    ensures
        aerial_amount(team, turned(dv), turned(d), z, cfg, sqrt) == opposite(
            aerial_amount(team, dv, d, z, cfg, sqrt),
        ),
{
    lemma_forward_turned(team, dv);
    lemma_aim_turned(dv, d, sqrt);
    let w = times(cfg.aerial_touch, cfg.height_ramp_at(z));
    let f = forward_share(team, dv);
    let m = aim(dv, d, sqrt);
    mul_opposite(w, f);
    mul_comm(opposite(times(w, f)), m);
    mul_opposite(m, times(w, f));
    mul_comm(m, times(w, f));
}

/// A closed cycle of the ball's velocity pays nothing: two touches in the air, one
/// of which undoes the other's change of velocity, at the same height and with
/// opposite offsets of the ball from the car.
pub proof fn law_closed_velocity_cycles_pay_nothing<F: Scalar, S: Fn(F) -> F>(
    team: Team,
    v: Vec3<F>,
    w: Vec3<F>,
    d: Vec3<F>,
    z: F,
    cfg: RewardConfig<F>,
    sqrt: S,
)
    requires
        exact::<F>(),
        sorted::<F>(),
    ensures
        plus(
            aerial_amount(team, vec_between(v, w), d, z, cfg, sqrt),
            aerial_amount(team, vec_between(w, v), turned(d), z, cfg, sqrt),
        ) == num::<F>(0),
{
    minus_turned(v.x, w.x);
    minus_turned(v.y, w.y);
    minus_turned(v.z, w.z);
    let dv = vec_between(v, w);
    assert(vec_between(w, v) == turned(dv));
    law_turned_touches_pay_the_opposite(team, dv, d, z, cfg, sqrt);
    add_opposite(aerial_amount(team, dv, d, z, cfg, sqrt));
}

proof fn lemma_share_within<F: Scalar>(x: F)
    requires
        exact::<F>(),
        sorted::<F>(),
        le(num::<F>(0), x),
        le(x, num::<F>(1)),
    ensures
        within(x, num::<F>(1)),
{
    let (zero, one) = (num::<F>(0), num::<F>(1));
    lemma_unit_limits::<F>();
    order_facts(zero, x);
    order_facts(opposite(one), x);
    order_facts(opposite(one), zero);
    order_chain(opposite(one), zero, x);
}

/// A touch in the air pays at most the weight, one way or the other.
pub proof fn law_aerial_payments_are_bounded<F: Scalar, S: Fn(F) -> F>(
    team: Team,
    dv: Vec3<F>,
    d: Vec3<F>,
    z: F,
    cfg: RewardConfig<F>,
    sqrt: S,
)
    requires
        exact::<F>(),
        sorted::<F>(),
        lt(num::<F>(0), cfg.aerial_touch),
    ensures
        le(opposite(cfg.aerial_touch), aerial_amount(team, dv, d, z, cfg, sqrt)),
        le(aerial_amount(team, dv, d, z, cfg, sqrt), cfg.aerial_touch),
{
    let (zero, one) = (num::<F>(0), num::<F>(1));
    let w = cfg.aerial_touch;
    lemma_unit_limits::<F>();
    let rise = over(minus(z, cfg.aerial_z_lo), minus(cfg.aerial_z_hi, cfg.aerial_z_lo));
    let h = cfg.height_ramp_at(z);
    clamp_bounds(rise, zero, one);
    lemma_share_within(h);
    let side = match team {
        Team::Blue => one,
        Team::Orange => num::<F>(-1),
    };
    let f = forward_share(team, dv);
    clamp_bounds(over(times(side, dv.y), num::<F>(2300)), opposite(one), one);
    let m = aim(dv, d, sqrt);
    clamp_bounds(
        over(over(inner(dv, d), length(dv, sqrt)), length(d, sqrt)),
        zero,
        one,
    );
    lemma_share_within(m);
    order_facts(zero, w);
    order_facts(w, w);
    order_opposite(zero, w);
    opposite_facts(w);
    order_facts(opposite(w), w);
    order_chain(opposite(w), zero, w);
    within_scaled(w, w, h);
    within_scaled(times(w, h), w, f);
    within_scaled(times(times(w, h), f), w, m);
}

/// A touch in the air pays nothing where the ball's velocity along the field did
/// not change, and nothing below the ramp.
pub proof fn law_some_touches_pay_nothing<F: Scalar, S: Fn(F) -> F>(
    team: Team,
    dv: Vec3<F>,
    d: Vec3<F>,
    z: F,
    cfg: RewardConfig<F>,
    sqrt: S,
)
    requires
        exact::<F>(),
        sorted::<F>(),
        dv.y == num::<F>(0) || (le(z, cfg.aerial_z_lo) && lt(cfg.aerial_z_lo, cfg.aerial_z_hi)),
    ensures
        aerial_amount(team, dv, d, z, cfg, sqrt) == num::<F>(0),
{
    let zero = num::<F>(0);
    let w = cfg.aerial_touch;
    let h = cfg.height_ramp_at(z);
    let f = forward_share(team, dv);
    let m = aim(dv, d, sqrt);
    lemma_unit_limits::<F>();
    mul_zero(m);
    if dv.y == zero {
        let side = match team {
            Team::Blue => num::<F>(1),
            Team::Orange => num::<F>(-1),
        };
        let n = num::<F>(2300);
        mul_zero(side);
        over_is_times(zero, n);
        mul_zero(over(num::<F>(1), n));
        order_facts(zero, num::<F>(-1));
        order_facts(zero, num::<F>(1));
        assert(f == zero);
        mul_zero(times(w, h));
    } else {
        let (lo, hi) = (cfg.aerial_z_lo, cfg.aerial_z_hi);
        let span = minus(hi, lo);
        minus_is_plus(hi, lo);
        minus_is_plus(z, lo);
        order_shift(lo, hi, opposite(lo));
        order_shift(z, lo, opposite(lo));
        add_opposite(lo);
        let inv = over(num::<F>(1), span);
        let rise = minus(z, lo);
        inverse_is_positive(span);
        order_facts(zero, span);
        over_is_times(rise, span);
        order_facts(z, lo);
        order_facts(rise, zero);
        order_scale(rise, zero, inv);
        mul_zero(inv);
        let q = over(rise, span);
        order_facts(q, zero);
        order_facts(q, num::<F>(1));
        order_facts(zero, num::<F>(1));
        assert(h == zero);
        mul_zero(w);
        mul_zero(f);
    }
}

/// A touch in the air that is paid adds its amount to its term; a car that is on
/// the ground or did not touch the ball leaves the term as it is.
pub proof fn law_aerial_term_grows_by_the_amount<F: Scalar, G: Scalar + From<F>, S: Fn(F) -> F>(
    s: AgentStep<F>,
    terms: Seq<G>,
    sqrt: S,
)
    requires
        terms.len() == N_TERMS,
    ensures
        s.terms_after(terms, sqrt)[T_AERIAL_TOUCH as int] == if same(
            s.cfg.aerial_touch,
            num::<F>(0),
        ) || !s.hit() || s.me().is_on_ground || !s.paid() {
            terms[T_AERIAL_TOUCH as int]
        } else {
            plus(
                terms[T_AERIAL_TOUCH as int],
                widened::<F, G>(
                    aerial_amount(
                        s.team(),
                        vec_between(s.prev.ball.vel, s.cur.ball.vel),
                        vec_between(s.me().pos, s.cur.ball.pos),
                        s.cur.ball.pos.z,
                        s.cfg,
                        sqrt,
                    ),
                ),
            )
        },
{
    law_aerial_term(s, terms, sqrt);
    let ps = s.aerial(sqrt);
    if ps.len() > 0 {
        assert(ps.drop_last() =~= Seq::empty());
    }
    reveal_with_fuel(booked, 2);
}

/// Boost that was collected is tallied as it is and paid by what it is worth.
/// Spending boost changes neither term, and neither does coming back after a
/// demolition.
pub proof fn law_boost_terms_grow_by_the_climb<F: Scalar, G: Scalar + From<F>, S: Fn(F) -> F>(
    s: AgentStep<F>,
    terms: Seq<G>,
    sqrt: S,
)
    requires
        terms.len() == N_TERMS,
    ensures
        ({
            let after = s.terms_after(terms, sqrt);
            let gained = minus(s.me().boost, s.was().boost);
            let worth = climb(s.was().boost, s.me().boost, sqrt);
            let tallied = !s.was().is_demoed && gt(gained, num::<F>(0));
            let paid = tallied && !same(s.cfg.boost_pickup, num::<F>(0)) && gt(
                worth,
                num::<F>(0),
            );
            &&& after[T_BOOST_GAINED as int] == if tallied {
                plus(terms[T_BOOST_GAINED as int], widened::<F, G>(gained))
            } else {
                terms[T_BOOST_GAINED as int]
            }
            &&& after[T_BOOST_PICKUP as int] == if paid {
                plus(
                    terms[T_BOOST_PICKUP as int],
                    widened::<F, G>(times(s.cfg.boost_pickup, worth)),
                )
            } else {
                terms[T_BOOST_PICKUP as int]
            }
        }),
{
    law_boost_terms(s, terms, sqrt);
    let ps = boost_postings(s.was(), s.me(), s.cfg, sqrt);
    if ps.len() > 0 {
        assert(ps.take(1).drop_last() =~= Seq::empty());
        if ps.len() == 1 {
            assert(ps.drop_last() =~= Seq::empty());
        } else {
            assert(ps.drop_last() =~= ps.take(1));
        }
    }
    reveal_with_fuel(booked, 3);
}

/// What a rise of the boost from `low` to `high` pays.
pub open spec fn boost_pay<F: Scalar, S: Fn(F) -> F>(w: F, low: F, high: F, sqrt: S) -> F {
    let zero = num::<F>(0);
    let worth = climb(low, high, sqrt);
    if !gt(minus(high, low), zero) || same(w, zero) || !gt(worth, zero) {
        zero
    } else {
        times(w, worth)
    }
}

/// A function that rises with its argument.
pub open spec fn rising<F: Scalar, S: Fn(F) -> F>(f: S) -> bool {
    forall|a: F, b: F|
        #![trigger value_of(f, a), value_of(f, b)]
        le(a, b) ==> le(value_of(f, a), value_of(f, b))
}

proof fn lemma_boost_pay<F: Scalar, S: Fn(F) -> F>(w: F, low: F, high: F, sqrt: S)
    requires
        exact::<F>(),
        sorted::<F>(),
        rising(sqrt),
        le(low, high),
    ensures
        boost_pay(w, low, high, sqrt) == times(w, climb(low, high, sqrt)),
{
    let zero = num::<F>(0);
    let ten = num::<F>(10);
    let (p, q) = (larger(low, zero), larger(high, zero));
    let (a, b) = (value_of(sqrt, p), value_of(sqrt, q));
    let worth = climb(low, high, sqrt);
    numbers_ascend::<F>(0, 10);
    order_facts(zero, ten);
    order_facts(zero, zero);
    order_facts(low, high);
    order_facts(low, zero);
    order_facts(high, zero);
    order_facts(p, q);
    order_facts(zero, q);
    order_chain(low, high, zero);
    order_chain(zero, low, high);
    assert(le(p, q));
    assert(le(a, b));
    order_facts(a, b);
    minus_is_plus(b, a);
    order_shift(a, b, opposite(a));
    add_opposite(a);
    over_is_times(minus(b, a), ten);
    inverse_is_positive(ten);
    order_scale(zero, minus(b, a), over(num::<F>(1), ten));
    mul_zero(over(num::<F>(1), ten));
    order_facts(zero, minus(b, a));
    order_facts(zero, worth);
    order_facts(worth, zero);
    mul_zero(w);
    mul_zero(worth);
    order_facts(w, zero);
    minus_is_plus(high, low);
    order_shift(low, high, opposite(low));
    add_opposite(low);
    order_facts(minus(high, low), zero);
    if low == high {
        assert(worth == zero);
    }
}

/// A rise of the boost pays the same however it is split: the weight times what
/// the whole rise is worth.
pub proof fn law_rises_pay_what_they_are_worth<F: Scalar, S: Fn(F) -> F>(
    w: F,
    low: F,
    middle: F,
    high: F,
    sqrt: S,
)
    requires
        exact::<F>(),
        sorted::<F>(),
        rising(sqrt),
        le(low, middle),
        le(middle, high),
    ensures
        plus(boost_pay(w, low, middle, sqrt), boost_pay(w, middle, high, sqrt)) == boost_pay(
            w,
            low,
            high,
            sqrt,
        ),
        boost_pay(w, low, high, sqrt) == times(w, climb(low, high, sqrt)),
{
    order_chain(low, middle, high);
    lemma_boost_pay(w, low, middle, sqrt);
    lemma_boost_pay(w, middle, high, sqrt);
    lemma_boost_pay(w, low, high, sqrt);
    numbers_ascend::<F>(0, 10);
    order_facts(num::<F>(0), num::<F>(10));
    law_split_climbs_pay_the_same(w, low, middle, high, sqrt);
}

} // verus!
