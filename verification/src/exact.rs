//! Scalars whose operators round nothing.
//!
//! Some properties hold of the environment up to rounding only. They are stated
//! for scalars that have none: those whose operators are the operators of a
//! field. Properties of size are stated for those of them that are ordered as
//! numbers are.

use crate::sampler::running_sum;
use crate::scalar::{
    clamped, ge, gt, le, lt, minus, num, number, opposite, over, plus, same, times, Scalar,
};
use vstd::prelude::*;

verus! {

/// The operators of `F` are the operators of a field, and its integer constants
/// are sums of ones.
#[verifier::opaque]
pub open spec fn exact<F: Scalar>() -> bool {
    &&& forall|a: F, b: F| #[trigger] plus(a, b) == plus(b, a)
    &&& forall|a: F, b: F, c: F| #[trigger] plus(plus(a, b), c) == plus(a, plus(b, c))
    &&& forall|a: F| #[trigger] plus(a, num::<F>(0)) == a
    &&& forall|a: F| plus(a, #[trigger] opposite(a)) == num::<F>(0)
    &&& forall|a: F, b: F| #[trigger] minus(a, b) == plus(a, opposite(b))
    &&& forall|a: F, b: F| #[trigger] times(a, b) == times(b, a)
    &&& forall|a: F, b: F, c: F| #[trigger] times(times(a, b), c) == times(a, times(b, c))
    &&& forall|a: F| #[trigger] times(a, num::<F>(1)) == a
    &&& forall|a: F, b: F, c: F| #[trigger]
        times(a, plus(b, c)) == plus(times(a, b), times(a, c))
    &&& forall|a: F, b: F| b != num::<F>(0) ==> times(#[trigger] over(a, b), b) == a
    &&& forall|k: int| -16384 <= k < 16384 ==> #[trigger] num::<F>(k + 1) == plus(
        num::<F>(k),
        num::<F>(1),
    )
}

pub proof fn add_comm<F: Scalar>(a: F, b: F)
    requires
        exact::<F>(),
    ensures
        plus(a, b) == plus(b, a),
{
    reveal(exact);
}

pub proof fn add_assoc<F: Scalar>(a: F, b: F, c: F)
    requires
        exact::<F>(),
    ensures
        plus(plus(a, b), c) == plus(a, plus(b, c)),
{
    reveal(exact);
}

pub proof fn add_zero<F: Scalar>(a: F)
    requires
        exact::<F>(),
    ensures
        plus(a, num::<F>(0)) == a,
        plus(num::<F>(0), a) == a,
{
    reveal(exact);
    add_comm(a, num::<F>(0));
}

pub proof fn add_opposite<F: Scalar>(a: F)
    requires
        exact::<F>(),
    ensures
        plus(a, opposite(a)) == num::<F>(0),
        plus(opposite(a), a) == num::<F>(0),
{
    reveal(exact);
    add_comm(a, opposite(a));
}

pub proof fn minus_is_plus<F: Scalar>(a: F, b: F)
    requires
        exact::<F>(),
    ensures
        minus(a, b) == plus(a, opposite(b)),
{
    reveal(exact);
}

pub proof fn mul_comm<F: Scalar>(a: F, b: F)
    requires
        exact::<F>(),
    ensures
        times(a, b) == times(b, a),
{
    reveal(exact);
}

pub proof fn mul_assoc<F: Scalar>(a: F, b: F, c: F)
    requires
        exact::<F>(),
    ensures
        times(times(a, b), c) == times(a, times(b, c)),
{
    reveal(exact);
}

pub proof fn mul_one<F: Scalar>(a: F)
    requires
        exact::<F>(),
    ensures
        times(a, num::<F>(1)) == a,
        times(num::<F>(1), a) == a,
{
    reveal(exact);
    mul_comm(a, num::<F>(1));
}

pub proof fn distribute<F: Scalar>(a: F, b: F, c: F)
    requires
        exact::<F>(),
    ensures
        times(a, plus(b, c)) == plus(times(a, b), times(a, c)),
        times(plus(b, c), a) == plus(times(b, a), times(c, a)),
{
    reveal(exact);
    mul_comm(a, plus(b, c));
    mul_comm(a, b);
    mul_comm(a, c);
}

pub proof fn divide<F: Scalar>(a: F, b: F)
    requires
        exact::<F>(),
        b != num::<F>(0),
    ensures
        times(over(a, b), b) == a,
{
    reveal(exact);
}

pub proof fn next_number<F: Scalar>(k: int)
    requires
        exact::<F>(),
        -16384 <= k < 16384,
    ensures
        num::<F>(k + 1) == plus(num::<F>(k), num::<F>(1)),
{
    reveal(exact);
}

/// `(a + b) + (c + d) == (a + c) + (b + d)`.
pub proof fn add_swap<F: Scalar>(a: F, b: F, c: F, d: F)
    requires
        exact::<F>(),
    ensures
        plus(plus(a, b), plus(c, d)) == plus(plus(a, c), plus(b, d)),
{
    add_assoc(a, b, plus(c, d));
    add_assoc(b, c, d);
    add_comm(b, c);
    add_assoc(c, b, d);
    add_assoc(a, c, plus(b, d));
}

/// Equal sums with an equal part have equal other parts.
pub proof fn add_cancel<F: Scalar>(a: F, b: F, c: F)
    requires
        exact::<F>(),
        plus(a, b) == plus(a, c),
    ensures
        b == c,
{
    add_opposite(a);
    add_assoc(opposite(a), a, b);
    add_assoc(opposite(a), a, c);
    add_zero(b);
    add_zero(c);
}

/// What adds up to zero is opposite.
pub proof fn opposite_unique<F: Scalar>(a: F, b: F)
    requires
        exact::<F>(),
        plus(a, b) == num::<F>(0),
    ensures
        b == opposite(a),
{
    add_opposite(a);
    add_cancel(a, b, opposite(a));
}

/// Nothing times anything is nothing.
pub proof fn mul_zero<F: Scalar>(a: F)
    requires
        exact::<F>(),
    ensures
        times(a, num::<F>(0)) == num::<F>(0),
        times(num::<F>(0), a) == num::<F>(0),
{
    let z = num::<F>(0);
    add_zero(z);
    distribute(a, z, z);
    add_zero(times(a, z));
    add_cancel(times(a, z), times(a, z), z);
    mul_comm(a, z);
}

/// A factor's opposite gives the product's opposite.
pub proof fn mul_opposite<F: Scalar>(a: F, b: F)
    requires
        exact::<F>(),
    ensures
        times(a, opposite(b)) == opposite(times(a, b)),
{
    distribute(a, b, opposite(b));
    add_opposite(b);
    mul_zero(a);
    opposite_unique(times(a, b), times(a, opposite(b)));
}

/// The opposite of a sum is the sum of the opposites.
pub proof fn opposite_sum<F: Scalar>(a: F, b: F)
    requires
        exact::<F>(),
    ensures
        opposite(plus(a, b)) == plus(opposite(a), opposite(b)),
{
    add_swap(a, b, opposite(a), opposite(b));
    add_opposite(a);
    add_opposite(b);
    add_zero(num::<F>(0));
    opposite_unique(plus(a, b), plus(opposite(a), opposite(b)));
}

/// The opposite of zero is zero, and taking the opposite twice changes nothing.
pub proof fn opposite_facts<F: Scalar>(a: F)
    requires
        exact::<F>(),
    ensures
        opposite(num::<F>(0)) == num::<F>(0),
        opposite(opposite(a)) == a,
{
    let z = num::<F>(0);
    add_zero(z);
    opposite_unique(z, z);
    add_opposite(a);
    opposite_unique(opposite(a), a);
}

/// A difference of opposites is the opposite of the difference.
pub proof fn minus_opposites<F: Scalar>(a: F, b: F)
    requires
        exact::<F>(),
    ensures
        minus(opposite(a), opposite(b)) == opposite(minus(a, b)),
{
    minus_is_plus(opposite(a), opposite(b));
    minus_is_plus(a, b);
    opposite_sum(a, opposite(b));
}

/// A factor spreads over a difference.
pub proof fn distribute_minus<F: Scalar>(a: F, b: F, c: F)
    requires
        exact::<F>(),
    ensures
        times(a, minus(b, c)) == minus(times(a, b), times(a, c)),
{
    minus_is_plus(b, c);
    distribute(a, b, opposite(c));
    mul_opposite(a, c);
    minus_is_plus(times(a, b), times(a, c));
}

/// `(b - a) + (c - b) == c - a`.
pub proof fn minus_chain<F: Scalar>(a: F, b: F, c: F)
    requires
        exact::<F>(),
    ensures
        plus(minus(b, a), minus(c, b)) == minus(c, a),
{
    minus_is_plus(b, a);
    minus_is_plus(c, b);
    minus_is_plus(c, a);
    add_comm(b, opposite(a));
    add_comm(c, opposite(b));
    add_assoc(opposite(a), b, plus(opposite(b), c));
    add_assoc(b, opposite(b), c);
    add_opposite(b);
    add_zero(c);
    add_comm(opposite(a), c);
}

/// Equal products with an equal factor other than zero have equal other factors.
pub proof fn mul_cancel<F: Scalar>(a: F, b: F, c: F)
    requires
        exact::<F>(),
        a != num::<F>(0),
        times(b, a) == times(c, a),
    ensures
        b == c,
{
    let inv = over(num::<F>(1), a);
    divide(num::<F>(1), a);
    mul_comm(inv, a);
    mul_assoc(b, a, inv);
    mul_assoc(c, a, inv);
    mul_one(b);
    mul_one(c);
}

/// Whole numbers are sums of ones, however large.
pub proof fn number_steps<F: Scalar>(n: int)
    requires
        exact::<F>(),
        0 <= n,
    ensures
        number::<F>(n + 1) == plus(number::<F>(n), num::<F>(1)),
    decreases n,
{
    let base = num::<F>(16384);
    let q = n / 16384;
    let r = n % 16384;
    if n + 1 < 16384 {
        next_number::<F>(n);
    } else if n < 16384 {
        assert(n == 16383);
        next_number::<F>(n);
        assert(number::<F>(16384) == plus(times(number::<F>(1), base), num::<F>(0)));
        add_zero(times(number::<F>(1), base));
        mul_one(base);
    } else if r + 1 < 16384 {
        assert((n + 1) / 16384 == q && (n + 1) % 16384 == r + 1);
        next_number::<F>(r);
        add_assoc(times(number::<F>(q), base), num::<F>(r), num::<F>(1));
    } else {
        assert((n + 1) / 16384 == q + 1 && (n + 1) % 16384 == 0);
        number_steps::<F>(q);
        next_number::<F>(r);
        distribute(base, number::<F>(q), num::<F>(1));
        mul_one(base);
        add_zero(times(number::<F>(q + 1), base));
        add_assoc(times(number::<F>(q), base), num::<F>(r), num::<F>(1));
    }
}

/// The running sum of the first part of two runs is that of the first run.
pub proof fn sum_of_prefix<F: Scalar>(xs: Seq<F>, ys: Seq<F>, n: int)
    requires
        n <= xs.len(),
        n <= ys.len(),
        forall|i: int| 0 <= i < n ==> xs[i] == ys[i],
    ensures
        running_sum(xs, n) == running_sum(ys, n),
    decreases n,
{
    if n > 0 {
        sum_of_prefix(xs, ys, n - 1);
    }
}

/// A sum splits at any place.
pub proof fn sum_splits<F: Scalar>(xs: Seq<F>, at: int, n: int)
    requires
        exact::<F>(),
        0 <= at <= n <= xs.len(),
    ensures
        running_sum(xs, n) == plus(running_sum(xs, at), running_sum(xs.skip(at), n - at)),
    decreases n,
{
    if n == at {
        add_zero(running_sum(xs, at));
    } else {
        sum_splits(xs, at, n - 1);
        assert(xs.skip(at)[n - 1 - at] == xs[n - 1]);
        add_assoc(running_sum(xs, at), running_sum(xs.skip(at), n - 1 - at), xs[n - 1]);
    }
}

/// The sum of a run of which each element was scaled and shifted.
pub proof fn sum_of_scaled<F: Scalar>(xs: Seq<F>, ys: Seq<F>, a: F, c: F, n: int)
    requires
        exact::<F>(),
        0 <= n <= xs.len(),
        n <= ys.len(),
        forall|i: int| 0 <= i < n ==> ys[i] == plus(times(a, xs[i]), c),
    ensures
        running_sum(ys, n) == plus(times(a, running_sum(xs, n)), times(number::<F>(n), c)),
    decreases n,
{
    if n == 0 {
        mul_zero(a);
        mul_zero(c);
        add_zero(num::<F>(0));
    } else {
        sum_of_scaled(xs, ys, a, c, n - 1);
        let s = running_sum(xs, n - 1);
        add_swap(times(a, s), times(number::<F>(n - 1), c), times(a, xs[n - 1]), c);
        distribute(a, s, xs[n - 1]);
        number_steps::<F>(n - 1);
        distribute(c, number::<F>(n - 1), num::<F>(1));
        mul_one(c);
    }
}

/// Numbers add up as whole numbers do.
pub proof fn number_sum<F: Scalar>(m: int, n: int)
    requires
        exact::<F>(),
        0 <= m,
        0 <= n,
    ensures
        number::<F>(m + n) == plus(number::<F>(m), number::<F>(n)),
    decreases n,
{
    if n == 0 {
        add_zero(number::<F>(m));
    } else {
        number_sum::<F>(m, n - 1);
        number_steps::<F>(m + n - 1);
        number_steps::<F>(n - 1);
        add_assoc(number::<F>(m), number::<F>(n - 1), num::<F>(1));
    }
}

/// The comparisons of `F` are those of an ordered field, as the comparisons of the
/// rational numbers are.
#[verifier::opaque]
pub open spec fn sorted<F: Scalar>() -> bool {
    &&& forall|a: F, b: F| #[trigger] gt(a, b) == lt(b, a)
    &&& forall|a: F, b: F| #[trigger] le(a, b) == (lt(a, b) || a == b)
    &&& forall|a: F, b: F| #[trigger] ge(a, b) == (lt(b, a) || a == b)
    &&& forall|a: F, b: F| #[trigger] same(a, b) == (a == b)
    &&& forall|a: F, b: F| #[trigger] lt(a, b) || a == b || lt(b, a)
    &&& forall|a: F, b: F| #[trigger] lt(a, b) ==> !lt(b, a)
    &&& forall|a: F, b: F, c: F| #[trigger] lt(a, b) && #[trigger] lt(b, c) ==> lt(a, c)
    &&& forall|a: F, b: F, c: F| #[trigger] lt(plus(a, c), plus(b, c)) == lt(a, b)
    &&& forall|a: F, b: F, c: F|
        lt(a, b) && lt(num::<F>(0), c) ==> #[trigger] lt(times(a, c), times(b, c))
    &&& lt(num::<F>(0), num::<F>(1))
}

/// How the comparisons of two numbers hang together.
pub proof fn order_facts<F: Scalar>(a: F, b: F)
    requires
        sorted::<F>(),
    ensures
        gt(a, b) == lt(b, a),
        le(a, b) == (lt(a, b) || a == b),
        ge(a, b) == (lt(b, a) || a == b),
        same(a, b) == (a == b),
        lt(a, b) || a == b || lt(b, a),
        lt(a, b) ==> !lt(b, a),
        !lt(a, a),
        lt(num::<F>(0), num::<F>(1)),
{
    reveal(sorted);
    assert(lt(a, a) ==> !lt(a, a));
}

pub proof fn order_chain<F: Scalar>(a: F, b: F, c: F)
    requires
        sorted::<F>(),
    ensures
        lt(a, b) && lt(b, c) ==> lt(a, c),
        le(a, b) && lt(b, c) ==> lt(a, c),
        lt(a, b) && le(b, c) ==> lt(a, c),
        le(a, b) && le(b, c) ==> le(a, c),
{
    reveal(sorted);
}

pub proof fn order_shift<F: Scalar>(a: F, b: F, c: F)
    requires
        sorted::<F>(),
    ensures
        lt(plus(a, c), plus(b, c)) == lt(a, b),
{
    reveal(sorted);
}

/// A positive factor keeps the order.
pub proof fn order_scale<F: Scalar>(a: F, b: F, c: F)
    requires
        sorted::<F>(),
        lt(num::<F>(0), c),
    ensures
        lt(a, b) ==> lt(times(a, c), times(b, c)),
        le(a, b) ==> le(times(a, c), times(b, c)),
{
    reveal(sorted);
}

/// Opposites are ordered the other way round.
pub proof fn order_opposite<F: Scalar>(a: F, b: F)
    requires
        exact::<F>(),
        sorted::<F>(),
    ensures
        lt(a, b) == lt(opposite(b), opposite(a)),
{
    let s = plus(opposite(a), opposite(b));
    order_shift(a, b, s);
    add_assoc(a, opposite(a), opposite(b));
    add_opposite(a);
    add_zero(opposite(b));
    add_comm(opposite(a), opposite(b));
    add_assoc(b, opposite(b), opposite(a));
    add_opposite(b);
    add_zero(opposite(a));
}

/// The opposite of one is minus one.
pub proof fn minus_one<F: Scalar>()
    requires
        exact::<F>(),
    ensures
        num::<F>(-1) == opposite(num::<F>(1)),
{
    next_number::<F>(-1);
    add_comm(num::<F>(-1), num::<F>(1));
    opposite_unique(num::<F>(1), num::<F>(-1));
}

/// Larger constants are larger.
pub proof fn numbers_ascend<F: Scalar>(a: int, b: int)
    requires
        exact::<F>(),
        sorted::<F>(),
        0 <= a < b <= 16384,
    ensures
        lt(num::<F>(a), num::<F>(b)),
    decreases b,
{
    let c = num::<F>(b - 1);
    next_number::<F>(b - 1);
    order_facts(c, c);
    order_shift(num::<F>(0), num::<F>(1), c);
    add_zero(c);
    add_comm(num::<F>(1), c);
    if a < b - 1 {
        numbers_ascend::<F>(a, b - 1);
        order_chain(num::<F>(a), c, num::<F>(b));
    }
}

/// The inverse of a positive number is positive.
pub proof fn inverse_is_positive<F: Scalar>(a: F)
    requires
        exact::<F>(),
        sorted::<F>(),
        lt(num::<F>(0), a),
    ensures
        lt(num::<F>(0), over(num::<F>(1), a)),
{
    let zero = num::<F>(0);
    let inv = over(num::<F>(1), a);
    order_facts(zero, a);
    order_facts(zero, inv);
    order_facts(zero, num::<F>(1));
    divide(num::<F>(1), a);
    mul_zero(a);
    if lt(inv, zero) {
        order_scale(inv, zero, a);
    }
}

/// A clamped number lies between the limits.
pub proof fn clamp_bounds<F: Scalar>(x: F, lo: F, hi: F)
    requires
        sorted::<F>(),
        le(lo, hi),
    ensures
        le(lo, clamped(x, lo, hi)),
        le(clamped(x, lo, hi), hi),
{
    order_facts(x, lo);
    order_facts(lo, x);
    order_facts(x, hi);
    order_facts(lo, hi);
    order_facts(lo, lo);
    order_facts(hi, hi);
}

/// Clamping the opposite between opposite limits gives the opposite.
pub proof fn clamp_opposite<F: Scalar>(x: F, limit: F)
    requires
        exact::<F>(),
        sorted::<F>(),
        le(opposite(limit), limit),
    ensures
        clamped(opposite(x), opposite(limit), limit) == opposite(
            clamped(x, opposite(limit), limit),
        ),
{
    let lo = opposite(limit);
    opposite_facts(limit);
    opposite_facts(x);
    order_opposite(x, lo);
    order_opposite(limit, x);
    order_opposite(lo, x);
    order_opposite(x, limit);
    order_facts(x, lo);
    order_facts(x, limit);
    order_facts(opposite(x), lo);
    order_facts(opposite(x), limit);
    order_facts(lo, limit);
    order_chain(x, lo, limit);
    order_chain(lo, limit, x);
}

/// Dividing is multiplying by the inverse.
pub proof fn over_is_times<F: Scalar>(a: F, b: F)
    requires
        exact::<F>(),
        b != num::<F>(0),
    ensures
        over(a, b) == times(a, over(num::<F>(1), b)),
{
    let inv = over(num::<F>(1), b);
    divide(a, b);
    divide(num::<F>(1), b);
    mul_assoc(a, inv, b);
    mul_one(a);
    mul_cancel(b, over(a, b), times(a, inv));
}

/// Opposite numbers have opposite quotients.
pub proof fn over_opposite<F: Scalar>(a: F, b: F)
    requires
        exact::<F>(),
        b != num::<F>(0),
    ensures
        over(opposite(a), b) == opposite(over(a, b)),
{
    let inv = over(num::<F>(1), b);
    over_is_times(a, b);
    over_is_times(opposite(a), b);
    mul_comm(opposite(a), inv);
    mul_comm(a, inv);
    mul_opposite(inv, a);
}

/// A number between `-w` and `w`.
pub open spec fn within<F: Scalar>(x: F, w: F) -> bool {
    le(opposite(w), x) && le(x, w)
}

/// A factor between -1 and 1 keeps a number within its limits.
pub proof fn within_scaled<F: Scalar>(x: F, w: F, c: F)
    requires
        exact::<F>(),
        sorted::<F>(),
        le(num::<F>(0), w),
        within(x, w),
        within(c, num::<F>(1)),
    ensures
        within(times(x, c), w),
{
    let zero = num::<F>(0);
    let one = num::<F>(1);
    order_facts(zero, c);
    order_facts(zero, w);
    if c == zero {
        mul_zero(x);
        order_opposite(zero, w);
        opposite_facts(w);
        order_facts(opposite(w), zero);
        order_facts(zero, w);
    } else if lt(zero, c) {
        lemma_scaled_up(x, w, c);
    } else {
        let n = opposite(c);
        opposite_facts(c);
        opposite_facts(one);
        order_opposite(c, zero);
        order_facts(opposite(one), c);
        order_opposite(opposite(one), c);
        order_facts(n, one);
        lemma_scaled_up(x, w, n);
        mul_opposite(x, c);
        opposite_facts(times(x, c));
        let y = times(x, n);
        opposite_facts(w);
        order_opposite(opposite(w), y);
        order_opposite(y, w);
        order_facts(opposite(w), y);
        order_facts(y, w);
        order_facts(opposite(w), opposite(y));
        order_facts(opposite(y), w);
    }
}

proof fn lemma_scaled_up<F: Scalar>(x: F, w: F, c: F)
    requires
        exact::<F>(),
        sorted::<F>(),
        le(num::<F>(0), w),
        within(x, w),
        lt(num::<F>(0), c),
        le(c, num::<F>(1)),
    ensures
        within(times(x, c), w),
{
    let zero = num::<F>(0);
    let one = num::<F>(1);
    order_scale(x, w, c);
    order_scale(opposite(w), x, c);
    mul_comm(opposite(w), c);
    mul_opposite(c, w);
    mul_comm(c, w);
    let wc = times(w, c);
    order_facts(zero, w);
    order_facts(c, one);
    mul_one(w);
    mul_zero(c);
    if lt(zero, w) {
        order_scale(c, one, w);
    }
    order_facts(wc, w);
    order_chain(times(x, c), wc, w);
    order_opposite(wc, w);
    order_facts(opposite(w), opposite(wc));
    order_chain(opposite(w), opposite(wc), times(x, c));
}

/// The differences of two numbers, taken either way, are opposite.
pub proof fn minus_turned<F: Scalar>(a: F, b: F)
    requires
        exact::<F>(),
    ensures
        minus(a, b) == opposite(minus(b, a)),
{
    minus_is_plus(a, b);
    minus_is_plus(b, a);
    opposite_sum(b, opposite(a));
    opposite_facts(a);
    add_comm(opposite(b), a);
}

} // verus!
