//! Rotations by unit quaternions keep lengths and angles, for scalars that do
//! not round.

use crate::exact::{
    add_assoc, add_comm, add_opposite, add_swap, add_zero, distribute, distribute_minus, exact,
    minus_is_plus, mul_assoc, mul_comm, mul_one, mul_opposite, mul_zero, next_number,
    opposite_facts, opposite_sum,
};
use crate::reset_pool::{orientation, rotated};
use crate::reward::shaping::{cross, inner};
use crate::scalar::{minus, num, opposite, plus, times, Scalar};
use crate::sim::Vec3;
use vstd::prelude::*;

verus! {

/// The sum of two vectors.
pub open spec fn vec_sum<F: Scalar>(a: Vec3<F>, b: Vec3<F>) -> Vec3<F> {
    Vec3 { x: plus(a.x, b.x), y: plus(a.y, b.y), z: plus(a.z, b.z) }
}

/// A vector times a number.
pub open spec fn vec_times<F: Scalar>(k: F, a: Vec3<F>) -> Vec3<F> {
    Vec3 { x: times(k, a.x), y: times(k, a.y), z: times(k, a.z) }
}

/// `a * (b * c) == b * (a * c)`.
proof fn lemma_mul_swap<F: Scalar>(a: F, b: F, c: F)
    requires
        exact::<F>(),
    ensures
        times(a, times(b, c)) == times(b, times(a, c)),
{
    mul_assoc(a, b, c);
    mul_comm(a, b);
    mul_assoc(b, a, c);
}

/// `(a - b) + (c - d) == (a + c) - (b + d)`.
proof fn lemma_sum_of_differences<F: Scalar>(a: F, b: F, c: F, d: F)
    requires
        exact::<F>(),
    ensures
        plus(minus(a, b), minus(c, d)) == minus(plus(a, c), plus(b, d)),
{
    minus_is_plus(a, b);
    minus_is_plus(c, d);
    add_swap(a, opposite(b), c, opposite(d));
    opposite_sum(b, d);
    minus_is_plus(plus(a, c), plus(b, d));
}

/// `-(a - b) == b - a`.
proof fn lemma_opposite_difference<F: Scalar>(a: F, b: F)
    requires
        exact::<F>(),
    ensures
        opposite(minus(a, b)) == minus(b, a),
{
    minus_is_plus(a, b);
    minus_is_plus(b, a);
    opposite_sum(a, opposite(b));
    opposite_facts(b);
    add_comm(opposite(a), b);
}

/// `(q + x) - (q + y) == x - y`.
proof fn lemma_common_part<F: Scalar>(q: F, x: F, y: F)
    requires
        exact::<F>(),
    ensures
        minus(plus(q, x), plus(q, y)) == minus(x, y),
{
    lemma_sum_of_differences(q, q, x, y);
    minus_is_plus(q, q);
    add_opposite(q);
    add_zero(minus(x, y));
}

/// `(a - b) - (c - d) == (a + d) - (b + c)`.
proof fn lemma_difference_of_differences<F: Scalar>(a: F, b: F, c: F, d: F)
    requires
        exact::<F>(),
    ensures
        minus(minus(a, b), minus(c, d)) == minus(plus(a, d), plus(b, c)),
{
    minus_is_plus(minus(a, b), minus(c, d));
    lemma_opposite_difference(c, d);
    lemma_sum_of_differences(a, b, d, c);
}

proof fn lemma_inner_comm<F: Scalar>(a: Vec3<F>, b: Vec3<F>)
    requires
        exact::<F>(),
    ensures
        inner(a, b) == inner(b, a),
{
    mul_comm(a.x, b.x);
    mul_comm(a.y, b.y);
    mul_comm(a.z, b.z);
}

proof fn lemma_inner_sum<F: Scalar>(a: Vec3<F>, b: Vec3<F>, c: Vec3<F>)
    requires
        exact::<F>(),
    ensures
        inner(a, vec_sum(b, c)) == plus(inner(a, b), inner(a, c)),
{
    distribute(a.x, b.x, c.x);
    distribute(a.y, b.y, c.y);
    distribute(a.z, b.z, c.z);
    let (p1, p2, p3) = (times(a.x, b.x), times(a.y, b.y), times(a.z, b.z));
    let (q1, q2, q3) = (times(a.x, c.x), times(a.y, c.y), times(a.z, c.z));
    add_swap(p1, q1, p2, q2);
    add_swap(plus(p1, p2), plus(q1, q2), p3, q3);
}

proof fn lemma_inner_times<F: Scalar>(a: Vec3<F>, k: F, b: Vec3<F>)
    requires
        exact::<F>(),
    ensures
        inner(a, vec_times(k, b)) == times(k, inner(a, b)),
{
    lemma_mul_swap(a.x, k, b.x);
    lemma_mul_swap(a.y, k, b.y);
    lemma_mul_swap(a.z, k, b.z);
    let (p1, p2, p3) = (times(a.x, b.x), times(a.y, b.y), times(a.z, b.z));
    distribute(k, p1, p2);
    distribute(k, plus(p1, p2), p3);
}

/// `inner(a, b x c)` as three positive and three negative products.
proof fn lemma_triple_expanded<F: Scalar>(a: Vec3<F>, b: Vec3<F>, c: Vec3<F>)
    requires
        exact::<F>(),
    ensures
        inner(a, cross(b, c)) == minus(
            plus(
                plus(times(a.x, times(b.y, c.z)), times(a.y, times(b.z, c.x))),
                times(a.z, times(b.x, c.y)),
            ),
            plus(
                plus(times(a.x, times(b.z, c.y)), times(a.y, times(b.x, c.z))),
                times(a.z, times(b.y, c.x)),
            ),
        ),
{
    let (p1, p2) = (times(b.y, c.z), times(b.z, c.y));
    let (p3, p4) = (times(b.z, c.x), times(b.x, c.z));
    let (p5, p6) = (times(b.x, c.y), times(b.y, c.x));
    distribute_minus(a.x, p1, p2);
    distribute_minus(a.y, p3, p4);
    distribute_minus(a.z, p5, p6);
    lemma_sum_of_differences(times(a.x, p1), times(a.x, p2), times(a.y, p3), times(a.y, p4));
    lemma_sum_of_differences(
        plus(times(a.x, p1), times(a.y, p3)),
        plus(times(a.x, p2), times(a.y, p4)),
        times(a.z, p5),
        times(a.z, p6),
    );
}

/// `(a + b) + c == (c + a) + b`.
proof fn lemma_rotate_sum<F: Scalar>(a: F, b: F, c: F)
    requires
        exact::<F>(),
    ensures
        plus(plus(a, b), c) == plus(plus(c, a), b),
{
    add_comm(plus(a, b), c);
    add_assoc(c, a, b);
}

/// The triple product turns with its factors.
proof fn lemma_triple_turns<F: Scalar>(a: Vec3<F>, b: Vec3<F>, c: Vec3<F>)
    requires
        exact::<F>(),
    ensures
        inner(a, cross(b, c)) == inner(b, cross(c, a)),
{
    lemma_triple_expanded(a, b, c);
    lemma_triple_expanded(b, c, a);
    // a.x (b.y c.z) == b.y (c.z a.x), and so on
    lemma_mul_swap(a.x, b.y, c.z);
    mul_comm(a.x, c.z);
    lemma_mul_swap(a.y, b.z, c.x);
    mul_comm(a.y, c.x);
    lemma_mul_swap(a.z, b.x, c.y);
    mul_comm(a.z, c.y);
    lemma_mul_swap(a.x, b.z, c.y);
    mul_comm(a.x, c.y);
    lemma_mul_swap(a.y, b.x, c.z);
    mul_comm(a.y, c.z);
    lemma_mul_swap(a.z, b.y, c.x);
    mul_comm(a.z, c.x);
    let (p1, p2, p3) = (
        times(a.x, times(b.y, c.z)),
        times(a.y, times(b.z, c.x)),
        times(a.z, times(b.x, c.y)),
    );
    let (n1, n2, n3) = (
        times(a.x, times(b.z, c.y)),
        times(a.y, times(b.x, c.z)),
        times(a.z, times(b.y, c.x)),
    );
    lemma_rotate_sum(p1, p2, p3);
    // the negative products of the other side come as n2, n3, n1
    lemma_rotate_sum(n2, n3, n1);
}

proof fn lemma_cross_turned<F: Scalar>(a: Vec3<F>, b: Vec3<F>)
    requires
        exact::<F>(),
    ensures
        cross(b, a) == vec_times(opposite(num::<F>(1)), cross(a, b)),
{
    let c = cross(a, b);
    lemma_minus_one_times(c.x);
    lemma_minus_one_times(c.y);
    lemma_minus_one_times(c.z);
    mul_comm(a.y, b.z);
    mul_comm(a.z, b.y);
    mul_comm(a.z, b.x);
    mul_comm(a.x, b.z);
    mul_comm(a.x, b.y);
    mul_comm(a.y, b.x);
    lemma_opposite_difference(times(a.y, b.z), times(a.z, b.y));
    lemma_opposite_difference(times(a.z, b.x), times(a.x, b.z));
    lemma_opposite_difference(times(a.x, b.y), times(a.y, b.x));
}

proof fn lemma_minus_one_times<F: Scalar>(a: F)
    requires
        exact::<F>(),
    ensures
        times(opposite(num::<F>(1)), a) == opposite(a),
{
    mul_comm(opposite(num::<F>(1)), a);
    mul_opposite(a, num::<F>(1));
    mul_one(a);
}

/// Crossing with `u` is skew: `inner(a, u x b) == -inner(u x a, b)`.
proof fn lemma_skew<F: Scalar>(u: Vec3<F>, a: Vec3<F>, b: Vec3<F>)
    requires
        exact::<F>(),
    ensures
        inner(a, cross(u, b)) == opposite(inner(cross(u, a), b)),
{
    // inner(a, u x b) == inner(u, b x a) == inner(b, a x u), and a x u == -(u x a)
    lemma_triple_turns(a, u, b);
    lemma_triple_turns(u, b, a);
    lemma_cross_turned(u, a);
    lemma_inner_times(b, opposite(num::<F>(1)), cross(u, a));
    lemma_minus_one_times(inner(b, cross(u, a)));
    lemma_inner_comm(b, cross(u, a));
}

/// A cross product is perpendicular to its first factor.
proof fn lemma_perpendicular<F: Scalar>(u: Vec3<F>, b: Vec3<F>)
    requires
        exact::<F>(),
    ensures
        inner(u, cross(u, b)) == num::<F>(0),
{
    lemma_triple_expanded(u, u, b);
    lemma_mul_swap(u.x, u.y, b.z);
    lemma_mul_swap(u.y, u.z, b.x);
    lemma_mul_swap(u.z, u.x, b.y);
    let (p, q, r) = (
        times(u.x, times(u.y, b.z)),
        times(u.y, times(u.z, b.x)),
        times(u.z, times(u.x, b.y)),
    );
    // the negative products are r, p, q
    lemma_rotate_sum(p, q, r);
    let s = plus(plus(p, q), r);
    minus_is_plus(s, s);
    add_opposite(s);
}

/// One coordinate of `a x (b x c) == b (a . c) - c (a . b)`.
proof fn lemma_double_cross_coordinate<F: Scalar>(
    a1: F,
    a2: F,
    a3: F,
    b1: F,
    b2: F,
    b3: F,
    c1: F,
    c2: F,
    c3: F,
)
    requires
        exact::<F>(),
    ensures
        minus(
            times(a2, minus(times(b1, c2), times(b2, c1))),
            times(a3, minus(times(b3, c1), times(b1, c3))),
        ) == minus(
            times(plus(plus(times(a1, c1), times(a2, c2)), times(a3, c3)), b1),
            times(plus(plus(times(a1, b1), times(a2, b2)), times(a3, b3)), c1),
        ),
{
    let (p1, p2) = (times(a2, times(b1, c2)), times(a2, times(b2, c1)));
    let (p3, p4) = (times(a3, times(b3, c1)), times(a3, times(b1, c3)));
    distribute_minus(a2, times(b1, c2), times(b2, c1));
    distribute_minus(a3, times(b3, c1), times(b1, c3));
    lemma_difference_of_differences(p1, p2, p3, p4);
    // the right side: the products with a1 cancel
    let q = times(times(a1, c1), b1);
    distribute(b1, plus(times(a1, c1), times(a2, c2)), times(a3, c3));
    distribute(b1, times(a1, c1), times(a2, c2));
    distribute(c1, plus(times(a1, b1), times(a2, b2)), times(a3, b3));
    distribute(c1, times(a1, b1), times(a2, b2));
    lemma_factor_out(a1, c1, b1);
    lemma_factor_out(a1, b1, c1);
    mul_comm(c1, b1);
    lemma_factor_out(a2, c2, b1);
    mul_comm(c2, b1);
    lemma_factor_out(a3, c3, b1);
    mul_comm(c3, b1);
    lemma_factor_out(a2, b2, c1);
    lemma_factor_out(a3, b3, c1);
    add_assoc(q, p1, p4);
    add_assoc(q, p2, p3);
    lemma_common_part(q, plus(p1, p4), plus(p2, p3));
}

/// `(a * c) * b == a * (c * b)`.
proof fn lemma_factor_out<F: Scalar>(a: F, c: F, b: F)
    requires
        exact::<F>(),
    ensures
        times(times(a, c), b) == times(a, times(c, b)),
{
    mul_assoc(a, c, b);
}

/// `inner(t, u x (u x s)) == (u . s)(t . u) - (u . u)(t . s)`.
proof fn lemma_double_cross<F: Scalar>(t: Vec3<F>, u: Vec3<F>, s: Vec3<F>)
    requires
        exact::<F>(),
    ensures
        inner(t, cross(u, cross(u, s))) == minus(
            times(inner(u, s), inner(t, u)),
            times(inner(u, u), inner(t, s)),
        ),
{
    let k = inner(u, s);
    let l = inner(u, u);
    let d = cross(u, cross(u, s));
    lemma_double_cross_coordinate(u.x, u.y, u.z, u.x, u.y, u.z, s.x, s.y, s.z);
    lemma_double_cross_coordinate(u.y, u.z, u.x, u.y, u.z, u.x, s.y, s.z, s.x);
    lemma_double_cross_coordinate(u.z, u.x, u.y, u.z, u.x, u.y, s.z, s.x, s.y);
    let (k1, k2, k3) = (times(u.x, s.x), times(u.y, s.y), times(u.z, s.z));
    let (l1, l2, l3) = (times(u.x, u.x), times(u.y, u.y), times(u.z, u.z));
    // the sums in the order that each coordinate has them in
    lemma_rotate_sum(k2, k3, k1);
    lemma_rotate_sum(k1, k2, k3);
    lemma_rotate_sum(l2, l3, l1);
    lemma_rotate_sum(l1, l2, l3);
    assert(d.x == minus(times(k, u.x), times(l, s.x)));
    assert(d.y == minus(times(k, u.y), times(l, s.y)));
    assert(d.z == minus(times(k, u.z), times(l, s.z)));
    let a = vec_times(k, u);
    let b = vec_times(l, s);
    distribute_minus(t.x, a.x, b.x);
    distribute_minus(t.y, a.y, b.y);
    distribute_minus(t.z, a.z, b.z);
    lemma_sum_of_differences(times(t.x, a.x), times(t.x, b.x), times(t.y, a.y), times(t.y, b.y));
    lemma_sum_of_differences(
        plus(times(t.x, a.x), times(t.y, a.y)),
        plus(times(t.x, b.x), times(t.y, b.y)),
        times(t.z, a.z),
        times(t.z, b.z),
    );
    lemma_inner_times(t, k, u);
    lemma_inner_times(t, l, s);
}

/// The vector part of a quaternion `[x, y, z, w]`.
pub open spec fn axis<F: Scalar>(q: [F; 4]) -> Vec3<F> {
    Vec3 { x: q[0], y: q[1], z: q[2] }
}

/// The squares of a quaternion's parts add up to one.
pub open spec fn is_unit<F: Scalar>(q: [F; 4]) -> bool {
    plus(times(q[3], q[3]), inner(axis(q), axis(q))) == num::<F>(1)
}

/// Twice the cross product of a quaternion's axis with a vector.
spec fn swing<F: Scalar>(q: [F; 4], v: Vec3<F>) -> Vec3<F> {
    vec_times(num::<F>(2), cross(axis(q), v))
}

/// A rotated vector as a sum of three.
proof fn lemma_rotated_parts<F: Scalar>(q: [F; 4], v: Vec3<F>)
    ensures
        rotated(q, (v.x, v.y, v.z)) == vec_sum(
            vec_sum(v, vec_times(q[3], swing(q, v))),
            cross(axis(q), swing(q, v)),
        ),
{
}

/// The product of two sums of three.
proof fn lemma_inner_of_sums<F: Scalar>(
    a: Vec3<F>,
    b: Vec3<F>,
    c: Vec3<F>,
    d: Vec3<F>,
    e: Vec3<F>,
    f: Vec3<F>,
)
    requires
        exact::<F>(),
    ensures
        inner(vec_sum(vec_sum(a, b), c), vec_sum(vec_sum(d, e), f)) == plus(
            plus(
                plus(plus(inner(a, d), inner(a, e)), inner(a, f)),
                plus(plus(inner(b, d), inner(b, e)), inner(b, f)),
            ),
            plus(plus(inner(c, d), inner(c, e)), inner(c, f)),
        ),
{
    let s = vec_sum(vec_sum(d, e), f);
    let l = vec_sum(vec_sum(a, b), c);
    lemma_inner_comm(l, s);
    lemma_inner_sum(s, vec_sum(a, b), c);
    lemma_inner_sum(s, a, b);
    lemma_inner_comm(s, a);
    lemma_inner_comm(s, b);
    lemma_inner_comm(s, c);
    lemma_inner_sum(a, vec_sum(d, e), f);
    lemma_inner_sum(a, d, e);
    lemma_inner_sum(b, vec_sum(d, e), f);
    lemma_inner_sum(b, d, e);
    lemma_inner_sum(c, vec_sum(d, e), f);
    lemma_inner_sum(c, d, e);
}

proof fn lemma_inner_times_left<F: Scalar>(k: F, a: Vec3<F>, b: Vec3<F>)
    requires
        exact::<F>(),
    ensures
        inner(vec_times(k, a), b) == times(k, inner(a, b)),
{
    lemma_inner_comm(vec_times(k, a), b);
    lemma_inner_times(b, k, a);
    lemma_inner_comm(b, a);
}

/// Twice a number is the number added to itself.
proof fn lemma_twice<F: Scalar>(a: F)
    requires
        exact::<F>(),
    ensures
        times(num::<F>(2), a) == plus(a, a),
{
    next_number::<F>(1);
    distribute(a, num::<F>(1), num::<F>(1));
    mul_one(a);
}

/// The swing is perpendicular to the axis.
proof fn lemma_swing_perpendicular<F: Scalar>(q: [F; 4], v: Vec3<F>)
    requires
        exact::<F>(),
    ensures
        inner(axis(q), swing(q, v)) == num::<F>(0),
{
    let u = axis(q);
    lemma_inner_times(u, num::<F>(2), cross(u, v));
    lemma_perpendicular(u, v);
    mul_zero(num::<F>(2));
}

/// `v . (swing of w) + (swing of v) . w == 0`.
proof fn lemma_swing_skew<F: Scalar>(q: [F; 4], v: Vec3<F>, w: Vec3<F>)
    requires
        exact::<F>(),
    ensures
        plus(inner(v, swing(q, w)), inner(swing(q, v), w)) == num::<F>(0),
{
    let u = axis(q);
    let two = num::<F>(2);
    lemma_inner_times(v, two, cross(u, w));
    lemma_inner_times_left(two, cross(u, v), w);
    lemma_skew(u, v, w);
    let k = inner(cross(u, v), w);
    mul_opposite(two, k);
    add_opposite(times(two, k));
}

/// `v . (u x t') + (u x t) . w == -(t . t')` for the swings `t`, `t'` of `v`, `w`.
proof fn lemma_swing_product<F: Scalar>(q: [F; 4], v: Vec3<F>, w: Vec3<F>)
    requires
        exact::<F>(),
    ensures
        ({
            let u = axis(q);
            let (t, s) = (swing(q, v), swing(q, w));
            plus(inner(v, cross(u, s)), inner(cross(u, t), w)) == opposite(inner(t, s))
        }),
{
    let u = axis(q);
    let two = num::<F>(2);
    let (t, s) = (swing(q, v), swing(q, w));
    let h = inner(cross(u, v), s);
    // v . (u x s) == -(u x v) . s == -h
    lemma_skew(u, v, s);
    // (u x t) . w == -(t . (u x w)), and t . (u x w) == 2 (u x v) . (u x w) == h
    lemma_skew(u, t, w);
    opposite_facts(inner(cross(u, t), w));
    lemma_inner_times_left(two, cross(u, v), cross(u, w));
    lemma_inner_times(cross(u, v), two, cross(u, w));
    assert(inner(t, cross(u, w)) == h);
    // t . s == 2 h
    lemma_inner_times_left(two, cross(u, v), s);
    lemma_twice(h);
    opposite_sum(h, h);
}

/// `(u x t) . (u x t') == (u . u)(t . t')` for swings `t`, `t'`.
proof fn lemma_crossed_swings<F: Scalar>(q: [F; 4], v: Vec3<F>, w: Vec3<F>)
    requires
        exact::<F>(),
    ensures
        ({
            let u = axis(q);
            let (t, s) = (swing(q, v), swing(q, w));
            inner(cross(u, t), cross(u, s)) == times(inner(u, u), inner(t, s))
        }),
{
    let u = axis(q);
    let (t, s) = (swing(q, v), swing(q, w));
    let x = cross(u, s);
    lemma_skew(u, t, x);
    opposite_facts(inner(cross(u, t), x));
    lemma_double_cross(t, u, s);
    lemma_swing_perpendicular(q, w);
    let k = times(inner(u, u), inner(t, s));
    mul_zero(inner(t, u));
    minus_is_plus(num::<F>(0), k);
    add_zero(opposite(k));
    opposite_facts(k);
}

/// Adds up the nine products: what is skew cancels, and the rest is `a` and three
/// multiples of `k` that make up nothing.
proof fn lemma_nine_products<F: Scalar>(
    a: F,
    w: F,
    m: F,
    k: F,
    e: F,
    f: F,
    d: F,
    g: F,
    c: F,
    h: F,
)
    requires
        exact::<F>(),
        plus(times(w, w), m) == num::<F>(1),
        plus(e, d) == num::<F>(0),
        plus(f, c) == opposite(k),
        plus(g, h) == num::<F>(0),
    ensures
        plus(
            plus(
                plus(plus(a, times(w, e)), f),
                plus(plus(times(w, d), times(w, times(w, k))), times(w, g)),
            ),
            plus(plus(c, times(w, h)), times(m, k)),
        ) == a,
{
    let (we, wd, wg, wh) = (times(w, e), times(w, d), times(w, g), times(w, h));
    let wwk = times(w, times(w, k));
    let mk = times(m, k);
    let zero = num::<F>(0);
    // w e + w d == 0 and w g + w h == 0
    distribute(w, e, d);
    distribute(w, g, h);
    mul_zero(w);
    assert(plus(we, wd) == zero);
    assert(plus(wg, wh) == zero);
    // w w k + m k == k
    mul_assoc(w, w, k);
    distribute(k, times(w, w), m);
    mul_one(k);
    assert(plus(wwk, mk) == k);
    // ((a + we) + f) + ((wd + wwk) + wg) == ((a + we) + (wd + wwk)) + (f + wg)
    add_swap(plus(a, we), f, plus(wd, wwk), wg);
    add_swap(a, we, wd, wwk);
    // (a + wd) + (we + wwk) == (a + wwk) + (we + wd)
    lemma_exchange(a, wd, we, wwk);
    add_comm(wd, we);
    add_zero(plus(a, wwk));
    assert(plus(plus(a, we), plus(wd, wwk)) == plus(a, wwk));
    let front = plus(plus(a, wwk), plus(f, wg));
    // front + ((c + wh) + mk) == ((a + wwk) + mk) + ((f + wg) + (c + wh))
    let back = plus(plus(c, wh), mk);
    add_comm(plus(c, wh), mk);
    add_swap(plus(a, wwk), plus(f, wg), mk, plus(c, wh));
    add_swap(f, wg, c, wh);
    add_zero(opposite(k));
    assert(plus(plus(f, wg), plus(c, wh)) == opposite(k));
    add_assoc(a, wwk, mk);
    assert(plus(front, back) == plus(plus(a, k), opposite(k)));
    add_assoc(a, k, opposite(k));
    add_opposite(k);
    add_zero(a);
}

/// `(a + b) + (c + d) == (a + d) + (b + c)`.
proof fn lemma_exchange<F: Scalar>(a: F, b: F, c: F, d: F)
    requires
        exact::<F>(),
    ensures
        plus(plus(a, b), plus(c, d)) == plus(plus(a, d), plus(b, c)),
{
    add_comm(c, d);
    add_swap(a, b, d, c);
}

/// Rotating two vectors by a unit quaternion keeps their inner product, and so
/// lengths and angles.
pub proof fn law_rotation_keeps_inner_products<F: Scalar>(q: [F; 4], v: Vec3<F>, w: Vec3<F>)
    requires
        exact::<F>(),
        is_unit(q),
    ensures
        inner(rotated(q, (v.x, v.y, v.z)), rotated(q, (w.x, w.y, w.z))) == inner(v, w),
{
    let u = axis(q);
    let (t, s) = (swing(q, v), swing(q, w));
    let k = inner(t, s);
    lemma_rotated_parts(q, v);
    lemma_rotated_parts(q, w);
    lemma_inner_of_sums(
        v,
        vec_times(q[3], t),
        cross(u, t),
        w,
        vec_times(q[3], s),
        cross(u, s),
    );
    lemma_inner_times(v, q[3], s);
    lemma_inner_times_left(q[3], t, w);
    lemma_inner_times_left(q[3], t, vec_times(q[3], s));
    lemma_inner_times(t, q[3], s);
    lemma_inner_times_left(q[3], t, cross(u, s));
    lemma_inner_times(cross(u, t), q[3], s);
    lemma_swing_skew(q, v, w);
    lemma_swing_product(q, v, w);
    lemma_crossed_swings(q, v, w);
    // t . (u x s) + (u x t) . s == 0
    lemma_skew(u, t, s);
    add_opposite(inner(cross(u, t), s));
    lemma_nine_products(
        inner(v, w),
        q[3],
        inner(u, u),
        k,
        inner(v, s),
        inner(v, cross(u, s)),
        inner(t, w),
        inner(t, cross(u, s)),
        inner(cross(u, t), w),
        inner(cross(u, t), s),
    );
}

/// The orientation of a unit quaternion is orthonormal: its three axes have
/// length one and are perpendicular to each other.
pub proof fn law_orientation_is_orthonormal<F: Scalar>(q: [F; 4])
    requires
        exact::<F>(),
        is_unit(q),
    ensures
        ({
            let m = orientation(q);
            let (zero, one) = (num::<F>(0), num::<F>(1));
            &&& inner(m.forward, m.forward) == one
            &&& inner(m.right, m.right) == one
            &&& inner(m.up, m.up) == one
            &&& inner(m.forward, m.right) == zero
            &&& inner(m.forward, m.up) == zero
            &&& inner(m.right, m.up) == zero
        }),
{
    let (zero, one) = (num::<F>(0), num::<F>(1));
    let x = Vec3 { x: one, y: zero, z: zero };
    let y = Vec3 { x: zero, y: one, z: zero };
    let z = Vec3 { x: zero, y: zero, z: one };
    law_rotation_keeps_inner_products(q, x, x);
    law_rotation_keeps_inner_products(q, y, y);
    law_rotation_keeps_inner_products(q, z, z);
    law_rotation_keeps_inner_products(q, x, y);
    law_rotation_keeps_inner_products(q, x, z);
    law_rotation_keeps_inner_products(q, y, z);
    mul_one(one);
    mul_zero(zero);
    mul_zero(one);
    add_zero(zero);
    add_zero(one);
}

/// The quaternion that turns nothing gives the axes as they are.
pub proof fn law_no_turn_keeps_the_axes<F: Scalar>(q: [F; 4])
    requires
        exact::<F>(),
        q[0] == num::<F>(0) && q[1] == num::<F>(0) && q[2] == num::<F>(0),
    ensures
        ({
            let m = orientation(q);
            let (zero, one) = (num::<F>(0), num::<F>(1));
            &&& m.forward == Vec3 { x: one, y: zero, z: zero }
            &&& m.right == Vec3 { x: zero, y: one, z: zero }
            &&& m.up == Vec3 { x: zero, y: zero, z: one }
        }),
{
    let (zero, one) = (num::<F>(0), num::<F>(1));
    mul_zero(zero);
    mul_zero(one);
    mul_zero(num::<F>(2));
    mul_zero(q[3]);
    minus_is_plus(zero, zero);
    add_opposite(zero);
    add_zero(zero);
    add_zero(one);
}

/// A turn about an axis turns the next axis towards the one after it: about the
/// third the first towards the second, about the first the second towards the third,
/// about the second the third towards the first. By how much is told by twice the
/// product of the axis' share and the last number of the quaternion.
pub proof fn law_turns_are_right_handed<F: Scalar>(q: [F; 4])
    requires
        exact::<F>(),
    ensures
        ({
            let zero = num::<F>(0);
            let m = orientation(q);
            let two = num::<F>(2);
            &&& q@[0] == zero && q@[1] == zero ==> m.forward.y == times(q@[3], times(two, q@[2]))
                && m.forward.z == zero && m.up == Vec3 { x: zero, y: zero, z: num::<F>(1) }
            &&& q@[1] == zero && q@[2] == zero ==> m.right.z == times(q@[3], times(two, q@[0]))
                && m.right.x == zero && m.forward == Vec3 { x: num::<F>(1), y: zero, z: zero }
            &&& q@[0] == zero && q@[2] == zero ==> m.up.x == times(q@[3], times(two, q@[1]))
                && m.up.y == zero && m.right == Vec3 { x: zero, y: num::<F>(1), z: zero }
        }),
{
    let (zero, one, two) = (num::<F>(0), num::<F>(1), num::<F>(2));
    lemma_zeros(q@[0]);
    lemma_zeros(q@[1]);
    lemma_zeros(q@[2]);
    lemma_zeros(q@[3]);
    lemma_zeros(zero);
    lemma_zeros(one);
    lemma_zeros(two);
    lemma_zeros(times(two, q@[0]));
    lemma_zeros(times(two, q@[1]));
    lemma_zeros(times(two, q@[2]));
    lemma_zeros(times(q@[3], times(two, q@[0])));
    lemma_zeros(times(q@[3], times(two, q@[1])));
    lemma_zeros(times(q@[3], times(two, q@[2])));
    lemma_zeros(times(two, opposite(q@[0])));
    lemma_zeros(times(two, opposite(q@[1])));
    lemma_zeros(times(two, opposite(q@[2])));
}

/// What zero does to a number.
proof fn lemma_zeros<F: Scalar>(x: F)
    requires
        exact::<F>(),
    ensures
        times(x, num::<F>(0)) == num::<F>(0),
        times(num::<F>(0), x) == num::<F>(0),
        plus(x, num::<F>(0)) == x,
        plus(num::<F>(0), x) == x,
        minus(x, num::<F>(0)) == x,
        minus(num::<F>(0), x) == opposite(x),
        minus(x, x) == num::<F>(0),
        times(x, num::<F>(1)) == x,
        times(num::<F>(1), x) == x,
{
    mul_zero(x);
    add_zero(x);
    add_zero(opposite(x));
    minus_is_plus(x, num::<F>(0));
    minus_is_plus(num::<F>(0), x);
    opposite_facts(x);
    minus_is_plus(x, x);
    add_opposite(x);
    mul_one(x);
}

} // verus!
