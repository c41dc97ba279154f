//! The number type the environment is computed in.
//!
//! Physics, observations and rewards are computed in one scalar type chosen by
//! the caller: single or double precision in production, anything with the same
//! operators elsewhere. Contracts are stated over the operators' own
//! specifications, so they say which operation is applied to which operands and
//! in which order, and nothing about rounding.

use core::ops::{Add, Div, Mul, Neg, Sub};
use vstd::prelude::*;
use vstd::std_specs::cmp::{PartialEqSpec, PartialOrdSpec};
use vstd::std_specs::convert::FromSpec;
use vstd::std_specs::ops::{AddSpec, DivSpec, MulSpec, NegSpec, SubSpec};

verus! {

/// A copyable number with the field operators, a partial order and small
/// integer constants.
pub trait Scalar: Copy + Add<Output = Self> + Sub<Output = Self> + Mul<Output = Self> + Div<
    Output = Self,
> + Neg<Output = Self> + PartialOrd + From<i16> {

}

impl<T: Copy + Add<Output = T> + Sub<Output = T> + Mul<Output = T> + Div<Output = T> + Neg<
    Output = T,
> + PartialOrd + From<i16>> Scalar for T {

}

/// The integer constants of `F` are determined by the integer.
pub open spec fn converts<F: Scalar>() -> bool {
    <F as FromSpec<i16>>::obeys_from_spec()
}

/// Comparing two values of `F` gives an answer that depends on them alone.
pub open spec fn ordered<F: Scalar>() -> bool {
    &&& F::obeys_eq_spec()
    &&& F::obeys_partial_cmp_spec()
    &&& converts::<F>()
}

/// The operators of `F` accept every pair of operands and give a result that
/// depends on them alone, as floating-point operators do.
pub open spec fn total<F: Scalar>() -> bool {
    &&& ordered::<F>()
    &&& F::obeys_add_spec()
    &&& F::obeys_sub_spec()
    &&& F::obeys_mul_spec()
    &&& F::obeys_div_spec()
    &&& F::obeys_neg_spec()
    &&& forall|a: F, b: F| #[trigger] a.add_req(b)
    &&& forall|a: F, b: F| #[trigger] a.sub_req(b)
    &&& forall|a: F, b: F| #[trigger] a.mul_req(b)
    &&& forall|a: F, b: F| #[trigger] a.div_req(b)
    &&& forall|a: F| #[trigger] a.neg_req()
}

/// `a < b`.
pub open spec fn lt<F: Scalar>(a: F, b: F) -> bool {
    a.partial_cmp_spec(&b) == Some(core::cmp::Ordering::Less)
}

/// `a > b`.
pub open spec fn gt<F: Scalar>(a: F, b: F) -> bool {
    a.partial_cmp_spec(&b) == Some(core::cmp::Ordering::Greater)
}

/// `a <= b`.
pub open spec fn le<F: Scalar>(a: F, b: F) -> bool {
    a.partial_cmp_spec(&b) matches Some(core::cmp::Ordering::Less | core::cmp::Ordering::Equal)
}

/// `a >= b`.
pub open spec fn ge<F: Scalar>(a: F, b: F) -> bool {
    a.partial_cmp_spec(&b) matches Some(core::cmp::Ordering::Greater | core::cmp::Ordering::Equal)
}

/// `a == b`, as the operator decides it.
pub open spec fn same<F: Scalar>(a: F, b: F) -> bool {
    a.eq_spec(&b)
}

/// `a + b`.
pub open spec fn plus<F: Scalar>(a: F, b: F) -> F {
    a.add_spec(b)
}

/// `a - b`.
pub open spec fn minus<F: Scalar>(a: F, b: F) -> F {
    a.sub_spec(b)
}

/// `a * b`.
pub open spec fn times<F: Scalar>(a: F, b: F) -> F {
    a.mul_spec(b)
}

/// `a / b`.
pub open spec fn over<F: Scalar>(a: F, b: F) -> F {
    a.div_spec(b)
}

/// `-a`.
pub open spec fn opposite<F: Scalar>(a: F) -> F {
    a.neg_spec()
}

/// The constant `k`.
pub open spec fn num<F: Scalar>(k: int) -> F {
    <F as FromSpec<i16>>::from_spec(k as i16)
}

/// The constant `p / q`.
pub open spec fn frac<F: Scalar>(p: int, q: int) -> F {
    over(num::<F>(p), num::<F>(q))
}

/// `-a`.
pub fn negate<F: Scalar>(a: F) -> (r: F)
    requires
        total::<F>(),
    ensures
        r == opposite(a),
{
    a.neg()
}

/// The constant `k`.
pub fn whole<F: Scalar>(k: i16) -> (r: F)
    requires
        converts::<F>(),
    ensures
        r == num::<F>(k as int),
{
    F::from(k)
}

/// The constant `p / q`. Both parts are exact in every floating-point format
/// and division rounds correctly, so this is the value of the decimal literal.
pub fn ratio<F: Scalar>(p: i16, q: i16) -> (r: F)
    requires
        total::<F>(),
    ensures
        r == frac::<F>(p as int, q as int),
{
    let n: F = whole(p);
    let d: F = whole(q);
    n / d
}

/// 1 for true, 0 for false.
pub open spec fn bit<F: Scalar>(b: bool) -> F {
    if b {
        num::<F>(1)
    } else {
        num::<F>(0)
    }
}

/// 1 for true, 0 for false.
pub fn flag<F: Scalar>(b: bool) -> (r: F)
    requires
        converts::<F>(),
    ensures
        r == bit::<F>(b),
{
    if b {
        whole(1)
    } else {
        whole(0)
    }
}

/// Neither infinite nor undefined: subtracting the value from itself gives a
/// number that equals itself.
pub open spec fn finite<F: Scalar>(x: F) -> bool {
    same(minus(x, x), minus(x, x))
}

/// Whether `x` is neither infinite nor undefined.
pub fn is_finite<F: Scalar>(x: F) -> (r: bool)
    requires
        total::<F>(),
    ensures
        r == finite(x),
{
    let d: F = x - x;
    d == d
}

/// The larger of two numbers; where one is undefined, the other.
pub open spec fn larger<F: Scalar>(a: F, b: F) -> F {
    if gt(a, b) || !same(b, b) {
        a
    } else {
        b
    }
}

/// The larger of two numbers; where one is undefined, the other.
pub fn max_of<F: Scalar>(a: F, b: F) -> (r: F)
    requires
        ordered::<F>(),
    ensures
        r == larger(a, b),
{
    if a > b || b != b {
        a
    } else {
        b
    }
}

/// `x` brought between `lo` and `hi`; an undefined `x` stays as it is.
pub open spec fn clamped<F: Scalar>(x: F, lo: F, hi: F) -> F {
    if lt(x, lo) {
        lo
    } else if gt(x, hi) {
        hi
    } else {
        x
    }
}

/// `x` brought between `lo` and `hi`; an undefined `x` stays as it is.
pub fn clamp<F: Scalar>(x: F, lo: F, hi: F) -> (r: F)
    requires
        ordered::<F>(),
    ensures
        r == clamped(x, lo, hi),
{
    if x < lo {
        lo
    } else if x > hi {
        hi
    } else {
        x
    }
}

/// `f` takes every number and gives a result that depends on it alone.
pub open spec fn functional<F: Scalar, S: Fn(F) -> F>(f: S) -> bool {
    &&& forall|x: F| #[trigger] f.requires((x,))
    &&& forall|x: F, y: F, z: F|
        #[trigger] f.ensures((x,), y) && #[trigger] f.ensures((x,), z) ==> y == z
}

/// What `f` gives for `x`.
pub open spec fn value_of<F: Scalar, S: Fn(F) -> F>(f: S, x: F) -> F {
    choose|y: F| f.ensures((x,), y)
}

/// What `f` gives for `x`.
pub fn apply<F: Scalar, S: Fn(F) -> F>(f: &S, x: F) -> (y: F)
    requires
        functional(*f),
    ensures
        y == value_of(*f, x),
{
    f(x)
}

/// Every `F` has a counterpart in `G` that depends on it alone.
pub open spec fn widens<F: Scalar, G: Scalar + From<F>>() -> bool {
    <G as FromSpec<F>>::obeys_from_spec()
}

/// The counterpart of `x`.
pub open spec fn widened<F: Scalar, G: Scalar + From<F>>(x: F) -> G {
    <G as FromSpec<F>>::from_spec(x)
}

/// The counterpart of `x`.
pub fn widen<F: Scalar, G: Scalar + From<F>>(x: F) -> (r: G)
    requires
        widens::<F, G>(),
    ensures
        r == widened::<F, G>(x),
{
    <G as From<F>>::from(x)
}

/// The distance of `x` from zero.
pub open spec fn absolute<F: Scalar>(x: F) -> F {
    if lt(x, num::<F>(0)) {
        opposite(x)
    } else {
        x
    }
}

/// The distance of `x` from zero.
pub fn abs<F: Scalar>(x: F) -> (r: F)
    requires
        total::<F>(),
    ensures
        r == absolute(x),
{
    let zero: F = whole(0);
    if x < zero {
        negate(x)
    } else {
        x
    }
}

/// A whole number that may be too large for a constant, put together from parts
/// of 14 bits.
pub open spec fn number<F: Scalar>(n: int) -> F
    decreases n,
{
    if n < 16384 {
        num::<F>(n)
    } else {
        plus(times(number::<F>(n / 16384), num::<F>(16384)), num::<F>(n % 16384))
    }
}

/// A whole number that may be too large for a constant.
pub fn count<F: Scalar>(n: u64) -> (r: F)
    requires
        total::<F>(),
    ensures
        r == number::<F>(n as int),
    decreases n,
{
    if n < 16384 {
        whole(n as i16)
    } else {
        let hi: F = count(n / 16384);
        let base: F = whole(16384);
        let lo: F = whole((n % 16384) as i16);
        hi * base + lo
    }
}

/// A whole number of either sign.
pub open spec fn signed_number<F: Scalar>(n: int) -> F {
    if n < 0 {
        opposite(number::<F>(-n))
    } else {
        number::<F>(n)
    }
}

/// A whole number of either sign.
pub fn signed<F: Scalar>(n: i64) -> (r: F)
    requires
        total::<F>(),
        n > i64::MIN,
    ensures
        r == signed_number::<F>(n as int),
{
    if n < 0 {
        negate(count((-n) as u64))
    } else {
        count(n as u64)
    }
}

} // verus!
