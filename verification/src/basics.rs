//! What the small operations mean that everything else is made of.

use crate::reward::terms::{flat_length, length};
use crate::scalar::{
    absolute, bit, clamped, gt, larger, lt, num, number, opposite, over, plus, same,
    signed_number, times, value_of, Scalar,
};
use crate::sim::Vec3;
use vstd::prelude::*;

verus! {

/// A clamped number is the number itself where it lies between the limits, and the
/// limit that it passes where it does not.
pub proof fn law_clamping<F: Scalar>(x: F, lo: F, hi: F)
    ensures
        lt(x, lo) ==> clamped(x, lo, hi) == lo,
        !lt(x, lo) && gt(x, hi) ==> clamped(x, lo, hi) == hi,
        !lt(x, lo) && !gt(x, hi) ==> clamped(x, lo, hi) == x,
{
}

/// The larger of two numbers is one of them, the first where it is greater or the
/// second is undefined.
pub proof fn law_larger_of_two<F: Scalar>(a: F, b: F)
    ensures
        gt(a, b) ==> larger(a, b) == a,
        !same(b, b) ==> larger(a, b) == a,
        !gt(a, b) && same(b, b) ==> larger(a, b) == b,
{
}

/// The distance of a number from zero is the number without its sign.
pub proof fn law_absolute_values<F: Scalar>(x: F)
    ensures
        lt(x, num::<F>(0)) ==> absolute(x) == opposite(x),
        !lt(x, num::<F>(0)) ==> absolute(x) == x,
{
}

/// Truth is 1 and falsehood is 0.
pub proof fn law_bits<F: Scalar>()
    ensures
        bit::<F>(true) == num::<F>(1),
        bit::<F>(false) == num::<F>(0),
{
}

/// A whole number of either sign is the number of its size, with the sign.
pub proof fn law_signs<F: Scalar>(n: int)
    ensures
        n >= 0 ==> signed_number::<F>(n) == number::<F>(n),
        n < 0 ==> signed_number::<F>(n) == opposite(number::<F>(-n)),
        0 <= n < 16384 ==> number::<F>(n) == num::<F>(n),
{
}

/// Lengths are the roots of the sums of the squares, and at least a millionth.
pub proof fn law_lengths<F: Scalar, S: Fn(F) -> F>(v: Vec3<F>, sqrt: S)
    ensures
        ({
            let least = over(num::<F>(1), times(num::<F>(1000), num::<F>(1000)));
            let flat = plus(times(v.x, v.x), times(v.y, v.y));
            &&& length(v, sqrt) == larger(value_of(sqrt, plus(flat, times(v.z, v.z))), least)
            &&& flat_length(v.x, v.y, sqrt) == larger(value_of(sqrt, flat), least)
        }),
{
}

} // verus!
