//! The index of a greatest number.

use crate::scalar::{finite, gt, is_finite, lt, num, same, total, whole, Scalar};
use vstd::prelude::*;

verus! {

/// A number above minus infinity.
pub open spec fn eligible<F: Scalar>(x: F) -> bool {
    same(x, x) && !(lt(x, num::<F>(0)) && !finite(x))
}

/// The first index of a greatest of the first `n` numbers, counting only numbers
/// above minus infinity.
pub open spec fn greatest<F: Scalar>(v: Seq<F>, n: int) -> Option<int>
    decreases n,
{
    if n <= 0 {
        None
    } else {
        match greatest(v, n - 1) {
            None => if eligible(v[n - 1]) {
                Some(n - 1)
            } else {
                None
            },
            Some(b) => if gt(v[n - 1], v[b]) {
                Some(n - 1)
            } else {
                Some(b)
            },
        }
    }
}

/// The first index of a greatest of the first `n` numbers, 0 if there is none.
pub open spec fn argmax_of<F: Scalar>(v: Seq<F>) -> int {
    match greatest(v, v.len() as int) {
        Some(i) => i,
        None => 0,
    }
}

/// The first index of a greatest number, 0 if there is none.
pub fn argmax<F: Scalar>(v: &Vec<F>) -> (i: usize)
    requires
        total::<F>(),
    ensures
        i == argmax_of(v@),
        v@.len() > 0 ==> i < v@.len(),
{
    let zero: F = whole(0);
    let mut best: Option<usize> = None;
    let mut n: usize = 0;
    while n < v.len()
        invariant
            n <= v@.len(),
            total::<F>(),
            zero == num::<F>(0),
            match best {
                Some(b) => b < n && greatest(v@, n as int) == Some(b as int),
                None => greatest(v@, n as int) is None,
            },
        decreases v.len() - n,
    {
        let x: F = v[n];
        match best {
            None => {
                if x == x && !(x < zero && !is_finite(x)) {
                    best = Some(n);
                }
            },
            Some(b) => {
                if x > v[b] {
                    best = Some(n);
                }
            },
        }
        n = n + 1;
    }
    match best {
        Some(b) => b,
        None => 0,
    }
}

} // verus!
