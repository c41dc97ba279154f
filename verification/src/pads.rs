//! Matching boost pads by position.

use crate::scalar::{finite, is_finite, lt, minus, negate, opposite, plus, times, total, Scalar};
use crate::sim::BoostPad;
use vstd::prelude::*;

verus! {

/// Boost pads of a standard arena.
pub const PAD_COUNT: usize = 34;

/// Square of the distance of a pad from `(x, y)`.
pub open spec fn pad_distance2<F: Scalar>(pad: BoostPad<F>, x: F, y: F) -> F {
    let dx = minus(pad.position.x, x);
    let dy = minus(pad.position.y, y);
    plus(times(dx, dx), times(dy, dy))
}

/// The nearest of the first `n` pads, with its distance; of two equally near
/// ones the first. Pads at no finite distance do not count.
pub open spec fn nearest_among<F: Scalar>(pads: Seq<BoostPad<F>>, x: F, y: F, n: int) -> Option<
    (int, F),
>
    decreases n,
{
    if n <= 0 {
        None
    } else {
        let d = pad_distance2(pads[n - 1], x, y);
        match nearest_among(pads, x, y, n - 1) {
            None => if finite(d) {
                Some((n - 1, d))
            } else {
                None
            },
            Some((i, best)) => if lt(d, best) {
                Some((n - 1, d))
            } else {
                Some((i, best))
            },
        }
    }
}

/// Index of the nearest of the first `n` pads, `fallback` if there is none.
pub open spec fn nearest_index<F: Scalar>(
    pads: Seq<BoostPad<F>>,
    x: F,
    y: F,
    n: int,
    fallback: int,
) -> int {
    match nearest_among(pads, x, y, n) {
        Some((i, d)) => i,
        None => fallback,
    }
}

/// Index of the nearest of the first `n` pads, `fallback` if there is none.
pub fn nearest_pad<F: Scalar>(
    pads: &Vec<BoostPad<F>>,
    x: F,
    y: F,
    n: usize,
    fallback: usize,
) -> (r: usize)
    requires
        total::<F>(),
        n <= pads@.len(),
    ensures
        r == nearest_index(pads@, x, y, n as int, fallback as int),
        r < n || r == fallback,
{
    let mut best: Option<(usize, F)> = None;
    let mut j: usize = 0;
    while j < n
        invariant
            j <= n <= pads@.len(),
            total::<F>(),
            match best {
                Some((i, d)) => i < j && nearest_among(pads@, x, y, j as int) == Some((i as int, d)),
                None => nearest_among(pads@, x, y, j as int) is None,
            },
        decreases n - j,
    {
        let dx: F = pads[j].position.x - x;
        let dy: F = pads[j].position.y - y;
        let d: F = dx * dx + dy * dy;
        match best {
            None => {
                if is_finite(d) {
                    best = Some((j, d));
                }
            },
            Some((_, b)) => {
                if d < b {
                    best = Some((j, d));
                }
            },
        }
        j = j + 1;
    }
    match best {
        Some((i, _)) => i,
        None => fallback,
    }
}

/// Number of pads that count.
pub open spec fn pad_total<F>(pads: Seq<BoostPad<F>>) -> int {
    if pads.len() < PAD_COUNT {
        pads.len() as int
    } else {
        PAD_COUNT as int
    }
}

/// For each pad slot the pad that stands where the slot's pad is seen by the
/// other team.
pub open spec fn mirror_perm<F: Scalar>(pads: Seq<BoostPad<F>>) -> Seq<usize> {
    let n = pad_total(pads);
    Seq::new(
        PAD_COUNT as nat,
        |i: int|
            if i < n {
                nearest_index(
                    pads,
                    opposite(pads[i].position.x),
                    opposite(pads[i].position.y),
                    n,
                    i,
                ) as usize
            } else {
                i as usize
            },
    )
}

/// For each pad slot the pad that stands where the slot's pad is seen by the
/// other team. Pads do not move, so this is computed once per arena.
pub fn mirror_pad_perm<F: Scalar>(pads: &Vec<BoostPad<F>>) -> (perm: Vec<usize>)
    requires
        total::<F>(),
    ensures
        perm@ == mirror_perm(pads@),
        forall|i: int| 0 <= i < pad_total(pads@) ==> #[trigger] perm@[i] < pads@.len(),
{
    let n: usize = if pads.len() < PAD_COUNT {
        pads.len()
    } else {
        PAD_COUNT
    };
    let mut perm: Vec<usize> = Vec::new();
    let mut i: usize = 0;
    while i < PAD_COUNT
        invariant
            i <= PAD_COUNT,
            n == pad_total(pads@),
            n <= pads@.len(),
            total::<F>(),
            perm@ =~= mirror_perm(pads@).take(i as int),
            forall|j: int| 0 <= j < i && j < n ==> #[trigger] perm@[j] < pads@.len(),
        decreases PAD_COUNT - i,
    {
        if i < n {
            let x: F = negate(pads[i].position.x);
            let y: F = negate(pads[i].position.y);
            perm.push(nearest_pad(pads, x, y, n, i));
        } else {
            perm.push(i);
        }
        i = i + 1;
    }
    assert(perm@ =~= mirror_perm(pads@));
    perm
}

} // verus!
