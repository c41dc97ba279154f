//! Random numbers and categorical sampling.

use crate::exact::{
    add_comm, add_zero, distribute, divide, exact, inverse_is_positive, mul_comm, mul_one, mul_zero,
    next_number, numbers_ascend, order_chain, order_facts, order_scale, order_shift, sorted,
};
use crate::scalar::{
    apply, functional, ge, gt, lt, minus, num, over, plus, same, times, total, value_of, whole, Scalar,
};
use vstd::arithmetic::div_mod::lemma_add_mod_noop_right;
use vstd::prelude::*;

verus! {

/// Multiplier of the generator.
pub const PCG_MULTIPLIER: u64 = 6364136223846793005;

/// A 32-bit permuted congruential generator.
pub struct Pcg32 {
    state: u64,
    inc: u64,
}

impl View for Pcg32 {
    type V = (u64, u64);

    /// State and increment.
    closed spec fn view(&self) -> (u64, u64) {
        (self.state, self.inc)
    }
}

/// A generator's state and increment.
pub type Gen = (u64, u64);

/// The generator `n` draws on.
pub open spec fn after_draws(g: Gen, n: nat) -> Gen
    decreases n,
{
    if n == 0 {
        g
    } else {
        pcg_next(after_draws(g, (n - 1) as nat))
    }
}

/// `x` with its bits rotated right by `r` places.
pub open spec fn rotated_right(x: u32, r: u32) -> u32 {
    (x >> r) | (x << ((32 - r) % 32) as u32)
}

/// The low 64 bits of a number.
pub open spec fn low64(n: int) -> u64 {
    (n % 0x1_0000_0000_0000_0000) as u64
}

/// The generator one step on.
pub open spec fn pcg_next(g: (u64, u64)) -> (u64, u64) {
    (low64(g.0 * PCG_MULTIPLIER + g.1), g.1)
}

/// The number that a step from `g` gives.
pub open spec fn pcg_output(g: (u64, u64)) -> u32 {
    rotated_right(((((g.0 >> 18) ^ g.0) >> 27) & 0xffff_ffff) as u32, (g.0 >> 59) as u32)
}

/// The generator that `seed` starts.
pub open spec fn pcg_seeded(seed: u64) -> (u64, u64) {
    let first = pcg_next((0, (seed << 1) | 1));
    pcg_next((low64(first.0 + seed), first.1))
}

/// A number of 24 bits as a fraction of 2^24.
pub open spec fn unit<F: Scalar>(x: u32) -> F {
    times(
        plus(times(num::<F>((x >> 20) as int), num::<F>(4096)), num::<F>(((x >> 8) & 4095) as int)),
        over(num::<F>(1), times(num::<F>(4096), num::<F>(4096))),
    )
}

/// `x * y + z` in 64 bits.
fn multiply_add(x: u64, y: u64, z: u64) -> (r: u64)
    ensures
        r == low64(x * y + z),
{
    let p: u64 = x.wrapping_mul(y);
    proof {
        lemma_add_mod_noop_right(z as int, x * y, 0x1_0000_0000_0000_0000);
    }
    p.wrapping_add(z)
}

fn rotate_right(x: u32, r: u32) -> (y: u32)
    requires
        r < 32,
    ensures
        y == rotated_right(x, r),
{
    let left: u32 = (32 - r) % 32;
    (x >> r) | (x << left)
}

impl Pcg32 {
    /// Starts the generator that `seed` names.
    pub fn new(seed: u64) -> (s: Self)
        ensures
            s@ == pcg_seeded(seed),
    {
        let mut s = Pcg32 { state: 0, inc: (seed << 1) | 1 };
        s.next_u32();
        s.state = s.state.wrapping_add(seed);
        s.next_u32();
        s
    }

    /// The next number.
    pub fn next_u32(&mut self) -> (x: u32)
        ensures
            x == pcg_output(old(self)@),
            final(self)@ == pcg_next(old(self)@),
    {
        let old_state: u64 = self.state;
        self.state = multiply_add(old_state, PCG_MULTIPLIER, self.inc);
        let mixed: u64 = (((old_state >> 18) ^ old_state) >> 27) & 0xffff_ffff;
        assert(mixed <= 0xffff_ffff) by (bit_vector)
            requires
                mixed == (((old_state >> 18) ^ old_state) >> 27) & 0xffff_ffff,
        ;
        let rot: u64 = old_state >> 59;
        assert(rot < 32) by (bit_vector)
            requires
                rot == old_state >> 59,
        ;
        rotate_right(mixed as u32, rot as u32)
    }

    /// The next number as a fraction, at least 0 and below 1.
    pub fn next_f32<F: Scalar>(&mut self) -> (u: F)
        requires
            total::<F>(),
        ensures
            u == unit::<F>(pcg_output(old(self)@)),
            final(self)@ == pcg_next(old(self)@),
    {
        let x: u32 = self.next_u32();
        let hi: u32 = x >> 20;
        let lo: u32 = (x >> 8) & 4095;
        assert(hi < 4096) by (bit_vector)
            requires
                hi == x >> 20,
        ;
        assert(lo < 4096) by (bit_vector)
            requires
                lo == (x >> 8) & 4095,
        ;
        let h: F = whole(hi as i16);
        let l: F = whole(lo as i16);
        let k: F = whole(4096);
        let one: F = whole(1);
        (h * k + l) * (one / (k * k))
    }
}

/// The largest of the first `n` numbers, passing over undefined ones.
pub open spec fn peak<F: Scalar>(xs: Seq<F>, n: int) -> F
    decreases n,
{
    if n <= 1 {
        xs[0]
    } else {
        let m = peak(xs, n - 1);
        if gt(xs[n - 1], m) || !same(m, m) {
            xs[n - 1]
        } else {
            m
        }
    }
}

/// The sum of the first `n` numbers, added up in order.
pub open spec fn running_sum<F: Scalar>(xs: Seq<F>, n: int) -> F
    decreases n,
{
    if n <= 0 {
        num::<F>(0)
    } else {
        plus(running_sum(xs, n - 1), xs[n - 1])
    }
}

/// `i` is where the running sum first passes `target`, the last index if it
/// never does.
pub open spec fn crosses_at<F: Scalar>(xs: Seq<F>, target: F, i: int) -> bool {
    &&& 0 <= i < xs.len()
    &&& forall|j: int| 0 <= j < i ==> !gt(#[trigger] running_sum(xs, j + 1), target)
    &&& gt(running_sum(xs, i + 1), target) || i == xs.len() - 1
}

/// The exponentials of the logits less their peak.
pub open spec fn weights_of<F: Scalar, E: Fn(F) -> F>(logits: Seq<F>, exp: E) -> Seq<F> {
    let m = peak(logits, logits.len() as int);
    Seq::new(logits.len(), |i: int| value_of(exp, minus(logits[i], m)))
}

/// Draws an index with probability proportional to the exponential of its
/// logit. Returns the index and the logarithm of its probability; takes one
/// number from the generator.
pub fn sample_categorical<F: Scalar, E: Fn(F) -> F, L: Fn(F) -> F>(
    logits: &Vec<F>,
    rng: &mut Pcg32,
    exp: &E,
    ln: &L,
) -> (r: (usize, F))
    requires
        total::<F>(),
        functional(*exp),
        functional(*ln),
        logits@.len() > 0,
    ensures
        final(rng)@ == pcg_next(old(rng)@),
        ({
            let m = peak(logits@, logits@.len() as int);
            let w = weights_of(logits@, *exp);
            let z = running_sum(w, w.len() as int);
            let u = unit::<F>(pcg_output(old(rng)@));
            &&& crosses_at(w, times(u, z), r.0 as int)
            &&& r.1 == minus(minus(logits@[r.0 as int], m), value_of(*ln, z))
        }),
{
    let mut max: F = logits[0];
    let mut i: usize = 1;
    while i < logits.len()
        invariant
            1 <= i <= logits@.len(),
            total::<F>(),
            max == peak(logits@, i as int),
        decreases logits.len() - i,
    {
        if logits[i] > max || max != max {
            max = logits[i];
        }
        i = i + 1;
    }
    let ghost all = weights_of(logits@, *exp);
    let mut w: Vec<F> = Vec::new();
    let mut z: F = whole(0);
    i = 0;
    while i < logits.len()
        invariant
            i <= logits@.len(),
            total::<F>(),
            functional(*exp),
            max == peak(logits@, logits@.len() as int),
            all == weights_of(logits@, *exp),
            w@ =~= all.take(i as int),
            z == running_sum(all, i as int),
        decreases logits.len() - i,
    {
        let e: F = apply(exp, logits[i] - max);
        w.push(e);
        z = z + e;
        i = i + 1;
    }
    assert(w@ =~= all);
    let u: F = rng.next_f32();
    let idx: usize = find_crossing(&w, u * z);
    let ln_z: F = apply(ln, z);
    (idx, (logits[idx] - max) - ln_z)
}

/// Where the running sum of `xs` first passes `target`, the last index if it
/// never does.
pub fn find_crossing<F: Scalar>(xs: &Vec<F>, target: F) -> (idx: usize)
    requires
        total::<F>(),
        xs@.len() > 0,
    ensures
        crosses_at(xs@, target, idx as int),
{
    let mut acc: F = whole(0);
    let mut i: usize = 0;
    while i < xs.len()
        invariant
            i <= xs@.len(),
            total::<F>(),
            acc == running_sum(xs@, i as int),
            forall|j: int| 0 <= j < i ==> !gt(#[trigger] running_sum(xs@, j + 1), target),
        decreases xs.len() - i,
    {
        acc = acc + xs[i];
        assert(acc == running_sum(xs@, i + 1));
        if acc > target {
            return i;
        }
        i = i + 1;
    }
    xs.len() - 1
}

/// The crossing is unique, so equal weights and equal draws give equal indices.
pub proof fn law_crossing_unique<F: Scalar>(xs: Seq<F>, target: F, i: int, j: int)
    requires
        crosses_at(xs, target, i),
        crosses_at(xs, target, j),
    ensures
        i == j,
{
    if i < j {
        assert(!gt(running_sum(xs, i + 1), target));
    } else if j < i {
        assert(!gt(running_sum(xs, j + 1), target));
    }
}

/// A draw is a whole number below 2^24, divided by 2^24: the number is the upper
/// 24 bits of the generator's output.
pub proof fn law_draws_have_24_bits(x: u32)
    ensures
        (x >> 20) * 4096 + ((x >> 8) & 4095) == x >> 8,
        x >> 20 < 4096,
        (x >> 8) & 4095 < 4096,
        x >> 8 < 0x100_0000,
{
    assert(x >> 20 < 4096 && (x >> 8) & 4095 < 4096 && x >> 8 < 0x100_0000 && ((x >> 20) * 4096
        + ((x >> 8) & 4095) == x >> 8)) by (bit_vector);
}

/// A draw is at least 0 and below 1.
pub proof fn law_draws_are_fractions<F: Scalar>(x: u32)
    requires
        exact::<F>(),
        sorted::<F>(),
    ensures
        ge(unit::<F>(x), num::<F>(0)),
        lt(unit::<F>(x), num::<F>(1)),
{
    law_draws_have_24_bits(x);
    let zero = num::<F>(0);
    let one = num::<F>(1);
    let k = num::<F>(4096);
    let h = (x >> 20) as int;
    let l = ((x >> 8) & 4095) as int;
    let hk = times(num::<F>(h), k);
    let n = plus(hk, num::<F>(l));
    let kk = times(k, k);
    let inv = over(one, kk);
    numbers_ascend::<F>(0, 4096);
    order_scale(zero, k, k);
    mul_zero(k);
    inverse_is_positive(kk);
    order_facts(zero, kk);
    divide(one, kk);
    mul_comm(inv, kk);
    // n is not negative
    order_facts(zero, num::<F>(h));
    order_facts(zero, num::<F>(l));
    if h > 0 {
        numbers_ascend::<F>(0, h);
    }
    order_scale(zero, num::<F>(h), k);
    order_facts(zero, hk);
    if l > 0 {
        numbers_ascend::<F>(0, l);
    }
    order_shift(zero, num::<F>(l), hk);
    add_comm(num::<F>(l), hk);
    add_zero(hk);
    add_comm(zero, hk);
    order_facts(hk, n);
    order_chain(zero, hk, n);
    order_facts(zero, n);
    // n is below the denominator
    numbers_ascend::<F>(l, 4096);
    order_shift(num::<F>(l), k, hk);
    add_comm(k, hk);
    next_number::<F>(h);
    distribute(k, num::<F>(h), one);
    mul_one(k);
    order_facts(num::<F>(h + 1), k);
    if h + 1 < 4096 {
        numbers_ascend::<F>(h + 1, 4096);
    }
    order_scale(num::<F>(h + 1), k, k);
    order_chain(n, times(num::<F>(h + 1), k), kk);
    // so is their quotient
    order_scale(zero, n, inv);
    mul_zero(inv);
    order_scale(n, kk, inv);
    order_facts(zero, times(n, inv));
    order_facts(times(n, inv), zero);
}

} // verus!
