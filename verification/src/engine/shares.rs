//! How arenas are divided among team sizes and workers.

use crate::scalar::{
    count, ge, gt, le, lt, minus, num, number, over, plus, times, total, whole, Scalar,
};
use vstd::prelude::*;

verus! {

/// Three weights that are not negative and not all zero.
pub open spec fn weights_ok<F: Scalar>(w: Seq<F>) -> bool {
    &&& w.len() == 3
    &&& !lt(w[0], num::<F>(0)) && !lt(w[1], num::<F>(0)) && !lt(w[2], num::<F>(0))
    &&& !le(plus(plus(w[0], w[1]), w[2]), num::<F>(0))
}

/// Whether there are three weights that are not negative and not all zero.
pub fn check_team_weights<F: Scalar>(w: &Vec<F>) -> (r: bool)
    requires
        total::<F>(),
    ensures
        r == weights_ok(w@),
{
    let zero: F = whole(0);
    w.len() == 3 && !(w[0] < zero) && !(w[1] < zero) && !(w[2] < zero) && !(w[0] + w[1] + w[2]
        <= zero)
}

/// How many arenas a weight asks for, with fractions.
pub open spec fn exact_share<F: Scalar>(n: int, w: [F; 3], i: int) -> F {
    times(over(w@[i], plus(plus(w@[0], w@[1]), w@[2])), number::<F>(n))
}

/// The greatest whole number from `c` up to `n` that `e` reaches.
pub open spec fn floor_from<F: Scalar>(e: F, c: int, n: int) -> int
    decreases n - c,
{
    if c < n && le(number::<F>(c + 1), e) {
        floor_from(e, c + 1, n)
    } else {
        c
    }
}

/// How many arenas a weight gets outright.
pub open spec fn base_count<F: Scalar>(n: int, w: [F; 3], i: int) -> int {
    floor_from(exact_share(n, w, i), 0, n)
}

/// The whole number at or below a share: `c` where the share lies from `c` to
/// below `c + 1`, a negative number where it is negative. No share that can be
/// served lies below -3.
pub open spec fn floor_value<F: Scalar>(e: F, c: int) -> F {
    if ge(e, num::<F>(0)) {
        number::<F>(c)
    } else if ge(e, num::<F>(-1)) {
        num::<F>(-1)
    } else if ge(e, num::<F>(-2)) {
        num::<F>(-2)
    } else {
        num::<F>(-3)
    }
}

/// The fraction that a weight is left with.
pub open spec fn remainder<F: Scalar>(n: int, w: [F; 3], i: int) -> F {
    let e = exact_share(n, w, i);
    minus(e, floor_value(e, base_count(n, w, i)))
}

/// Whether team size `j` is served before team size `i`: the larger remainder,
/// then the smaller team.
pub open spec fn served_before<F: Scalar>(n: int, w: [F; 3], j: int, i: int) -> bool {
    let (a, b) = (remainder(n, w, j), remainder(n, w, i));
    gt(a, b) || (!lt(a, b) && j < i)
}

/// How many team sizes are served before `i`.
pub open spec fn rank<F: Scalar>(n: int, w: [F; 3], i: int) -> int {
    (if i != 0 && served_before(n, w, 0, i) {
        1int
    } else {
        0
    }) + (if i != 1 && served_before(n, w, 1, i) {
        1int
    } else {
        0
    }) + (if i != 2 && served_before(n, w, 2, i) {
        1int
    } else {
        0
    })
}

/// How many arenas are left when every weight got its arenas outright.
pub open spec fn left_over<F: Scalar>(n: int, w: [F; 3]) -> int {
    n - base_count(n, w, 0) - base_count(n, w, 1) - base_count(n, w, 2)
}

/// How many arenas a weight gets.
pub open spec fn final_count<F: Scalar>(n: int, w: [F; 3], i: int) -> int {
    base_count(n, w, i) + if rank(n, w, i) < left_over(n, w) {
        1int
    } else {
        0
    }
}

/// `k` arenas of team size `size`.
pub open spec fn block(size: usize, k: int) -> Seq<usize> {
    Seq::new(k as nat, |i: int| size)
}

/// The team size of every arena: first the ones, then the twos, then the threes.
pub open spec fn allocated<F: Scalar>(n: int, w: [F; 3]) -> Seq<usize> {
    block(1, final_count(n, w, 0)) + block(2, final_count(n, w, 1)) + block(
        3,
        final_count(n, w, 2),
    )
}

/// The weights can be served: their sum is positive, none asks for more arenas
/// than there are, and together they do not either. A weight below zero asks for
/// none; that its share lies above -3 follows from the rest but for rounding.
pub open spec fn servable<F: Scalar>(n: int, w: [F; 3]) -> bool {
    &&& gt(plus(plus(w@[0], w@[1]), w@[2]), num::<F>(0))
    &&& forall|i: int|
        0 <= i < 3 ==> ge(#[trigger] exact_share(n, w, i), num::<F>(-3)) && !le(
            number::<F>(n + 1),
            exact_share(n, w, i),
        )
    &&& left_over(n, w) >= 0
}

proof fn lemma_floor_bounds<F: Scalar>(e: F, c: int, n: int)
    requires
        c <= n,
    ensures
        c <= floor_from(e, c, n) <= n,
    decreases n - c,
{
    if c < n && le(number::<F>(c + 1), e) {
        lemma_floor_bounds(e, c + 1, n);
    }
}

fn find_floor<F: Scalar>(e: F, n: usize) -> (c: usize)
    requires
        total::<F>(),
    ensures
        c == floor_from(e, 0, n as int),
        c <= n,
{
    let mut c: usize = 0;
    while c < n && number_at_most(c + 1, e)
        invariant
            c <= n,
            total::<F>(),
            floor_from(e, 0, n as int) == floor_from(e, c as int, n as int),
        decreases n - c,
    {
        c = c + 1;
    }
    c
}

fn number_at_most<F: Scalar>(k: usize, e: F) -> (r: bool)
    requires
        total::<F>(),
    ensures
        r == le(number::<F>(k as int), e),
{
    count::<F>(k as u64) <= e
}

fn floor_number<F: Scalar>(e: F, c: usize) -> (r: F)
    requires
        total::<F>(),
    ensures
        r == floor_value(e, c as int),
{
    let zero: F = whole(0);
    let minus_one: F = whole(-1);
    let minus_two: F = whole(-2);
    if e >= zero {
        count(c as u64)
    } else if e >= minus_one {
        minus_one
    } else if e >= minus_two {
        minus_two
    } else {
        whole(-3)
    }
}

fn is_served_before<F: Scalar>(a: F, b: F, smaller: bool) -> (r: bool)
    requires
        total::<F>(),
    ensures
        r == (gt(a, b) || (!lt(a, b) && smaller)),
{
    a > b || (!(a < b) && smaller)
}

fn push_block(out: &mut Vec<usize>, size: usize, k: usize)
    ensures
        final(out)@ == old(out)@ + block(size, k as int),
{
    let ghost start = out@;
    let mut i: usize = 0;
    while i < k
        invariant
            i <= k,
            out@ =~= start + block(size, i as int),
        decreases k - i,
    {
        out.push(size);
        i = i + 1;
    }
}

/// Whether the weights can be served.
pub fn can_serve<F: Scalar>(num_arenas: usize, weights: &[F; 3]) -> (r: bool)
    requires
        total::<F>(),
        num_arenas < usize::MAX,
    ensures
        r == servable(num_arenas as int, *weights),
{
    let ghost n = num_arenas as int;
    let sum: F = weights[0] + weights[1] + weights[2];
    let all: F = count(num_arenas as u64);
    let zero: F = whole(0);
    let least: F = whole(-3);
    let e0: F = weights[0] / sum * all;
    let e1: F = weights[1] / sum * all;
    let e2: F = weights[2] / sum * all;
    assert(e0 == exact_share(n, *weights, 0));
    assert(e1 == exact_share(n, *weights, 1));
    assert(e2 == exact_share(n, *weights, 2));
    if !(sum > zero && e0 >= least && e1 >= least && e2 >= least) {
        return false;
    }
    let above: usize = num_arenas + 1;
    if number_at_most(above, e0) || number_at_most(above, e1) || number_at_most(above, e2) {
        return false;
    }
    let c0: usize = find_floor(e0, num_arenas);
    let c1: usize = find_floor(e1, num_arenas);
    let c2: usize = find_floor(e2, num_arenas);
    c1 <= num_arenas - c0 && c2 <= num_arenas - c0 - c1
}

/// Divides the arenas among the team sizes 1, 2 and 3 in proportion to the
/// weights: whole shares first, then one arena each by largest remainder.
pub fn allocate_team_sizes<F: Scalar>(num_arenas: usize, weights: &[F; 3]) -> (out: Vec<usize>)
    requires
        total::<F>(),
        servable(num_arenas as int, *weights),
    ensures
        out@ == allocated(num_arenas as int, *weights),
{
    let ghost n = num_arenas as int;
    let sum: F = weights[0] + weights[1] + weights[2];
    let all: F = count(num_arenas as u64);
    let e0: F = weights[0] / sum * all;
    let e1: F = weights[1] / sum * all;
    let e2: F = weights[2] / sum * all;
    let c0: usize = find_floor(e0, num_arenas);
    let c1: usize = find_floor(e1, num_arenas);
    let c2: usize = find_floor(e2, num_arenas);
    assert(e0 == exact_share(n, *weights, 0));
    assert(e1 == exact_share(n, *weights, 1));
    assert(e2 == exact_share(n, *weights, 2));
    let short: usize = num_arenas - c0 - c1 - c2;
    let f0: F = e0 - floor_number(e0, c0);
    let f1: F = e1 - floor_number(e1, c1);
    let f2: F = e2 - floor_number(e2, c2);
    let r0: usize = bit_of(is_served_before(f1, f0, false)) + bit_of(
        is_served_before(f2, f0, false),
    );
    let r1: usize = bit_of(is_served_before(f0, f1, true)) + bit_of(
        is_served_before(f2, f1, false),
    );
    let r2: usize = bit_of(is_served_before(f0, f2, true)) + bit_of(is_served_before(f1, f2, true));
    let n0: usize = c0 + bit_of(r0 < short);
    let n1: usize = c1 + bit_of(r1 < short);
    let n2: usize = c2 + bit_of(r2 < short);
    let mut out: Vec<usize> = Vec::new();
    push_block(&mut out, 1, n0);
    assert(out@ =~= block(1, n0 as int));
    push_block(&mut out, 2, n1);
    push_block(&mut out, 3, n2);
    out
}

fn bit_of(b: bool) -> (r: usize)
    ensures
        r == if b {
            1int
        } else {
            0
        },
{
    if b {
        1
    } else {
        0
    }
}

/// Remainders that compare as numbers do.
pub open spec fn remainders_ordered<F: Scalar>(n: int, w: [F; 3]) -> bool {
    &&& forall|i: int, j: int|
        0 <= i < 3 && 0 <= j < 3 && i != j ==> (gt(
            #[trigger] remainder(n, w, i),
            #[trigger] remainder(n, w, j),
        ) <==> lt(remainder(n, w, j), remainder(n, w, i))) && !(gt(
            remainder(n, w, i),
            remainder(n, w, j),
        ) && lt(remainder(n, w, i), remainder(n, w, j)))
    &&& forall|i: int, j: int, k: int|
        0 <= i < 3 && 0 <= j < 3 && 0 <= k < 3 && !lt(
            #[trigger] remainder(n, w, i),
            #[trigger] remainder(n, w, j),
        ) && !lt(remainder(n, w, j), #[trigger] remainder(n, w, k)) ==> !lt(
            remainder(n, w, i),
            remainder(n, w, k),
        )
}

/// The blocks of team sizes come in ascending order.
pub proof fn law_sizes_ascend<F: Scalar>(n: int, w: [F; 3], i: int, j: int)
    requires
        0 <= n,
        0 <= i <= j < allocated(n, w).len(),
    ensures
        1 <= allocated(n, w)[i] <= allocated(n, w)[j] <= 3,
{
    lemma_floor_bounds(exact_share(n, w, 0), 0, n);
    lemma_floor_bounds(exact_share(n, w, 1), 0, n);
    lemma_floor_bounds(exact_share(n, w, 2), 0, n);
}

/// Where the remainders compare as numbers do and at most three arenas are left
/// over, every arena gets a team size.
pub proof fn law_every_arena_is_allocated<F: Scalar>(n: int, w: [F; 3])
    requires
        0 <= n,
        0 <= left_over(n, w) <= 3,
        remainders_ordered(n, w),
    ensures
        allocated(n, w).len() == n,
{
    lemma_floor_bounds(exact_share(n, w, 0), 0, n);
    lemma_floor_bounds(exact_share(n, w, 1), 0, n);
    lemma_floor_bounds(exact_share(n, w, 2), 0, n);
    let (a, b, c) = (remainder(n, w, 0), remainder(n, w, 1), remainder(n, w, 2));
    assert(gt(a, b) <==> lt(b, a));
    assert(gt(a, c) <==> lt(c, a));
    assert(gt(b, c) <==> lt(c, b));
    assert(gt(b, a) <==> lt(a, b));
    assert(gt(c, a) <==> lt(a, c));
    assert(gt(c, b) <==> lt(b, c));
    lemma_chain(n, w, 0, 1, 2);
    lemma_chain(n, w, 0, 2, 1);
    lemma_chain(n, w, 1, 0, 2);
    lemma_chain(n, w, 1, 2, 0);
    lemma_chain(n, w, 2, 0, 1);
    lemma_chain(n, w, 2, 1, 0);
}

proof fn lemma_chain<F: Scalar>(n: int, w: [F; 3], i: int, j: int, k: int)
    requires
        remainders_ordered(n, w),
        0 <= i < 3,
        0 <= j < 3,
        0 <= k < 3,
    ensures
        !lt(remainder(n, w, i), remainder(n, w, j)) && !lt(
            remainder(n, w, j),
            remainder(n, w, k),
        ) ==> !lt(remainder(n, w, i), remainder(n, w, k)),
{
}

/// How many worker threads to run: as many as asked for, or two fewer than the
/// machine has but at least one, four if that is not known; never more than
/// there are arenas.
pub open spec fn threads_for(asked: usize, available: Option<usize>, num_arenas: int) -> int {
    let want = if asked != 0 {
        asked as int
    } else {
        match available {
            Some(a) => if a > 3 {
                a - 2
            } else {
                1
            },
            None => 4,
        }
    };
    if want < num_arenas {
        want
    } else {
        num_arenas
    }
}

/// How many worker threads to run.
pub fn thread_count(asked: usize, available: Option<usize>, num_arenas: usize) -> (t: usize)
    ensures
        t == threads_for(asked, available, num_arenas as int),
{
    let want: usize = if asked != 0 {
        asked
    } else {
        match available {
            Some(a) => if a > 3 {
                a - 2
            } else {
                1
            },
            None => 4,
        }
    };
    if want < num_arenas {
        want
    } else {
        num_arenas
    }
}

/// How many arenas the first `t` of `threads` workers have: each takes an even
/// share of what is left.
pub open spec fn assigned_to(n: int, threads: int, t: int) -> int
    decreases t,
{
    if t <= 0 {
        0
    } else {
        let before = assigned_to(n, threads, t - 1);
        before + (n - before) / (threads - (t - 1))
    }
}

/// How many arenas each worker has.
pub open spec fn worker_shares(n: int, threads: int) -> Seq<usize> {
    Seq::new(
        threads as nat,
        |t: int| (assigned_to(n, threads, t + 1) - assigned_to(n, threads, t)) as usize,
    )
}

/// The first workers have `n / threads` arenas each; the last `n % threads`
/// workers have one more.
proof fn lemma_assigned(n: int, threads: int, t: int)
    requires
        0 <= n,
        0 < threads,
        0 <= t <= threads,
    ensures
        ({
            let q = n / threads;
            let plain = threads - n % threads;
            assigned_to(n, threads, t) == t * q + if t > plain {
                t - plain
            } else {
                0
            }
        }),
    decreases t,
{
    let q = n / threads;
    let r = n % threads;
    let plain = threads - r;
    vstd::arithmetic::div_mod::lemma_fundamental_div_mod(n, threads);
    if t > 0 {
        lemma_assigned(n, threads, t - 1);
        let before = assigned_to(n, threads, t - 1);
        let rest = threads - (t - 1);
        assert((t - 1) * q + q == t * q) by (nonlinear_arith);
        if t - 1 <= plain {
            assert(n - before == rest * q + r) by (nonlinear_arith)
                requires
                    n == threads * q + r,
                    before == (t - 1) * q,
                    rest == threads - (t - 1),
            ;
            if t - 1 < plain {
                vstd::arithmetic::div_mod::lemma_fundamental_div_mod_converse(
                    n - before,
                    rest,
                    q,
                    r,
                );
            } else {
                assert(rest == r);
                assert(n - before == rest * (q + 1) + 0) by (nonlinear_arith)
                    requires
                        n - before == rest * q + r,
                        rest == r,
                ;
                vstd::arithmetic::div_mod::lemma_fundamental_div_mod_converse(
                    n - before,
                    rest,
                    q + 1,
                    0,
                );
            }
        } else {
            assert(n - before == rest * (q + 1) + 0) by (nonlinear_arith)
                requires
                    n == threads * q + r,
                    before == (t - 1) * q + (t - 1 - plain),
                    plain == threads - r,
                    rest == threads - (t - 1),
            ;
            vstd::arithmetic::div_mod::lemma_fundamental_div_mod_converse(
                n - before,
                rest,
                q + 1,
                0,
            );
        }
    } else {
        assert(t * q == 0) by (nonlinear_arith)
            requires
                t == 0,
        ;
    }
}

/// The workers share the arenas evenly: every arena has a worker, no two workers
/// differ by more than one arena, and the larger shares come last.
pub proof fn law_even_split(n: int, threads: int, t: int)
    requires
        0 <= n,
        0 < threads,
        0 <= t < threads,
    ensures
        assigned_to(n, threads, threads) == n,
        assigned_to(n, threads, t + 1) - assigned_to(n, threads, t) == n / threads + if t
            >= threads - n % threads {
            1int
        } else {
            0
        },
        0 <= assigned_to(n, threads, t) <= assigned_to(n, threads, t + 1) <= n,
{
    lemma_assigned(n, threads, threads);
    lemma_assigned(n, threads, t);
    lemma_assigned(n, threads, t + 1);
    let q = n / threads;
    let r = n % threads;
    vstd::arithmetic::div_mod::lemma_fundamental_div_mod(n, threads);
    assert((t + 1) * q == t * q + q) by (nonlinear_arith);
    assert(0 <= t * q && (t + 1) * q <= threads * q) by (nonlinear_arith)
        requires
            0 <= t < threads,
            0 <= q,
    ;
    vstd::arithmetic::div_mod::lemma_div_pos_is_pos(n, threads);
}

/// Divides the arenas among the workers.
pub fn split_arenas(num_arenas: usize, threads: usize) -> (shares: Vec<usize>)
    ensures
        shares@ == worker_shares(num_arenas as int, threads as int),
{
    let mut shares: Vec<usize> = Vec::new();
    let mut assigned: usize = 0;
    let mut t: usize = 0;
    while t < threads
        invariant
            t <= threads,
            assigned <= num_arenas,
            assigned == assigned_to(num_arenas as int, threads as int, t as int),
            shares@ =~= worker_shares(num_arenas as int, threads as int).take(t as int),
        decreases threads - t,
    {
        proof {
            law_even_split(num_arenas as int, threads as int, t as int);
        }
        let share: usize = (num_arenas - assigned) / (threads - t);
        assigned = assigned + share;
        shares.push(share);
        t = t + 1;
    }
    assert(shares@ =~= worker_shares(num_arenas as int, threads as int));
    shares
}

/// Kickoff seed of an arena, by its place among all arenas.
pub open spec fn kickoff_seed(seed: u32, global_idx: int) -> int {
    (seed + global_idx) % 0x1_0000_0000
}

/// Kickoff seed of an arena, by its place among all arenas.
pub fn arena_seed(seed: u32, global_idx: usize) -> (s: u32)
    ensures
        s == kickoff_seed(seed, global_idx as int),
        s == (seed + global_idx) % 0x1_0000_0000,
{
    let low: u32 = (global_idx as u64 % 0x1_0000_0000) as u32;
    proof {
        vstd::arithmetic::div_mod::lemma_add_mod_noop_right(
            seed as int,
            global_idx as int,
            0x1_0000_0000,
        );
    }
    ((seed as u64 + low as u64) % 0x1_0000_0000) as u32
}

/// Seed of an arena's action sampler, by its place among all arenas.
pub open spec fn seed_of(seed: u32, global_idx: int) -> int {
    seed * 1_000_000 + global_idx
}

/// Seed of an arena's action sampler, by its place among all arenas.
pub fn sampler_seed(seed: u32, global_idx: usize) -> (s: u64)
    requires
        global_idx <= 0x7fff_ffff_ffff_ffff,
    ensures
        s == seed_of(seed, global_idx as int),
        s == seed * 1_000_000 + global_idx,
{
    seed as u64 * 1_000_000 + global_idx as u64
}

/// Different arenas sample from different seeds, however the arenas are spread
/// over workers.
pub proof fn law_sampler_seeds_differ(seed: u32, i: int, j: int)
    requires
        i != j,
    ensures
        seed_of(seed, i) != seed_of(seed, j),
{
}

/// The arenas of a run sample from seeds one after the other, and runs whose seeds
/// differ share none of them while they have at most a million arenas.
pub proof fn law_runs_sample_apart(seed: u32, other: u32, i: int, j: int)
    requires
        0 <= i < 1_000_000,
        0 <= j < 1_000_000,
        seed != other,
    ensures
        seed_of(seed, i + 1) == seed_of(seed, i) + 1,
        seed_of(0, i) == i,
        seed_of(seed, i) != seed_of(other, j),
{
}

/// The first arena kicks off from the seed of the run, and the others from the seeds
/// after it, around from the last seed to the first: no two alike among 2^32 arenas.
pub proof fn law_kickoff_seeds_follow(seed: u32, i: int, j: int)
    requires
        0 <= i < 0x1_0000_0000,
        0 <= j < 0x1_0000_0000,
    ensures
        kickoff_seed(seed, 0) == seed,
        kickoff_seed(seed, i + 1) == if kickoff_seed(seed, i) == u32::MAX {
            0
        } else {
            kickoff_seed(seed, i) + 1
        },
        i != j ==> kickoff_seed(seed, i) != kickoff_seed(seed, j),
{
}

} // verus!
