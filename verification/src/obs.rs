//! Flat observation rows.
//!
//! A row describes the arena from one car's point of view, as if it played for
//! blue: 19 numbers of its own, 15 of the ball, and 12 for each of up to five
//! other cars, teammates before opponents. Missing cars are zeros.

use crate::order::{comes_before, is_order, law_order, order_by_key, ordered_by_key};
use crate::schema::Normalization;
use crate::scalar::{
    bit, flag, minus, num, over, times, total, whole, Scalar,
};
use crate::sim::{mir, mirrored, BallState, CarInfo, CarState, GameState, Team, Vec3};
use vstd::prelude::*;

verus! {

/// Width of a flat observation row.
pub const OBS_SIZE: usize = 94;

/// Most other cars a flat observation row shows.
pub const MAX_OTHERS: usize = 5;

/// The three coordinates of `v`, each times `k`.
pub open spec fn scaled<F: Scalar>(v: Vec3<F>, k: F) -> Seq<F> {
    seq![times(v.x, k), times(v.y, k), times(v.z, k)]
}

/// The difference of two vectors.
pub open spec fn difference<F: Scalar>(a: Vec3<F>, b: Vec3<F>) -> Vec3<F> {
    Vec3 { x: minus(a.x, b.x), y: minus(a.y, b.y), z: minus(a.z, b.z) }
}

/// `n` zeros.
pub open spec fn zeros<F: Scalar>(n: int) -> Seq<F> {
    Seq::new(n as nat, |i: int| num::<F>(0))
}

/// Boost in the tank from 0 to 1.
pub open spec fn boost_share<F: Scalar>(s: CarState<F>) -> F {
    over(s.boost, num::<F>(100))
}

/// What a row says of the car itself.
pub open spec fn self_part<F: Scalar>(s: CarState<F>, m: bool, n: Normalization<F>) -> Seq<F> {
    scaled(mirrored(s.pos, m), n.pos_norm) + scaled(mirrored(s.rot_mat.forward, m), num::<F>(1))
        + scaled(mirrored(s.rot_mat.up, m), num::<F>(1)) + scaled(mirrored(s.vel, m), n.vel_norm)
        + scaled(mirrored(s.ang_vel, m), n.ang_vel_norm) + seq![
        boost_share(s),
        bit::<F>(s.is_on_ground),
        bit::<F>(s.has_flip_or_jump),
        bit::<F>(s.is_demoed),
    ]
}

/// What a row says of the ball.
pub open spec fn ball_part<F: Scalar>(
    b: BallState<F>,
    s: CarState<F>,
    m: bool,
    n: Normalization<F>,
) -> Seq<F> {
    scaled(mirrored(b.pos, m), n.pos_norm) + scaled(mirrored(b.vel, m), n.vel_norm) + scaled(
        mirrored(b.ang_vel, m),
        n.ang_vel_norm,
    ) + scaled(mirrored(difference(b.pos, s.pos), m), n.pos_norm) + scaled(
        mirrored(difference(b.vel, s.vel), m),
        n.vel_norm,
    )
}

/// What a row says of another car.
pub open spec fn other_part<F: Scalar>(
    c: CarInfo<F>,
    team: Team,
    m: bool,
    n: Normalization<F>,
) -> Seq<F> {
    scaled(mirrored(c.state.pos, m), n.pos_norm) + scaled(mirrored(c.state.vel, m), n.vel_norm)
        + scaled(mirrored(c.state.rot_mat.forward, m), num::<F>(1)) + seq![
        boost_share(c.state),
        bit::<F>(c.team == team),
        bit::<F>(!c.state.is_demoed),
    ]
}

/// The sort key of every car but the observer: teammates before opponents, each
/// by id.
pub open spec fn other_keys<F>(cars: Seq<CarInfo<F>>, car_idx: int) -> Seq<Option<u64>> {
    Seq::new(
        cars.len(),
        |i: int|
            if i == car_idx {
                None
            } else if cars[i].team == cars[car_idx].team {
                Some(cars[i].id as u64)
            } else {
                Some((cars[i].id + 0x1_0000_0000) as u64)
            },
    )
}

/// The other cars in the order in which they are shown.
pub open spec fn others_of<F>(cars: Seq<CarInfo<F>>, car_idx: int) -> Seq<usize> {
    ordered_by_key(other_keys(cars, car_idx), cars.len() as int)
}

/// What a row says of the first `k` other cars.
pub open spec fn others_part<F: Scalar>(
    cars: Seq<CarInfo<F>>,
    car_idx: int,
    n: Normalization<F>,
    k: int,
) -> Seq<F>
    decreases k,
{
    if k <= 0 {
        Seq::empty()
    } else {
        let team = cars[car_idx].team;
        others_part(cars, car_idx, n, k - 1) + other_part(
            cars[others_of(cars, car_idx)[k - 1] as int],
            team,
            team == Team::Orange,
            n,
        )
    }
}

/// How many other cars a row shows.
pub open spec fn shown<F>(cars: Seq<CarInfo<F>>, car_idx: int) -> int {
    let n = others_of(cars, car_idx).len() as int;
    if n < MAX_OTHERS {
        n
    } else {
        MAX_OTHERS as int
    }
}

/// The flat observation of a car.
pub open spec fn obs_row<F: Scalar>(
    state: GameState<F>,
    car_idx: int,
    n: Normalization<F>,
) -> Seq<F> {
    let me = state.cars@[car_idx];
    let m = me.team == Team::Orange;
    let k = shown(state.cars@, car_idx);
    self_part(me.state, m, n) + ball_part(state.ball, me.state, m, n) + others_part(
        state.cars@,
        car_idx,
        n,
        k,
    ) + zeros::<F>(60 - 12 * k)
}

/// Appends the three coordinates of `v`, each times `k`.
pub fn push3<F: Scalar>(out: &mut Vec<F>, v: Vec3<F>, k: F)
    requires
        total::<F>(),
    ensures
        final(out)@ == old(out)@ + scaled(v, k),
{
    let ghost start = out@;
    out.push(v.x * k);
    out.push(v.y * k);
    out.push(v.z * k);
    assert(out@ =~= start + scaled(v, k));
}

/// Appends three numbers.
pub fn push_three<F: Scalar>(out: &mut Vec<F>, a: F, b: F, c: F)
    ensures
        final(out)@ == old(out)@ + seq![a, b, c],
{
    let ghost start = out@;
    out.push(a);
    out.push(b);
    out.push(c);
    assert(out@ =~= start + seq![a, b, c]);
}

/// Appends four numbers.
pub fn push_four<F: Scalar>(out: &mut Vec<F>, a: F, b: F, c: F, d: F)
    ensures
        final(out)@ == old(out)@ + seq![a, b, c, d],
{
    let ghost start = out@;
    out.push(a);
    out.push(b);
    out.push(c);
    out.push(d);
    assert(out@ =~= start + seq![a, b, c, d]);
}

/// Concatenation is associative.
pub proof fn lemma_concat<T>(a: Seq<T>, b: Seq<T>, c: Seq<T>)
    ensures
        a + (b + c) == (a + b) + c,
{
    assert(a + (b + c) =~= (a + b) + c);
}

/// Appends `n` zeros.
pub fn push_zeros<F: Scalar>(out: &mut Vec<F>, n: usize)
    requires
        total::<F>(),
    ensures
        final(out)@ == old(out)@ + zeros::<F>(n as int),
{
    let ghost start = out@;
    let mut i: usize = 0;
    while i < n
        invariant
            i <= n,
            total::<F>(),
            out@ =~= start + zeros::<F>(i as int),
        decreases n - i,
    {
        out.push(whole(0));
        i = i + 1;
    }
}

/// The difference of two vectors.
pub fn sub_vec<F: Scalar>(a: Vec3<F>, b: Vec3<F>) -> (r: Vec3<F>)
    requires
        total::<F>(),
    ensures
        r == difference(a, b),
{
    Vec3 { x: a.x - b.x, y: a.y - b.y, z: a.z - b.z }
}

/// Boost in the tank from 0 to 1.
pub fn boost_fraction<F: Scalar>(s: &CarState<F>) -> (r: F)
    requires
        total::<F>(),
    ensures
        r == boost_share(*s),
{
    let full: F = whole(100);
    s.boost / full
}

fn push_self<F: Scalar>(out: &mut Vec<F>, s: &CarState<F>, m: bool, n: &Normalization<F>)
    requires
        total::<F>(),
    ensures
        final(out)@ == old(out)@ + self_part(*s, m, *n),
{
    let ghost z = out@;
    let one: F = whole(1);
    push3(out, mir(s.pos, m), n.pos_norm);
    push3(out, mir(s.rot_mat.forward, m), one);
    push3(out, mir(s.rot_mat.up, m), one);
    push3(out, mir(s.vel, m), n.vel_norm);
    push3(out, mir(s.ang_vel, m), n.ang_vel_norm);
    push_four(
        out,
        boost_fraction(s),
        flag(s.is_on_ground),
        flag(s.has_flip_or_jump),
        flag(s.is_demoed),
    );
    proof {
        let a = scaled(mirrored(s.pos, m), n.pos_norm);
        let b = scaled(mirrored(s.rot_mat.forward, m), num::<F>(1));
        let c = scaled(mirrored(s.rot_mat.up, m), num::<F>(1));
        let d = scaled(mirrored(s.vel, m), n.vel_norm);
        let e = scaled(mirrored(s.ang_vel, m), n.ang_vel_norm);
        let f = seq![
            boost_share(*s),
            bit::<F>(s.is_on_ground),
            bit::<F>(s.has_flip_or_jump),
            bit::<F>(s.is_demoed),
        ];
        lemma_concat(z, a, b);
        lemma_concat(z, a + b, c);
        lemma_concat(z, a + b + c, d);
        lemma_concat(z, a + b + c + d, e);
        lemma_concat(z, a + b + c + d + e, f);
    }
}

fn push_ball<F: Scalar>(
    out: &mut Vec<F>,
    b: &BallState<F>,
    s: &CarState<F>,
    m: bool,
    n: &Normalization<F>,
)
    requires
        total::<F>(),
    ensures
        final(out)@ == old(out)@ + ball_part(*b, *s, m, *n),
{
    let ghost z = out@;
    push3(out, mir(b.pos, m), n.pos_norm);
    push3(out, mir(b.vel, m), n.vel_norm);
    push3(out, mir(b.ang_vel, m), n.ang_vel_norm);
    push3(out, mir(sub_vec(b.pos, s.pos), m), n.pos_norm);
    push3(out, mir(sub_vec(b.vel, s.vel), m), n.vel_norm);
    proof {
        let p = scaled(mirrored(b.pos, m), n.pos_norm);
        let v = scaled(mirrored(b.vel, m), n.vel_norm);
        let w = scaled(mirrored(b.ang_vel, m), n.ang_vel_norm);
        let rp = scaled(mirrored(difference(b.pos, s.pos), m), n.pos_norm);
        let rv = scaled(mirrored(difference(b.vel, s.vel), m), n.vel_norm);
        lemma_concat(z, p, v);
        lemma_concat(z, p + v, w);
        lemma_concat(z, p + v + w, rp);
        lemma_concat(z, p + v + w + rp, rv);
    }
}

fn push_other<F: Scalar>(
    out: &mut Vec<F>,
    c: &CarInfo<F>,
    team: Team,
    m: bool,
    n: &Normalization<F>,
)
    requires
        total::<F>(),
    ensures
        final(out)@ == old(out)@ + other_part(*c, team, m, *n),
{
    let ghost z = out@;
    push3(out, mir(c.state.pos, m), n.pos_norm);
    push3(out, mir(c.state.vel, m), n.vel_norm);
    push3(out, mir(c.state.rot_mat.forward, m), whole(1));
    push_three(out, boost_fraction(&c.state), flag(c.team == team), flag(!c.state.is_demoed));
    proof {
        let p = scaled(mirrored(c.state.pos, m), n.pos_norm);
        let v = scaled(mirrored(c.state.vel, m), n.vel_norm);
        let d = scaled(mirrored(c.state.rot_mat.forward, m), num::<F>(1));
        let f = seq![
            boost_share(c.state),
            bit::<F>(c.team == team),
            bit::<F>(!c.state.is_demoed),
        ];
        lemma_concat(z, p, v);
        lemma_concat(z, p + v, d);
        lemma_concat(z, p + v + d, f);
    }
}

/// The other cars in the order in which they are shown.
pub fn order_others<F>(cars: &Vec<CarInfo<F>>, car_idx: usize) -> (order: Vec<usize>)
    requires
        car_idx < cars@.len(),
    ensures
        order@ == others_of(cars@, car_idx as int),
        is_order(other_keys(cars@, car_idx as int), order@, cars@.len() as int),
        order@.len() <= cars@.len(),
{
    let mut keys: Vec<Option<u64>> = Vec::new();
    let mut i: usize = 0;
    while i < cars.len()
        invariant
            i <= cars@.len(),
            car_idx < cars@.len(),
            keys@ =~= other_keys(cars@, car_idx as int).take(i as int),
        decreases cars.len() - i,
    {
        if i == car_idx {
            keys.push(None);
        } else if cars[i].team == cars[car_idx].team {
            keys.push(Some(cars[i].id as u64));
        } else {
            keys.push(Some(cars[i].id as u64 + 0x1_0000_0000));
        }
        i = i + 1;
    }
    assert(keys@ =~= other_keys(cars@, car_idx as int));
    order_by_key(&keys)
}

/// Every part of a row has its fixed width.
proof fn lemma_others_len<F: Scalar>(
    cars: Seq<CarInfo<F>>,
    car_idx: int,
    n: Normalization<F>,
    k: int,
)
    requires
        0 <= k,
    ensures
        others_part(cars, car_idx, n, k).len() == 12 * k,
    decreases k,
{
    if k > 0 {
        lemma_others_len(cars, car_idx, n, k - 1);
    }
}

/// The flat observation of `state.cars[car_idx]`.
pub fn build_obs<F: Scalar>(
    state: &GameState<F>,
    car_idx: usize,
    n: &Normalization<F>,
) -> (out: Vec<F>)
    requires
        total::<F>(),
        car_idx < state.cars@.len(),
    ensures
        out@ == obs_row(*state, car_idx as int, *n),
        out@.len() == OBS_SIZE,
{
    let me = &state.cars[car_idx];
    let m: bool = me.team == Team::Orange;
    let mut out: Vec<F> = Vec::new();
    push_self(&mut out, &me.state, m, n);
    push_ball(&mut out, &state.ball, &me.state, m, n);
    let order: Vec<usize> = order_others(&state.cars, car_idx);
    let ghost head = out@;
    let ghost cars = state.cars@;
    let mut k: usize = 0;
    assert(head + others_part(cars, car_idx as int, *n, 0) =~= head);
    while k < order.len() && k < MAX_OTHERS
        invariant
            k <= order@.len(),
            k <= MAX_OTHERS,
            total::<F>(),
            car_idx < state.cars@.len(),
            cars == state.cars@,
            *me == cars[car_idx as int],
            m == (me.team == Team::Orange),
            order@ == others_of(cars, car_idx as int),
            is_order(other_keys(cars, car_idx as int), order@, cars.len() as int),
            out@ =~= head + others_part(cars, car_idx as int, *n, k as int),
        decreases MAX_OTHERS - k,
    {
        assert(order@[k as int] < cars.len());
        push_other(&mut out, &state.cars[order[k]], me.team, m, n);
        k = k + 1;
    }
    proof {
        lemma_others_len(cars, car_idx as int, *n, k as int);
    }
    push_zeros(&mut out, 60 - 12 * k);
    assert(out@ =~= obs_row(*state, car_idx as int, *n));
    out
}

/// Exactly the other cars are in the order, each once: all teammates before all
/// opponents, each by ascending id.
pub proof fn law_others_order<F>(cars: Seq<CarInfo<F>>, car_idx: int)
    requires
        0 <= car_idx < cars.len() <= usize::MAX,
    ensures
        ({
            let order = others_of(cars, car_idx);
            let team = cars[car_idx].team;
            &&& forall|i: int|
                0 <= i < cars.len() ==> (order.contains(#[trigger] (i as usize)) <==> i != car_idx)
            &&& forall|a: int, b: int|
                0 <= a < b < order.len() ==> {
                    let (x, y) = (#[trigger] order[a], #[trigger] order[b]);
                    &&& x != y
                    &&& x < cars.len() && y < cars.len()
                    &&& (cars[x as int].team != team ==> cars[y as int].team != team)
                    &&& (cars[x as int].team == cars[y as int].team ==> cars[x as int].id
                        <= cars[y as int].id)
                }
        }),
{
    let keys = other_keys(cars, car_idx);
    law_order(keys, cars.len() as int);
    let order = others_of(cars, car_idx);
    let team = cars[car_idx].team;
    assert forall|i: int| 0 <= i < cars.len() implies (order.contains(#[trigger] (i as usize))
        <==> i != car_idx) by {
        if order.contains(i as usize) {
            let a = choose|a: int| 0 <= a < order.len() && order[a] == i as usize;
            assert(keys[order[a] as int] is Some);
        }
        if i != car_idx {
            assert(keys[i] is Some);
        }
    }
    assert forall|a: int, b: int| 0 <= a < b < order.len() implies {
        let (x, y) = (#[trigger] order[a], #[trigger] order[b]);
        &&& x != y
        &&& x < cars.len() && y < cars.len()
        &&& (cars[x as int].team != team ==> cars[y as int].team != team)
        &&& (cars[x as int].team == cars[y as int].team ==> cars[x as int].id
            <= cars[y as int].id)
    } by {
        assert(order[a] < cars.len() && order[b] < cars.len());
        assert(comes_before(keys, order[a], order[b]));
    }
}

} // verus!
