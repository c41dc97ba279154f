//! Both teams see the same game.
//!
//! A field turned by half a turn, with the teams swapped, is the same game. Every
//! car must see the same in it. This holds for scalars in which a sign can be
//! moved freely, and in floating point up to the sign of a zero.

use crate::ballpred::BallSnap;
use crate::obs::{
    ball_part, difference, obs_row, other_keys, other_part, others_of, others_part, self_part,
    shown,
};
use crate::obs_v1::{
    big_pads, car_entity, entity_slots, pad_rows, pad_source, pred_rows, query_row, side_keys,
    side_of, side_rows, timer_row, EntityKind, MAX_MATES, MAX_OPPS,
};
use crate::order::law_order;
use crate::pads::PAD_COUNT;
use crate::scalar::{minus, opposite, Scalar};
use crate::schema::Normalization;
use crate::sim::{
    mirrored, BallState, BoostPad, CarInfo, CarState, GameState, RotMat, Team, Vec3,
};
use vstd::prelude::*;

verus! {

/// Turning a sign twice changes nothing.
pub open spec fn signs_cancel<F: Scalar>() -> bool {
    forall|x: F| #[trigger] opposite(opposite(x)) == x
}

/// The difference of turned numbers is the turned difference.
pub open spec fn differences_turn<F: Scalar>() -> bool {
    forall|a: F, b: F| #[trigger] minus(opposite(a), opposite(b)) == opposite(minus(a, b))
}

/// A vector in the turned field.
pub open spec fn turned<F: Scalar>(v: Vec3<F>) -> Vec3<F> {
    mirrored(v, true)
}

/// A car in the turned field.
pub open spec fn turned_car<F: Scalar>(s: CarState<F>) -> CarState<F> {
    CarState {
        pos: turned(s.pos),
        rot_mat: RotMat {
            forward: turned(s.rot_mat.forward),
            right: turned(s.rot_mat.right),
            up: turned(s.rot_mat.up),
        },
        vel: turned(s.vel),
        ang_vel: turned(s.ang_vel),
        ..s
    }
}

/// The ball in the turned field.
pub open spec fn turned_ball<F: Scalar>(b: BallState<F>) -> BallState<F> {
    BallState { pos: turned(b.pos), vel: turned(b.vel), ang_vel: turned(b.ang_vel) }
}

/// The cars in the turned field, each on the other team.
pub open spec fn turned_cars<F: Scalar>(cars: Seq<CarInfo<F>>) -> Seq<CarInfo<F>> {
    cars.map_values(
        |c: CarInfo<F>|
            CarInfo { id: c.id, team: c.team.opponent(), state: turned_car(c.state) },
    )
}

/// The pads in the turned field: pads keep their places in the list, so what
/// pad `k` was in is now the pad that `perm` pairs it with.
pub open spec fn pads_turned<F: Scalar>(
    pads: Seq<BoostPad<F>>,
    other: Seq<BoostPad<F>>,
    perm: Seq<usize>,
) -> bool {
    &&& pads.len() == other.len() <= PAD_COUNT
    &&& perm.len() == PAD_COUNT
    &&& forall|k: int|
        0 <= k < pads.len() ==> {
            let j = #[trigger] perm[k];
            &&& j < pads.len()
            &&& perm[j as int] == k
            &&& other[k].is_big == pads[k].is_big
            &&& other[j as int] == (BoostPad { position: turned(pads[k].position), ..pads[k] })
        }
}

proof fn lemma_turned_twice<F: Scalar>(v: Vec3<F>)
    requires
        signs_cancel::<F>(),
    ensures
        turned(turned(v)) == v,
{
    assert(opposite(opposite(v.x)) == v.x);
    assert(opposite(opposite(v.y)) == v.y);
}

/// What a team sees of a vector, the other team sees of the turned vector.
proof fn lemma_seen_alike<F: Scalar>(v: Vec3<F>, m: bool)
    requires
        signs_cancel::<F>(),
    ensures
        mirrored(turned(v), !m) == mirrored(v, m),
{
    lemma_turned_twice(v);
}

proof fn lemma_difference_turned<F: Scalar>(a: Vec3<F>, b: Vec3<F>)
    requires
        differences_turn::<F>(),
    ensures
        difference(turned(a), turned(b)) == turned(difference(a, b)),
{
    assert(minus(opposite(a.x), opposite(b.x)) == opposite(minus(a.x, b.x)));
    assert(minus(opposite(a.y), opposite(b.y)) == opposite(minus(a.y, b.y)));
}

proof fn lemma_others_alike<F: Scalar>(
    cars: Seq<CarInfo<F>>,
    car_idx: int,
    n: Normalization<F>,
    k: int,
)
    requires
        signs_cancel::<F>(),
        0 <= car_idx < cars.len(),
        k <= others_of(cars, car_idx).len(),
        others_of(turned_cars(cars), car_idx) == others_of(cars, car_idx),
        forall|i: int|
            0 <= i < others_of(cars, car_idx).len() ==> (#[trigger] others_of(cars, car_idx)[i])
                < cars.len(),
    ensures
        others_part(turned_cars(cars), car_idx, n, k) == others_part(cars, car_idx, n, k),
    decreases k,
{
    if k > 0 {
        lemma_others_alike(cars, car_idx, n, k - 1);
        let team = cars[car_idx].team;
        let m = team == Team::Orange;
        let j = others_of(cars, car_idx)[k - 1] as int;
        let c = cars[j];
        let d = turned_cars(cars)[j];
        lemma_seen_alike(c.state.pos, m);
        lemma_seen_alike(c.state.vel, m);
        lemma_seen_alike(c.state.rot_mat.forward, m);
        assert((d.team == team.opponent()) == (c.team == team));
        assert(other_part(d, team.opponent(), !m, n) == other_part(c, team, m, n));
    }
}

/// In the turned field, with the teams swapped, a car's flat observation is the
/// same.
pub proof fn law_teams_see_alike_flat<F: Scalar>(
    state: GameState<F>,
    other: GameState<F>,
    car_idx: int,
    n: Normalization<F>,
)
    requires
        signs_cancel::<F>(),
        differences_turn::<F>(),
        0 <= car_idx < state.cars@.len() <= usize::MAX,
        other.cars@ == turned_cars(state.cars@),
        other.ball == turned_ball(state.ball),
    ensures
        obs_row(other, car_idx, n) == obs_row(state, car_idx, n),
{
    let cars = state.cars@;
    let me = cars[car_idx];
    let m = me.team == Team::Orange;
    let b = state.ball;
    assert((other.cars@[car_idx].team == Team::Orange) == !m);
    assert(other_keys(turned_cars(cars), car_idx) =~= other_keys(cars, car_idx));
    law_order(other_keys(cars, car_idx), cars.len() as int);
    lemma_others_alike(cars, car_idx, n, shown(cars, car_idx));
    lemma_seen_alike(me.state.pos, m);
    lemma_seen_alike(me.state.rot_mat.forward, m);
    lemma_seen_alike(me.state.rot_mat.up, m);
    lemma_seen_alike(me.state.vel, m);
    lemma_seen_alike(me.state.ang_vel, m);
    assert(self_part(turned_car(me.state), !m, n) == self_part(me.state, m, n));
    lemma_seen_alike(b.pos, m);
    lemma_seen_alike(b.vel, m);
    lemma_seen_alike(b.ang_vel, m);
    lemma_difference_turned(b.pos, me.state.pos);
    lemma_difference_turned(b.vel, me.state.vel);
    lemma_seen_alike(difference(b.pos, me.state.pos), m);
    lemma_seen_alike(difference(b.vel, me.state.vel), m);
    assert(ball_part(turned_ball(b), turned_car(me.state), !m, n) == ball_part(b, me.state, m, n));
}

proof fn lemma_car_alike<F: Scalar>(
    kind: EntityKind,
    s: CarState<F>,
    m: bool,
    n: Normalization<F>,
)
    requires
        signs_cancel::<F>(),
    ensures
        car_entity(kind, turned_car(s), !m, n) == car_entity(kind, s, m, n),
{
    lemma_seen_alike(s.pos, m);
    lemma_seen_alike(s.vel, m);
    lemma_seen_alike(s.ang_vel, m);
    lemma_seen_alike(s.rot_mat.forward, m);
    lemma_seen_alike(s.rot_mat.up, m);
}

proof fn lemma_side_alike<F: Scalar>(
    cars: Seq<CarInfo<F>>,
    car_idx: int,
    mates: bool,
    n: Normalization<F>,
    k: int,
)
    requires
        signs_cancel::<F>(),
        0 <= car_idx < cars.len() <= usize::MAX,
    ensures
        side_rows(turned_cars(cars), car_idx, mates, n, k) == side_rows(
            cars,
            car_idx,
            mates,
            n,
            k,
        ),
{
    let there = turned_cars(cars);
    let m = cars[car_idx].team == Team::Orange;
    assert(side_keys(there, car_idx, mates) =~= side_keys(cars, car_idx, mates));
    law_order(side_keys(cars, car_idx, mates), cars.len() as int);
    let order = side_of(cars, car_idx, mates);
    assert forall|i: int| 0 <= i < k && i < order.len() implies side_rows(
        there,
        car_idx,
        mates,
        n,
        k,
    )[i] == side_rows(cars, car_idx, mates, n, k)[i] by {
        let kind = if mates {
            EntityKind::Mate
        } else {
            EntityKind::Opponent
        };
        lemma_car_alike(kind, cars[order[i] as int].state, m, n);
    }
    assert(side_rows(there, car_idx, mates, n, k) =~= side_rows(cars, car_idx, mates, n, k));
}

proof fn lemma_big_alike<F>(pads: Seq<BoostPad<F>>, other: Seq<BoostPad<F>>, k: int)
    requires
        0 <= k <= pads.len() == other.len() <= usize::MAX,
        forall|i: int| 0 <= i < k ==> other[i].is_big == pads[i].is_big,
    ensures
        big_pads(other, k) == big_pads(pads, k),
        forall|i: int| 0 <= i < big_pads(pads, k).len() ==> #[trigger] big_pads(pads, k)[i] < k,
    decreases k,
{
    if k > 0 {
        lemma_big_alike(pads, other, k - 1);
    }
}

/// The pad in slot `g` is seen alike by both teams.
proof fn lemma_pad_alike<F: Scalar>(
    pads: Seq<BoostPad<F>>,
    other: Seq<BoostPad<F>>,
    perm: Seq<usize>,
    m: bool,
    g: int,
)
    requires
        signs_cancel::<F>(),
        pads_turned(pads, other, perm),
        0 <= g < pads.len(),
    ensures
        ({
            let p = pads[pad_source(perm, m, g)];
            other[pad_source(perm, !m, g)] == (BoostPad { position: turned(p.position), ..p })
        }),
{
    let j = perm[g] as int;
    assert(perm[j] == g);
}

/// In the turned field, with the teams swapped, a car's entity observation is
/// the same, if the prediction is turned too.
pub proof fn law_teams_see_alike<F: Scalar>(
    state: GameState<F>,
    other: GameState<F>,
    car_idx: int,
    pred: [BallSnap<F>; 4],
    other_pred: [BallSnap<F>; 4],
    perm: Seq<usize>,
    n: Normalization<F>,
)
    requires
        signs_cancel::<F>(),
        0 <= car_idx < state.cars@.len() <= usize::MAX,
        other.cars@ == turned_cars(state.cars@),
        other.ball == turned_ball(state.ball),
        pads_turned(state.pads@, other.pads@, perm),
        forall|i: int|
            0 <= i < 4 ==> (#[trigger] other_pred@[i]).pos == turned(pred@[i].pos)
                && other_pred@[i].vel == turned(pred@[i].vel),
    ensures
        entity_slots(other, car_idx, other_pred, perm, n) == entity_slots(
            state,
            car_idx,
            pred,
            perm,
            n,
        ),
        query_row(other, car_idx, perm, n) == query_row(state, car_idx, perm, n),
{
    let cars = state.cars@;
    let pads = state.pads@;
    let me = cars[car_idx];
    let m = me.team == Team::Orange;
    let b = state.ball;
    assert((other.cars@[car_idx].team == Team::Orange) == !m);
    lemma_car_alike(EntityKind::SelfCar, me.state, m, n);
    lemma_side_alike(cars, car_idx, true, n, MAX_MATES as int);
    lemma_side_alike(cars, car_idx, false, n, MAX_OPPS as int);
    lemma_seen_alike(b.pos, m);
    lemma_seen_alike(b.vel, m);
    lemma_seen_alike(b.ang_vel, m);
    assert forall|i: int| 0 <= i < pads.len() implies other.pads@[i].is_big == pads[i].is_big by {
        let j = perm[i];
    }
    lemma_big_alike(pads, other.pads@, pads.len() as int);
    let big = big_pads(pads, pads.len() as int);
    assert forall|i: int| 0 <= i < big.len() && i < 6 implies pad_rows(
        other.pads@,
        perm,
        !m,
        n,
    )[i] == pad_rows(pads, perm, m, n)[i] by {
        let g = big[i] as int;
        lemma_pad_alike(pads, other.pads@, perm, m, g);
        lemma_seen_alike(pads[pad_source(perm, m, g)].position, m);
    }
    assert(pad_rows(other.pads@, perm, !m, n) =~= pad_rows(pads, perm, m, n));
    assert forall|i: int| 0 <= i < 4 implies pred_rows(other_pred, !m, n)[i] == pred_rows(
        pred,
        m,
        n,
    )[i] by {
        let q = other_pred@[i];
        lemma_seen_alike(pred@[i].pos, m);
        lemma_seen_alike(pred@[i].vel, m);
    }
    assert(pred_rows(other_pred, !m, n) =~= pred_rows(pred, m, n));
    assert forall|k: int| 0 <= k < pads.len() implies timer_row(other.pads@, perm, !m)[k]
        == timer_row(pads, perm, m)[k] by {
        lemma_pad_alike(pads, other.pads@, perm, m, k);
    }
    assert(timer_row(other.pads@, perm, !m) =~= timer_row(pads, perm, m));
}

} // verus!
