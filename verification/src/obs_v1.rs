//! Entity-set observations.
//!
//! An observation is a table of 17 entities with 26 features each, a mask that
//! tells which of them are absent, and a query row of 64 numbers. The slots are
//! fixed: the car itself, two teammates, three opponents, the ball, six big
//! pads, and four predicted balls.

use crate::ballpred::BallSnap;
use crate::obs::{boost_fraction, boost_share, lemma_concat, push_zeros, zeros};
use crate::order::{order_by_key, ordered_by_key};
use crate::pads::{pad_total, PAD_COUNT};
use crate::scalar::{bit, flag, frac, num, over, ratio, times, total, whole, Scalar};
use crate::schema::Normalization;
use crate::sim::{mir, mirrored, BallState, BoostPad, CarInfo, CarState, GameState, Team, Vec3};
use vstd::prelude::*;

verus! {

/// Entity slots of one observation.
pub const MAX_ENT: usize = 17;

/// Features of one entity.
pub const ENT_FEAT: usize = 26;

/// Features of the query row.
pub const Q_FEAT: usize = 64;

/// Remembered past actions.
pub const PREV_ACTIONS: usize = 5;

/// Slots for teammates.
pub const MAX_MATES: usize = 2;

/// Slots for opponents.
pub const MAX_OPPS: usize = 3;

/// Slots for big pads.
pub const MAX_BIG_PADS: usize = 6;

/// Slot of the car itself.
pub const SELF_IDX: usize = 0;

/// First slot of the teammates.
pub const MATES_START: usize = 1;

/// First slot of the opponents.
pub const OPPS_START: usize = 3;

/// Slot of the ball.
pub const BALL_IDX: usize = 6;

/// First slot of the big pads.
pub const PADS_START: usize = 7;

/// First slot of the predicted balls.
pub const PRED_START: usize = 13;

/// What an entity is. A predicted ball is told by its horizon, not by a type.
#[derive(Clone, Copy, Debug, PartialEq, Eq, Structural)]
pub enum EntityKind {
    SelfCar,
    Mate,
    Opponent,
    Ball,
    Pad,
    Prediction,
}

/// One entity before it is written out.
pub struct EntityRow<F> {
    pub kind: EntityKind,
    pub pos: Vec3<F>,
    pub vel: Vec3<F>,
    pub ang_vel: Vec3<F>,
    /// Heading of a car.
    pub fwd: Vec3<F>,
    /// Roof of a car.
    pub up: Vec3<F>,
    /// Boost of a car, timer of a pad.
    pub f20: F,
    /// A car on the ground, a pad that can be picked up.
    pub f21: F,
    /// A car with a flip or jump left.
    pub f22: F,
    /// A demolished car.
    pub f23: F,
    /// How far ahead a predicted ball is.
    pub horizon: F,
}

/// The coordinates of a vector.
pub open spec fn coords<F>(v: Vec3<F>) -> Seq<F> {
    seq![v.x, v.y, v.z]
}

/// The five type features.
pub open spec fn onehot<F: Scalar>(kind: EntityKind) -> Seq<F> {
    seq![
        bit::<F>(kind == EntityKind::SelfCar),
        bit::<F>(kind == EntityKind::Mate),
        bit::<F>(kind == EntityKind::Opponent),
        bit::<F>(kind == EntityKind::Ball),
        bit::<F>(kind == EntityKind::Pad),
    ]
}

/// The features of an entity.
pub open spec fn features<F: Scalar>(r: EntityRow<F>) -> Seq<F> {
    onehot::<F>(r.kind) + coords(r.pos) + coords(r.vel) + coords(r.ang_vel) + coords(r.fwd)
        + coords(r.up) + seq![r.f20, r.f21, r.f22, r.f23, r.horizon, num::<F>(0)]
}

/// A vector times a number.
pub open spec fn stretched<F: Scalar>(v: Vec3<F>, k: F) -> Vec3<F> {
    Vec3 { x: times(v.x, k), y: times(v.y, k), z: times(v.z, k) }
}

/// The zero vector.
pub open spec fn no_vec<F: Scalar>() -> Vec3<F> {
    Vec3 { x: num::<F>(0), y: num::<F>(0), z: num::<F>(0) }
}

/// A car as an entity.
pub open spec fn car_entity<F: Scalar>(
    kind: EntityKind,
    s: CarState<F>,
    m: bool,
    n: Normalization<F>,
) -> EntityRow<F> {
    EntityRow {
        kind,
        pos: stretched(mirrored(s.pos, m), n.pos_norm),
        vel: stretched(mirrored(s.vel, m), n.vel_norm),
        ang_vel: stretched(mirrored(s.ang_vel, m), n.ang_vel_norm),
        fwd: mirrored(s.rot_mat.forward, m),
        up: mirrored(s.rot_mat.up, m),
        f20: boost_share(s),
        f21: bit::<F>(s.is_on_ground),
        f22: bit::<F>(s.has_flip_or_jump),
        f23: bit::<F>(s.is_demoed),
        horizon: num::<F>(0),
    }
}

/// An entity without anything particular to cars.
pub open spec fn plain_entity<F: Scalar>(kind: EntityKind, pos: Vec3<F>) -> EntityRow<F> {
    EntityRow {
        kind,
        pos,
        vel: no_vec(),
        ang_vel: no_vec(),
        fwd: no_vec(),
        up: no_vec(),
        f20: num::<F>(0),
        f21: num::<F>(0),
        f22: num::<F>(0),
        f23: num::<F>(0),
        horizon: num::<F>(0),
    }
}

/// The ball as an entity.
pub open spec fn ball_entity<F: Scalar>(b: BallState<F>, m: bool, n: Normalization<F>) -> EntityRow<
    F,
> {
    EntityRow {
        vel: stretched(mirrored(b.vel, m), n.vel_norm),
        ang_vel: stretched(mirrored(b.ang_vel, m), n.ang_vel_norm),
        ..plain_entity(EntityKind::Ball, stretched(mirrored(b.pos, m), n.pos_norm))
    }
}

/// How long a pad stays empty, in tens of seconds.
pub open spec fn timer_share<F: Scalar>(p: BoostPad<F>) -> F {
    if p.is_active {
        num::<F>(0)
    } else {
        over(p.cooldown, num::<F>(10))
    }
}

/// A pad as an entity.
pub open spec fn pad_entity<F: Scalar>(p: BoostPad<F>, m: bool, n: Normalization<F>) -> EntityRow<
    F,
> {
    EntityRow {
        f20: timer_share(p),
        f21: bit::<F>(p.is_active),
        ..plain_entity(EntityKind::Pad, stretched(mirrored(p.position, m), n.pos_norm))
    }
}

/// A predicted ball as an entity; `slot` counts the horizons from 0.
pub open spec fn pred_entity<F: Scalar>(
    s: BallSnap<F>,
    m: bool,
    n: Normalization<F>,
    slot: int,
) -> EntityRow<F> {
    EntityRow {
        vel: stretched(mirrored(s.vel, m), n.vel_norm),
        horizon: times(num::<F>(slot + 1), frac::<F>(1, 4)),
        ..plain_entity(EntityKind::Prediction, stretched(mirrored(s.pos, m), n.pos_norm))
    }
}

/// The sort key of every car of the observer's team but itself, or of the other
/// team.
pub open spec fn side_keys<F>(cars: Seq<CarInfo<F>>, car_idx: int, mates: bool) -> Seq<
    Option<u64>,
> {
    Seq::new(
        cars.len(),
        |i: int|
            if i != car_idx && (cars[i].team == cars[car_idx].team) == mates {
                Some(cars[i].id as u64)
            } else {
                None
            },
    )
}

/// The teammates, or the opponents, by id.
pub open spec fn side_of<F>(cars: Seq<CarInfo<F>>, car_idx: int, mates: bool) -> Seq<usize> {
    ordered_by_key(side_keys(cars, car_idx, mates), cars.len() as int)
}

/// The first `k` slots of a side: its cars in order, then nothing.
pub open spec fn side_rows<F: Scalar>(
    cars: Seq<CarInfo<F>>,
    car_idx: int,
    mates: bool,
    n: Normalization<F>,
    k: int,
) -> Seq<Option<EntityRow<F>>> {
    let order = side_of(cars, car_idx, mates);
    let m = cars[car_idx].team == Team::Orange;
    Seq::new(
        k as nat,
        |i: int|
            if i < order.len() {
                Some(
                    car_entity(
                        if mates {
                            EntityKind::Mate
                        } else {
                            EntityKind::Opponent
                        },
                        cars[order[i] as int].state,
                        m,
                        n,
                    ),
                )
            } else {
                None
            },
    )
}

/// The big pads among the first `k` pads, in arena order.
pub open spec fn big_pads<F>(pads: Seq<BoostPad<F>>, k: int) -> Seq<usize>
    decreases k,
{
    if k <= 0 {
        Seq::empty()
    } else if pads[k - 1].is_big {
        big_pads(pads, k - 1).push((k - 1) as usize)
    } else {
        big_pads(pads, k - 1)
    }
}

/// The pad that fills pad slot `g`: the one that stands there as seen by the
/// observer's team.
pub open spec fn pad_source(perm: Seq<usize>, m: bool, g: int) -> int {
    if m {
        perm[g] as int
    } else {
        g
    }
}

/// The six pad slots.
pub open spec fn pad_rows<F: Scalar>(
    pads: Seq<BoostPad<F>>,
    perm: Seq<usize>,
    m: bool,
    n: Normalization<F>,
) -> Seq<Option<EntityRow<F>>> {
    let big = big_pads(pads, pads.len() as int);
    Seq::new(
        MAX_BIG_PADS as nat,
        |i: int|
            if i < big.len() {
                Some(pad_entity(pads[pad_source(perm, m, big[i] as int)], m, n))
            } else {
                None
            },
    )
}

/// The four slots of predicted balls.
pub open spec fn pred_rows<F: Scalar>(
    pred: [BallSnap<F>; 4],
    m: bool,
    n: Normalization<F>,
) -> Seq<Option<EntityRow<F>>> {
    Seq::new(4, |i: int| Some(pred_entity(pred@[i], m, n, i)))
}

/// The entities of an observation, slot by slot.
pub open spec fn entity_slots<F: Scalar>(
    state: GameState<F>,
    car_idx: int,
    pred: [BallSnap<F>; 4],
    perm: Seq<usize>,
    n: Normalization<F>,
) -> Seq<Option<EntityRow<F>>> {
    let cars = state.cars@;
    let me = cars[car_idx];
    let m = me.team == Team::Orange;
    seq![Some(car_entity(EntityKind::SelfCar, me.state, m, n))] + side_rows(
        cars,
        car_idx,
        true,
        n,
        MAX_MATES as int,
    ) + side_rows(cars, car_idx, false, n, MAX_OPPS as int) + seq![
        Some(ball_entity(state.ball, m, n)),
    ] + pad_rows(state.pads@, perm, m, n) + pred_rows(pred, m, n)
}

/// The features of a slot; zeros where it is empty.
pub open spec fn slot_features<F: Scalar>(slot: Option<EntityRow<F>>) -> Seq<F> {
    match slot {
        Some(r) => features(r),
        None => zeros::<F>(ENT_FEAT as int),
    }
}

/// The features of all slots, one after the other.
pub open spec fn all_features<F: Scalar>(slots: Seq<Option<EntityRow<F>>>) -> Seq<F>
    decreases slots.len(),
{
    if slots.len() == 0 {
        Seq::empty()
    } else {
        all_features(slots.drop_last()) + slot_features(slots.last())
    }
}

/// Which slots are empty.
pub open spec fn absent<F>(slots: Seq<Option<EntityRow<F>>>) -> Seq<bool> {
    slots.map_values(|s: Option<EntityRow<F>>| s is None)
}

/// The timers of the pads as seen by the observer's team.
pub open spec fn timer_row<F: Scalar>(pads: Seq<BoostPad<F>>, perm: Seq<usize>, m: bool) -> Seq<F> {
    Seq::new(
        PAD_COUNT as nat,
        |k: int|
            if k < pad_total(pads) {
                timer_share(pads[pad_source(perm, m, k)])
            } else {
                num::<F>(0)
            },
    )
}

/// The query row: the car itself, the pad timers, and four zeros.
pub open spec fn query_row<F: Scalar>(
    state: GameState<F>,
    car_idx: int,
    perm: Seq<usize>,
    n: Normalization<F>,
) -> Seq<F> {
    let me = state.cars@[car_idx];
    let m = me.team == Team::Orange;
    features(car_entity(EntityKind::SelfCar, me.state, m, n)) + timer_row(state.pads@, perm, m)
        + zeros::<F>(4)
}

/// An entity observation.
pub struct EntityObs<F> {
    pub ents: Vec<F>,
    /// Which entities are absent.
    pub mask: Vec<bool>,
    pub query: Vec<F>,
}

impl<F: Copy> Clone for EntityRow<F> {
    fn clone(&self) -> (r: Self)
        ensures
            r == *self,
    {
        *self
    }
}

impl<F: Copy> Copy for EntityRow<F> {

}

fn stretch<F: Scalar>(v: Vec3<F>, k: F) -> (r: Vec3<F>)
    requires
        total::<F>(),
    ensures
        r == stretched(v, k),
{
    Vec3 { x: v.x * k, y: v.y * k, z: v.z * k }
}

fn car_row<F: Scalar>(
    kind: EntityKind,
    s: &CarState<F>,
    m: bool,
    n: &Normalization<F>,
) -> (r: EntityRow<F>)
    requires
        total::<F>(),
    ensures
        r == car_entity(kind, *s, m, *n),
{
    EntityRow {
        kind,
        pos: stretch(mir(s.pos, m), n.pos_norm),
        vel: stretch(mir(s.vel, m), n.vel_norm),
        ang_vel: stretch(mir(s.ang_vel, m), n.ang_vel_norm),
        fwd: mir(s.rot_mat.forward, m),
        up: mir(s.rot_mat.up, m),
        f20: boost_fraction(s),
        f21: flag(s.is_on_ground),
        f22: flag(s.has_flip_or_jump),
        f23: flag(s.is_demoed),
        horizon: whole(0),
    }
}

fn plain_row<F: Scalar>(kind: EntityKind, pos: Vec3<F>) -> (r: EntityRow<F>)
    requires
        total::<F>(),
    ensures
        r == plain_entity(kind, pos),
{
    let z: F = whole(0);
    let none: Vec3<F> = Vec3 { x: z, y: z, z };
    EntityRow {
        kind,
        pos,
        vel: none,
        ang_vel: none,
        fwd: none,
        up: none,
        f20: z,
        f21: z,
        f22: z,
        f23: z,
        horizon: z,
    }
}

fn ball_row<F: Scalar>(b: &BallState<F>, m: bool, n: &Normalization<F>) -> (r: EntityRow<F>)
    requires
        total::<F>(),
    ensures
        r == ball_entity(*b, m, *n),
{
    let mut r: EntityRow<F> = plain_row(EntityKind::Ball, stretch(mir(b.pos, m), n.pos_norm));
    r.vel = stretch(mir(b.vel, m), n.vel_norm);
    r.ang_vel = stretch(mir(b.ang_vel, m), n.ang_vel_norm);
    r
}

fn timer_norm<F: Scalar>(p: &BoostPad<F>) -> (r: F)
    requires
        total::<F>(),
    ensures
        r == timer_share(*p),
{
    if p.is_active {
        whole(0)
    } else {
        let ten: F = whole(10);
        p.cooldown / ten
    }
}

fn pad_row<F: Scalar>(p: &BoostPad<F>, m: bool, n: &Normalization<F>) -> (r: EntityRow<F>)
    requires
        total::<F>(),
    ensures
        r == pad_entity(*p, m, *n),
{
    let mut r: EntityRow<F> = plain_row(EntityKind::Pad, stretch(mir(p.position, m), n.pos_norm));
    r.f20 = timer_norm(p);
    r.f21 = flag(p.is_active);
    r
}

fn pred_row<F: Scalar>(
    s: &BallSnap<F>,
    m: bool,
    n: &Normalization<F>,
    slot: i16,
) -> (r: EntityRow<F>)
    requires
        total::<F>(),
        0 <= slot < 4,
    ensures
        r == pred_entity(*s, m, *n, slot as int),
{
    let mut r: EntityRow<F> = plain_row(EntityKind::Prediction, stretch(mir(s.pos, m), n.pos_norm));
    r.vel = stretch(mir(s.vel, m), n.vel_norm);
    let k: F = whole(slot + 1);
    r.horizon = k * ratio(1, 4);
    r
}

impl<F: Scalar> EntityRow<F> {
    /// Appends the features.
    fn write(&self, out: &mut Vec<F>)
        requires
            total::<F>(),
        ensures
            final(out)@ == old(out)@ + features(*self),
            features(*self).len() == ENT_FEAT,
    {
        let ghost z = out@;
        out.push(flag(self.kind == EntityKind::SelfCar));
        out.push(flag(self.kind == EntityKind::Mate));
        out.push(flag(self.kind == EntityKind::Opponent));
        out.push(flag(self.kind == EntityKind::Ball));
        out.push(flag(self.kind == EntityKind::Pad));
        assert(out@ =~= z + onehot::<F>(self.kind));
        push_vec(out, self.pos);
        push_vec(out, self.vel);
        push_vec(out, self.ang_vel);
        push_vec(out, self.fwd);
        push_vec(out, self.up);
        let ghost late = out@;
        out.push(self.f20);
        out.push(self.f21);
        out.push(self.f22);
        out.push(self.f23);
        out.push(self.horizon);
        out.push(whole(0));
        proof {
            let tail = seq![
                self.f20,
                self.f21,
                self.f22,
                self.f23,
                self.horizon,
                num::<F>(0),
            ];
            assert(out@ =~= late + tail);
            let a = onehot::<F>(self.kind);
            let b = coords(self.pos);
            let c = coords(self.vel);
            let d = coords(self.ang_vel);
            let e = coords(self.fwd);
            let f = coords(self.up);
            lemma_concat(z, a, b);
            lemma_concat(z, a + b, c);
            lemma_concat(z, a + b + c, d);
            lemma_concat(z, a + b + c + d, e);
            lemma_concat(z, a + b + c + d + e, f);
            lemma_concat(z, a + b + c + d + e + f, tail);
        }
    }
}

fn push_vec<F: Scalar>(out: &mut Vec<F>, v: Vec3<F>)
    ensures
        final(out)@ == old(out)@ + coords(v),
{
    let ghost z = out@;
    out.push(v.x);
    out.push(v.y);
    out.push(v.z);
    assert(out@ =~= z + coords(v));
}

/// The teammates, or the opponents, by id.
fn order_side<F>(cars: &Vec<CarInfo<F>>, car_idx: usize, mates: bool) -> (order: Vec<usize>)
    requires
        car_idx < cars@.len(),
    ensures
        order@ == side_of(cars@, car_idx as int, mates),
        forall|a: int| 0 <= a < order@.len() ==> #[trigger] order@[a] < cars@.len(),
{
    let mut keys: Vec<Option<u64>> = Vec::new();
    let mut i: usize = 0;
    while i < cars.len()
        invariant
            i <= cars@.len(),
            car_idx < cars@.len(),
            keys@ =~= side_keys(cars@, car_idx as int, mates).take(i as int),
        decreases cars.len() - i,
    {
        if i != car_idx && (cars[i].team == cars[car_idx].team) == mates {
            keys.push(Some(cars[i].id as u64));
        } else {
            keys.push(None);
        }
        i = i + 1;
    }
    assert(keys@ =~= side_keys(cars@, car_idx as int, mates));
    order_by_key(&keys)
}

fn push_side<F: Scalar>(
    slots: &mut Vec<Option<EntityRow<F>>>,
    cars: &Vec<CarInfo<F>>,
    car_idx: usize,
    mates: bool,
    n: &Normalization<F>,
    k: usize,
)
    requires
        total::<F>(),
        car_idx < cars@.len(),
    ensures
        final(slots)@ == old(slots)@ + side_rows(cars@, car_idx as int, mates, *n, k as int),
{
    let ghost z = slots@;
    let m: bool = cars[car_idx].team == Team::Orange;
    let kind: EntityKind = if mates {
        EntityKind::Mate
    } else {
        EntityKind::Opponent
    };
    let order: Vec<usize> = order_side(cars, car_idx, mates);
    let mut i: usize = 0;
    while i < k
        invariant
            i <= k,
            total::<F>(),
            car_idx < cars@.len(),
            m == (cars@[car_idx as int].team == Team::Orange),
            kind == (if mates {
                EntityKind::Mate
            } else {
                EntityKind::Opponent
            }),
            order@ == side_of(cars@, car_idx as int, mates),
            forall|a: int| 0 <= a < order@.len() ==> #[trigger] order@[a] < cars@.len(),
            slots@ =~= z + side_rows(cars@, car_idx as int, mates, *n, i as int),
        decreases k - i,
    {
        if i < order.len() {
            assert(order@[i as int] < cars@.len());
            slots.push(Some(car_row(kind, &cars[order[i]].state, m, n)));
        } else {
            slots.push(None);
        }
        i = i + 1;
    }
}

/// The pads can be looked up through the permutation.
pub open spec fn perm_fits<F>(pads: Seq<BoostPad<F>>, perm: Seq<usize>) -> bool {
    &&& pads.len() <= PAD_COUNT
    &&& perm.len() == PAD_COUNT
    &&& forall|i: int| 0 <= i < pads.len() ==> #[trigger] perm[i] < pads.len()
}

fn find_big_pads<F>(pads: &Vec<BoostPad<F>>) -> (big: Vec<usize>)
    ensures
        big@ == big_pads(pads@, pads@.len() as int),
        forall|i: int| 0 <= i < big@.len() ==> #[trigger] big@[i] < pads@.len(),
{
    let mut big: Vec<usize> = Vec::new();
    let mut k: usize = 0;
    while k < pads.len()
        invariant
            k <= pads@.len(),
            big@ == big_pads(pads@, k as int),
            forall|i: int| 0 <= i < big@.len() ==> #[trigger] big@[i] < k,
        decreases pads.len() - k,
    {
        if pads[k].is_big {
            big.push(k);
        }
        k = k + 1;
    }
    big
}

fn push_pads<F: Scalar>(
    slots: &mut Vec<Option<EntityRow<F>>>,
    pads: &Vec<BoostPad<F>>,
    perm: &Vec<usize>,
    m: bool,
    n: &Normalization<F>,
)
    requires
        total::<F>(),
        perm_fits(pads@, perm@),
    ensures
        final(slots)@ == old(slots)@ + pad_rows(pads@, perm@, m, *n),
{
    let ghost z = slots@;
    let big: Vec<usize> = find_big_pads(pads);
    let mut i: usize = 0;
    while i < MAX_BIG_PADS
        invariant
            i <= MAX_BIG_PADS,
            total::<F>(),
            perm_fits(pads@, perm@),
            big@ == big_pads(pads@, pads@.len() as int),
            forall|j: int| 0 <= j < big@.len() ==> #[trigger] big@[j] < pads@.len(),
            slots@ =~= z + pad_rows(pads@, perm@, m, *n).take(i as int),
        decreases MAX_BIG_PADS - i,
    {
        if i < big.len() {
            let g: usize = big[i];
            assert(big@[i as int] < pads@.len());
            assert(perm@[g as int] < pads@.len());
            let src: usize = if m {
                perm[g]
            } else {
                g
            };
            slots.push(Some(pad_row(&pads[src], m, n)));
        } else {
            slots.push(None);
        }
        i = i + 1;
    }
    assert(pad_rows(pads@, perm@, m, *n).take(i as int) =~= pad_rows(pads@, perm@, m, *n));
}

fn push_preds<F: Scalar>(
    slots: &mut Vec<Option<EntityRow<F>>>,
    pred: &[BallSnap<F>; 4],
    m: bool,
    n: &Normalization<F>,
)
    requires
        total::<F>(),
    ensures
        final(slots)@ == old(slots)@ + pred_rows(*pred, m, *n),
{
    let ghost z = slots@;
    slots.push(Some(pred_row(&pred[0], m, n, 0)));
    slots.push(Some(pred_row(&pred[1], m, n, 1)));
    slots.push(Some(pred_row(&pred[2], m, n, 2)));
    slots.push(Some(pred_row(&pred[3], m, n, 3)));
    assert(slots@ =~= z + pred_rows(*pred, m, *n));
}

fn make_slots<F: Scalar>(
    state: &GameState<F>,
    car_idx: usize,
    pred: &[BallSnap<F>; 4],
    perm: &Vec<usize>,
    n: &Normalization<F>,
) -> (slots: Vec<Option<EntityRow<F>>>)
    requires
        total::<F>(),
        car_idx < state.cars@.len(),
        perm_fits(state.pads@, perm@),
    ensures
        slots@ == entity_slots(*state, car_idx as int, *pred, perm@, *n),
        slots@.len() == MAX_ENT,
{
    let me = &state.cars[car_idx];
    let m: bool = me.team == Team::Orange;
    let mut slots: Vec<Option<EntityRow<F>>> = Vec::new();
    slots.push(Some(car_row(EntityKind::SelfCar, &me.state, m, n)));
    assert(slots@ =~= seq![Some(car_entity(EntityKind::SelfCar, me.state, m, *n))]);
    push_side(&mut slots, &state.cars, car_idx, true, n, MAX_MATES);
    push_side(&mut slots, &state.cars, car_idx, false, n, MAX_OPPS);
    let ghost z = slots@;
    slots.push(Some(ball_row(&state.ball, m, n)));
    assert(slots@ =~= z + seq![Some(ball_entity(state.ball, m, *n))]);
    push_pads(&mut slots, &state.pads, perm, m, n);
    push_preds(&mut slots, pred, m, n);
    slots
}

fn push_timers<F: Scalar>(
    out: &mut Vec<F>,
    pads: &Vec<BoostPad<F>>,
    perm: &Vec<usize>,
    m: bool,
)
    requires
        total::<F>(),
        perm_fits(pads@, perm@),
    ensures
        final(out)@ == old(out)@ + timer_row(pads@, perm@, m),
{
    let ghost z = out@;
    let mut k: usize = 0;
    while k < PAD_COUNT
        invariant
            k <= PAD_COUNT,
            total::<F>(),
            perm_fits(pads@, perm@),
            out@ =~= z + timer_row(pads@, perm@, m).take(k as int),
        decreases PAD_COUNT - k,
    {
        if k < pads.len() {
            assert(perm@[k as int] < pads@.len());
            let src: usize = if m {
                perm[k]
            } else {
                k
            };
            out.push(timer_norm(&pads[src]));
        } else {
            out.push(whole(0));
        }
        k = k + 1;
    }
    assert(timer_row(pads@, perm@, m).take(k as int) =~= timer_row(pads@, perm@, m));
}

/// The entity observation of `state.cars[car_idx]`. `perm` tells which pad
/// stands where for the orange team.
pub fn build<F: Scalar>(
    state: &GameState<F>,
    car_idx: usize,
    pred: &[BallSnap<F>; 4],
    perm: &Vec<usize>,
    n: &Normalization<F>,
) -> (obs: EntityObs<F>)
    requires
        total::<F>(),
        car_idx < state.cars@.len(),
        perm_fits(state.pads@, perm@),
    ensures
        obs.ents@ == all_features(entity_slots(*state, car_idx as int, *pred, perm@, *n)),
        obs.mask@ == absent(entity_slots(*state, car_idx as int, *pred, perm@, *n)),
        obs.query@ == query_row(*state, car_idx as int, perm@, *n),
        obs.ents@.len() == MAX_ENT * ENT_FEAT,
        obs.mask@.len() == MAX_ENT,
        obs.query@.len() == Q_FEAT,
{
    let slots: Vec<Option<EntityRow<F>>> = make_slots(state, car_idx, pred, perm, n);
    let mut ents: Vec<F> = Vec::new();
    let mut mask: Vec<bool> = Vec::new();
    let mut i: usize = 0;
    assert(slots@.take(0) =~= Seq::empty());
    while i < slots.len()
        invariant
            i <= slots@.len(),
            total::<F>(),
            ents@ == all_features(slots@.take(i as int)),
            ents@.len() == i * ENT_FEAT,
            mask@ =~= absent(slots@.take(i as int)),
        decreases slots.len() - i,
    {
        proof {
            assert(slots@.take(i + 1).drop_last() =~= slots@.take(i as int));
            assert(slots@.take(i + 1).last() == slots@[i as int]);
        }
        match &slots[i] {
            Some(r) => {
                r.write(&mut ents);
                mask.push(false);
            },
            None => {
                push_zeros(&mut ents, ENT_FEAT);
                mask.push(true);
            },
        }
        i = i + 1;
    }
    assert(slots@.take(i as int) =~= slots@);
    let me = &state.cars[car_idx];
    let m: bool = me.team == Team::Orange;
    let mut query: Vec<F> = Vec::new();
    car_row(EntityKind::SelfCar, &me.state, m, n).write(&mut query);
    assert(query@ =~= features(car_entity(EntityKind::SelfCar, me.state, m, *n)));
    push_timers(&mut query, &state.pads, perm, m);
    push_zeros(&mut query, 4);
    EntityObs { ents, mask, query }
}

/// Empty slots are masked and all zeros.
pub proof fn law_empty_slots_are_zero<F: Scalar>(slots: Seq<Option<EntityRow<F>>>, i: int)
    requires
        0 <= i < slots.len(),
        slots[i] is None,
    ensures
        absent(slots)[i],
        all_features(slots).len() == slots.len() * ENT_FEAT,
        all_features(slots).subrange(i * ENT_FEAT, (i + 1) * ENT_FEAT) == zeros::<F>(
            ENT_FEAT as int,
        ),
{
    lemma_slot_at(slots, i);
}

/// Slot `i` takes the `i`-th run of features.
pub proof fn lemma_slot_at<F: Scalar>(slots: Seq<Option<EntityRow<F>>>, i: int)
    requires
        0 <= i < slots.len(),
    ensures
        all_features(slots).len() == slots.len() * ENT_FEAT,
        all_features(slots).subrange(i * ENT_FEAT, (i + 1) * ENT_FEAT) == slot_features(slots[i]),
    decreases slots.len(),
{
    lemma_features_len(slots);
    let head = slots.drop_last();
    lemma_features_len(head);
    if i < slots.len() - 1 {
        lemma_slot_at(head, i);
        assert(all_features(slots).subrange(i * ENT_FEAT, (i + 1) * ENT_FEAT) =~= all_features(
            head,
        ).subrange(i * ENT_FEAT, (i + 1) * ENT_FEAT));
    } else {
        assert(all_features(slots).subrange(i * ENT_FEAT, (i + 1) * ENT_FEAT) =~= slot_features(
            slots[i],
        ));
    }
}

proof fn lemma_features_len<F: Scalar>(slots: Seq<Option<EntityRow<F>>>)
    ensures
        all_features(slots).len() == slots.len() * ENT_FEAT,
    decreases slots.len(),
{
    if slots.len() > 0 {
        lemma_features_len(slots.drop_last());
    }
}

} // verus!
