//! What observations show, number by number.
//!
//! A team plays as if it were blue: orange sees the field turned by half a turn,
//! so that the first two coordinates of everything change their sign.

use crate::ballpred::BallSnap;
use crate::obs::{
    ball_part, law_others_order, obs_row, other_keys, other_part, others_of, others_part, self_part,
    shown, zeros,
};
use crate::obs_v1::{
    absent, all_features, ball_entity, big_pads, car_entity, entity_slots, features,
    lemma_slot_at, pad_entity, pad_source, pred_entity, query_row, side_keys, side_of,
    slot_features, timer_row, EntityKind, EntityRow,
};
use crate::order::{comes_before, law_order};
use crate::scalar::{minus, num, opposite, over, times, Scalar};
use crate::schema::Normalization;
use crate::sim::{BallState, BoostPad, CarInfo, CarState, GameState, Team, Vec3};
use vstd::prelude::*;

verus! {

/// The three numbers from `at` on are the coordinates of `v` as the team sees
/// them, each times `k`.
pub open spec fn shows<F: Scalar>(row: Seq<F>, at: int, v: Vec3<F>, orange: bool, k: F) -> bool {
    &&& row[at] == times(
        if orange {
            opposite(v.x)
        } else {
            v.x
        },
        k,
    )
    &&& row[at + 1] == times(
        if orange {
            opposite(v.y)
        } else {
            v.y
        },
        k,
    )
    &&& row[at + 2] == times(v.z, k)
}

/// The three numbers from `at` on are the coordinates of `v` as the team sees
/// them.
pub open spec fn shows_plain<F: Scalar>(row: Seq<F>, at: int, v: Vec3<F>, orange: bool) -> bool {
    &&& row[at] == if orange {
        opposite(v.x)
    } else {
        v.x
    }
    &&& row[at + 1] == if orange {
        opposite(v.y)
    } else {
        v.y
    }
    &&& row[at + 2] == v.z
}

/// The number is 1 where `b` holds and 0 where it does not.
pub open spec fn tells<F: Scalar>(x: F, b: bool) -> bool {
    x == if b {
        num::<F>(1)
    } else {
        num::<F>(0)
    }
}

/// The numbers from `from` up to but not including `to` are zero.
pub open spec fn blank<F: Scalar>(row: Seq<F>, from: int, to: int) -> bool {
    forall|i: int| from <= i < to ==> #[trigger] row[i] == num::<F>(0)
}

proof fn lemma_self_part<F: Scalar>(s: CarState<F>, m: bool, n: Normalization<F>)
    ensures
        ({
            let r = self_part(s, m, n);
            &&& r.len() == 19
            &&& shows(r, 0, s.pos, m, n.pos_norm)
            &&& shows(r, 3, s.rot_mat.forward, m, num::<F>(1))
            &&& shows(r, 6, s.rot_mat.up, m, num::<F>(1))
            &&& shows(r, 9, s.vel, m, n.vel_norm)
            &&& shows(r, 12, s.ang_vel, m, n.ang_vel_norm)
            &&& r[15] == over(s.boost, num::<F>(100))
            &&& tells(r[16], s.is_on_ground)
            &&& tells(r[17], s.has_flip_or_jump)
            &&& tells(r[18], s.is_demoed)
        }),
{
}

proof fn lemma_ball_part<F: Scalar>(b: BallState<F>, s: CarState<F>, m: bool, n: Normalization<F>)
    ensures
        ({
            let r = ball_part(b, s, m, n);
            &&& r.len() == 15
            &&& shows(r, 0, b.pos, m, n.pos_norm)
            &&& shows(r, 3, b.vel, m, n.vel_norm)
            &&& shows(r, 6, b.ang_vel, m, n.ang_vel_norm)
            &&& shows(r, 9, from_to(s.pos, b.pos), m, n.pos_norm)
            &&& shows(r, 12, from_to(s.vel, b.vel), m, n.vel_norm)
        }),
{
}

/// What has to be added to `a` to get `b`.
pub open spec fn from_to<F: Scalar>(a: Vec3<F>, b: Vec3<F>) -> Vec3<F> {
    Vec3 {
        x: minus(b.x, a.x),
        y: minus(b.y, a.y),
        z: minus(b.z, a.z),
    }
}

proof fn lemma_other_part<F: Scalar>(c: CarInfo<F>, team: Team, m: bool, n: Normalization<F>)
    ensures
        ({
            let r = other_part(c, team, m, n);
            &&& r.len() == 12
            &&& shows(r, 0, c.state.pos, m, n.pos_norm)
            &&& shows(r, 3, c.state.vel, m, n.vel_norm)
            &&& shows(r, 6, c.state.rot_mat.forward, m, num::<F>(1))
            &&& r[9] == over(c.state.boost, num::<F>(100))
            &&& tells(r[10], c.team == team)
            &&& tells(r[11], !c.state.is_demoed)
        }),
{
}

proof fn lemma_others_at<F: Scalar>(
    cars: Seq<CarInfo<F>>,
    car_idx: int,
    n: Normalization<F>,
    upto: int,
    k: int,
)
    requires
        0 <= k < upto,
    ensures
        ({
            let team = cars[car_idx].team;
            let c = cars[others_of(cars, car_idx)[k] as int];
            &&& others_part(cars, car_idx, n, upto).len() == 12 * upto
            &&& others_part(cars, car_idx, n, upto).subrange(12 * k, 12 * k + 12) == other_part(
                c,
                team,
                team == Team::Orange,
                n,
            )
        }),
    decreases upto,
{
    let team = cars[car_idx].team;
    let m = team == Team::Orange;
    let last = cars[others_of(cars, car_idx)[upto - 1] as int];
    lemma_other_part(last, team, m, n);
    let all = others_part(cars, car_idx, n, upto);
    let before = others_part(cars, car_idx, n, upto - 1);
    if upto > 1 {
        lemma_others_at(
            cars,
            car_idx,
            n,
            upto - 1,
            if k < upto - 1 {
                k
            } else {
                0
            },
        );
    } else {
        assert(before =~= Seq::empty());
    }
    if k < upto - 1 {
        assert(all.subrange(12 * k, 12 * k + 12) =~= before.subrange(12 * k, 12 * k + 12));
    } else {
        assert(all.subrange(12 * k, 12 * k + 12) =~= other_part(last, team, m, n));
    }
}

/// The first 34 numbers of a flat observation: the car's own position, heading,
/// roof, velocity, spin, boost and state, then the ball's position, velocity and
/// spin, and its position and velocity less the car's.
pub proof fn law_flat_rows_show_car_and_ball<F: Scalar>(
    state: GameState<F>,
    car_idx: int,
    n: Normalization<F>,
)
    requires
        0 <= car_idx < state.cars@.len(),
    ensures
        ({
            let r = obs_row(state, car_idx, n);
            let me = state.cars@[car_idx].state;
            let ball = state.ball;
            let o = state.cars@[car_idx].team == Team::Orange;
            &&& r.len() == 94
            &&& shows(r, 0, me.pos, o, n.pos_norm)
            &&& shows(r, 3, me.rot_mat.forward, o, num::<F>(1))
            &&& shows(r, 6, me.rot_mat.up, o, num::<F>(1))
            &&& shows(r, 9, me.vel, o, n.vel_norm)
            &&& shows(r, 12, me.ang_vel, o, n.ang_vel_norm)
            &&& r[15] == over(me.boost, num::<F>(100))
            &&& tells(r[16], me.is_on_ground)
            &&& tells(r[17], me.has_flip_or_jump)
            &&& tells(r[18], me.is_demoed)
            &&& shows(r, 19, ball.pos, o, n.pos_norm)
            &&& shows(r, 22, ball.vel, o, n.vel_norm)
            &&& shows(r, 25, ball.ang_vel, o, n.ang_vel_norm)
            &&& shows(r, 28, from_to(me.pos, ball.pos), o, n.pos_norm)
            &&& shows(r, 31, from_to(me.vel, ball.vel), o, n.vel_norm)
        }),
{
    let cars = state.cars@;
    let me = cars[car_idx];
    let m = me.team == Team::Orange;
    let k = shown(cars, car_idx);
    lemma_self_part(me.state, m, n);
    lemma_ball_part(state.ball, me.state, m, n);
    if k > 0 {
        lemma_others_at(cars, car_idx, n, k, 0);
    } else {
        assert(others_part(cars, car_idx, n, k) =~= Seq::empty());
    }
    let a = self_part(me.state, m, n);
    let b = ball_part(state.ball, me.state, m, n);
    let r = obs_row(state, car_idx, n);
    assert forall|i: int| 0 <= i < 19 implies r[i] == a[i] by {}
    assert forall|i: int| 0 <= i < 15 implies r[19 + i] == b[i] by {}
    assert(r[19] == b[0] && r[20] == b[1] && r[21] == b[2]);
    assert(r[22] == b[3] && r[23] == b[4] && r[24] == b[5]);
    assert(r[25] == b[6] && r[26] == b[7] && r[27] == b[8]);
    assert(r[28] == b[9] && r[29] == b[10] && r[30] == b[11]);
    assert(r[31] == b[12] && r[32] == b[13] && r[33] == b[14]);
}

proof fn lemma_other_numbers<F: Scalar>(
    state: GameState<F>,
    car_idx: int,
    n: Normalization<F>,
    k: int,
)
    requires
        0 <= k < 5,
        k < others_of(state.cars@, car_idx).len(),
    ensures
        ({
            let team = state.cars@[car_idx].team;
            let c = state.cars@[others_of(state.cars@, car_idx)[k] as int];
            let at = 34 + 12 * k;
            forall|i: int|
                0 <= i < 12 ==> #[trigger] obs_row(state, car_idx, n)[at + i] == other_part(
                    c,
                    team,
                    team == Team::Orange,
                    n,
                )[i]
        }),
{
    let cars = state.cars@;
    let me = cars[car_idx];
    let m = me.team == Team::Orange;
    let count = shown(cars, car_idx);
    lemma_self_part(me.state, m, n);
    lemma_ball_part(state.ball, me.state, m, n);
    lemma_others_at(cars, car_idx, n, count, k);
    let c = cars[others_of(cars, car_idx)[k] as int];
    lemma_other_part(c, me.team, m, n);
    let part = others_part(cars, car_idx, n, count);
    let q = other_part(c, me.team, m, n);
    let sub = part.subrange(12 * k, 12 * k + 12);
    let r = obs_row(state, car_idx, n);
    let at = 34 + 12 * k;
    assert forall|i: int| 0 <= i < 12 implies #[trigger] r[at + i] == q[i] by {
        assert(r[at + i] == part[12 * k + i]);
        assert(sub[i] == part[12 * k + i]);
    }
}

proof fn lemma_shown_other<F: Scalar>(
    r: Seq<F>,
    at: int,
    q: Seq<F>,
    c: CarInfo<F>,
    team: Team,
    m: bool,
    n: Normalization<F>,
)
    requires
        forall|i: int| 0 <= i < 12 ==> #[trigger] r[at + i] == q[i],
        q == other_part(c, team, m, n),
    ensures
        shows(r, at, c.state.pos, m, n.pos_norm),
        shows(r, at + 3, c.state.vel, m, n.vel_norm),
        shows(r, at + 6, c.state.rot_mat.forward, m, num::<F>(1)),
        r[at + 9] == over(c.state.boost, num::<F>(100)),
        tells(r[at + 10], c.team == team),
        tells(r[at + 11], !c.state.is_demoed),
{
    lemma_other_part(c, team, m, n);
    assert(r[at + 0] == q[0] && r[at + 1] == q[1] && r[at + 2] == q[2]);
    assert(r[at + 3] == q[3] && r[at + 4] == q[4] && r[at + 5] == q[5]);
    assert(r[at + 6] == q[6] && r[at + 7] == q[7] && r[at + 8] == q[8]);
}

proof fn lemma_others_listed<F>(cars: Seq<CarInfo<F>>, car_idx: int)
    requires
        0 <= car_idx < cars.len() <= usize::MAX,
    ensures
        others_listed(cars, car_idx, others_of(cars, car_idx)),
{
    let order = others_of(cars, car_idx);
    law_others_order(cars, car_idx);
    law_order(other_keys(cars, car_idx), cars.len() as int);
    assert forall|a: int| 0 <= a < order.len() implies #[trigger] order[a] < cars.len()
        && order[a] != car_idx by {
        assert(other_keys(cars, car_idx)[order[a] as int] is Some);
    }
}

/// The other cars of a flat observation: 12 numbers for each of the first five,
/// teammates before opponents and each side by id, and zeros for those that are
/// missing.
pub proof fn law_flat_rows_show_the_others<F: Scalar>(
    state: GameState<F>,
    car_idx: int,
    n: Normalization<F>,
    k: int,
)
    requires
        0 <= car_idx < state.cars@.len() <= usize::MAX,
        0 <= k < 5,
    ensures
        ({
            let r = obs_row(state, car_idx, n);
            let order = others_of(state.cars@, car_idx);
            let team = state.cars@[car_idx].team;
            let o = team == Team::Orange;
            let at = 34 + 12 * k;
            &&& others_listed(state.cars@, car_idx, order)
            &&& k < order.len() ==> {
                let c = state.cars@[order[k] as int];
                &&& shows(r, at, c.state.pos, o, n.pos_norm)
                &&& shows(r, at + 3, c.state.vel, o, n.vel_norm)
                &&& shows(r, at + 6, c.state.rot_mat.forward, o, num::<F>(1))
                &&& r[at + 9] == over(c.state.boost, num::<F>(100))
                &&& tells(r[at + 10], c.team == team)
                &&& tells(r[at + 11], !c.state.is_demoed)
            }
            &&& k >= order.len() ==> blank(r, at, at + 12)
        }),
{
    let cars = state.cars@;
    let me = cars[car_idx];
    let m = me.team == Team::Orange;
    let count = shown(cars, car_idx);
    let order = others_of(cars, car_idx);
    lemma_others_listed(cars, car_idx);
    lemma_self_part(me.state, m, n);
    lemma_ball_part(state.ball, me.state, m, n);
    let r = obs_row(state, car_idx, n);
    let at = 34 + 12 * k;
    let part = others_part(cars, car_idx, n, count);
    if k < order.len() {
        let c = cars[order[k] as int];
        let q = other_part(c, me.team, m, n);
        lemma_other_numbers(state, car_idx, n, k);
        lemma_other_part(c, me.team, m, n);
        lemma_shown_other(r, at, q, c, me.team, m, n);
    } else {
        if count > 0 {
            lemma_others_at(cars, car_idx, n, count, 0);
        } else {
            assert(part =~= Seq::empty());
        }
        assert(count == order.len());
        assert forall|i: int| at <= i < at + 12 implies #[trigger] r[i] == num::<F>(0) by {
            assert(r[i] == zeros::<F>(60 - 12 * count)[i - 34 - 12 * count]);
        }
    }
}

/// The list names every car but the observer once: all teammates before all
/// opponents, each side by ascending id.
pub open spec fn others_listed<F>(
    cars: Seq<CarInfo<F>>,
    car_idx: int,
    order: Seq<usize>,
) -> bool {
    let team = cars[car_idx].team;
    &&& forall|a: int|
        0 <= a < order.len() ==> #[trigger] order[a] < cars.len() && order[a] != car_idx
    &&& forall|i: int|
        0 <= i < cars.len() ==> (order.contains(#[trigger] (i as usize)) <==> i != car_idx)
    &&& forall|a: int, b: int|
        0 <= a < b < order.len() ==> {
            let (x, y) = (#[trigger] order[a], #[trigger] order[b]);
            &&& x != y
            &&& x < cars.len() && y < cars.len()
            &&& (cars[x as int].team != team ==> cars[y as int].team != team)
            &&& (cars[x as int].team == cars[y as int].team ==> cars[x as int].id
                <= cars[y as int].id)
        }
}

/// The 26 numbers from `at` on show a car: what it is (itself, a teammate or an
/// opponent of the observer), then position, velocity, spin, heading and roof, and
/// its state.
pub open spec fn shows_car<F: Scalar>(
    row: Seq<F>,
    at: int,
    what: int,
    s: CarState<F>,
    orange: bool,
    n: Normalization<F>,
) -> bool {
    &&& forall|i: int| 0 <= i < 5 ==> tells(#[trigger] row[at + i], i == what)
    &&& shows(row, at + 5, s.pos, orange, n.pos_norm)
    &&& shows(row, at + 8, s.vel, orange, n.vel_norm)
    &&& shows(row, at + 11, s.ang_vel, orange, n.ang_vel_norm)
    &&& shows_plain(row, at + 14, s.rot_mat.forward, orange)
    &&& shows_plain(row, at + 17, s.rot_mat.up, orange)
    &&& row[at + 20] == over(s.boost, num::<F>(100))
    &&& tells(row[at + 21], s.is_on_ground)
    &&& tells(row[at + 22], s.has_flip_or_jump)
    &&& tells(row[at + 23], s.is_demoed)
    &&& blank(row, at + 24, at + 26)
}

/// The 26 numbers from `at` on show the ball.
pub open spec fn shows_ball<F: Scalar>(
    row: Seq<F>,
    at: int,
    b: BallState<F>,
    orange: bool,
    n: Normalization<F>,
) -> bool {
    &&& forall|i: int| 0 <= i < 5 ==> tells(#[trigger] row[at + i], i == 3)
    &&& shows(row, at + 5, b.pos, orange, n.pos_norm)
    &&& shows(row, at + 8, b.vel, orange, n.vel_norm)
    &&& shows(row, at + 11, b.ang_vel, orange, n.ang_vel_norm)
    &&& blank(row, at + 14, at + 26)
}

/// The number is how long a pad stays empty, in tens of seconds; 0 where it can be
/// picked up.
pub open spec fn times_pad<F: Scalar>(x: F, p: BoostPad<F>) -> bool {
    x == if p.is_active {
        num::<F>(0)
    } else {
        over(p.cooldown, num::<F>(10))
    }
}

/// The 26 numbers from `at` on show a pad.
pub open spec fn shows_pad<F: Scalar>(
    row: Seq<F>,
    at: int,
    p: BoostPad<F>,
    orange: bool,
    n: Normalization<F>,
) -> bool {
    &&& forall|i: int| 0 <= i < 5 ==> tells(#[trigger] row[at + i], i == 4)
    &&& shows(row, at + 5, p.position, orange, n.pos_norm)
    &&& blank(row, at + 8, at + 20)
    &&& times_pad(row[at + 20], p)
    &&& tells(row[at + 21], p.is_active)
    &&& blank(row, at + 22, at + 26)
}

/// The 26 numbers from `at` on show the ball predicted `quarters` quarters of the
/// longest horizon ahead.
pub open spec fn shows_prediction<F: Scalar>(
    row: Seq<F>,
    at: int,
    b: BallSnap<F>,
    quarters: int,
    orange: bool,
    n: Normalization<F>,
) -> bool {
    &&& blank(row, at, at + 5)
    &&& shows(row, at + 5, b.pos, orange, n.pos_norm)
    &&& shows(row, at + 8, b.vel, orange, n.vel_norm)
    &&& blank(row, at + 11, at + 24)
    &&& row[at + 24] == times(num::<F>(quarters), over(num::<F>(1), num::<F>(4)))
    &&& row[at + 25] == num::<F>(0)
}

proof fn lemma_car_features<F: Scalar>(
    kind: EntityKind,
    what: int,
    s: CarState<F>,
    m: bool,
    n: Normalization<F>,
)
    requires
        kind == EntityKind::SelfCar && what == 0 || kind == EntityKind::Mate && what == 1 || kind
            == EntityKind::Opponent && what == 2,
    ensures
        features(car_entity(kind, s, m, n)).len() == 26,
        shows_car(features(car_entity(kind, s, m, n)), 0, what, s, m, n),
{
}

proof fn lemma_ball_features<F: Scalar>(b: BallState<F>, m: bool, n: Normalization<F>)
    ensures
        features(ball_entity(b, m, n)).len() == 26,
        shows_ball(features(ball_entity(b, m, n)), 0, b, m, n),
{
}

proof fn lemma_pad_features<F: Scalar>(p: BoostPad<F>, m: bool, n: Normalization<F>)
    ensures
        features(pad_entity(p, m, n)).len() == 26,
        shows_pad(features(pad_entity(p, m, n)), 0, p, m, n),
{
}

proof fn lemma_pred_features<F: Scalar>(b: BallSnap<F>, m: bool, n: Normalization<F>, i: int)
    ensures
        features(pred_entity(b, m, n, i)).len() == 26,
        shows_prediction(features(pred_entity(b, m, n, i)), 0, b, i + 1, m, n),
{
}

/// The features of slot `i` stand at place `26 * i`.
proof fn lemma_slot_numbers<F: Scalar>(slots: Seq<Option<EntityRow<F>>>, i: int)
    requires
        0 <= i < slots.len(),
        slot_features(slots[i]).len() == 26,
    ensures
        all_features(slots).len() == 26 * slots.len(),
        forall|j: int|
            0 <= j < 26 ==> #[trigger] all_features(slots)[26 * i + j] == slot_features(
                slots[i],
            )[j],
{
    lemma_slot_at(slots, i);
    let all = all_features(slots);
    let sub = all.subrange(i * 26, (i + 1) * 26);
    assert forall|j: int| 0 <= j < 26 implies #[trigger] all[26 * i + j] == slot_features(
        slots[i],
    )[j] by {
        assert(sub[j] == all[i * 26 + j]);
    }
}

/// Showing moves along with the numbers.
proof fn lemma_moved<F: Scalar>(
    row: Seq<F>,
    at: int,
    f: Seq<F>,
    s: CarState<F>,
    b: BallState<F>,
    p: BoostPad<F>,
    q: BallSnap<F>,
    what: int,
    orange: bool,
    n: Normalization<F>,
)
    requires
        forall|j: int| 0 <= j < 26 ==> #[trigger] row[at + j] == f[j],
    ensures
        shows_car(f, 0, what, s, orange, n) ==> shows_car(row, at, what, s, orange, n),
        shows_ball(f, 0, b, orange, n) ==> shows_ball(row, at, b, orange, n),
        shows_pad(f, 0, p, orange, n) ==> shows_pad(row, at, p, orange, n),
        shows_prediction(f, 0, q, what, orange, n) ==> shows_prediction(
            row,
            at,
            q,
            what,
            orange,
            n,
        ),
        blank(f, 0, 26) ==> blank(row, at, at + 26),
{
    assert forall|i: int| 0 <= i < 26 implies #[trigger] row[at + i] == f[0 + i] by {}
    assert forall|i: int| at <= i < at + 26 implies #[trigger] row[i] == f[i - at] by {
        assert(row[at + (i - at)] == f[i - at]);
    }
    assert(row[at + 5 + 1] == f[6] && row[at + 5 + 2] == f[7]);
    assert(row[at + 8 + 1] == f[9] && row[at + 8 + 2] == f[10]);
    assert(row[at + 11 + 1] == f[12] && row[at + 11 + 2] == f[13]);
    assert(row[at + 14 + 1] == f[15] && row[at + 14 + 2] == f[16]);
    assert(row[at + 17 + 1] == f[18] && row[at + 17 + 2] == f[19]);
}

/// The list names the observer's teammates, or its opponents, once each, by
/// ascending id.
pub open spec fn side_listed<F>(
    cars: Seq<CarInfo<F>>,
    car_idx: int,
    mates: bool,
    order: Seq<usize>,
) -> bool {
    let team = cars[car_idx].team;
    &&& forall|a: int| 0 <= a < order.len() ==> #[trigger] order[a] < cars.len()
    &&& forall|i: int|
        0 <= i < cars.len() ==> (order.contains(#[trigger] (i as usize)) <==> i != car_idx && (
        cars[i].team == team) == mates)
    &&& forall|a: int, b: int|
        0 <= a < b < order.len() ==> #[trigger] order[a] != #[trigger] order[b]
            && cars[order[a] as int].id <= cars[order[b] as int].id
}

/// The sides of an observer: every other car is on exactly one of them.
pub proof fn law_sides_are_listed<F>(cars: Seq<CarInfo<F>>, car_idx: int, mates: bool)
    requires
        0 <= car_idx < cars.len() <= usize::MAX,
    ensures
        side_listed(cars, car_idx, mates, side_of(cars, car_idx, mates)),
{
    let keys = side_keys(cars, car_idx, mates);
    let order = side_of(cars, car_idx, mates);
    law_order(keys, cars.len() as int);
    assert forall|i: int| 0 <= i < cars.len() implies (order.contains(#[trigger] (i as usize))
        <==> i != car_idx && (cars[i].team == cars[car_idx].team) == mates) by {
        if order.contains(i as usize) {
            let a = choose|a: int| 0 <= a < order.len() && order[a] == i as usize;
            assert(keys[order[a] as int] is Some);
        }
        if i != car_idx && (cars[i].team == cars[car_idx].team) == mates {
            assert(keys[i] is Some);
        }
    }
    assert forall|a: int, b: int| 0 <= a < b < order.len() implies #[trigger] order[a]
        != #[trigger] order[b] && cars[order[a] as int].id <= cars[order[b] as int].id by {
        assert(comes_before(keys, order[a], order[b]));
    }
}

/// The list names the big pads, in the order of the arena.
pub open spec fn big_listed<F>(pads: Seq<BoostPad<F>>, n: int, big: Seq<usize>) -> bool {
    &&& forall|a: int| 0 <= a < big.len() ==> #[trigger] big[a] < n && pads[big[a] as int].is_big
    &&& forall|a: int, b: int| 0 <= a < b < big.len() ==> #[trigger] big[a] < #[trigger] big[b]
    &&& forall|i: int| 0 <= i < n && (#[trigger] pads[i]).is_big ==> big.contains(i as usize)
}

/// The big pads are listed in the order of the arena.
pub proof fn law_big_pads_are_listed<F>(pads: Seq<BoostPad<F>>, n: int)
    requires
        0 <= n <= pads.len(),
        n <= usize::MAX,
    ensures
        big_listed(pads, n, big_pads(pads, n)),
    decreases n,
{
    if n > 0 {
        law_big_pads_are_listed(pads, n - 1);
        let before = big_pads(pads, n - 1);
        let big = big_pads(pads, n);
        assert forall|i: int| 0 <= i < n && (#[trigger] pads[i]).is_big implies big.contains(
            i as usize,
        ) by {
            if i < n - 1 {
                let a = choose|a: int| 0 <= a < before.len() && before[a] == i as usize;
                assert(big[a] == i as usize);
            } else {
                assert(big[big.len() - 1] == i as usize);
            }
        }
    }
}

/// The cars of an entity observation: slot 0 shows the observer itself, slots 1
/// and 2 its first teammates, slots 3 to 5 its first opponents, by id. Slots
/// without a car are masked and zero.
pub proof fn law_entity_rows_show_the_cars<F: Scalar>(
    state: GameState<F>,
    car_idx: int,
    pred: [BallSnap<F>; 4],
    perm: Seq<usize>,
    n: Normalization<F>,
    i: int,
)
    requires
        0 <= car_idx < state.cars@.len(),
        0 <= i < 6,
    ensures
        ({
            let slots = entity_slots(state, car_idx, pred, perm, n);
            let row = all_features(slots);
            let mask = absent(slots);
            let cars = state.cars@;
            let o = cars[car_idx].team == Team::Orange;
            let mates = side_of(cars, car_idx, true);
            let opponents = side_of(cars, car_idx, false);
            &&& row.len() == 17 * 26
            &&& mask.len() == 17
            &&& i == 0 ==> !mask[0] && shows_car(row, 0, 0, cars[car_idx].state, o, n)
            &&& 1 <= i < 3 ==> if i - 1 < mates.len() {
                !mask[i] && shows_car(row, 26 * i, 1, cars[mates[i - 1] as int].state, o, n)
            } else {
                mask[i] && blank(row, 26 * i, 26 * i + 26)
            }
            &&& 3 <= i ==> if i - 3 < opponents.len() {
                !mask[i] && shows_car(row, 26 * i, 2, cars[opponents[i - 3] as int].state, o, n)
            } else {
                mask[i] && blank(row, 26 * i, 26 * i + 26)
            }
        }),
{
    let slots = entity_slots(state, car_idx, pred, perm, n);
    let row = all_features(slots);
    let cars = state.cars@;
    let o = cars[car_idx].team == Team::Orange;
    let mates = side_of(cars, car_idx, true);
    let opponents = side_of(cars, car_idx, false);
    let none = zeros::<F>(26);
    let c = if i == 0 {
        car_idx
    } else if i < 3 {
        mates[i - 1] as int
    } else {
        opponents[i - 3] as int
    };
    let (kind, what) = if i == 0 {
        (EntityKind::SelfCar, 0)
    } else if i < 3 {
        (EntityKind::Mate, 1)
    } else {
        (EntityKind::Opponent, 2int)
    };
    assert(slots.len() == 17);
    let s = cars[c].state;
    if slots[i] is Some {
        lemma_car_features(kind, what, s, o, n);
        assert(slots[i] == Some(car_entity(kind, s, o, n)));
    } else {
        assert(slot_features(slots[i]) == none);
        assert(blank(none, 0, 26));
    }
    lemma_slot_numbers(slots, i);
    let f = slot_features(slots[i]);
    let q = pred@[0];
    lemma_moved(row, 26 * i, f, s, state.ball, state.pads@[0], q, what, o, n);
}

/// The ball and its predictions in an entity observation: slot 6 shows the ball,
/// slots 13 to 16 the ball after one to four quarters of the horizon.
pub proof fn law_entity_rows_show_the_ball<F: Scalar>(
    state: GameState<F>,
    car_idx: int,
    pred: [BallSnap<F>; 4],
    perm: Seq<usize>,
    n: Normalization<F>,
    i: int,
)
    requires
        0 <= car_idx < state.cars@.len(),
        0 <= i < 4,
    ensures
        ({
            let slots = entity_slots(state, car_idx, pred, perm, n);
            let row = all_features(slots);
            let o = state.cars@[car_idx].team == Team::Orange;
            &&& !absent(slots)[6]
            &&& shows_ball(row, 156, state.ball, o, n)
            &&& !absent(slots)[13 + i]
            &&& shows_prediction(row, 26 * (13 + i), pred@[i], i + 1, o, n)
        }),
{
    let slots = entity_slots(state, car_idx, pred, perm, n);
    let row = all_features(slots);
    let o = state.cars@[car_idx].team == Team::Orange;
    let s = state.cars@[car_idx].state;
    let p = state.pads@[0];
    assert(slots.len() == 17);
    assert(slots[6] == Some(ball_entity(state.ball, o, n)));
    assert(slots[13 + i] == Some(pred_entity(pred@[i], o, n, i)));
    lemma_ball_features(state.ball, o, n);
    lemma_pred_features(pred@[i], o, n, i);
    lemma_slot_numbers(slots, 6);
    lemma_slot_numbers(slots, 13 + i);
    let f = slot_features(slots[6]);
    assert forall|j: int| 0 <= j < 26 implies #[trigger] row[156 + j] == f[j] by {
        assert(row[26 * 6int + j] == f[j]);
    }
    lemma_moved(row, 156, f, s, state.ball, p, pred@[i], i + 1, o, n);
    lemma_moved(
        row,
        26 * (13 + i),
        slot_features(slots[13 + i]),
        s,
        state.ball,
        p,
        pred@[i],
        i + 1,
        o,
        n,
    );
}

/// The pads of an entity observation: slots 7 to 12 show the big pads in the order
/// of the arena, each as the pad that stands there for the observer's team. Slots
/// without a pad are masked and zero.
pub proof fn law_entity_rows_show_the_pads<F: Scalar>(
    state: GameState<F>,
    car_idx: int,
    pred: [BallSnap<F>; 4],
    perm: Seq<usize>,
    n: Normalization<F>,
    i: int,
)
    requires
        0 <= car_idx < state.cars@.len(),
        0 <= i < 6,
    ensures
        ({
            let slots = entity_slots(state, car_idx, pred, perm, n);
            let row = all_features(slots);
            let o = state.cars@[car_idx].team == Team::Orange;
            let big = big_pads(state.pads@, state.pads@.len() as int);
            let at = 26 * (7 + i);
            if i < big.len() {
                let k = big[i] as int;
                let p = state.pads@[if o {
                    perm[k] as int
                } else {
                    k
                }];
                !absent(slots)[7 + i] && shows_pad(row, at, p, o, n)
            } else {
                absent(slots)[7 + i] && blank(row, at, at + 26)
            }
        }),
{
    let slots = entity_slots(state, car_idx, pred, perm, n);
    let row = all_features(slots);
    let o = state.cars@[car_idx].team == Team::Orange;
    let big = big_pads(state.pads@, state.pads@.len() as int);
    let s = state.cars@[car_idx].state;
    let p = state.pads@[pad_source(perm, o, big[i] as int)];
    let none = zeros::<F>(26);
    assert(slots.len() == 17);
    if i < big.len() {
        assert(slots[7 + i] == Some(pad_entity(p, o, n)));
        lemma_pad_features(p, o, n);
    } else {
        assert(slots[7 + i] is None);
        assert(slot_features(slots[7 + i]) == none);
        assert(blank(none, 0, 26));
    }
    lemma_slot_numbers(slots, 7 + i);
    let f = slot_features(slots[7 + i]);
    lemma_moved(row, 26 * (7 + i), f, s, state.ball, p, pred@[0], 0, o, n);
}

/// The query of an entity observation: the observer itself, the timers of the 34
/// pads, each of the pad that stands there for the observer's team, and four zeros.
pub proof fn law_queries_show_car_and_timers<F: Scalar>(
    state: GameState<F>,
    car_idx: int,
    perm: Seq<usize>,
    n: Normalization<F>,
    k: int,
)
    requires
        0 <= car_idx < state.cars@.len(),
        0 <= k < 34,
    ensures
        ({
            let q = query_row(state, car_idx, perm, n);
            let o = state.cars@[car_idx].team == Team::Orange;
            let pads = state.pads@;
            &&& q.len() == 64
            &&& shows_car(q, 0, 0, state.cars@[car_idx].state, o, n)
            &&& if k < pads.len() {
                times_pad(
                    q[26 + k],
                    pads[if o {
                        perm[k] as int
                    } else {
                        k
                    }],
                )
            } else {
                q[26 + k] == num::<F>(0)
            }
            &&& blank(q, 60, 64)
        }),
{
    let q = query_row(state, car_idx, perm, n);
    let o = state.cars@[car_idx].team == Team::Orange;
    let s = state.cars@[car_idx].state;
    lemma_car_features(EntityKind::SelfCar, 0, s, o, n);
    let f = features(car_entity(EntityKind::SelfCar, s, o, n));
    assert forall|j: int| 0 <= j < 26 implies #[trigger] q[0 + j] == f[j] by {}
    let b = BallSnap { pos: s.pos, vel: s.vel };
    lemma_moved(q, 0, f, s, state.ball, state.pads@[0], b, 0, o, n);
    assert(q[26 + k] == timer_row(state.pads@, perm, o)[k]);
    assert forall|i: int| 60 <= i < 64 implies #[trigger] q[i] == num::<F>(0) by {
        assert(q[i] == zeros::<F>(4)[i - 60]);
    }
}

} // verus!
