//! Observations of bots that see one other car.
//!
//! A row has 107 numbers: 9 of the ball, 8 of the previous action, 34 pads, 25
//! of the car itself and 31 of one other car.

use crate::obs::{
    boost_fraction, boost_share, difference, lemma_concat, push3, push_four, scaled, sub_vec,
};
use crate::pads::{nearest_index, nearest_pad};
use crate::scalar::{
    bit, flag, lt, num, over, plus, same, times, total, whole, Scalar,
};
use crate::sim::{mir, mirrored, BallState, BoostPad, CarInfo, CarState, GameState, Team, Vec3};
use vstd::prelude::*;

verus! {

/// Width of an observation.
pub const ADV_OBS_SIZE: usize = 107;

/// Where the pads stand, in the order in which bots list them.
pub const BOOST_LOCATIONS: [[i16; 3]; 34] = [
    [0, -4240, 70],
    [-1792, -4184, 70],
    [1792, -4184, 70],
    [-3072, -4096, 73],
    [3072, -4096, 73],
    [-940, -3308, 70],
    [940, -3308, 70],
    [0, -2816, 70],
    [-3584, -2484, 70],
    [3584, -2484, 70],
    [-1788, -2300, 70],
    [1788, -2300, 70],
    [-2048, -1036, 70],
    [0, -1024, 70],
    [2048, -1036, 70],
    [-3584, 0, 73],
    [-1024, 0, 70],
    [1024, 0, 70],
    [3584, 0, 73],
    [-2048, 1036, 70],
    [0, 1024, 70],
    [2048, 1036, 70],
    [-1788, 2300, 70],
    [1788, 2300, 70],
    [-3584, 2484, 70],
    [3584, 2484, 70],
    [0, 2816, 70],
    [-940, 3310, 70],
    [940, 3308, 70],
    [-3072, 4096, 73],
    [3072, 4096, 73],
    [-1792, 4184, 70],
    [1792, 4184, 70],
    [0, 4240, 70],
];

/// Where pad `j` stands.
pub open spec fn location(j: int) -> [i16; 3] {
    BOOST_LOCATIONS@[j]
}

/// Where pad `j` stands.
pub fn boost_location(j: usize) -> (l: [i16; 3])
    requires
        j < 34,
    ensures
        l == location(j as int),
{
    BOOST_LOCATIONS[j]
}

/// For each listed pad, the arena's pad nearest to it.
pub open spec fn canon_order<F: Scalar>(pads: Seq<BoostPad<F>>) -> Seq<usize> {
    Seq::new(
        34,
        |j: int|
            nearest_index(
                pads,
                num::<F>(location(j)[0] as int),
                num::<F>(location(j)[1] as int),
                pads.len() as int,
                0,
            ) as usize,
    )
}

/// For each listed pad, the arena's pad nearest to it. Pads do not move, so this
/// is computed once per arena.
pub fn rlgym_to_canon<F: Scalar>(pads: &Vec<BoostPad<F>>) -> (canon: Vec<usize>)
    requires
        total::<F>(),
        pads@.len() > 0,
    ensures
        canon@ == canon_order(pads@),
        canon_fits(pads@, canon@),
{
    let mut canon: Vec<usize> = Vec::new();
    let mut j: usize = 0;
    while j < 34
        invariant
            j <= 34,
            total::<F>(),
            pads@.len() > 0,
            canon@ =~= canon_order(pads@).take(j as int),
            forall|i: int| 0 <= i < j ==> #[trigger] canon@[i] < pads@.len(),
        decreases 34 - j,
    {
        let l: [i16; 3] = boost_location(j);
        let x: F = whole(l[0]);
        let y: F = whole(l[1]);
        let n: usize = pads.len();
        canon.push(nearest_pad(pads, x, y, n, 0));
        j = j + 1;
    }
    assert(canon@ =~= canon_order(pads@));
    canon
}

/// The pads can be looked up through the list.
pub open spec fn canon_fits<F>(pads: Seq<BoostPad<F>>, canon: Seq<usize>) -> bool {
    &&& canon.len() == 34
    &&& forall|i: int| 0 <= i < 34 ==> #[trigger] canon[i] < pads.len()
}

/// Unit of positions and velocities.
pub open spec fn pos_unit<F: Scalar>() -> F {
    over(num::<F>(1), num::<F>(2300))
}

/// What a row says of the ball.
pub open spec fn adv_ball<F: Scalar>(b: BallState<F>, m: bool, pi: F) -> Seq<F> {
    scaled(mirrored(b.pos, m), pos_unit()) + scaled(mirrored(b.vel, m), pos_unit()) + scaled(
        mirrored(b.ang_vel, m),
        over(num::<F>(1), pi),
    )
}

/// Which listed pads can be picked up; orange lists them from the other end.
pub open spec fn adv_pads<F: Scalar>(pads: Seq<BoostPad<F>>, canon: Seq<usize>, m: bool) -> Seq<F> {
    Seq::new(
        34,
        |j: int|
            bit::<F>(
                pads[canon[if m {
                    33 - j
                } else {
                    j
                }] as int].is_active,
            ),
    )
}

/// What a row says of a car.
pub open spec fn adv_player<F: Scalar>(s: CarState<F>, b: BallState<F>, m: bool, pi: F) -> Seq<F> {
    scaled(mirrored(difference(b.pos, s.pos), m), pos_unit()) + scaled(
        mirrored(difference(b.vel, s.vel), m),
        pos_unit(),
    ) + scaled(mirrored(s.pos, m), pos_unit()) + scaled(
        mirrored(s.rot_mat.forward, m),
        num::<F>(1),
    ) + scaled(mirrored(s.rot_mat.up, m), num::<F>(1)) + scaled(mirrored(s.vel, m), pos_unit())
        + scaled(mirrored(s.ang_vel, m), over(num::<F>(1), pi)) + seq![
        boost_share(s),
        bit::<F>(s.is_on_ground),
        bit::<F>(s.has_flip_or_jump),
        bit::<F>(s.is_demoed),
    ]
}

/// Where another car is and goes, seen from the car itself.
pub open spec fn adv_relative<F: Scalar>(o: CarState<F>, s: CarState<F>, m: bool) -> Seq<F> {
    scaled(difference(mirrored(o.pos, m), mirrored(s.pos, m)), pos_unit()) + scaled(
        difference(mirrored(o.vel, m), mirrored(s.vel, m)),
        pos_unit(),
    )
}

/// What a row says apart from other cars.
pub open spec fn adv_base<F: Scalar>(
    state: GameState<F>,
    car_idx: int,
    prev_action: Seq<F>,
    canon: Seq<usize>,
    pi: F,
) -> Seq<F> {
    let me = state.cars@[car_idx];
    let m = me.team == Team::Orange;
    adv_ball(state.ball, m, pi) + prev_action + adv_pads(state.pads@, canon, m) + adv_player(
        me.state,
        state.ball,
        m,
        pi,
    )
}

/// What a row says of another car.
pub open spec fn adv_other<F: Scalar>(
    state: GameState<F>,
    car_idx: int,
    other_idx: int,
    pi: F,
) -> Seq<F> {
    let me = state.cars@[car_idx];
    let other = state.cars@[other_idx].state;
    let m = me.team == Team::Orange;
    adv_player(other, state.ball, m, pi) + adv_relative(other, me.state, m)
}

/// The observation of a car that sees one other car.
pub open spec fn adv_row<F: Scalar>(
    state: GameState<F>,
    car_idx: int,
    other_idx: int,
    prev_action: Seq<F>,
    canon: Seq<usize>,
    pi: F,
) -> Seq<F> {
    adv_base(state, car_idx, prev_action, canon, pi) + adv_other(state, car_idx, other_idx, pi)
}

fn push_player<F: Scalar>(out: &mut Vec<F>, s: &CarState<F>, b: &BallState<F>, m: bool, pi: F)
    requires
        total::<F>(),
    ensures
        final(out)@ == old(out)@ + adv_player(*s, *b, m, pi),
{
    let ghost z = out@;
    let one: F = whole(1);
    let std: F = whole(2300);
    let k: F = one / std;
    push3(out, mir(sub_vec(b.pos, s.pos), m), k);
    push3(out, mir(sub_vec(b.vel, s.vel), m), k);
    push3(out, mir(s.pos, m), k);
    push3(out, mir(s.rot_mat.forward, m), one);
    push3(out, mir(s.rot_mat.up, m), one);
    push3(out, mir(s.vel, m), k);
    push3(out, mir(s.ang_vel, m), one / pi);
    push_four(
        out,
        boost_fraction(s),
        flag(s.is_on_ground),
        flag(s.has_flip_or_jump),
        flag(s.is_demoed),
    );
    proof {
        let a = scaled(mirrored(difference(b.pos, s.pos), m), pos_unit());
        let c = scaled(mirrored(difference(b.vel, s.vel), m), pos_unit());
        let d = scaled(mirrored(s.pos, m), pos_unit());
        let e = scaled(mirrored(s.rot_mat.forward, m), num::<F>(1));
        let f = scaled(mirrored(s.rot_mat.up, m), num::<F>(1));
        let g = scaled(mirrored(s.vel, m), pos_unit());
        let h = scaled(mirrored(s.ang_vel, m), over(num::<F>(1), pi));
        let i = seq![
            boost_share(*s),
            bit::<F>(s.is_on_ground),
            bit::<F>(s.has_flip_or_jump),
            bit::<F>(s.is_demoed),
        ];
        lemma_concat(z, a, c);
        lemma_concat(z, a + c, d);
        lemma_concat(z, a + c + d, e);
        lemma_concat(z, a + c + d + e, f);
        lemma_concat(z, a + c + d + e + f, g);
        lemma_concat(z, a + c + d + e + f + g, h);
        lemma_concat(z, a + c + d + e + f + g + h, i);
    }
}

fn push_pads<F: Scalar>(out: &mut Vec<F>, pads: &Vec<BoostPad<F>>, canon: &Vec<usize>, m: bool)
    requires
        total::<F>(),
        canon_fits(pads@, canon@),
    ensures
        final(out)@ == old(out)@ + adv_pads(pads@, canon@, m),
{
    let ghost z = out@;
    let mut j: usize = 0;
    while j < 34
        invariant
            j <= 34,
            total::<F>(),
            canon_fits(pads@, canon@),
            out@ =~= z + adv_pads(pads@, canon@, m).take(j as int),
        decreases 34 - j,
    {
        let rj: usize = if m {
            33 - j
        } else {
            j
        };
        assert(canon@[rj as int] < pads@.len());
        out.push(flag(pads[canon[rj]].is_active));
        j = j + 1;
    }
    assert(adv_pads(pads@, canon@, m).take(j as int) =~= adv_pads(pads@, canon@, m));
}

fn push_action<F: Scalar>(out: &mut Vec<F>, action: &[F; 8])
    ensures
        final(out)@ == old(out)@ + action@,
{
    let ghost z = out@;
    let mut k: usize = 0;
    while k < 8
        invariant
            k <= 8,
            out@ =~= z + action@.take(k as int),
        decreases 8 - k,
    {
        out.push(action[k]);
        k = k + 1;
    }
    assert(action@.take(k as int) =~= action@);
}

fn make_base<F: Scalar>(
    state: &GameState<F>,
    car_idx: usize,
    prev_action: &[F; 8],
    canon: &Vec<usize>,
    pi: F,
) -> (out: Vec<F>)
    requires
        total::<F>(),
        car_idx < state.cars@.len(),
        canon_fits(state.pads@, canon@),
    ensures
        out@ == adv_base(*state, car_idx as int, prev_action@, canon@, pi),
        out@.len() == 76,
{
    let me = &state.cars[car_idx];
    let m: bool = me.team == Team::Orange;
    let one: F = whole(1);
    let std: F = whole(2300);
    let k: F = one / std;
    let mut out: Vec<F> = Vec::new();
    push3(&mut out, mir(state.ball.pos, m), k);
    assert(out@ =~= scaled(mirrored(state.ball.pos, m), pos_unit()));
    push3(&mut out, mir(state.ball.vel, m), k);
    push3(&mut out, mir(state.ball.ang_vel, m), one / pi);
    push_action(&mut out, prev_action);
    push_pads(&mut out, &state.pads, canon, m);
    push_player(&mut out, &me.state, &state.ball, m, pi);
    out
}

fn push_other<F: Scalar>(
    out: &mut Vec<F>,
    state: &GameState<F>,
    car_idx: usize,
    other_idx: usize,
    pi: F,
)
    requires
        total::<F>(),
        car_idx < state.cars@.len(),
        other_idx < state.cars@.len(),
    ensures
        final(out)@ == old(out)@ + adv_other(*state, car_idx as int, other_idx as int, pi),
{
    let me = &state.cars[car_idx];
    let other = &state.cars[other_idx].state;
    let m: bool = me.team == Team::Orange;
    let one: F = whole(1);
    let std: F = whole(2300);
    let k: F = one / std;
    let ghost z = out@;
    push_player(out, other, &state.ball, m, pi);
    push3(out, sub_vec(mir(other.pos, m), mir(me.state.pos, m)), k);
    push3(out, sub_vec(mir(other.vel, m), mir(me.state.vel, m)), k);
    proof {
        let p = adv_player(*other, state.ball, m, pi);
        let a = scaled(
            difference(mirrored(other.pos, m), mirrored(me.state.pos, m)),
            pos_unit(),
        );
        let b = scaled(
            difference(mirrored(other.vel, m), mirrored(me.state.vel, m)),
            pos_unit(),
        );
        lemma_concat(z + p, a, b);
        lemma_concat(z, p, a + b);
    }
}

/// The observation of `state.cars[car_idx]` that shows exactly one other car.
pub fn build_advanced_obs_one_other<F: Scalar>(
    state: &GameState<F>,
    car_idx: usize,
    other_idx: usize,
    prev_action: &[F; 8],
    canon: &Vec<usize>,
    pi: F,
) -> (out: Vec<F>)
    requires
        total::<F>(),
        car_idx < state.cars@.len(),
        other_idx < state.cars@.len(),
        canon_fits(state.pads@, canon@),
    ensures
        out@ == adv_row(*state, car_idx as int, other_idx as int, prev_action@, canon@, pi),
        out@.len() == ADV_OBS_SIZE,
{
    let mut out: Vec<F> = make_base(state, car_idx, prev_action, canon, pi);
    push_other(&mut out, state, car_idx, other_idx, pi);
    out
}

/// The observation of `state.cars[car_idx]` where there is at most one other car.
pub fn build_advanced_obs<F: Scalar>(
    state: &GameState<F>,
    car_idx: usize,
    prev_action: &[F; 8],
    canon: &Vec<usize>,
    pi: F,
) -> (out: Vec<F>)
    requires
        total::<F>(),
        car_idx < state.cars@.len() <= 2,
        canon_fits(state.pads@, canon@),
    ensures
        out@ == if state.cars@.len() == 2 {
            adv_row(*state, car_idx as int, 1 - car_idx, prev_action@, canon@, pi)
        } else {
            adv_base(*state, car_idx as int, prev_action@, canon@, pi)
        },
        state.cars@.len() == 2 ==> out@.len() == ADV_OBS_SIZE,
{
    let mut out: Vec<F> = make_base(state, car_idx, prev_action, canon, pi);
    if state.cars.len() == 2 {
        push_other(&mut out, state, car_idx, 1 - car_idx, pi);
    }
    out
}

/// Square of the distance of a car from the ball.
pub open spec fn ball_distance2<F: Scalar>(c: CarInfo<F>, ball: Vec3<F>) -> F {
    let d = difference(c.state.pos, ball);
    plus(plus(times(d.x, d.x), times(d.y, d.y)), times(d.z, d.z))
}

/// Whether distance `d` is less than `best`; a defined one is less than an
/// undefined one.
pub open spec fn nearer<F: Scalar>(d: F, best: F) -> bool {
    lt(d, best) || (!same(best, best) && same(d, d))
}

/// The opponent among the first `n` cars that is nearest to the ball, the first
/// of equally near ones.
pub open spec fn nearest_opponent<F: Scalar>(
    cars: Seq<CarInfo<F>>,
    car_idx: int,
    ball: Vec3<F>,
    n: int,
) -> Option<int>
    decreases n,
{
    if n <= 0 {
        None
    } else {
        let before = nearest_opponent(cars, car_idx, ball, n - 1);
        if n - 1 == car_idx || cars[n - 1].team == cars[car_idx].team {
            before
        } else {
            match before {
                None => Some(n - 1),
                Some(i) => if nearer(
                    ball_distance2(cars[n - 1], ball),
                    ball_distance2(cars[i], ball),
                ) {
                    Some(n - 1)
                } else {
                    before
                },
            }
        }
    }
}

fn distance2_to<F: Scalar>(c: &CarInfo<F>, ball: Vec3<F>) -> (d: F)
    requires
        total::<F>(),
    ensures
        d == ball_distance2(*c, ball),
{
    let d: Vec3<F> = sub_vec(c.state.pos, ball);
    d.x * d.x + d.y * d.y + d.z * d.z
}

/// The opponent of `state.cars[car_idx]` that is nearest to the ball.
pub fn nearest_opponent_to_ball<F: Scalar>(state: &GameState<F>, car_idx: usize) -> (r: Option<
    usize,
>)
    requires
        total::<F>(),
        car_idx < state.cars@.len(),
    ensures
        match r {
            Some(i) => i < state.cars@.len() && nearest_opponent(
                state.cars@,
                car_idx as int,
                state.ball.pos,
                state.cars@.len() as int,
            ) == Some(i as int),
            None => nearest_opponent(
                state.cars@,
                car_idx as int,
                state.ball.pos,
                state.cars@.len() as int,
            ) is None,
        },
{
    let cars = &state.cars;
    let team: Team = cars[car_idx].team;
    let mut best: Option<usize> = None;
    let mut n: usize = 0;
    while n < cars.len()
        invariant
            n <= cars@.len(),
            *cars == state.cars,
            car_idx < cars@.len(),
            team == cars@[car_idx as int].team,
            total::<F>(),
            match best {
                Some(i) => i < n && nearest_opponent(
                    cars@,
                    car_idx as int,
                    state.ball.pos,
                    n as int,
                ) == Some(i as int),
                None => nearest_opponent(cars@, car_idx as int, state.ball.pos, n as int) is None,
            },
        decreases cars.len() - n,
    {
        if n != car_idx && cars[n].team != team {
            match best {
                None => {
                    best = Some(n);
                },
                Some(i) => {
                    let d: F = distance2_to(&cars[n], state.ball.pos);
                    let b: F = distance2_to(&cars[i], state.ball.pos);
                    if d < b || (b != b && d == d) {
                        best = Some(n);
                    }
                },
            }
        }
        n = n + 1;
    }
    best
}

/// The nearest opponent is an opponent, and there is one unless every other car
/// is a teammate.
pub proof fn law_nearest_is_opponent<F: Scalar>(
    cars: Seq<CarInfo<F>>,
    car_idx: int,
    ball: Vec3<F>,
    n: int,
)
    requires
        0 <= n <= cars.len(),
        0 <= car_idx < cars.len(),
    ensures
        match nearest_opponent(cars, car_idx, ball, n) {
            Some(i) => 0 <= i < n && cars[i].team != cars[car_idx].team,
            None => forall|j: int| 0 <= j < n ==> (#[trigger] cars[j]).team == cars[car_idx].team,
        },
    decreases n,
{
    if n > 0 {
        law_nearest_is_opponent(cars, car_idx, ball, n - 1);
    }
}

/// No opponent is nearer to the ball than the one that is picked, as far as
/// distances compare as numbers do.
pub proof fn law_nearest_is_nearest<F: Scalar>(
    cars: Seq<CarInfo<F>>,
    car_idx: int,
    ball: Vec3<F>,
    n: int,
    j: int,
)
    requires
        forall|x: F, y: F, z: F| #[trigger] nearer(x, y) && #[trigger] nearer(y, z) ==> nearer(x, z),
        forall|x: F| !#[trigger] nearer(x, x),
        0 <= j < n <= cars.len(),
        0 <= car_idx < cars.len(),
        cars[j].team != cars[car_idx].team,
    ensures
        nearest_opponent(cars, car_idx, ball, n) matches Some(i) && !nearer(
            ball_distance2(cars[j], ball),
            ball_distance2(cars[i], ball),
        ),
    decreases n,
{
    if j < n - 1 {
        law_nearest_is_nearest(cars, car_idx, ball, n - 1, j);
    }
}

/// In a duel the nearest opponent is the only other car, so the row that shows
/// the nearest opponent is the row that shows every other car.
pub proof fn law_duel_shows_the_other_car<F: Scalar>(
    state: GameState<F>,
    car_idx: int,
    prev_action: Seq<F>,
    canon: Seq<usize>,
    pi: F,
)
    requires
        state.cars@.len() == 2,
        0 <= car_idx < 2,
        state.cars@[0].team != state.cars@[1].team,
    ensures
        nearest_opponent(state.cars@, car_idx, state.ball.pos, 2) matches Some(i) && adv_row(
            state,
            car_idx,
            i,
            prev_action,
            canon,
            pi,
        ) == adv_row(state, car_idx, 1 - car_idx, prev_action, canon, pi),
{
    reveal_with_fuel(nearest_opponent, 3);
}

} // verus!
