//! Arena states from plain values, for tests.

use crate::order::{comes_before, is_order, law_order, order_by_key, ordered_by_key};
use crate::pads::{nearest_among, nearest_index, nearest_pad};
use crate::reward::shaping::cross;
use crate::scalar::{minus, num, times, total, whole, Scalar};
use crate::sim::{
    BallHitInfo, BallState, BoostPad, CarInfo, CarState, GameState, RotMat, Team, Vec3,
};
use vstd::prelude::*;

verus! {

/// A car of a fixture.
pub struct FixtureCar<F> {
    pub pos: Vec3<F>,
    pub vel: Vec3<F>,
    pub ang_vel: Vec3<F>,
    pub forward: Vec3<F>,
    pub up: Vec3<F>,
    /// Boost from 0 to 1.
    pub boost: F,
    pub on_ground: bool,
    pub has_flip: bool,
    pub is_demoed: bool,
    pub team_orange: bool,
}

/// The state of a fixture's car: it never touched the ball, and it has a flip
/// on the ground or as the fixture says.
pub open spec fn fixture_state<F: Scalar>(c: FixtureCar<F>) -> CarState<F> {
    CarState {
        pos: c.pos,
        rot_mat: RotMat { forward: c.forward, right: cross(c.up, c.forward), up: c.up },
        vel: c.vel,
        ang_vel: c.ang_vel,
        boost: times(c.boost, num::<F>(100)),
        is_on_ground: c.on_ground,
        is_demoed: c.is_demoed,
        has_flipped: !c.on_ground && !c.has_flip,
        has_flip_or_jump: c.on_ground || c.has_flip,
        air_time_since_jump: num::<F>(0),
        ball_hit_info: BallHitInfo { is_valid: false, tick_count_when_hit: 0 },
    }
}

fn make_state<F: Scalar>(c: &FixtureCar<F>) -> (s: CarState<F>)
    requires
        total::<F>(),
    ensures
        s == fixture_state(*c),
{
    let (f, u) = (c.forward, c.up);
    let right: Vec3<F> = Vec3 {
        x: u.y * f.z - u.z * f.y,
        y: u.z * f.x - u.x * f.z,
        z: u.x * f.y - u.y * f.x,
    };
    let full: F = whole(100);
    CarState {
        pos: c.pos,
        rot_mat: RotMat { forward: f, right, up: u },
        vel: c.vel,
        ang_vel: c.ang_vel,
        boost: c.boost * full,
        is_on_ground: c.on_ground,
        is_demoed: c.is_demoed,
        has_flipped: !c.on_ground && !c.has_flip,
        has_flip_or_jump: c.on_ground || c.has_flip,
        air_time_since_jump: whole(0),
        ball_hit_info: BallHitInfo { is_valid: false, tick_count_when_hit: 0 },
    }
}

/// The first car from `from` on of a team.
pub open spec fn first_of_team<F>(cars: Seq<CarInfo<F>>, orange: bool, from: int) -> Option<int>
    decreases cars.len() - from,
{
    if from < 0 || from >= cars.len() {
        None
    } else if (cars[from].team == Team::Orange) == orange {
        Some(from)
    } else {
        first_of_team(cars, orange, from + 1)
    }
}

/// The arena's cars after the first `n` fixture cars were put into the first car
/// of their team.
pub open spec fn cars_filled<F: Scalar>(
    cars: Seq<CarInfo<F>>,
    fixture: Seq<FixtureCar<F>>,
    n: int,
) -> Seq<CarInfo<F>>
    decreases n,
{
    if n <= 0 {
        cars
    } else {
        let before = cars_filled(cars, fixture, n - 1);
        let j = first_of_team(cars, fixture[n - 1].team_orange, 0)->0;
        before.update(j, CarInfo { state: fixture_state(fixture[n - 1]), ..before[j] })
    }
}

/// The cars' sort keys: blue before orange.
pub open spec fn team_keys<F>(cars: Seq<CarInfo<F>>) -> Seq<Option<u64>> {
    Seq::new(
        cars.len(),
        |i: int|
            Some(
                if cars[i].team == Team::Orange {
                    1u64
                } else {
                    0u64
                },
            ),
    )
}

/// The cars with blue before orange, otherwise in their order.
pub open spec fn by_team<F>(cars: Seq<CarInfo<F>>) -> Seq<CarInfo<F>> {
    ordered_by_key(team_keys(cars), cars.len() as int).map_values(|i: usize| cars[i as int])
}

/// The pads after the first `n` listed pads were set: each sets the pad nearest
/// to it.
pub open spec fn pads_set<F: Scalar>(
    pads: Seq<BoostPad<F>>,
    positions: Seq<Vec3<F>>,
    active: Seq<bool>,
    n: int,
) -> Seq<BoostPad<F>>
    decreases n,
{
    if n <= 0 {
        pads
    } else {
        let before = pads_set(pads, positions, active, n - 1);
        let j = nearest_index(pads, positions[n - 1].x, positions[n - 1].y, pads.len() as int, 0);
        before.update(j, BoostPad { is_active: active[n - 1], ..before[j] })
    }
}

fn find_team<F>(cars: &Vec<CarInfo<F>>, orange: bool) -> (j: usize)
    requires
        first_of_team(cars@, orange, 0) is Some,
    ensures
        first_of_team(cars@, orange, 0) == Some(j as int),
        j < cars@.len(),
{
    let mut j: usize = 0;
    while j < cars.len()
        invariant
            j <= cars@.len(),
            first_of_team(cars@, orange, 0) is Some,
            first_of_team(cars@, orange, 0) == first_of_team(cars@, orange, j as int),
        decreases cars.len() - j,
    {
        if (cars[j].team == Team::Orange) == orange {
            return j;
        }
        j = j + 1;
    }
    0
}

fn sort_by_team<F: Scalar>(cars: &Vec<CarInfo<F>>) -> (r: Vec<CarInfo<F>>)
    ensures
        r@ == by_team(cars@),
{
    let mut keys: Vec<Option<u64>> = Vec::new();
    let mut i: usize = 0;
    while i < cars.len()
        invariant
            i <= cars@.len(),
            keys@ =~= team_keys(cars@).take(i as int),
        decreases cars.len() - i,
    {
        keys.push(
            Some(
                if cars[i].team == Team::Orange {
                    1
                } else {
                    0
                },
            ),
        );
        i = i + 1;
    }
    assert(keys@ =~= team_keys(cars@));
    let order: Vec<usize> = order_by_key(&keys);
    let mut r: Vec<CarInfo<F>> = Vec::new();
    i = 0;
    while i < order.len()
        invariant
            i <= order@.len(),
            is_order(team_keys(cars@), order@, cars@.len() as int),
            r@ =~= order@.take(i as int).map_values(|k: usize| cars@[k as int]),
        decreases order.len() - i,
    {
        assert(order@[i as int] < cars@.len());
        r.push(cars[order[i]]);
        i = i + 1;
    }
    assert(order@.take(i as int) =~= order@);
    r
}

/// A state with the cars, the ball and the pads of a fixture, from the state of
/// an arena that has the cars and the pads.
pub fn build_state<F: Scalar>(
    base: GameState<F>,
    cars: &Vec<FixtureCar<F>>,
    ball: BallState<F>,
    pad_positions: &Vec<Vec3<F>>,
    pad_active: &Vec<bool>,
) -> (gs: GameState<F>)
    requires
        total::<F>(),
        forall|i: int|
            0 <= i < cars@.len() ==> first_of_team(
                base.cars@,
                (#[trigger] cars@[i]).team_orange,
                0,
            ) is Some,
        pad_positions@.len() <= pad_active@.len(),
        pad_positions@.len() > 0 ==> base.pads@.len() > 0,
    ensures
        gs.tick_count == base.tick_count,
        gs.ball == ball,
        gs.cars@ == by_team(cars_filled(base.cars@, cars@, cars@.len() as int)),
        gs.pads@ == pads_set(
            base.pads@,
            pad_positions@,
            pad_active@,
            pad_positions@.len() as int,
        ),
{
    let mut list: Vec<CarInfo<F>> = Vec::new();
    let mut i: usize = 0;
    while i < base.cars.len()
        invariant
            i <= base.cars@.len(),
            list@ =~= base.cars@.take(i as int),
        decreases base.cars.len() - i,
    {
        list.push(base.cars[i]);
        i = i + 1;
    }
    assert(list@ =~= base.cars@);
    i = 0;
    while i < cars.len()
        invariant
            i <= cars@.len(),
            total::<F>(),
            forall|k: int|
                0 <= k < cars@.len() ==> first_of_team(
                    base.cars@,
                    (#[trigger] cars@[k]).team_orange,
                    0,
                ) is Some,
            list@.len() == base.cars@.len(),
            list@ == cars_filled(base.cars@, cars@, i as int),
        decreases cars.len() - i,
    {
        assert(first_of_team(base.cars@, cars@[i as int].team_orange, 0) is Some);
        let j: usize = find_team(&base.cars, cars[i].team_orange);
        let old_car: CarInfo<F> = list[j];
        list[j] = CarInfo { id: old_car.id, team: old_car.team, state: make_state(&cars[i]) };
        i = i + 1;
    }
    let sorted: Vec<CarInfo<F>> = sort_by_team(&list);
    let mut pads: Vec<BoostPad<F>> = Vec::new();
    i = 0;
    while i < base.pads.len()
        invariant
            i <= base.pads@.len(),
            pads@ =~= base.pads@.take(i as int),
        decreases base.pads.len() - i,
    {
        pads.push(base.pads[i]);
        i = i + 1;
    }
    assert(pads@ =~= base.pads@);
    i = 0;
    while i < pad_positions.len()
        invariant
            i <= pad_positions@.len(),
            total::<F>(),
            pad_positions@.len() <= pad_active@.len(),
            pad_positions@.len() > 0 ==> base.pads@.len() > 0,
            pads@.len() == base.pads@.len(),
            pads@ == pads_set(base.pads@, pad_positions@, pad_active@, i as int),
        decreases pad_positions.len() - i,
    {
        let p: Vec3<F> = pad_positions[i];
        let n: usize = base.pads.len();
        let j: usize = nearest_pad(&base.pads, p.x, p.y, n, 0);
        let old_pad: BoostPad<F> = pads[j];
        pads[j] = BoostPad {
            position: old_pad.position,
            is_big: old_pad.is_big,
            is_active: pad_active[i],
            cooldown: old_pad.cooldown,
        };
        i = i + 1;
    }
    GameState { tick_count: base.tick_count, ball, cars: sorted, pads }
}

/// A fixture's car shows what the fixture says, its boost counted in hundredths; it has
/// a flip where it stands or the fixture gives it one, has not touched the ball, and
/// its right is at right angles to its forward and its up.
pub proof fn law_fixture_cars_show_the_fixture<F: Scalar>(c: FixtureCar<F>)
    ensures
        ({
            let s = fixture_state(c);
            let (f, u, r) = (c.forward, c.up, s.rot_mat.right);
            &&& s.pos == c.pos && s.vel == c.vel && s.ang_vel == c.ang_vel
            &&& s.rot_mat.forward == f && s.rot_mat.up == u
            &&& r.x == minus(times(u.y, f.z), times(u.z, f.y))
            &&& r.y == minus(times(u.z, f.x), times(u.x, f.z))
            &&& r.z == minus(times(u.x, f.y), times(u.y, f.x))
            &&& s.boost == times(c.boost, num::<F>(100))
            &&& s.is_on_ground == c.on_ground && s.is_demoed == c.is_demoed
            &&& s.has_flip_or_jump <==> c.on_ground || c.has_flip
            &&& s.has_flipped <==> !(c.on_ground || c.has_flip)
            &&& !s.ball_hit_info.is_valid
            &&& s.air_time_since_jump == num::<F>(0)
        }),
{
}

/// The first car of a team is of that team, and none before it is.
pub proof fn law_first_car_of_a_team<F>(cars: Seq<CarInfo<F>>, orange: bool, from: int)
    requires
        0 <= from,
    ensures
        match first_of_team(cars, orange, from) {
            Some(j) => {
                &&& from <= j < cars.len()
                &&& cars[j].team == (if orange {
                    Team::Orange
                } else {
                    Team::Blue
                })
                &&& forall|k: int|
                    from <= k < j ==> ((#[trigger] cars[k]).team == Team::Orange) != orange
            },
            None => forall|k: int|
                from <= k < cars.len() ==> ((#[trigger] cars[k]).team == Team::Orange) != orange,
        },
    decreases cars.len() - from,
{
    if from < cars.len() && (cars[from].team == Team::Orange) != orange {
        law_first_car_of_a_team(cars, orange, from + 1);
    }
}

/// A fixture car goes into the first car of its team; the others stay, and every car
/// keeps its id and team.
pub proof fn law_fixture_cars_fill_their_team<F: Scalar>(
    cars: Seq<CarInfo<F>>,
    fixture: Seq<FixtureCar<F>>,
    n: int,
    j: int,
)
    requires
        0 <= n < fixture.len(),
        0 <= j < cars.len(),
        forall|i: int|
            0 <= i < fixture.len() ==> first_of_team(
                cars,
                (#[trigger] fixture[i]).team_orange,
                0,
            ) is Some,
    ensures
        cars_filled(cars, fixture, 0) == cars,
        ({
            let before = cars_filled(cars, fixture, n);
            let after = cars_filled(cars, fixture, n + 1);
            let first = first_of_team(cars, fixture[n].team_orange, 0) == Some(j);
            &&& after.len() == cars.len()
            &&& after[j].id == cars[j].id && after[j].team == cars[j].team
            &&& first ==> after[j].state == fixture_state(fixture[n])
            &&& !first ==> after[j] == before[j]
        }),
{
    lemma_filled(cars, fixture, n, j);
    law_first_car_of_a_team(cars, fixture[n].team_orange, 0);
}

proof fn lemma_filled<F: Scalar>(
    cars: Seq<CarInfo<F>>,
    fixture: Seq<FixtureCar<F>>,
    n: int,
    j: int,
)
    requires
        n <= fixture.len(),
        0 <= j < cars.len(),
        forall|i: int|
            0 <= i < fixture.len() ==> first_of_team(
                cars,
                (#[trigger] fixture[i]).team_orange,
                0,
            ) is Some,
    ensures
        cars_filled(cars, fixture, n).len() == cars.len(),
        cars_filled(cars, fixture, n)[j].id == cars[j].id,
        cars_filled(cars, fixture, n)[j].team == cars[j].team,
    decreases n,
{
    if n > 0 {
        lemma_filled(cars, fixture, n - 1, j);
        assert(first_of_team(cars, fixture[n - 1].team_orange, 0) is Some);
        law_first_car_of_a_team(cars, fixture[n - 1].team_orange, 0);
    }
}

/// Blue cars stand before orange ones; cars of a team keep their order. Every car is
/// there once.
pub proof fn law_teams_stand_together<F>(cars: Seq<CarInfo<F>>, a: int, b: int)
    requires
        cars.len() <= usize::MAX,
        0 <= a < b < by_team(cars).len(),
    ensures
        ({
            let order = ordered_by_key(team_keys(cars), cars.len() as int);
            &&& by_team(cars)[a] == cars[order[a] as int]
            &&& by_team(cars)[b] == cars[order[b] as int]
            &&& by_team(cars)[a].team == Team::Orange ==> by_team(cars)[b].team == Team::Orange
            &&& by_team(cars)[a].team == by_team(cars)[b].team ==> order[a] < order[b]
            &&& order[a] != order[b]
            &&& forall|i: int| 0 <= i < cars.len() ==> order.contains(#[trigger] (i as usize))
        }),
{
    let keys = team_keys(cars);
    let order = ordered_by_key(keys, cars.len() as int);
    law_order(keys, cars.len() as int);
    assert(order[a] < cars.len() && order[b] < cars.len());
    assert(comes_before(keys, order[a], order[b]));
    assert forall|i: int| 0 <= i < cars.len() implies order.contains(#[trigger] (i as usize)) by {
        assert(keys[i] is Some);
    }
}

/// A listed pad sets the pad nearest to it, and that alone, to active or not; nothing
/// else of a pad changes.
pub proof fn law_listed_pads_are_set<F: Scalar>(
    pads: Seq<BoostPad<F>>,
    positions: Seq<Vec3<F>>,
    active: Seq<bool>,
    n: int,
    j: int,
)
    requires
        0 <= n < positions.len(),
        0 <= j < pads.len(),
    ensures
        pads_set(pads, positions, active, 0) == pads,
        ({
            let before = pads_set(pads, positions, active, n);
            let after = pads_set(pads, positions, active, n + 1);
            let p = positions[n];
            let near = nearest_index(pads, p.x, p.y, pads.len() as int, 0);
            &&& after.len() == pads.len()
            &&& after[j].position == pads[j].position && after[j].is_big == pads[j].is_big
            &&& after[j].cooldown == pads[j].cooldown
            &&& j == near ==> after[j].is_active == active[n]
            &&& j != near ==> after[j] == before[j]
        }),
{
    lemma_pads_kept(pads, positions, active, n, j);
    lemma_nearest_is_a_pad(pads, positions[n].x, positions[n].y, pads.len() as int);
}

proof fn lemma_pads_kept<F: Scalar>(
    pads: Seq<BoostPad<F>>,
    positions: Seq<Vec3<F>>,
    active: Seq<bool>,
    n: int,
    j: int,
)
    requires
        0 <= j < pads.len(),
    ensures
        pads_set(pads, positions, active, n).len() == pads.len(),
        pads_set(pads, positions, active, n)[j].position == pads[j].position,
        pads_set(pads, positions, active, n)[j].is_big == pads[j].is_big,
        pads_set(pads, positions, active, n)[j].cooldown == pads[j].cooldown,
    decreases n,
{
    if n > 0 {
        lemma_pads_kept(pads, positions, active, n - 1, j);
        lemma_nearest_is_a_pad(pads, positions[n - 1].x, positions[n - 1].y, pads.len() as int);
    }
}

proof fn lemma_nearest_is_a_pad<F: Scalar>(pads: Seq<BoostPad<F>>, x: F, y: F, n: int)
    ensures
        nearest_among(pads, x, y, n) matches Some((i, d)) ==> 0 <= i < n,
    decreases n,
{
    if n > 0 {
        lemma_nearest_is_a_pad(pads, x, y, n - 1);
    }
}

} // verus!
