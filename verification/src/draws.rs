//! What can be drawn at random.

use crate::argmax::{argmax_of, eligible, greatest};
use crate::curriculum::{
    bodies, clear_of, drawn, drawn_car, drawn_cars, drawn_position, drawn_velocity, found_position,
    gap2, law_positions_keep_distance, RandomCar, RandomStateBounds, Trig,
};
use crate::episode::arena::{
    jitter, jitter_rng, jittered_ball, jittered_car, next_kind, rng_after_kind, EpisodeArena,
    KickoffCar,
};
use crate::episode::{after_kind, drawn_kind, ResetKind};
use crate::exact::{
    add_assoc, add_comm, add_opposite, add_zero, distribute, divide, exact, inverse_is_positive,
    minus_is_plus, mul_assoc, mul_comm, mul_one, mul_zero, next_number, numbers_ascend,
    opposite_facts, opposite_unique, order_chain, order_facts, order_opposite, order_scale,
    order_shift, over_is_times, over_opposite, sorted,
};
use crate::sampler::{
    after_draws, crosses_at, law_draws_are_fractions, pcg_next, pcg_output, peak, running_sum, unit,
    Gen,
};
use crate::scalar::{
    ge, gt, le, lt, minus, num, opposite, over, plus, times, value_of, Scalar,
};
use crate::sim::Vec3;
use vstd::prelude::*;

verus! {

/// A number from `lo` to `hi`.
pub open spec fn ranges<F: Scalar>(x: F, lo: F, hi: F) -> bool {
    le(lo, x) && le(x, hi)
}

/// A share from 0 to 1 of the way from `lo` to `hi` lies between them.
proof fn lemma_share_of_way<F: Scalar>(u: F, lo: F, hi: F)
    requires
        exact::<F>(),
        sorted::<F>(),
        ge(u, num::<F>(0)),
        lt(u, num::<F>(1)),
        le(lo, hi),
    ensures
        ranges(plus(lo, times(u, minus(hi, lo))), lo, hi),
{
    let (zero, one) = (num::<F>(0), num::<F>(1));
    let w = minus(hi, lo);
    let x = times(u, w);
    minus_is_plus(hi, lo);
    order_facts(lo, hi);
    order_shift(lo, hi, opposite(lo));
    add_opposite(lo);
    order_facts(u, zero);
    order_facts(zero, u);
    mul_comm(u, w);
    mul_zero(w);
    mul_one(w);
    // 0 <= x <= w
    if lt(zero, w) {
        order_scale(zero, u, w);
        order_scale(u, one, w);
    } else {
        order_facts(zero, w);
        assert(w == zero);
        mul_zero(u);
    }
    order_facts(zero, x);
    order_facts(x, w);
    order_facts(zero, zero);
    // lo <= lo + x <= lo + w == hi
    add_comm(lo, x);
    add_comm(lo, w);
    add_zero(lo);
    order_shift(zero, x, lo);
    order_shift(x, w, lo);
    add_assoc(hi, opposite(lo), lo);
    add_opposite(lo);
    add_zero(hi);
    add_comm(opposite(lo), lo);
    order_facts(lo, plus(lo, x));
    order_facts(plus(lo, x), hi);
}

/// A draw from `lo` to `hi` lies between them, as far on the way as the generator's
/// number says.
pub proof fn law_draws_keep_their_range<F: Scalar>(g: Gen, lo: F, hi: F)
    requires
        exact::<F>(),
        sorted::<F>(),
        le(lo, hi),
    ensures
        ranges(drawn(g, lo, hi), lo, hi),
        minus(drawn(g, lo, hi), lo) == times(unit::<F>(pcg_output(g)), minus(hi, lo)),
{
    let u = unit::<F>(pcg_output(g));
    law_draws_are_fractions::<F>(pcg_output(g));
    lemma_share_of_way(u, lo, hi);
    let x = times(u, minus(hi, lo));
    minus_is_plus(plus(lo, x), lo);
    add_comm(lo, x);
    add_assoc(x, lo, opposite(lo));
    add_opposite(lo);
    add_zero(x);
}

proof fn lemma_constants<F: Scalar>(a: int, b: int)
    requires
        exact::<F>(),
        sorted::<F>(),
        -16384 <= a <= b <= 16384,
    ensures
        le(num::<F>(a), num::<F>(b)),
    decreases b - a,
{
    order_facts(num::<F>(a), num::<F>(b));
    if a < b {
        lemma_constants::<F>(a, b - 1);
        let c = num::<F>(b - 1);
        next_number::<F>(b - 1);
        order_facts(c, num::<F>(b));
        order_facts(num::<F>(0), num::<F>(1));
        order_shift(num::<F>(0), num::<F>(1), c);
        add_zero(c);
        add_comm(num::<F>(1), c);
        order_chain(num::<F>(a), c, num::<F>(b));
    }
}

/// A position of a random scenario lies within 3500 across and 4500 along the field,
/// and between the heights given.
pub proof fn law_positions_stay_on_the_field<F: Scalar>(
    g: Gen,
    z_lo: F,
    z_hi: F,
    placed: Seq<Vec3<F>>,
    sep: F,
    tries: int,
)
    requires
        exact::<F>(),
        sorted::<F>(),
        le(z_lo, z_hi),
    ensures
        ({
            let p = found_position(g, z_lo, z_hi, placed, sep, tries).0;
            &&& ranges(p.x, num::<F>(-3500), num::<F>(3500))
            &&& ranges(p.y, num::<F>(-4500), num::<F>(4500))
            &&& ranges(p.z, z_lo, z_hi)
        }),
    decreases tries,
{
    lemma_constants::<F>(-3500, 3500);
    lemma_constants::<F>(-4500, 4500);
    law_draws_keep_their_range(g, num::<F>(-3500), num::<F>(3500));
    law_draws_keep_their_range(pcg_next(g), num::<F>(-4500), num::<F>(4500));
    law_draws_keep_their_range(pcg_next(pcg_next(g)), z_lo, z_hi);
    if tries > 1 && !clear_of(drawn_position(g, z_lo, z_hi), placed, sep) {
        let next = pcg_next(pcg_next(pcg_next(g)));
        law_positions_stay_on_the_field(next, z_lo, z_hi, placed, sep, tries - 1);
    }
}

/// Cosine and sine of an angle lie on the unit circle.
pub open spec fn on_circle<F: Scalar, C: Fn(F) -> F, S: Fn(F) -> F>(
    x: F,
    trig: Trig<F, C, S>,
) -> bool {
    let (c, s) = (value_of(trig.cos, x), value_of(trig.sin, x));
    plus(times(c, c), times(s, s)) == num::<F>(1)
}

proof fn lemma_square_of_product<F: Scalar>(a: F, b: F)
    requires
        exact::<F>(),
    ensures
        times(times(a, b), times(a, b)) == times(times(a, a), times(b, b)),
{
    mul_assoc(a, b, times(a, b));
    mul_assoc(b, a, b);
    mul_comm(b, a);
    mul_assoc(a, b, b);
    mul_assoc(a, a, times(b, b));
}

/// A random velocity has the speed that was drawn, a share below 1 of the greatest.
pub proof fn law_velocities_have_the_drawn_speed<F: Scalar, C: Fn(F) -> F, S: Fn(F) -> F>(
    g: Gen,
    max: F,
    trig: Trig<F, C, S>,
)
    requires
        exact::<F>(),
        on_circle(drawn(g, num::<F>(0), trig.tau), trig),
        on_circle(
            drawn(
                pcg_next(g),
                over(num::<F>(-12), num::<F>(10)),
                over(num::<F>(12), num::<F>(10)),
            ),
            trig,
        ),
    ensures
        ({
            let v = drawn_velocity(g, max, trig);
            let speed = times(unit::<F>(pcg_output(pcg_next(pcg_next(g)))), max);
            plus(plus(times(v.x, v.x), times(v.y, v.y)), times(v.z, v.z)) == times(speed, speed)
        }),
{
    let yaw = drawn(g, num::<F>(0), trig.tau);
    let pitch = drawn(
        pcg_next(g),
        over(num::<F>(-12), num::<F>(10)),
        over(num::<F>(12), num::<F>(10)),
    );
    let m = times(unit::<F>(pcg_output(pcg_next(pcg_next(g)))), max);
    let (cy, sy) = (value_of(trig.cos, yaw), value_of(trig.sin, yaw));
    let (cp, sp) = (value_of(trig.cos, pitch), value_of(trig.sin, pitch));
    let f = times(m, cp);
    lemma_square_of_product(f, cy);
    lemma_square_of_product(f, sy);
    distribute(times(f, f), times(cy, cy), times(sy, sy));
    mul_one(times(f, f));
    lemma_square_of_product(m, cp);
    lemma_square_of_product(m, sp);
    distribute(times(m, m), times(cp, cp), times(sp, sp));
    mul_one(times(m, m));
}

/// What holds of every car of a random scenario. On the ground it stands at its
/// rest height, level, and does not move up or down; in the air it is at least 100
/// high, and pitched and rolled by at most 1. It has a full range of headings and of
/// boost.
pub open spec fn car_in_bounds<F: Scalar>(
    c: RandomCar<F>,
    b: RandomStateBounds<F>,
    tau: F,
) -> bool {
    let (zero, one) = (num::<F>(0), num::<F>(1));
    &&& ranges(c.pos.x, num::<F>(-3500), num::<F>(3500))
    &&& ranges(c.pos.y, num::<F>(-4500), num::<F>(4500))
    &&& ranges(c.yaw, zero, tau)
    &&& ranges(c.boost, zero, num::<F>(100))
    &&& c.is_on_ground ==> c.pos.z == num::<F>(17) && c.vel.z == zero && c.pitch == zero && c.roll
        == zero
    &&& !c.is_on_ground ==> ranges(c.pos.z, num::<F>(100), b.z_max) && ranges(
        c.pitch,
        num::<F>(-1),
        one,
    ) && ranges(c.roll, num::<F>(-1), one)
}

proof fn lemma_car_in_bounds<F: Scalar, C: Fn(F) -> F, S: Fn(F) -> F>(
    g: Gen,
    placed: Seq<Vec3<F>>,
    b: RandomStateBounds<F>,
    trig: Trig<F, C, S>,
)
    requires
        exact::<F>(),
        sorted::<F>(),
        le(num::<F>(100), b.z_max),
        le(num::<F>(0), trig.tau),
    ensures
        car_in_bounds(drawn_car(g, placed, b, trig).0, b, trig.tau),
{
    let grounded = lt(unit::<F>(pcg_output(g)), over(num::<F>(1), num::<F>(2)));
    let (lo, hi) = if grounded {
        (num::<F>(17), num::<F>(17))
    } else {
        (num::<F>(100), b.z_max)
    };
    order_facts(num::<F>(17), num::<F>(17));
    law_positions_stay_on_the_field(pcg_next(g), lo, hi, placed, b.min_separation, 10);
    let (pos, g1) = found_position(pcg_next(g), lo, hi, placed, b.min_separation, 10);
    order_facts(pos.z, num::<F>(17));
    order_facts(num::<F>(17), pos.z);
    let g2 = pcg_next(pcg_next(pcg_next(g1)));
    let g3 = pcg_next(g2);
    lemma_constants::<F>(-1, 1);
    lemma_constants::<F>(0, 100);
    law_draws_keep_their_range(g2, num::<F>(0), trig.tau);
    law_draws_keep_their_range(g3, num::<F>(-1), num::<F>(1));
    law_draws_keep_their_range(pcg_next(g3), num::<F>(-1), num::<F>(1));
    law_draws_keep_their_range(g3, num::<F>(0), num::<F>(100));
    law_draws_keep_their_range(pcg_next(pcg_next(g3)), num::<F>(0), num::<F>(100));
}

/// Every car of a random scenario keeps the bounds, and there are as many as were
/// asked for.
pub proof fn law_scenarios_keep_the_bounds<F: Scalar, C: Fn(F) -> F, S: Fn(F) -> F>(
    g: Gen,
    ball: Vec3<F>,
    b: RandomStateBounds<F>,
    trig: Trig<F, C, S>,
    n: int,
    i: int,
)
    requires
        exact::<F>(),
        sorted::<F>(),
        le(num::<F>(100), b.z_max),
        le(num::<F>(0), trig.tau),
        0 <= n,
    ensures
        drawn_cars(g, ball, b, trig, n).0.len() == n,
        0 <= i < n ==> car_in_bounds(drawn_cars(g, ball, b, trig, n).0[i], b, trig.tau),
    decreases n,
{
    if n > 0 {
        law_scenarios_keep_the_bounds(g, ball, b, trig, n - 1, i);
        let (before, g1) = drawn_cars(g, ball, b, trig, n - 1);
        lemma_car_in_bounds(g1, bodies(ball, before), b, trig);
    }
}

/// The squared distance of two points.
pub open spec fn squared_distance<F: Scalar>(p: Vec3<F>, q: Vec3<F>) -> F {
    let (x, y, z) = (minus(p.x, q.x), minus(p.y, q.y), minus(p.z, q.z));
    plus(plus(times(x, x), times(y, y)), times(z, z))
}

/// A point keeps the distance `sep` from the ball and from the first `i` cars.
pub open spec fn apart<F: Scalar>(
    p: Vec3<F>,
    ball: Vec3<F>,
    cars: Seq<RandomCar<F>>,
    i: int,
    sep: F,
) -> bool {
    &&& ge(squared_distance(p, ball), times(sep, sep))
    &&& forall|j: int|
        0 <= j < i ==> ge(squared_distance(p, (#[trigger] cars[j]).pos), times(sep, sep))
}

/// Ten positions drawn from `h` on all came too near.
pub open spec fn crowded<F: Scalar>(
    h: Gen,
    lo: F,
    hi: F,
    ball: Vec3<F>,
    cars: Seq<RandomCar<F>>,
    i: int,
    sep: F,
) -> bool {
    forall|k: int|
        0 <= k < 10 ==> !apart(
            #[trigger] drawn_position(after_draws(h, (3 * k) as nat), lo, hi),
            ball,
            cars,
            i,
            sep,
        )
}

/// Car `i` of a scenario keeps its distance from the ball and from the cars before
/// it, or ten tries in a row from `h` on came too near.
pub open spec fn keeps_apart<F: Scalar>(
    h: Gen,
    ball: Vec3<F>,
    cars: Seq<RandomCar<F>>,
    i: int,
    b: RandomStateBounds<F>,
) -> bool {
    let lo = if cars[i].is_on_ground {
        num::<F>(17)
    } else {
        num::<F>(100)
    };
    let hi = if cars[i].is_on_ground {
        num::<F>(17)
    } else {
        b.z_max
    };
    ||| apart(cars[i].pos, ball, cars, i, b.min_separation)
    ||| crowded(h, lo, hi, ball, cars, i, b.min_separation)
}

proof fn lemma_keeps_apart<F: Scalar>(
    h: Gen,
    ball: Vec3<F>,
    before: Seq<RandomCar<F>>,
    cars: Seq<RandomCar<F>>,
    i: int,
    b: RandomStateBounds<F>,
)
    requires
        0 <= i < before.len(),
        i < cars.len(),
        forall|j: int| 0 <= j <= i ==> #[trigger] before[j] == cars[j],
        keeps_apart(h, ball, before, i, b),
    ensures
        keeps_apart(h, ball, cars, i, b),
{
    let sep = b.min_separation;
    assert(before[i] == cars[i]);
    let lo = if cars[i].is_on_ground {
        num::<F>(17)
    } else {
        num::<F>(100)
    };
    let hi = if cars[i].is_on_ground {
        num::<F>(17)
    } else {
        b.z_max
    };
    lemma_same_neighbours(ball, before, cars, i, sep);
    let p = cars[i].pos;
    assert(apart(p, ball, before, i, sep) == apart(p, ball, cars, i, sep));
    if !apart(before[i].pos, ball, before, i, sep) {
        lemma_still_crowded(h, lo, hi, ball, before, cars, i, sep);
    }
}

/// Every car of a random scenario keeps its distance from the ball and from the cars
/// before it, unless ten tries in a row came too near.
pub proof fn law_scenario_cars_keep_apart<F: Scalar, C: Fn(F) -> F, S: Fn(F) -> F>(
    g: Gen,
    ball: Vec3<F>,
    b: RandomStateBounds<F>,
    trig: Trig<F, C, S>,
    n: int,
    i: int,
)
    requires
        0 <= i < n,
    ensures
        keeps_apart(
            pcg_next(drawn_cars(g, ball, b, trig, i).1),
            ball,
            drawn_cars(g, ball, b, trig, n).0,
            i,
            b,
        ),
    decreases n,
{
    let cars = drawn_cars(g, ball, b, trig, n).0;
    let before = drawn_cars(g, ball, b, trig, n - 1).0;
    let g1 = drawn_cars(g, ball, b, trig, n - 1).1;
    lemma_scenario_size(g, ball, b, trig, n - 1);
    let car = drawn_car(g1, bodies(ball, before), b, trig).0;
    assert(cars == before.push(car));
    if i < n - 1 {
        law_scenario_cars_keep_apart(g, ball, b, trig, n - 1, i);
        lemma_keeps_apart(
            pcg_next(drawn_cars(g, ball, b, trig, i).1),
            ball,
            before,
            cars,
            i,
            b,
        );
    } else {
        lemma_last_car(g1, ball, before, b, trig);
        assert(cars[i] == car);
    }
}

proof fn lemma_still_crowded<F: Scalar>(
    h: Gen,
    lo: F,
    hi: F,
    ball: Vec3<F>,
    before: Seq<RandomCar<F>>,
    cars: Seq<RandomCar<F>>,
    i: int,
    sep: F,
)
    requires
        crowded(h, lo, hi, ball, before, i, sep),
        forall|p: Vec3<F>| #[trigger]
            apart(p, ball, before, i, sep) == apart(p, ball, cars, i, sep),
    ensures
        crowded(h, lo, hi, ball, cars, i, sep),
{
    assert forall|k: int| 0 <= k < 10 implies !apart(
        #[trigger] drawn_position(after_draws(h, (3 * k) as nat), lo, hi),
        ball,
        cars,
        i,
        sep,
    ) by {
        let q = drawn_position(after_draws(h, (3 * k) as nat), lo, hi);
        assert(apart(q, ball, before, i, sep) == apart(q, ball, cars, i, sep));
    }
}

/// Where a car is that is drawn.
proof fn lemma_car_position<F: Scalar, C: Fn(F) -> F, S: Fn(F) -> F>(
    g: Gen,
    placed: Seq<Vec3<F>>,
    b: RandomStateBounds<F>,
    trig: Trig<F, C, S>,
)
    ensures
        ({
            let car = drawn_car(g, placed, b, trig).0;
            let lo = if car.is_on_ground {
                num::<F>(17)
            } else {
                num::<F>(100)
            };
            let hi = if car.is_on_ground {
                num::<F>(17)
            } else {
                b.z_max
            };
            car.pos == found_position(pcg_next(g), lo, hi, placed, b.min_separation, 10).0
        }),
{
}

/// A position that is found keeps its distance from all bodies before it, unless
/// its ten tries came too near.
proof fn lemma_found_apart<F: Scalar>(
    h: Gen,
    lo: F,
    hi: F,
    ball: Vec3<F>,
    before: Seq<RandomCar<F>>,
    sep: F,
)
    ensures
        ({
            let p = found_position(h, lo, hi, bodies(ball, before), sep, 10).0;
            let i = before.len() as int;
            apart(p, ball, before, i, sep) || crowded(h, lo, hi, ball, before, i, sep)
        }),
{
    let placed = bodies(ball, before);
    let p = found_position(h, lo, hi, placed, sep, 10).0;
    let i = before.len() as int;
    law_positions_keep_distance(h, lo, hi, placed, sep, 10);
    lemma_clear_is_apart(p, ball, before, sep);
    if !apart(p, ball, before, i, sep) {
        assert forall|k: int| 0 <= k < 10 implies !apart(
            #[trigger] drawn_position(after_draws(h, (3 * k) as nat), lo, hi),
            ball,
            before,
            i,
            sep,
        ) by {
            let q = drawn_position(after_draws(h, (3 * k) as nat), lo, hi);
            lemma_clear_is_apart(q, ball, before, sep);
        }
    }
}

/// A car that is drawn keeps its distance from all bodies before it, unless its ten
/// tries came too near.
proof fn lemma_last_car<F: Scalar, C: Fn(F) -> F, S: Fn(F) -> F>(
    g: Gen,
    ball: Vec3<F>,
    before: Seq<RandomCar<F>>,
    b: RandomStateBounds<F>,
    trig: Trig<F, C, S>,
)
    ensures
        ({
            let car = drawn_car(g, bodies(ball, before), b, trig).0;
            keeps_apart(pcg_next(g), ball, before.push(car), before.len() as int, b)
        }),
{
    let placed = bodies(ball, before);
    let car = drawn_car(g, placed, b, trig).0;
    let cars = before.push(car);
    let lo = if car.is_on_ground {
        num::<F>(17)
    } else {
        num::<F>(100)
    };
    let hi = if car.is_on_ground {
        num::<F>(17)
    } else {
        b.z_max
    };
    let sep = b.min_separation;
    let h = pcg_next(g);
    let i = before.len() as int;
    lemma_car_position(g, placed, b, trig);
    lemma_found_apart(h, lo, hi, ball, before, sep);
    lemma_same_neighbours(ball, before, cars, i, sep);
    let p = car.pos;
    assert(cars[i] == car);
    assert(apart(p, ball, before, i, sep) == apart(p, ball, cars, i, sep));
    if !apart(p, ball, before, i, sep) {
        lemma_still_crowded(h, lo, hi, ball, before, cars, i, sep);
        assert(crowded(h, lo, hi, ball, cars, i, sep));
    }
}

proof fn lemma_scenario_size<F: Scalar, C: Fn(F) -> F, S: Fn(F) -> F>(
    g: Gen,
    ball: Vec3<F>,
    b: RandomStateBounds<F>,
    trig: Trig<F, C, S>,
    n: int,
)
    requires
        0 <= n,
    ensures
        drawn_cars(g, ball, b, trig, n).0.len() == n,
    decreases n,
{
    if n > 0 {
        lemma_scenario_size(g, ball, b, trig, n - 1);
    }
}

proof fn lemma_same_neighbours<F: Scalar>(
    ball: Vec3<F>,
    a: Seq<RandomCar<F>>,
    b: Seq<RandomCar<F>>,
    i: int,
    sep: F,
)
    requires
        i <= a.len(),
        i <= b.len(),
        forall|j: int| 0 <= j < i ==> #[trigger] a[j] == b[j],
    ensures
        forall|p: Vec3<F>| #[trigger] apart(p, ball, a, i, sep) == apart(p, ball, b, i, sep),
{
    assert forall|p: Vec3<F>| #[trigger] apart(p, ball, a, i, sep) == apart(p, ball, b, i, sep) by {
        if apart(p, ball, a, i, sep) {
            assert forall|j: int| 0 <= j < i implies ge(
                squared_distance(p, (#[trigger] b[j]).pos),
                times(sep, sep),
            ) by {
                assert(a[j] == b[j]);
            }
        }
        if apart(p, ball, b, i, sep) {
            assert forall|j: int| 0 <= j < i implies ge(
                squared_distance(p, (#[trigger] a[j]).pos),
                times(sep, sep),
            ) by {
                assert(a[j] == b[j]);
            }
        }
    }
}

proof fn lemma_clear_is_apart<F: Scalar>(
    p: Vec3<F>,
    ball: Vec3<F>,
    cars: Seq<RandomCar<F>>,
    sep: F,
)
    ensures
        clear_of(p, bodies(ball, cars), sep) == apart(p, ball, cars, cars.len() as int, sep),
{
    let placed = bodies(ball, cars);
    if clear_of(p, placed, sep) {
        assert(ge(gap2(p, placed[0]), times(sep, sep)));
        assert forall|j: int| 0 <= j < cars.len() implies ge(
            squared_distance(p, (#[trigger] cars[j]).pos),
            times(sep, sep),
        ) by {
            assert(ge(gap2(p, placed[j + 1]), times(sep, sep)));
        }
    }
    if apart(p, ball, cars, cars.len() as int, sep) {
        assert forall|i: int| 0 <= i < placed.len() implies ge(
            gap2(p, #[trigger] placed[i]),
            times(sep, sep),
        ) by {
            if i > 0 {
                assert(placed[i] == cars[i - 1].pos);
            }
        }
    }
}

/// What has no weight is not drawn: without a replay weight no recorded state,
/// without a random weight no random scenario, without a kickoff weight no kickoff.
pub proof fn law_zero_weights_are_not_drawn<F: Scalar>(
    g: (u64, u64),
    replay: F,
    kickoff: F,
    random: F,
    pool_len: usize,
)
    requires
        exact::<F>(),
        sorted::<F>(),
        pool_len > 0 || replay == num::<F>(0),
        gt(plus(plus(replay, kickoff), random), num::<F>(0)),
    ensures
        replay == num::<F>(0) ==> !(drawn_kind(g, replay, kickoff, random, pool_len) is Replay),
        random == num::<F>(0) ==> !(drawn_kind(g, replay, kickoff, random, pool_len) is Random),
        kickoff == num::<F>(0) ==> !(drawn_kind(g, replay, kickoff, random, pool_len) is Kickoff),
{
    let zero = num::<F>(0);
    let sum = plus(plus(replay, kickoff), random);
    let u = unit::<F>(pcg_output(g));
    law_draws_are_fractions::<F>(pcg_output(g));
    order_facts(sum, zero);
    order_facts(u, zero);
    order_facts(zero, sum);
    over_is_times(zero, sum);
    mul_zero(over(num::<F>(1), sum));
    add_zero(replay);
    add_zero(zero);
    if kickoff == zero {
        assert(sum == plus(replay, random));
        over_is_times(sum, sum);
        divide(num::<F>(1), sum);
        mul_comm(over(num::<F>(1), sum), sum);
    }
}

/// Jitter moves a car by at most 150 across and along the field and turns it by at
/// most 0.17; it moves the ball by at most 10. Heights stay.
pub proof fn law_jitter_is_small<F: Scalar>(
    c: KickoffCar<F>,
    ball: Vec3<F>,
    g: (u64, u64),
)
    requires
        exact::<F>(),
        sorted::<F>(),
    ensures
        ({
            let j = jittered_car(c, g);
            let b = jittered_ball(ball, g);
            let turn = over(num::<F>(17), num::<F>(100));
            &&& ranges(minus(j.pos.x, c.pos.x), num::<F>(-150), num::<F>(150))
            &&& ranges(minus(j.pos.y, c.pos.y), num::<F>(-150), num::<F>(150))
            &&& j.pos.z == c.pos.z
            &&& ranges(minus(j.yaw, c.yaw), over(num::<F>(-17), num::<F>(100)), turn)
            &&& ranges(minus(b.x, ball.x), num::<F>(-10), num::<F>(10))
            &&& ranges(minus(b.y, ball.y), num::<F>(-10), num::<F>(10))
            &&& b.z == ball.z
        }),
{
    let g1 = pcg_next(g);
    lemma_jitter_of::<F>(g, 150);
    lemma_jitter_of::<F>(g1, 150);
    lemma_jitter_of::<F>(g, 10);
    lemma_jitter_of::<F>(g1, 10);
    lemma_moved_by(c.pos.x, jitter(g, num::<F>(-150), num::<F>(150)));
    lemma_moved_by(c.pos.y, jitter(g1, num::<F>(-150), num::<F>(150)));
    lemma_moved_by(ball.x, jitter(g, num::<F>(-10), num::<F>(10)));
    lemma_moved_by(ball.y, jitter(g1, num::<F>(-10), num::<F>(10)));
    let turn = over(num::<F>(17), num::<F>(100));
    let back = over(num::<F>(-17), num::<F>(100));
    let h = num::<F>(100);
    lemma_minus_constant::<F>(17);
    numbers_ascend::<F>(0, 100);
    numbers_ascend::<F>(0, 17);
    order_facts(num::<F>(0), h);
    over_opposite(num::<F>(17), h);
    over_is_times(num::<F>(17), h);
    inverse_is_positive(h);
    order_scale(num::<F>(0), num::<F>(17), over(num::<F>(1), h));
    mul_zero(over(num::<F>(1), h));
    lemma_jitter_range(pcg_next(g1), turn);
    lemma_moved_by(c.yaw, jitter(pcg_next(g1), back, turn));
}

proof fn lemma_moved_by<F: Scalar>(x: F, d: F)
    requires
        exact::<F>(),
    ensures
        minus(plus(x, d), x) == d,
{
    minus_is_plus(plus(x, d), x);
    add_comm(x, d);
    add_assoc(d, x, opposite(x));
    add_opposite(x);
    add_zero(d);
}

proof fn lemma_minus_constant<F: Scalar>(k: int)
    requires
        exact::<F>(),
        0 <= k <= 16384,
    ensures
        num::<F>(-k) == opposite(num::<F>(k)),
    decreases k,
{
    let one = num::<F>(1);
    if k == 0 {
        opposite_facts(num::<F>(0));
    } else {
        lemma_minus_constant::<F>(k - 1);
        next_number::<F>(k - 1);
        next_number::<F>(-k);
        let (a, b) = (num::<F>(-k), num::<F>(k - 1));
        // -k + 1 == -(k - 1) and k == (k - 1) + 1
        assert(plus(a, one) == opposite(b));
        add_comm(b, one);
        add_assoc(a, one, b);
        add_opposite(b);
        add_comm(a, num::<F>(k));
        opposite_unique(num::<F>(k), a);
    }
}

proof fn lemma_jitter_of<F: Scalar>(g: (u64, u64), k: int)
    requires
        exact::<F>(),
        sorted::<F>(),
        0 < k <= 16384,
    ensures
        ranges(jitter(g, num::<F>(-k), num::<F>(k)), num::<F>(-k), num::<F>(k)),
{
    lemma_minus_constant::<F>(k);
    numbers_ascend::<F>(0, k);
    lemma_jitter_range(g, num::<F>(k));
}

/// A draw that begins at the opposite of `k` and is as wide as twice `k` ends at
/// `k`.
proof fn lemma_jitter_range<F: Scalar>(g: (u64, u64), k: F)
    requires
        exact::<F>(),
        sorted::<F>(),
        lt(num::<F>(0), k),
    ensures
        ranges(jitter(g, opposite(k), k), opposite(k), k),
{
    let u = unit::<F>(pcg_output(g));
    let (zero, one) = (num::<F>(0), num::<F>(1));
    law_draws_are_fractions::<F>(pcg_output(g));
    next_number::<F>(1);
    distribute(k, one, one);
    mul_one(k);
    minus_is_plus(k, opposite(k));
    opposite_facts(k);
    assert(times(num::<F>(2), k) == minus(k, opposite(k)));
    order_opposite(zero, k);
    order_chain(opposite(k), zero, k);
    order_facts(opposite(k), k);
    lemma_share_of_way(u, opposite(k), k);
}

/// The greatest logit is one of the logits, and none is greater.
pub proof fn law_peak_is_the_greatest<F: Scalar>(xs: Seq<F>, n: int, i: int)
    requires
        sorted::<F>(),
        1 <= n <= xs.len(),
        0 <= i < n,
    ensures
        !gt(xs[i], peak(xs, n)),
        exists|k: int| 0 <= k < n && #[trigger] xs[k] == peak(xs, n),
    decreases n,
{
    if n == 1 {
        order_facts(xs[0], xs[0]);
        assert(xs[0] == peak(xs, 1));
    } else {
        let m = peak(xs, n - 1);
        let p = peak(xs, n);
        law_peak_is_the_greatest(
            xs,
            n - 1,
            if i < n - 1 {
                i
            } else {
                0
            },
        );
        order_facts(m, m);
        order_facts(xs[n - 1], m);
        order_facts(xs[i], m);
        order_facts(xs[i], p);
        order_facts(p, p);
        order_chain(m, xs[n - 1], xs[i]);
        order_facts(m, xs[i]);
        order_chain(xs[n - 1], xs[i], m);
        order_chain(m, xs[n - 1], xs[i]);
        order_facts(xs[n - 1], xs[i]);
        if gt(xs[n - 1], m) {
            assert(xs[n - 1] == p);
            if i < n - 1 && gt(xs[i], p) {
                order_chain(m, xs[n - 1], xs[i]);
            }
        } else {
            let k = choose|k: int| 0 <= k < n - 1 && #[trigger] xs[k] == m;
            assert(xs[k] == p);
        }
    }
}

/// What has no weight is not sampled: the draw falls on an index with a positive
/// weight.
pub proof fn law_sampled_indices_have_weight<F: Scalar>(xs: Seq<F>, x: u32, i: int)
    requires
        exact::<F>(),
        sorted::<F>(),
        forall|j: int| 0 <= j < xs.len() ==> ge(#[trigger] xs[j], num::<F>(0)),
        gt(running_sum(xs, xs.len() as int), num::<F>(0)),
        crosses_at(xs, times(unit::<F>(x), running_sum(xs, xs.len() as int)), i),
    ensures
        gt(xs[i], num::<F>(0)),
        ({
            let target = times(unit::<F>(x), running_sum(xs, xs.len() as int));
            ge(target, running_sum(xs, i)) && lt(target, running_sum(xs, i + 1))
        }),
{
    let (zero, one) = (num::<F>(0), num::<F>(1));
    let n = xs.len() as int;
    let all = running_sum(xs, n);
    let u = unit::<F>(x);
    let target = times(u, all);
    law_draws_are_fractions::<F>(x);
    order_facts(all, zero);
    order_scale(u, one, all);
    mul_one(all);
    order_facts(u, zero);
    order_facts(zero, u);
    order_scale(zero, u, all);
    mul_zero(all);
    order_facts(target, zero);
    order_facts(zero, target);
    order_facts(target, all);
    let before = running_sum(xs, i);
    let after = running_sum(xs, i + 1);
    order_facts(after, target);
    order_facts(before, target);
    order_facts(target, before);
    if i > 0 {
        assert(!gt(running_sum(xs, (i - 1) + 1), target));
    } else {
        assert(before == zero);
    }
    assert(le(before, target));
    order_chain(before, target, after);
    order_facts(before, after);
    assert(after == plus(before, xs[i]));
    order_facts(xs[i], zero);
    order_facts(before, before);
    if xs[i] == zero {
        add_zero(before);
    }
}

/// The index picked is the first of the greatest numbers, where all are numbers.
pub proof fn law_argmax_is_the_first_greatest<F: Scalar>(v: Seq<F>, n: int, j: int)
    requires
        sorted::<F>(),
        forall|k: int| 0 <= k < v.len() ==> eligible(#[trigger] v[k]),
        0 <= j < n <= v.len(),
    ensures
        greatest(v, n) matches Some(i) && 0 <= i < n && !gt(v[j], v[i]) && (j < i ==> lt(
            v[j],
            v[i],
        )),
        n == v.len() ==> argmax_of(v) == greatest(v, n)->0,
    decreases n,
{
    assert(eligible(v[n - 1]));
    order_facts(v[j], v[j]);
    if n > 1 {
        law_argmax_is_the_first_greatest(
            v,
            n - 1,
            if j < n - 1 {
                j
            } else {
                0
            },
        );
        let b = greatest(v, n - 1)->0;
        order_facts(v[n - 1], v[b]);
        order_facts(v[j], v[b]);
        order_facts(v[b], v[j]);
        order_facts(v[j], v[n - 1]);
        order_facts(v[n - 1], v[j]);
        order_chain(v[j], v[b], v[n - 1]);
    }
}

/// The fraction that draw `n` from `g` gives, counted from 0.
pub open spec fn fraction<F: Scalar>(g: Gen, n: nat) -> F {
    unit::<F>(pcg_output(after_draws(g, n)))
}

/// What lies a fraction `u` of the way from `lo` to `hi`.
pub open spec fn along<F: Scalar>(u: F, lo: F, hi: F) -> F {
    plus(lo, times(u, minus(hi, lo)))
}

proof fn lemma_few_draws(g: Gen)
    ensures
        after_draws(g, 0) == g,
        after_draws(g, 1) == pcg_next(g),
        after_draws(g, 2) == pcg_next(pcg_next(g)),
        after_draws(g, 3) == pcg_next(pcg_next(pcg_next(g))),
        after_draws(g, 4) == pcg_next(pcg_next(pcg_next(pcg_next(g)))),
        after_draws(g, 5) == pcg_next(pcg_next(pcg_next(pcg_next(pcg_next(g))))),
        after_draws(g, 6) == pcg_next(pcg_next(pcg_next(pcg_next(pcg_next(pcg_next(g)))))),
        after_draws(g, 7) == pcg_next(
            pcg_next(pcg_next(pcg_next(pcg_next(pcg_next(pcg_next(g)))))),
        ),
{
    reveal_with_fuel(after_draws, 8);
}

/// A position takes three draws: across the field, along it, and the height. A velocity
/// takes three: heading, slope, speed.
pub proof fn law_order_of_the_draws<F: Scalar, C: Fn(F) -> F, S: Fn(F) -> F>(
    g: Gen,
    z_lo: F,
    z_hi: F,
    max: F,
    trig: Trig<F, C, S>,
)
    ensures
        ({
            let p = drawn_position(g, z_lo, z_hi);
            &&& p.x == along(fraction::<F>(g, 0), num::<F>(-3500), num::<F>(3500))
            &&& p.y == along(fraction::<F>(g, 1), num::<F>(-4500), num::<F>(4500))
            &&& p.z == along(fraction::<F>(g, 2), z_lo, z_hi)
        }),
        ({
            let v = drawn_velocity(g, max, trig);
            let heading = along(fraction::<F>(g, 0), num::<F>(0), trig.tau);
            let slope = along(
                fraction::<F>(g, 1),
                over(num::<F>(-12), num::<F>(10)),
                over(num::<F>(12), num::<F>(10)),
            );
            let speed = times(fraction::<F>(g, 2), max);
            &&& v.x == times(
                times(speed, value_of(trig.cos, slope)),
                value_of(trig.cos, heading),
            )
            &&& v.y == times(
                times(speed, value_of(trig.cos, slope)),
                value_of(trig.sin, heading),
            )
            &&& v.z == times(speed, value_of(trig.sin, slope))
        }),
{
    lemma_few_draws(g);
}

/// A car is on the ground where its first draw is below one half. Its position is
/// looked for next, then come its velocity, its heading and, off the ground, its pitch
/// and roll; its boost comes last.
pub proof fn law_order_of_a_cars_draws<F: Scalar, C: Fn(F) -> F, S: Fn(F) -> F>(
    g: Gen,
    placed: Seq<Vec3<F>>,
    b: RandomStateBounds<F>,
    trig: Trig<F, C, S>,
)
    ensures
        ({
            let (car, after) = drawn_car(g, placed, b, trig);
            let stands = lt(fraction::<F>(g, 0), over(num::<F>(1), num::<F>(2)));
            let low = if stands {
                num::<F>(17)
            } else {
                num::<F>(100)
            };
            let high = if stands {
                num::<F>(17)
            } else {
                b.z_max
            };
            let (pos, h) = found_position(
                after_draws(g, 1),
                low,
                high,
                placed,
                b.min_separation,
                10,
            );
            let v = drawn_velocity(h, b.car_speed_max, trig);
            let (zero, one) = (num::<F>(0), num::<F>(1));
            &&& car.is_on_ground == stands
            &&& car.pos == pos
            &&& car.vel.x == v.x && car.vel.y == v.y
            &&& car.yaw == along(fraction::<F>(h, 3), zero, trig.tau)
            &&& stands ==> car.vel.z == zero && car.pitch == zero && car.roll == zero
                && car.boost == along(fraction::<F>(h, 4), zero, num::<F>(100)) && after
                == after_draws(h, 5)
            &&& !stands ==> car.vel.z == v.z && car.pitch == along(
                fraction::<F>(h, 4),
                num::<F>(-1),
                one,
            ) && car.roll == along(fraction::<F>(h, 5), num::<F>(-1), one) && car.boost == along(
                fraction::<F>(h, 6),
                zero,
                num::<F>(100),
            ) && after == after_draws(h, 7)
        }),
{
    let stands = lt(unit::<F>(pcg_output(g)), over(num::<F>(1), num::<F>(2)));
    let low = if stands {
        num::<F>(17)
    } else {
        num::<F>(100)
    };
    let high = if stands {
        num::<F>(17)
    } else {
        b.z_max
    };
    let (pos, h) = found_position(pcg_next(g), low, high, placed, b.min_separation, 10);
    lemma_few_draws(g);
    lemma_few_draws(h);
}

/// A point is nowhere nearer than `sep` to the given ones.
pub open spec fn far_from<F: Scalar>(p: Vec3<F>, placed: Seq<Vec3<F>>, sep: F) -> bool {
    forall|i: int|
        0 <= i < placed.len() ==> ge(squared_distance(p, #[trigger] placed[i]), times(sep, sep))
}

/// A position is looked for until one keeps its distance, three draws each time, and
/// at most as often as there are tries: the last one is taken as it is.
pub proof fn law_positions_are_looked_for<F: Scalar>(
    g: Gen,
    z_lo: F,
    z_hi: F,
    placed: Seq<Vec3<F>>,
    sep: F,
    tries: int,
)
    requires
        tries >= 1,
    ensures
        ({
            let p = drawn_position(g, z_lo, z_hi);
            let h = after_draws(g, 3);
            let far = far_from(p, placed, sep);
            &&& far || tries == 1 ==> found_position(g, z_lo, z_hi, placed, sep, tries) == (p, h)
            &&& !far && tries > 1 ==> found_position(g, z_lo, z_hi, placed, sep, tries)
                == found_position(h, z_lo, z_hi, placed, sep, tries - 1)
        }),
{
    lemma_few_draws(g);
    lemma_far(drawn_position(g, z_lo, z_hi), placed, sep);
}

proof fn lemma_far<F: Scalar>(p: Vec3<F>, placed: Seq<Vec3<F>>, sep: F)
    ensures
        clear_of(p, placed, sep) <==> far_from(p, placed, sep),
{
    assert forall|i: int| 0 <= i < placed.len() implies gap2(p, #[trigger] placed[i])
        == squared_distance(p, placed[i]) by {}
}

/// A car of a kickoff takes three draws: across the field, along it, and its heading;
/// the ball takes two. Cars are jittered one after the other.
pub proof fn law_order_of_the_jitter<F: Scalar>(c: KickoffCar<F>, ball: Vec3<F>, g: Gen, n: nat)
    ensures
        jittered_car(c, g).pos.x == plus(
            c.pos.x,
            plus(num::<F>(-150), times(fraction(g, 0), times(num::<F>(2), num::<F>(150)))),
        ),
        jittered_car(c, g).pos.y == plus(
            c.pos.y,
            plus(num::<F>(-150), times(fraction(g, 1), times(num::<F>(2), num::<F>(150)))),
        ),
        jittered_car(c, g).yaw == plus(
            c.yaw,
            plus(
                over(num::<F>(-17), num::<F>(100)),
                times(fraction(g, 2), times(num::<F>(2), over(num::<F>(17), num::<F>(100)))),
            ),
        ),
        jittered_ball(ball, g).x == plus(
            ball.x,
            plus(num::<F>(-10), times(fraction(g, 0), times(num::<F>(2), num::<F>(10)))),
        ),
        jittered_ball(ball, g).y == plus(
            ball.y,
            plus(num::<F>(-10), times(fraction(g, 1), times(num::<F>(2), num::<F>(10)))),
        ),
        jitter_rng(g, n as int) == after_draws(g, 3 * n),
{
    lemma_few_draws(g);
    lemma_jitter_draws(g, n);
}

proof fn lemma_jitter_draws(g: Gen, n: nat)
    ensures
        jitter_rng(g, n as int) == after_draws(g, 3 * n),
    decreases n,
{
    reveal_with_fuel(after_draws, 4);
    if n > 0 {
        lemma_jitter_draws(g, (n - 1) as nat);
    }
}

/// The unit interval is shared out in the order recorded state, random scenario,
/// kickoff, to each its part of the weights. Where there are no recorded states or no
/// weights, none is drawn. A recorded state takes a second draw, which picks it.
pub proof fn law_shares_of_the_kinds<F: Scalar>(
    g: Gen,
    replay: F,
    kickoff: F,
    random: F,
    pool_len: usize,
)
    ensures
        ({
            let kind = drawn_kind(g, replay, kickoff, random, pool_len);
            let after = after_kind(g, replay, kickoff, random, pool_len);
            let sum = plus(plus(replay, kickoff), random);
            let u = fraction::<F>(g, 0);
            let first = pool_len > 0 && lt(u, over(replay, sum));
            let second = lt(u, over(plus(replay, random), sum));
            &&& !gt(sum, num::<F>(0)) ==> kind == ResetKind::Kickoff
            &&& gt(sum, num::<F>(0)) && first ==> kind == ResetKind::Replay(
                (pcg_output(after_draws(g, 1)) as int % pool_len as int) as usize,
            )
            &&& gt(sum, num::<F>(0)) && !first && second ==> kind == ResetKind::Random
            &&& gt(sum, num::<F>(0)) && !first && !second ==> kind == ResetKind::Kickoff
            &&& kind is Replay ==> after == after_draws(g, 2)
            &&& !(kind is Replay) ==> after == after_draws(g, 1)
            &&& kind matches ResetKind::Replay(i) ==> i < pool_len
        }),
{
    lemma_few_draws(g);
}

/// An arena starts from recorded states only if it is a duel and there are recorded
/// states; without a curriculum it starts from kickoffs and draws nothing.
pub proof fn law_what_episodes_start_from<F: Scalar>(a: EpisodeArena<F>)
    requires
        exact::<F>(),
        sorted::<F>(),
    ensures
        a.curriculum is None ==> next_kind(a) == ResetKind::Kickoff && rng_after_kind(a) == a@.rng,
        next_kind(a) matches ResetKind::Replay(i) ==> a.car_ids@.len() == 2 && a.blue_count == 1
            && (a.curriculum matches Some(c) && i < c.pool@.len()),
        a.curriculum matches Some(c) ==> a.car_ids@.len() == 2 && a.blue_count == 1
            && c.pool@.len() > 0 ==> next_kind(a) == drawn_kind(
            a@.rng,
            c.replay_weight,
            c.kickoff_weight,
            c.random_weight,
            c.pool@.len() as usize,
        ),
        a.curriculum is Some ==> rng_after_kind(a) == after_draws(
            a@.rng,
            if next_kind(a) is Replay {
                2
            } else {
                1
            },
        ),
{
    if let Some(c) = a.curriculum {
        let zero = num::<F>(0);
        let n = c.pool@.len() as usize;
        let duel = n > 0 && a.car_ids@.len() == 2 && a.blue_count == 1;
        let replay = if duel {
            c.replay_weight
        } else {
            zero
        };
        let (k, r) = (c.kickoff_weight, c.random_weight);
        law_shares_of_the_kinds(a@.rng, replay, k, r, n);
        if !duel && gt(plus(plus(zero, k), r), zero) {
            law_zero_weights_are_not_drawn(a@.rng, zero, k, r, n);
        }
    }
}

} // verus!
