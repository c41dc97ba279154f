//! Which states episodes start from.

use crate::reset_pool::ResetState;
use crate::sampler::{after_draws, pcg_next, pcg_output, unit, Gen, Pcg32};
use crate::scalar::{
    apply, frac, functional, ge, gt, le, lt, minus, num, ordered, over, plus, ratio, times, total,
    value_of, whole, Scalar,
};
use crate::sim::Vec3;
use std::sync::Arc;
use vstd::prelude::*;

verus! {

/// Bounds of random scenarios.
#[derive(Debug)]
pub struct RandomStateBounds<F> {
    pub car_speed_max: F,
    pub ball_speed_max: F,
    pub z_max: F,
    pub min_separation: F,
}

impl<F: Copy> Clone for RandomStateBounds<F> {
    fn clone(&self) -> (r: Self)
        ensures
            r == *self,
    {
        *self
    }
}

impl<F: Copy> Copy for RandomStateBounds<F> {

}

impl<F: Scalar> RandomStateBounds<F> {
    /// The bounds where none are given.
    pub fn standard() -> (b: Self)
        requires
            ordered::<F>(),
        ensures
            b.car_speed_max == num::<F>(1800),
            b.ball_speed_max == num::<F>(2500),
            b.z_max == num::<F>(1700),
            b.min_separation == num::<F>(300),
    {
        RandomStateBounds {
            car_speed_max: whole(1800),
            ball_speed_max: whole(2500),
            z_max: whole(1700),
            min_separation: whole(300),
        }
    }
}

/// Where the pool of recorded states is.
#[derive(Debug)]
pub struct ReplayPoolConfig {
    pub path: String,
    /// Most states that are kept; 0 for no limit.
    pub max_states: usize,
}

impl Clone for ReplayPoolConfig {
    fn clone(&self) -> (r: Self)
        ensures
            r.path@ == self.path@,
            r.max_states == self.max_states,
    {
        ReplayPoolConfig { path: self.path.clone(), max_states: self.max_states }
    }
}

/// How often an episode starts from which kind of state.
#[derive(Debug)]
pub struct CurriculumConfig<F> {
    pub kickoff_weight: F,
    pub random_weight: F,
    pub replay_weight: F,
    pub random: RandomStateBounds<F>,
    pub replay_pool: Option<ReplayPoolConfig>,
    /// Whether an episode is a whole match, in which goals do not end it.
    pub match_mode: bool,
    /// The recorded states.
    pub pool: Arc<Vec<ResetState<F>>>,
}

/// Why a curriculum is refused.
#[derive(Debug, Clone, Copy, PartialEq, Eq, Structural)]
pub enum CurriculumError {
    /// The replay weight is negative.
    ReplayWeight,
    /// A weight is negative, or all are zero.
    Weights,
    /// A replay weight without a pool.
    MissingPool,
    /// The ceiling is below a resting ball.
    ZMax,
    /// Cars would not move.
    CarSpeed,
    /// The ball would not move.
    BallSpeed,
    /// The separation is negative.
    Separation,
}

impl<F: Scalar> CurriculumConfig<F> {
    /// Sum of the three weights.
    pub open spec fn weight_sum(&self) -> F {
        plus(plus(self.kickoff_weight, self.random_weight), self.replay_weight)
    }

    /// The first rule that the curriculum breaks, if any.
    pub open spec fn fault(&self) -> Option<CurriculumError> {
        let zero = num::<F>(0);
        if lt(self.replay_weight, zero) {
            Some(CurriculumError::ReplayWeight)
        } else if lt(self.kickoff_weight, zero) || lt(self.random_weight, zero) || le(
            self.weight_sum(),
            zero,
        ) {
            Some(CurriculumError::Weights)
        } else if gt(self.replay_weight, zero) && self.replay_pool is None {
            Some(CurriculumError::MissingPool)
        } else if le(self.random.z_max, frac::<F>(9315, 100)) {
            Some(CurriculumError::ZMax)
        } else if le(self.random.car_speed_max, zero) {
            Some(CurriculumError::CarSpeed)
        } else if le(self.random.ball_speed_max, zero) {
            Some(CurriculumError::BallSpeed)
        } else if lt(self.random.min_separation, zero) {
            Some(CurriculumError::Separation)
        } else {
            None
        }
    }

    /// Accepts a curriculum that breaks no rule; otherwise names the first.
    pub fn validate(&self) -> (r: Result<(), CurriculumError>)
        requires
            total::<F>(),
        ensures
            r == match self.fault() {
                None => Ok::<(), CurriculumError>(()),
                Some(e) => Err(e),
            },
    {
        let zero: F = whole(0);
        if self.replay_weight < zero {
            return Err(CurriculumError::ReplayWeight);
        }
        if self.kickoff_weight < zero || self.random_weight < zero || self.kickoff_weight
            + self.random_weight + self.replay_weight <= zero {
            return Err(CurriculumError::Weights);
        }
        if self.replay_weight > zero && self.replay_pool.is_none() {
            return Err(CurriculumError::MissingPool);
        }
        let rest: F = ratio(9315, 100);
        if self.random.z_max <= rest {
            return Err(CurriculumError::ZMax);
        }
        if self.random.car_speed_max <= zero {
            return Err(CurriculumError::CarSpeed);
        }
        if self.random.ball_speed_max <= zero {
            return Err(CurriculumError::BallSpeed);
        }
        if self.random.min_separation < zero {
            return Err(CurriculumError::Separation);
        }
        Ok(())
    }

    /// The pool that has to be loaded: none unless recorded states can be drawn.
    pub fn pool_to_load(&self) -> (r: Option<&ReplayPoolConfig>)
        requires
            ordered::<F>(),
        ensures
            match r {
                Some(p) => gt(self.replay_weight, num::<F>(0)) && self.replay_pool == Some(*p),
                None => !gt(self.replay_weight, num::<F>(0)) || self.replay_pool is None,
            },
    {
        let zero: F = whole(0);
        if self.replay_weight > zero {
            match &self.replay_pool {
                Some(p) => Some(p),
                None => None,
            }
        } else {
            None
        }
    }

    /// The replay weight that counts: zero where there are no recorded states.
    pub open spec fn effective_replay(&self) -> F {
        if self.pool@.len() == 0 {
            num::<F>(0)
        } else {
            self.replay_weight
        }
    }

    /// Shares of recorded states, kickoffs and random scenarios as they will be
    /// drawn.
    pub open spec fn shares_drawn(&self) -> (F, F, F) {
        let eff = self.effective_replay();
        let sum = plus(plus(eff, self.kickoff_weight), self.random_weight);
        let t = if gt(sum, num::<F>(0)) {
            sum
        } else {
            num::<F>(1)
        };
        (over(eff, t), over(self.kickoff_weight, t), over(self.random_weight, t))
    }

    /// Shares of kickoffs and random scenarios where recorded states are out.
    pub open spec fn shares_without_replay(&self) -> (F, F) {
        let rest = plus(self.kickoff_weight, self.random_weight);
        if gt(rest, num::<F>(0)) {
            (over(self.kickoff_weight, rest), over(self.random_weight, rest))
        } else {
            (num::<F>(1), num::<F>(0))
        }
    }

    /// Shares of recorded states, kickoffs and random scenarios as they will be
    /// drawn.
    pub fn effective_mix(&self) -> (r: (F, F, F))
        requires
            total::<F>(),
        ensures
            r == self.shares_drawn(),
            ({
                let eff = self.effective_replay();
                let sum = plus(plus(eff, self.kickoff_weight), self.random_weight);
                let t = if gt(sum, num::<F>(0)) {
                    sum
                } else {
                    num::<F>(1)
                };
                r == (over(eff, t), over(self.kickoff_weight, t), over(self.random_weight, t))
            }),
    {
        let zero: F = whole(0);
        let eff: F = if self.pool.len() == 0 {
            zero
        } else {
            self.replay_weight
        };
        let sum: F = eff + self.kickoff_weight + self.random_weight;
        let t: F = if sum > zero {
            sum
        } else {
            whole(1)
        };
        (eff / t, self.kickoff_weight / t, self.random_weight / t)
    }

    /// Shares of kickoffs and random scenarios where recorded states are out.
    pub fn fallback_mix(&self) -> (r: (F, F))
        requires
            total::<F>(),
        ensures
            r == self.shares_without_replay(),
            ({
                let rest = plus(self.kickoff_weight, self.random_weight);
                r == if gt(rest, num::<F>(0)) {
                    (over(self.kickoff_weight, rest), over(self.random_weight, rest))
                } else {
                    (num::<F>(1), num::<F>(0))
                }
            }),
    {
        let zero: F = whole(0);
        let rest: F = self.kickoff_weight + self.random_weight;
        if rest > zero {
            (self.kickoff_weight / rest, self.random_weight / rest)
        } else {
            (whole(1), zero)
        }
    }
}

/// The draw from `g` brought to the range from `lo` to `hi`.
pub open spec fn drawn<F: Scalar>(g: Gen, lo: F, hi: F) -> F {
    plus(lo, times(unit::<F>(pcg_output(g)), minus(hi, lo)))
}

/// A number in the range from `lo` to `hi`.
pub fn rand_range<F: Scalar>(rng: &mut Pcg32, lo: F, hi: F) -> (r: F)
    requires
        total::<F>(),
    ensures
        r == drawn(old(rng)@, lo, hi),
        final(rng)@ == pcg_next(old(rng)@),
{
    let u: F = rng.next_f32();
    lo + u * (hi - lo)
}

/// Cosine, sine and full turn of the number type.
pub struct Trig<F, C, S> {
    pub cos: C,
    pub sin: S,
    pub tau: F,
}

impl<F: Scalar, C: Fn(F) -> F, S: Fn(F) -> F> Trig<F, C, S> {
    /// Cosine and sine are functions.
    pub open spec fn usable(&self) -> bool {
        functional(self.cos) && functional(self.sin)
    }
}

/// The velocity that three draws from `g` give: heading, slope, speed.
pub open spec fn drawn_velocity<F: Scalar, C: Fn(F) -> F, S: Fn(F) -> F>(
    g: Gen,
    max: F,
    trig: Trig<F, C, S>,
) -> Vec3<F> {
    let yaw = drawn(g, num::<F>(0), trig.tau);
    let pitch = drawn(pcg_next(g), frac::<F>(-12, 10), frac::<F>(12, 10));
    let mag = times(unit::<F>(pcg_output(pcg_next(pcg_next(g)))), max);
    let flat = times(mag, value_of(trig.cos, pitch));
    Vec3 {
        x: times(flat, value_of(trig.cos, yaw)),
        y: times(flat, value_of(trig.sin, yaw)),
        z: times(mag, value_of(trig.sin, pitch)),
    }
}

/// A random velocity of at most `max`.
pub fn rand_vel<F: Scalar, C: Fn(F) -> F, S: Fn(F) -> F>(
    rng: &mut Pcg32,
    max: F,
    trig: &Trig<F, C, S>,
) -> (v: Vec3<F>)
    requires
        total::<F>(),
        trig.usable(),
    ensures
        v == drawn_velocity(old(rng)@, max, *trig),
        final(rng)@ == pcg_next(pcg_next(pcg_next(old(rng)@))),
{
    let yaw: F = rand_range(rng, whole(0), trig.tau);
    let pitch: F = rand_range(rng, ratio(-12, 10), ratio(12, 10));
    let u: F = rng.next_f32();
    let mag: F = u * max;
    let flat: F = mag * apply(&trig.cos, pitch);
    Vec3 {
        x: flat * apply(&trig.cos, yaw),
        y: flat * apply(&trig.sin, yaw),
        z: mag * apply(&trig.sin, pitch),
    }
}

/// The position that three draws from `g` give.
pub open spec fn drawn_position<F: Scalar>(g: Gen, z_lo: F, z_hi: F) -> Vec3<F> {
    Vec3 {
        x: drawn(g, num::<F>(-3500), num::<F>(3500)),
        y: drawn(pcg_next(g), num::<F>(-4500), num::<F>(4500)),
        z: drawn(pcg_next(pcg_next(g)), z_lo, z_hi),
    }
}

/// Square of the distance between two points.
pub open spec fn gap2<F: Scalar>(p: Vec3<F>, q: Vec3<F>) -> F {
    let d = (minus(p.x, q.x), minus(p.y, q.y), minus(p.z, q.z));
    plus(plus(times(d.0, d.0), times(d.1, d.1)), times(d.2, d.2))
}

/// `p` keeps the distance `sep` from everything placed so far.
pub open spec fn clear_of<F: Scalar>(p: Vec3<F>, placed: Seq<Vec3<F>>, sep: F) -> bool {
    forall|i: int| 0 <= i < placed.len() ==> ge(gap2(p, #[trigger] placed[i]), times(sep, sep))
}

/// The position found from `g` with `tries` tries left, and the generator after:
/// the first that keeps its distance, or the last one drawn.
pub open spec fn found_position<F: Scalar>(
    g: Gen,
    z_lo: F,
    z_hi: F,
    placed: Seq<Vec3<F>>,
    sep: F,
    tries: int,
) -> (Vec3<F>, Gen)
    decreases tries,
{
    let p = drawn_position(g, z_lo, z_hi);
    let next = pcg_next(pcg_next(pcg_next(g)));
    if tries <= 1 || clear_of(p, placed, sep) {
        (p, next)
    } else {
        found_position(next, z_lo, z_hi, placed, sep, tries - 1)
    }
}


fn is_clear_of<F: Scalar>(p: Vec3<F>, placed: &Vec<Vec3<F>>, sep: F) -> (r: bool)
    requires
        total::<F>(),
    ensures
        r == clear_of(p, placed@, sep),
{
    let mut i: usize = 0;
    while i < placed.len()
        invariant
            i <= placed@.len(),
            total::<F>(),
            forall|j: int|
                0 <= j < i ==> ge(gap2(p, #[trigger] placed@[j]), times(sep, sep)),
        decreases placed.len() - i,
    {
        let q: Vec3<F> = placed[i];
        let dx: F = p.x - q.x;
        let dy: F = p.y - q.y;
        let dz: F = p.z - q.z;
        if !(dx * dx + dy * dy + dz * dz >= sep * sep) {
            assert(!ge(gap2(p, placed@[i as int]), times(sep, sep)));
            return false;
        }
        i = i + 1;
    }
    true
}

/// Finds a position within `tries` tries.
fn sample_pos<F: Scalar>(
    rng: &mut Pcg32,
    z_lo: F,
    z_hi: F,
    placed: &Vec<Vec3<F>>,
    sep: F,
    tries: u8,
) -> (p: Vec3<F>)
    requires
        total::<F>(),
    ensures
        (p, final(rng)@) == found_position(old(rng)@, z_lo, z_hi, placed@, sep, tries as int),
    decreases tries,
{
    let x: F = rand_range(rng, whole(-3500), whole(3500));
    let y: F = rand_range(rng, whole(-4500), whole(4500));
    let z: F = rand_range(rng, z_lo, z_hi);
    let p: Vec3<F> = Vec3 { x, y, z };
    if tries <= 1 || is_clear_of(p, placed, sep) {
        p
    } else {
        sample_pos(rng, z_lo, z_hi, placed, sep, tries - 1)
    }
}

/// A car of a random scenario.
#[derive(Debug)]
pub struct RandomCar<F> {
    pub pos: Vec3<F>,
    pub vel: Vec3<F>,
    pub yaw: F,
    pub pitch: F,
    pub roll: F,
    /// Boost from 0 to 100.
    pub boost: F,
    pub is_on_ground: bool,
}

impl<F: Copy> Clone for RandomCar<F> {
    fn clone(&self) -> (r: Self)
        ensures
            r == *self,
    {
        *self
    }
}

impl<F: Copy> Copy for RandomCar<F> {

}

/// A random scenario. Nothing spins.
pub struct RandomScenario<F> {
    pub ball_pos: Vec3<F>,
    pub ball_vel: Vec3<F>,
    pub cars: Vec<RandomCar<F>>,
}

/// The car that the draws from `g` on give, and the generator after.
pub open spec fn drawn_car<F: Scalar, C: Fn(F) -> F, S: Fn(F) -> F>(
    g: Gen,
    placed: Seq<Vec3<F>>,
    b: RandomStateBounds<F>,
    trig: Trig<F, C, S>,
) -> (RandomCar<F>, Gen) {
    let grounded = lt(unit::<F>(pcg_output(g)), frac::<F>(1, 2));
    let (pos, g1) = found_position(
        pcg_next(g),
        if grounded {
            num::<F>(17)
        } else {
            num::<F>(100)
        },
        if grounded {
            num::<F>(17)
        } else {
            b.z_max
        },
        placed,
        b.min_separation,
        10,
    );
    let v = drawn_velocity(g1, b.car_speed_max, trig);
    let g2 = pcg_next(pcg_next(pcg_next(g1)));
    let g3 = pcg_next(g2);
    let g4 = if grounded {
        g3
    } else {
        pcg_next(pcg_next(g3))
    };
    (
        RandomCar {
            pos,
            vel: if grounded {
                Vec3 { z: num::<F>(0), ..v }
            } else {
                v
            },
            yaw: drawn(g2, num::<F>(0), trig.tau),
            pitch: if grounded {
                num::<F>(0)
            } else {
                drawn(g3, num::<F>(-1), num::<F>(1))
            },
            roll: if grounded {
                num::<F>(0)
            } else {
                drawn(pcg_next(g3), num::<F>(-1), num::<F>(1))
            },
            boost: drawn(g4, num::<F>(0), num::<F>(100)),
            is_on_ground: grounded,
        },
        pcg_next(g4),
    )
}

/// The first `n` cars that the draws from `g` on give, and the generator after.
/// Each keeps its distance from the ball and the cars before it.
pub open spec fn drawn_cars<F: Scalar, C: Fn(F) -> F, S: Fn(F) -> F>(
    g: Gen,
    ball: Vec3<F>,
    b: RandomStateBounds<F>,
    trig: Trig<F, C, S>,
    n: int,
) -> (Seq<RandomCar<F>>, Gen)
    decreases n,
{
    if n <= 0 {
        (Seq::empty(), g)
    } else {
        let (before, g1) = drawn_cars(g, ball, b, trig, n - 1);
        let (car, g2) = drawn_car(g1, bodies(ball, before), b, trig);
        (before.push(car), g2)
    }
}

/// Where the ball and the cars are.
pub open spec fn bodies<F>(ball: Vec3<F>, cars: Seq<RandomCar<F>>) -> Seq<Vec3<F>> {
    seq![ball] + cars.map_values(|c: RandomCar<F>| c.pos)
}

fn rand_car<F: Scalar, C: Fn(F) -> F, S: Fn(F) -> F>(
    rng: &mut Pcg32,
    placed: &Vec<Vec3<F>>,
    b: &RandomStateBounds<F>,
    trig: &Trig<F, C, S>,
) -> (car: RandomCar<F>)
    requires
        total::<F>(),
        trig.usable(),
    ensures
        (car, final(rng)@) == drawn_car(old(rng)@, placed@, *b, *trig),
{
    let u: F = rng.next_f32();
    let half: F = ratio(1, 2);
    let grounded: bool = u < half;
    let z_lo: F = if grounded {
        whole(17)
    } else {
        whole(100)
    };
    let z_hi: F = if grounded {
        whole(17)
    } else {
        b.z_max
    };
    let pos: Vec3<F> = sample_pos(rng, z_lo, z_hi, placed, b.min_separation, 10);
    let v: Vec3<F> = rand_vel(rng, b.car_speed_max, trig);
    let zero: F = whole(0);
    let vel: Vec3<F> = if grounded {
        Vec3 { x: v.x, y: v.y, z: zero }
    } else {
        v
    };
    let yaw: F = rand_range(rng, zero, trig.tau);
    let pitch: F = if grounded {
        zero
    } else {
        rand_range(rng, whole(-1), whole(1))
    };
    let roll: F = if grounded {
        zero
    } else {
        rand_range(rng, whole(-1), whole(1))
    };
    let boost: F = rand_range(rng, zero, whole(100));
    RandomCar { pos, vel, yaw, pitch, roll, boost, is_on_ground: grounded }
}

/// Draws a random scenario with `n` cars: the ball first, then the cars in order.
pub fn random_reset<F: Scalar, C: Fn(F) -> F, S: Fn(F) -> F>(
    n: usize,
    rng: &mut Pcg32,
    b: &RandomStateBounds<F>,
    trig: &Trig<F, C, S>,
) -> (s: RandomScenario<F>)
    requires
        total::<F>(),
        trig.usable(),
    ensures
        ({
            let (ball, g1) = found_position(
                old(rng)@,
                frac::<F>(9315, 100),
                b.z_max,
                Seq::empty(),
                b.min_separation,
                10,
            );
            let g2 = pcg_next(pcg_next(pcg_next(g1)));
            let (cars, g3) = drawn_cars(g2, ball, *b, *trig, n as int);
            &&& s.ball_pos == ball
            &&& s.ball_vel == drawn_velocity(g1, b.ball_speed_max, *trig)
            &&& s.cars@ == cars
            &&& final(rng)@ == g3
        }),
{
    let mut placed: Vec<Vec3<F>> = Vec::new();
    let rest: F = ratio(9315, 100);
    let ball_pos: Vec3<F> = sample_pos(rng, rest, b.z_max, &placed, b.min_separation, 10);
    placed.push(ball_pos);
    let ball_vel: Vec3<F> = rand_vel(rng, b.ball_speed_max, trig);
    let ghost g = rng@;
    let mut cars: Vec<RandomCar<F>> = Vec::new();
    assert(placed@ =~= bodies(ball_pos, cars@));
    let mut i: usize = 0;
    while i < n
        invariant
            i <= n,
            total::<F>(),
            trig.usable(),
            placed@ =~= bodies(ball_pos, cars@),
            (cars@, rng@) == drawn_cars(g, ball_pos, *b, *trig, i as int),
        decreases n - i,
    {
        let ghost before = cars@;
        let car: RandomCar<F> = rand_car(rng, &placed, b, trig);
        placed.push(car.pos);
        cars.push(car);
        i = i + 1;
    }
    RandomScenario { ball_pos, ball_vel, cars }
}

/// A position that was found keeps its distance from everything placed so far,
/// or every one of the tries came too near.
pub proof fn law_positions_keep_distance<F: Scalar>(
    g: Gen,
    z_lo: F,
    z_hi: F,
    placed: Seq<Vec3<F>>,
    sep: F,
    tries: int,
)
    requires
        1 <= tries,
    ensures
        clear_of(found_position(g, z_lo, z_hi, placed, sep, tries).0, placed, sep) || forall|k: int|
            0 <= k < tries ==> !clear_of(
                #[trigger] drawn_position(after_draws(g, (3 * k) as nat), z_lo, z_hi),
                placed,
                sep,
            ),
    decreases tries,
{
    let p = drawn_position(g, z_lo, z_hi);
    if !clear_of(p, placed, sep) {
        let next = pcg_next(pcg_next(pcg_next(g)));
        if tries > 1 {
            law_positions_keep_distance(next, z_lo, z_hi, placed, sep, tries - 1);
        }
        if !clear_of(found_position(g, z_lo, z_hi, placed, sep, tries).0, placed, sep) {
            assert forall|k: int| 0 <= k < tries implies !clear_of(
                #[trigger] drawn_position(after_draws(g, (3 * k) as nat), z_lo, z_hi),
                placed,
                sep,
            ) by {
                if k > 0 {
                    lemma_draws_shift(g, (3 * (k - 1)) as nat);
                    assert(drawn_position(after_draws(next, (3 * (k - 1)) as nat), z_lo, z_hi)
                        == drawn_position(after_draws(g, (3 * k) as nat), z_lo, z_hi));
                }
            }
        }
    }
}

proof fn lemma_draws_shift(g: Gen, n: nat)
    ensures
        after_draws(pcg_next(pcg_next(pcg_next(g))), n) == after_draws(g, n + 3),
    decreases n,
{
    if n == 0 {
        reveal_with_fuel(after_draws, 4);
    } else {
        lemma_draws_shift(g, (n - 1) as nat);
    }
}

} // verus!
