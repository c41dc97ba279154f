//! What is accepted and what is refused, rule by rule.

use crate::ballpred::{snaps_finite, BallSnap};
use crate::curriculum::{CurriculumConfig, CurriculumError};
use crate::episode::{car_state_finite, car_state_within, sane_state};
use crate::exact::{
    distribute, divide, exact, mul_comm, mul_zero, order_facts, over_is_times, sorted,
};
use crate::reset_pool::{reject_reason, CarSpawn, Reject, ResetState};
use crate::scalar::{
    absolute, gt, le, lt, minus, num, over, plus, same, times, value_of, Scalar,
};
use crate::sim::{GameState, Vec3};
use vstd::prelude::*;

verus! {

/// A number is finite where its difference from itself is a number.
pub open spec fn is_number<F: Scalar>(x: F) -> bool {
    same(minus(x, x), minus(x, x))
}

/// A vector whose coordinates are finite and no further than `limit` from zero.
pub open spec fn tame<F: Scalar>(v: Vec3<F>, limit: int) -> bool {
    &&& is_number(v.x) && is_number(v.y) && is_number(v.z)
    &&& le(absolute(v.x), num::<F>(limit))
    &&& le(absolute(v.y), num::<F>(limit))
    &&& le(absolute(v.z), num::<F>(limit))
}

/// A vector whose coordinates are finite.
pub open spec fn defined<F: Scalar>(v: Vec3<F>) -> bool {
    is_number(v.x) && is_number(v.y) && is_number(v.z)
}

/// A state is sane exactly where every position is within 12000, every velocity
/// within 20000 and every spin within 100 of zero, of the ball and of every car, and
/// the headings and roofs of the cars are finite.
pub proof fn law_sane_states<F: Scalar>(gs: GameState<F>)
    ensures
        sane_state(gs) <==> {
            &&& tame(gs.ball.pos, 12000)
            &&& tame(gs.ball.vel, 20000)
            &&& tame(gs.ball.ang_vel, 100)
            &&& forall|i: int|
                0 <= i < gs.cars@.len() ==> {
                    let s = (#[trigger] gs.cars@[i]).state;
                    &&& tame(s.pos, 12000)
                    &&& tame(s.vel, 20000)
                    &&& tame(s.ang_vel, 100)
                    &&& defined(s.rot_mat.forward)
                    &&& defined(s.rot_mat.up)
                }
        },
{
    let a = sane_state(gs);
    if a {
        assert forall|i: int| 0 <= i < gs.cars@.len() implies {
            let s = (#[trigger] gs.cars@[i]).state;
            &&& tame(s.pos, 12000)
            &&& tame(s.vel, 20000)
            &&& tame(s.ang_vel, 100)
            &&& defined(s.rot_mat.forward)
            &&& defined(s.rot_mat.up)
        } by {
            assert(car_state_finite(gs.cars@[i]));
            assert(car_state_within(gs.cars@[i]));
        }
    }
}

/// A prediction is kept exactly where all its positions and velocities are finite.
pub proof fn law_finite_predictions<F: Scalar>(out: [BallSnap<F>; 4])
    ensures
        snaps_finite(out) <==> forall|i: int|
            0 <= i < 4 ==> defined((#[trigger] out@[i]).pos) && defined(out@[i].vel),
{
}

/// All three numbers are zero.
pub open spec fn nothing<F: Scalar>(v: [F; 3]) -> bool {
    let zero = num::<F>(0);
    same(v@[0], zero) && same(v@[1], zero) && same(v@[2], zero)
}

/// All three numbers are finite.
pub open spec fn numbers<F: Scalar>(v: [F; 3]) -> bool {
    is_number(v@[0]) && is_number(v@[1]) && is_number(v@[2])
}

/// The length of a vector is above `limit`.
pub open spec fn faster<F: Scalar, S: Fn(F) -> F>(v: [F; 3], limit: int, sqrt: S) -> bool {
    gt(
        value_of(
            sqrt,
            plus(plus(times(v@[0], v@[0]), times(v@[1], v@[1])), times(v@[2], v@[2])),
        ),
        num::<F>(limit),
    )
}

/// What is asked of each car of a recorded state by itself, but for its team.
pub open spec fn car_is_usable<F: Scalar, S: Fn(F) -> F>(c: CarSpawn<F>, sqrt: S) -> bool {
    &&& !lt(c.pos@[2], num::<F>(0))
    &&& !(nothing(c.vel) && nothing(c.ang_vel))
    &&& !(c.on_ground && gt(c.pos@[2], num::<F>(50)) && nothing(c.vel))
    &&& numbers(c.pos) && numbers(c.vel) && numbers(c.ang_vel)
    &&& is_number(c.quat@[0]) && is_number(c.quat@[1])
    &&& is_number(c.quat@[2]) && is_number(c.quat@[3])
    &&& is_number(c.boost)
    &&& !faster(c.ang_vel, 6, sqrt)
    &&& !faster(c.vel, 2400, sqrt)
}

/// A recorded state is accepted exactly where both cars are usable, blue before
/// orange and at least 100 apart, and the ball is off the origin, above the floor,
/// within 4800 along the field, finite, and no faster than 6100.
pub proof fn law_accepted_states<F: Scalar, S: Fn(F) -> F>(st: ResetState<F>, sqrt: S)
    ensures
        reject_reason(st, sqrt) is None <==> {
            let (a, b) = (st.cars@[0], st.cars@[1]);
            let d0 = minus(a.pos@[0], b.pos@[0]);
            let d1 = minus(a.pos@[1], b.pos@[1]);
            let d2 = minus(a.pos@[2], b.pos@[2]);
            let gap = plus(plus(times(d0, d0), times(d1, d1)), times(d2, d2));
            &&& car_is_usable(a, sqrt)
            &&& car_is_usable(b, sqrt)
            &&& a.team == 0 && b.team == 1
            &&& !lt(gap, times(num::<F>(100), num::<F>(100)))
            &&& !nothing(st.ball.pos)
            &&& !lt(st.ball.pos@[2], num::<F>(0))
            &&& !gt(absolute(st.ball.pos@[1]), num::<F>(4800))
            &&& numbers(st.ball.pos) && numbers(st.ball.vel) && numbers(st.ball.ang_vel)
            &&& !faster(st.ball.vel, 6100, sqrt)
        },
{
}

/// Every reason for which a recorded state is dropped holds of it.
pub proof fn law_reasons_hold<F: Scalar, S: Fn(F) -> F>(st: ResetState<F>, sqrt: S)
    ensures
        ({
            let (a, b) = (st.cars@[0], st.cars@[1]);
            let zero = num::<F>(0);
            let still = |c: CarSpawn<F>| nothing(c.vel) && nothing(c.ang_vel);
            let high = |c: CarSpawn<F>|
                c.on_ground && gt(c.pos@[2], num::<F>(50)) && nothing(c.vel);
            let fast = |c: CarSpawn<F>| faster(c.ang_vel, 6, sqrt) || faster(c.vel, 2400, sqrt);
            match reject_reason(st, sqrt) {
                Some(Reject::OriginBall) => nothing(st.ball.pos) || lt(st.ball.pos@[2], zero)
                    || lt(a.pos@[2], zero) || lt(b.pos@[2], zero),
                Some(Reject::BallPastGoal) => gt(
                    absolute(st.ball.pos@[1]),
                    num::<F>(4800),
                ),
                Some(Reject::FrozenCar) => still(a) || still(b),
                Some(Reject::CarsOverlap) => {
                    let d0 = minus(a.pos@[0], b.pos@[0]);
                    let d1 = minus(a.pos@[1], b.pos@[1]);
                    let d2 = minus(a.pos@[2], b.pos@[2]);
                    lt(
                        plus(plus(times(d0, d0), times(d1, d1)), times(d2, d2)),
                        times(num::<F>(100), num::<F>(100)),
                    )
                },
                Some(Reject::GroundedFrozenHigh) => high(a) || high(b),
                Some(Reject::NonFinite) => {
                    ||| !(numbers(st.ball.pos) && numbers(st.ball.vel) && numbers(st.ball.ang_vel))
                    ||| !(numbers(a.pos) && numbers(a.vel) && numbers(a.ang_vel))
                    ||| !(numbers(b.pos) && numbers(b.vel) && numbers(b.ang_vel))
                    ||| !(is_number(a.quat@[0]) && is_number(a.quat@[1]) && is_number(a.quat@[2])
                        && is_number(a.quat@[3]))
                    ||| !(is_number(b.quat@[0]) && is_number(b.quat@[1]) && is_number(b.quat@[2])
                        && is_number(b.quat@[3]))
                    ||| !is_number(a.boost) || !is_number(b.boost)
                },
                Some(Reject::TeamOrder) => a.team != 0 || b.team != 1,
                Some(Reject::Implausible) => fast(a) || fast(b) || faster(
                    st.ball.vel,
                    6100,
                    sqrt,
                ),
                None => true,
            }
        }),
{
}

/// A curriculum is accepted exactly where no weight is negative and their sum is
/// positive, a replay weight comes with a pool, and random scenarios have room above
/// a resting ball, speed for cars and ball, and no negative separation.
pub proof fn law_accepted_curricula<F: Scalar>(c: CurriculumConfig<F>)
    ensures
        c.fault() is None <==> {
            let zero = num::<F>(0);
            let sum = plus(plus(c.kickoff_weight, c.random_weight), c.replay_weight);
            &&& !lt(c.replay_weight, zero)
            &&& !lt(c.kickoff_weight, zero)
            &&& !lt(c.random_weight, zero)
            &&& !le(sum, zero)
            &&& gt(c.replay_weight, zero) ==> c.replay_pool is Some
            &&& !le(c.random.z_max, over(num::<F>(9315), num::<F>(100)))
            &&& !le(c.random.car_speed_max, zero)
            &&& !le(c.random.ball_speed_max, zero)
            &&& !lt(c.random.min_separation, zero)
        },
        c.fault() matches Some(e) ==> match e {
            CurriculumError::ReplayWeight => lt(c.replay_weight, num::<F>(0)),
            CurriculumError::Weights => {
                let zero = num::<F>(0);
                let sum = plus(plus(c.kickoff_weight, c.random_weight), c.replay_weight);
                lt(c.kickoff_weight, zero) || lt(c.random_weight, zero) || le(sum, zero)
            },
            CurriculumError::MissingPool => gt(c.replay_weight, num::<F>(0))
                && c.replay_pool is None,
            CurriculumError::ZMax => le(c.random.z_max, over(num::<F>(9315), num::<F>(100))),
            CurriculumError::CarSpeed => le(c.random.car_speed_max, num::<F>(0)),
            CurriculumError::BallSpeed => le(c.random.ball_speed_max, num::<F>(0)),
            CurriculumError::Separation => lt(c.random.min_separation, num::<F>(0)),
        },
{
}

/// The shares of recorded states, kickoffs and random scenarios stand to one another as
/// their weights, recorded states without weight where there are none, and add up to
/// one where any has weight. Where recorded states are out the other two share as their
/// weights, and without weights all are kickoffs.
pub proof fn law_shares_follow_the_weights<F: Scalar>(c: CurriculumConfig<F>)
    requires
        exact::<F>(),
        sorted::<F>(),
    ensures
        ({
            let (replay, kickoff, random) = c.shares_drawn();
            let recorded = if c.pool@.len() > 0 {
                c.replay_weight
            } else {
                num::<F>(0)
            };
            let all = plus(plus(recorded, c.kickoff_weight), c.random_weight);
            &&& gt(all, num::<F>(0)) ==> {
                &&& times(replay, all) == recorded
                &&& times(kickoff, all) == c.kickoff_weight
                &&& times(random, all) == c.random_weight
                &&& plus(plus(replay, kickoff), random) == num::<F>(1)
            }
            &&& c.pool@.len() == 0 ==> replay == num::<F>(0)
        }),
        ({
            let (kickoff, random) = c.shares_without_replay();
            let rest = plus(c.kickoff_weight, c.random_weight);
            &&& gt(rest, num::<F>(0)) ==> {
                &&& times(kickoff, rest) == c.kickoff_weight
                &&& times(random, rest) == c.random_weight
                &&& plus(kickoff, random) == num::<F>(1)
            }
            &&& !gt(rest, num::<F>(0)) ==> kickoff == num::<F>(1) && random == num::<F>(0)
        }),
{
    let (zero, one) = (num::<F>(0), num::<F>(1));
    let recorded = if c.pool@.len() > 0 {
        c.replay_weight
    } else {
        zero
    };
    let (k, r) = (c.kickoff_weight, c.random_weight);
    let all = plus(plus(recorded, k), r);
    let rest = plus(k, r);
    order_facts(all, zero);
    order_facts(rest, zero);
    order_facts(zero, one);
    if gt(all, zero) {
        let inv = over(one, all);
        divide(recorded, all);
        divide(k, all);
        divide(r, all);
        divide(one, all);
        mul_comm(inv, all);
        over_is_times(recorded, all);
        over_is_times(k, all);
        over_is_times(r, all);
        distribute(inv, recorded, k);
        distribute(inv, plus(recorded, k), r);
        mul_zero(inv);
    } else {
        over_is_times(zero, one);
        mul_zero(over(one, one));
    }
    if gt(rest, zero) {
        let inv = over(one, rest);
        divide(k, rest);
        divide(r, rest);
        divide(one, rest);
        mul_comm(inv, rest);
        over_is_times(k, rest);
        over_is_times(r, rest);
        distribute(inv, k, r);
    }
}

} // verus!
