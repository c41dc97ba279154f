//! Ball prediction.
//!
//! A ball is rolled forward in an arena without cars and looked at four times.

use crate::scalar::{finite, is_finite, total, Scalar};
use crate::sim::{BallState, Vec3};
use vstd::prelude::*;

verus! {

/// Ticks between two looks at the ball.
pub const HORIZON_TICKS: u32 = 60;

/// Looks at the ball.
pub const NUM_PRED: usize = 4;

/// Where a ball is and where it goes.
#[derive(Debug)]
pub struct BallSnap<F> {
    pub pos: Vec3<F>,
    pub vel: Vec3<F>,
}

impl<F: Copy> Clone for BallSnap<F> {
    fn clone(&self) -> (r: Self)
        ensures
            r == *self,
    {
        *self
    }
}

impl<F: Copy> Copy for BallSnap<F> {

}

/// All three coordinates are finite.
pub open spec fn vec_finite<F: Scalar>(v: Vec3<F>) -> bool {
    finite(v.x) && finite(v.y) && finite(v.z)
}

/// All three coordinates are finite.
pub fn vec3_finite<F: Scalar>(v: &Vec3<F>) -> (r: bool)
    requires
        total::<F>(),
    ensures
        r == vec_finite(*v),
{
    is_finite(v.x) && is_finite(v.y) && is_finite(v.z)
}

/// Everything seen of the ball is finite.
pub open spec fn snaps_finite<F: Scalar>(out: [BallSnap<F>; 4]) -> bool {
    forall|i: int|
        0 <= i < 4 ==> vec_finite((#[trigger] out@[i]).pos) && vec_finite(out@[i].vel)
}

/// Whether everything seen of the ball is finite.
pub fn all_finite<F: Scalar>(out: &[BallSnap<F>; 4]) -> (r: bool)
    requires
        total::<F>(),
    ensures
        r == snaps_finite(*out),
{
    let mut i: usize = 0;
    while i < 4
        invariant
            i <= 4,
            total::<F>(),
            forall|j: int|
                0 <= j < i ==> vec_finite((#[trigger] out@[j]).pos) && vec_finite(out@[j].vel),
        decreases 4 - i,
    {
        if !(vec3_finite(&out[i].pos) && vec3_finite(&out[i].vel)) {
            assert(!(vec_finite(out@[i as int].pos) && vec_finite(out@[i as int].vel)));
            return false;
        }
        i = i + 1;
    }
    true
}

/// A prediction and whether the arena it was made in must be replaced.
pub struct Prediction<F> {
    pub snaps: [BallSnap<F>; 4],
    pub rebuild: bool,
}

/// Takes what was seen of the ball. If any of it is not finite, the ball as it is
/// now takes its place throughout, and the arena must be replaced.
pub fn contain_nonfinite<F: Scalar>(out: [BallSnap<F>; 4], ball: &BallState<F>) -> (p: Prediction<
    F,
>)
    requires
        total::<F>(),
    ensures
        p.rebuild == !snaps_finite(out),
        !p.rebuild ==> p.snaps == out,
        p.rebuild ==> forall|i: int|
            0 <= i < 4 ==> (#[trigger] p.snaps@[i]).pos == ball.pos && p.snaps@[i].vel == ball.vel,
{
    if all_finite(&out) {
        Prediction { snaps: out, rebuild: false }
    } else {
        let now: BallSnap<F> = BallSnap { pos: ball.pos, vel: ball.vel };
        Prediction { snaps: [now; 4], rebuild: true }
    }
}

/// A prediction made from a finite ball is finite.
pub proof fn law_prediction_is_finite<F: Scalar>(
    out: [BallSnap<F>; 4],
    ball: BallState<F>,
    p: Prediction<F>,
)
    requires
        vec_finite(ball.pos),
        vec_finite(ball.vel),
        p.rebuild == !snaps_finite(out),
        !p.rebuild ==> p.snaps == out,
        p.rebuild ==> forall|i: int|
            0 <= i < 4 ==> (#[trigger] p.snaps@[i]).pos == ball.pos && p.snaps@[i].vel == ball.vel,
    ensures
        snaps_finite(p.snaps),
{
}

} // verus!
