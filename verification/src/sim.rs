//! What the environment sees of the physics simulation.

use crate::scalar::{negate, opposite, total, Scalar};
use vstd::prelude::*;

verus! {

/// One of the two teams.
#[derive(Clone, Copy, Debug, PartialEq, Eq, Structural)]
pub enum Team {
    Blue,
    Orange,
}

impl Team {
    /// The team it plays against.
    pub open spec fn opponent(self) -> Team {
        match self {
            Team::Blue => Team::Orange,
            Team::Orange => Team::Blue,
        }
    }
}

/// A vector in field coordinates.
#[derive(Debug)]
pub struct Vec3<F> {
    pub x: F,
    pub y: F,
    pub z: F,
}

impl<F: Copy> Clone for Vec3<F> {
    fn clone(&self) -> (r: Self)
        ensures
            r == *self,
    {
        *self
    }
}

impl<F: Copy> Copy for Vec3<F> {

}

/// Orientation of a body.
#[derive(Debug)]
pub struct RotMat<F> {
    pub forward: Vec3<F>,
    pub right: Vec3<F>,
    pub up: Vec3<F>,
}

impl<F: Copy> Clone for RotMat<F> {
    fn clone(&self) -> (r: Self)
        ensures
            r == *self,
    {
        *self
    }
}

impl<F: Copy> Copy for RotMat<F> {

}

/// A car's latest contact with the ball.
#[derive(Clone, Copy, Debug, PartialEq, Eq, Structural)]
pub struct BallHitInfo {
    /// Whether there was a contact at all.
    pub is_valid: bool,
    /// When it was.
    pub tick_count_when_hit: u64,
}

/// State of one car.
#[derive(Debug)]
pub struct CarState<F> {
    pub pos: Vec3<F>,
    pub rot_mat: RotMat<F>,
    pub vel: Vec3<F>,
    pub ang_vel: Vec3<F>,
    /// Boost in the tank, up to 100.
    pub boost: F,
    /// At least three wheels touch a surface.
    pub is_on_ground: bool,
    pub is_demoed: bool,
    pub has_flipped: bool,
    /// Whether a flip or jump is available.
    pub has_flip_or_jump: bool,
    /// Seconds since the last jump while in the air.
    pub air_time_since_jump: F,
    pub ball_hit_info: BallHitInfo,
}

impl<F: Copy> Clone for CarState<F> {
    fn clone(&self) -> (r: Self)
        ensures
            r == *self,
    {
        *self
    }
}

impl<F: Copy> Copy for CarState<F> {

}

/// One car.
#[derive(Debug)]
pub struct CarInfo<F> {
    pub id: u32,
    pub team: Team,
    pub state: CarState<F>,
}

impl<F: Copy> Clone for CarInfo<F> {
    fn clone(&self) -> (r: Self)
        ensures
            r == *self,
    {
        *self
    }
}

impl<F: Copy> Copy for CarInfo<F> {

}

/// State of the ball.
#[derive(Debug)]
pub struct BallState<F> {
    pub pos: Vec3<F>,
    pub vel: Vec3<F>,
    pub ang_vel: Vec3<F>,
}

impl<F: Copy> Clone for BallState<F> {
    fn clone(&self) -> (r: Self)
        ensures
            r == *self,
    {
        *self
    }
}

impl<F: Copy> Copy for BallState<F> {

}

/// One boost pad.
#[derive(Debug)]
pub struct BoostPad<F> {
    pub position: Vec3<F>,
    pub is_big: bool,
    /// Whether it can be picked up.
    pub is_active: bool,
    /// Seconds until it can be picked up again.
    pub cooldown: F,
}

impl<F: Copy> Clone for BoostPad<F> {
    fn clone(&self) -> (r: Self)
        ensures
            r == *self,
    {
        *self
    }
}

impl<F: Copy> Copy for BoostPad<F> {

}

/// State of an arena.
#[derive(Debug)]
pub struct GameState<F> {
    pub tick_count: u64,
    pub ball: BallState<F>,
    pub cars: Vec<CarInfo<F>>,
    pub pads: Vec<BoostPad<F>>,
}

impl<F: Copy> Clone for GameState<F> {
    fn clone(&self) -> (r: Self)
        ensures
            r.tick_count == self.tick_count,
            r.ball == self.ball,
            r.cars@ == self.cars@,
            r.pads@ == self.pads@,
    {
        let r = GameState {
            tick_count: self.tick_count,
            ball: self.ball,
            cars: self.cars.clone(),
            pads: self.pads.clone(),
        };
        assert(r.cars@ =~= self.cars@);
        assert(r.pads@ =~= self.pads@);
        r
    }
}

/// A vector as seen by a team that plays as if it were blue: orange turns the
/// field by half a turn.
pub open spec fn mirrored<F: Scalar>(v: Vec3<F>, mirror: bool) -> Vec3<F> {
    if mirror {
        Vec3 { x: opposite(v.x), y: opposite(v.y), z: v.z }
    } else {
        v
    }
}

/// A vector as seen by a team that plays as if it were blue.
pub fn mir<F: Scalar>(v: Vec3<F>, mirror: bool) -> (r: Vec3<F>)
    requires
        total::<F>(),
    ensures
        r == mirrored(v, mirror),
{
    if mirror {
        Vec3 { x: negate(v.x), y: negate(v.y), z: v.z }
    } else {
        v
    }
}

} // verus!
