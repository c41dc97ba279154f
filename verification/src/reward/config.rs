//! Reward weights and the rules they must keep.

use crate::scalar::{
    clamp, clamped, frac, ge, gt, le, lt, minus, num, ordered, over, ratio, same, total, whole,
    Scalar,
};
use vstd::prelude::*;

verus! {

/// Weights of the reward terms. A weight of zero turns its term off.
#[derive(Debug)]
pub struct RewardConfig<F> {
    /// Scoring; conceding costs this less the aggression bias.
    pub goal: F,
    /// A touch of the ball.
    pub touch: F,
    /// Speed towards the ball.
    pub vel_to_ball: F,
    /// Share of the cost of conceding that is waived.
    pub aggression_bias: F,
    /// A touch, by its impact.
    pub touch_accel: F,
    /// Ball speed towards the opponent's goal.
    pub vel_ball_to_goal: F,
    /// Speed towards a ball that lies before the opponent's goal.
    pub offensive_potential: F,
    /// Share of a payment that goes to the team.
    pub team_spirit: F,
    /// Share of the opponents' payments that is charged.
    pub opp_spirit: F,
    /// Change of the win probability.
    pub win_prob_weight: F,
    /// Slope of the win probability at kickoff.
    pub win_prob_k_base: F,
    /// Least fraction of the clock that sharpens the slope.
    pub win_prob_t_floor: F,
    /// Discount of the potentials.
    pub win_prob_gamma: F,
    /// Least number of ticks between two paid touches.
    pub touch_cooldown_ticks: u32,
    /// A touch in the air, by height and impulse.
    pub aerial_touch: F,
    /// Ball height from which an aerial touch pays.
    pub aerial_z_lo: F,
    /// Ball height from which an aerial touch pays in full.
    pub aerial_z_hi: F,
    /// Change of the aerial setup potential.
    pub air_setup: F,
    /// Ball height from which an aerial touch is counted; `aerial_z_lo` if zero.
    pub aerial_meas_z_lo: F,
    /// Ball height from which the setup potential rises.
    pub air_setup_z_lo: F,
    /// Ball height from which the setup potential is full.
    pub air_setup_z_hi: F,
    /// Boost collected, by need.
    pub boost_pickup: F,
    /// Long time in the air after a jump.
    pub air_hang: F,
}

impl<F: Copy> Clone for RewardConfig<F> {
    fn clone(&self) -> (r: Self)
        ensures
            r == *self,
    {
        *self
    }
}

impl<F: Copy> Copy for RewardConfig<F> {

}

/// Why reward weights are refused.
#[derive(Clone, Copy, Debug, PartialEq, Eq, Structural)]
pub enum RewardError {
    /// Aerial terms without a rising height ramp.
    AerialRamp,
    /// The height ramp starts below a resting ball.
    AerialFloor,
    /// Aerial touches would be counted below a resting ball.
    MeasureFloor,
    /// The setup ramp is set and does not rise.
    SetupRamp,
    /// The setup ramp starts below a resting ball.
    SetupFloor,
    /// The setup potential has no discount.
    SetupGamma,
    /// The win probability has no slope.
    WinProbSlope,
    /// The floor of the clock is not between 0 and 1.
    WinProbFloor,
}

/// Radius of the ball.
pub open spec fn ball_radius<F: Scalar>() -> F {
    frac::<F>(9315, 100)
}

/// Where a height lies on the way from `lo` to `hi`, from 0 to 1.
pub open spec fn ramp<F: Scalar>(z: F, lo: F, hi: F) -> F {
    clamped(over(minus(z, lo), minus(hi, lo)), num::<F>(0), num::<F>(1))
}

impl<F: Scalar> RewardConfig<F> {
    /// The setup ramp is set.
    pub open spec fn setup_ramp_set(&self) -> bool {
        !same(self.air_setup_z_lo, num::<F>(0)) || !same(self.air_setup_z_hi, num::<F>(0))
    }

    /// The rule of aerial terms that is broken first, if any. They bind only
    /// when an aerial term is on.
    pub open spec fn aerial_fault(&self) -> Option<RewardError> {
        if same(self.aerial_touch, num::<F>(0)) && same(self.air_setup, num::<F>(0)) {
            None
        } else if !gt(self.aerial_z_hi, self.aerial_z_lo) {
            Some(RewardError::AerialRamp)
        } else if lt(self.aerial_z_lo, ball_radius::<F>()) {
            Some(RewardError::AerialFloor)
        } else if !same(self.aerial_meas_z_lo, num::<F>(0)) && lt(
            self.aerial_meas_z_lo,
            ball_radius::<F>(),
        ) {
            Some(RewardError::MeasureFloor)
        } else if self.setup_ramp_set() && !gt(self.air_setup_z_hi, self.air_setup_z_lo) {
            Some(RewardError::SetupRamp)
        } else if self.setup_ramp_set() && lt(self.air_setup_z_lo, ball_radius::<F>()) {
            Some(RewardError::SetupFloor)
        } else if !same(self.air_setup, num::<F>(0)) && !gt(self.win_prob_gamma, num::<F>(0)) {
            Some(RewardError::SetupGamma)
        } else {
            None
        }
    }

    /// The rule of the win probability that is broken first, if any. They bind
    /// only when the term is on.
    pub open spec fn win_prob_fault(&self) -> Option<RewardError> {
        if same(self.win_prob_weight, num::<F>(0)) {
            None
        } else if le(self.win_prob_k_base, num::<F>(0)) {
            Some(RewardError::WinProbSlope)
        } else if !(ge(self.win_prob_t_floor, num::<F>(0)) && lt(self.win_prob_t_floor, num::<F>(1)))
            || le(self.win_prob_t_floor, num::<F>(0)) {
            Some(RewardError::WinProbFloor)
        } else {
            None
        }
    }

    /// The rule that is broken first, if any.
    pub open spec fn fault(&self) -> Option<RewardError> {
        match self.aerial_fault() {
            Some(e) => Some(e),
            None => self.win_prob_fault(),
        }
    }

    /// Accepts weights that keep every rule. A comparison that an undefined
    /// number takes part in counts as failed.
    pub fn validate(&self) -> (r: Result<(), RewardError>)
        requires
            total::<F>(),
        ensures
            r == match self.fault() {
                None => Ok::<(), RewardError>(()),
                Some(e) => Err(e),
            },
    {
        self.validate_aerial()?;
        let zero: F = whole(0);
        let one: F = whole(1);
        if self.win_prob_weight == zero {
            return Ok(());
        }
        if self.win_prob_k_base <= zero {
            return Err(RewardError::WinProbSlope);
        }
        if !(self.win_prob_t_floor >= zero && self.win_prob_t_floor < one)
            || self.win_prob_t_floor <= zero {
            return Err(RewardError::WinProbFloor);
        }
        Ok(())
    }

    /// Accepts weights that keep the rules of the aerial terms.
    pub fn validate_aerial(&self) -> (r: Result<(), RewardError>)
        requires
            total::<F>(),
        ensures
            r == match self.aerial_fault() {
                None => Ok::<(), RewardError>(()),
                Some(e) => Err(e),
            },
    {
        let zero: F = whole(0);
        let radius: F = ratio(9315, 100);
        if self.aerial_touch == zero && self.air_setup == zero {
            return Ok(());
        }
        if !(self.aerial_z_hi > self.aerial_z_lo) {
            return Err(RewardError::AerialRamp);
        }
        if self.aerial_z_lo < radius {
            return Err(RewardError::AerialFloor);
        }
        if self.aerial_meas_z_lo != zero && self.aerial_meas_z_lo < radius {
            return Err(RewardError::MeasureFloor);
        }
        let setup_ramp_set: bool = self.air_setup_z_lo != zero || self.air_setup_z_hi != zero;
        if setup_ramp_set && !(self.air_setup_z_hi > self.air_setup_z_lo) {
            return Err(RewardError::SetupRamp);
        }
        if setup_ramp_set && self.air_setup_z_lo < radius {
            return Err(RewardError::SetupFloor);
        }
        if self.air_setup != zero && !(self.win_prob_gamma > zero) {
            return Err(RewardError::SetupGamma);
        }
        Ok(())
    }

    /// How far up the payout ramp a ball is.
    pub open spec fn height_ramp_at(&self, ball_z: F) -> F {
        ramp(ball_z, self.aerial_z_lo, self.aerial_z_hi)
    }

    /// The ball height from which an aerial touch is counted.
    pub open spec fn measured_from(&self) -> F {
        if gt(self.aerial_meas_z_lo, num::<F>(0)) {
            self.aerial_meas_z_lo
        } else {
            self.aerial_z_lo
        }
    }

    /// How far up the setup ramp a ball is; the payout ramp serves where none is set.
    pub open spec fn setup_ramp_at(&self, ball_z: F) -> F {
        if gt(self.air_setup_z_hi, self.air_setup_z_lo) {
            ramp(ball_z, self.air_setup_z_lo, self.air_setup_z_hi)
        } else {
            self.height_ramp_at(ball_z)
        }
    }

    /// How far up the payout ramp a ball is.
    pub fn height_ramp(&self, ball_z: F) -> (r: F)
        requires
            total::<F>(),
        ensures
            r == self.height_ramp_at(ball_z),
    {
        clamp(
            (ball_z - self.aerial_z_lo) / (self.aerial_z_hi - self.aerial_z_lo),
            whole(0),
            whole(1),
        )
    }

    /// The ball height from which an aerial touch is counted.
    pub fn meas_z_lo(&self) -> (r: F)
        requires
            ordered::<F>(),
        ensures
            r == self.measured_from(),
    {
        let zero: F = whole(0);
        if self.aerial_meas_z_lo > zero {
            self.aerial_meas_z_lo
        } else {
            self.aerial_z_lo
        }
    }

    /// How far up the setup ramp a ball is.
    pub fn setup_ramp(&self, ball_z: F) -> (r: F)
        requires
            total::<F>(),
        ensures
            r == self.setup_ramp_at(ball_z),
    {
        if self.air_setup_z_hi > self.air_setup_z_lo {
            clamp(
                (ball_z - self.air_setup_z_lo) / (self.air_setup_z_hi - self.air_setup_z_lo),
                whole(0),
                whole(1),
            )
        } else {
            self.height_ramp(ball_z)
        }
    }
}

} // verus!
