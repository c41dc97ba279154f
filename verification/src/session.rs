//! Checks and defaults at the entrance of the engine.

use crate::engine::plan::TeamSizes;
use crate::engine::shares::{
    allocate_team_sizes, allocated, check_team_weights, servable, weights_ok,
};
use crate::episode::ObsMode;
use crate::rows::{filled, repeated};
use crate::scalar::{total, Scalar};
use vstd::prelude::*;
use vstd::string::StringExecFns;

verus! {

/// Most native opponents.
pub const MAX_OPPONENT_SLOTS: usize = 8;

/// Why a request is refused.
#[derive(Clone, Copy, Debug, PartialEq, Eq, Structural)]
pub enum RequestError {
    /// The request is for flat observations only.
    FlatOnly,
    /// The request is for entity observations only.
    EntityOnly,
    /// Flat observations beside entity ones were asked of a flat engine.
    FlatBesideFlat,
    /// Weights of team sizes that are not three, negative, or all zero.
    TeamWeights,
    /// More opponents than there are slots.
    TooManyOpponents,
    /// A policy is needed first.
    NoWeights,
}

/// Accepts a request that only a flat-observation engine can serve.
pub fn v0_only(mode: ObsMode) -> (r: Result<(), RequestError>)
    ensures
        r == if mode == ObsMode::V1 {
            Err(RequestError::FlatOnly)
        } else {
            Ok::<(), RequestError>(())
        },
{
    if mode == ObsMode::V1 {
        Err(RequestError::FlatOnly)
    } else {
        Ok(())
    }
}

/// Accepts a request that only an entity engine can serve.
pub fn v1_only(mode: ObsMode) -> (r: Result<(), RequestError>)
    ensures
        r == if mode == ObsMode::V0 {
            Err(RequestError::EntityOnly)
        } else {
            Ok::<(), RequestError>(())
        },
{
    if mode == ObsMode::V0 {
        Err(RequestError::EntityOnly)
    } else {
        Ok(())
    }
}

/// Accepts flat observations beside entity ones only where there are entity ones.
pub fn check_emit_v0_obs(emit_v0_obs: bool, version: u32) -> (r: Result<(), RequestError>)
    ensures
        r == if emit_v0_obs && version != 1 {
            Err(RequestError::FlatBesideFlat)
        } else {
            Ok::<(), RequestError>(())
        },
{
    if emit_v0_obs && version != 1 {
        Err(RequestError::FlatBesideFlat)
    } else {
        Ok(())
    }
}

/// Accepts as many opponents as there are slots.
pub fn check_opponent_count(n: usize) -> (r: Result<(), RequestError>)
    ensures
        r == if n > MAX_OPPONENT_SLOTS {
            Err(RequestError::TooManyOpponents)
        } else {
            Ok::<(), RequestError>(())
        },
{
    if n > MAX_OPPONENT_SLOTS {
        Err(RequestError::TooManyOpponents)
    } else {
        Ok(())
    }
}

/// Accepts a policy step only of an entity engine that has a policy.
pub fn check_step_policy(mode: ObsMode, has_policy: bool) -> (r: Result<(), RequestError>)
    ensures
        r == if mode != ObsMode::V1 {
            Err(RequestError::EntityOnly)
        } else if !has_policy {
            Err(RequestError::NoWeights)
        } else {
            Ok::<(), RequestError>(())
        },
{
    if mode != ObsMode::V1 {
        Err(RequestError::EntityOnly)
    } else if !has_policy {
        Err(RequestError::NoWeights)
    } else {
        Ok(())
    }
}

/// The teams of every arena: all alike, or as many of each size as the weights
/// say.
pub fn arena_sizes<F: Scalar>(
    num_arenas: usize,
    blue: usize,
    orange: usize,
    weights: Option<&Vec<F>>,
) -> (r: Result<Vec<TeamSizes>, RequestError>)
    requires
        total::<F>(),
        weights matches Some(w) ==> weights_ok(w@) ==> servable(
            num_arenas as int,
            [w@[0], w@[1], w@[2]],
        ),
    ensures
        match weights {
            None => r matches Ok(s) && s@ == repeated((blue, orange), num_arenas as int),
            Some(w) => if weights_ok(w@) {
                r matches Ok(s) && s@ == allocated(
                    num_arenas as int,
                    [w@[0], w@[1], w@[2]],
                ).map_values(|k: usize| (k, k))
            } else {
                r == Err::<Vec<TeamSizes>, RequestError>(RequestError::TeamWeights)
            },
        },
{
    match weights {
        None => {
            let sizes: Vec<TeamSizes> = filled((blue, orange), num_arenas);
            Ok(sizes)
        },
        Some(w) => {
            if !check_team_weights(w) {
                return Err(RequestError::TeamWeights);
            }
            let three: [F; 3] = [w[0], w[1], w[2]];
            let sizes: Vec<usize> = allocate_team_sizes(num_arenas, &three);
            let mut out: Vec<TeamSizes> = Vec::new();
            let mut i: usize = 0;
            while i < sizes.len()
                invariant
                    i <= sizes@.len(),
                    out@ =~= sizes@.take(i as int).map_values(|k: usize| (k, k)),
                decreases sizes.len() - i,
            {
                let k: usize = sizes[i];
                out.push((k, k));
                i = i + 1;
            }
            assert(sizes@.take(i as int) =~= sizes@);
            Ok(out)
        },
    }
}

/// Self-play in every arena.
pub fn default_assignment(num_arenas: usize) -> (a: Vec<i32>)
    ensures
        a@ == repeated(-1i32, num_arenas as int),
{
    filled(-1i32, num_arenas)
}

/// Seed of the action sampler of a session that is watched.
pub fn render_seed(seed: u32) -> (s: u64)
    ensures
        s == seed * 1_000_003 + 17,
{
    seed as u64 * 1_000_003 + 17
}

/// Where the collision meshes are: as given, or the first of two usual places
/// that has them, or else the first.
pub fn mesh_path(given: Option<&str>, here: bool, above: bool) -> (p: String)
    ensures
        p@ == match given {
            Some(s) => s@,
            None => if !here && above {
                "../assets/collision_meshes"@
            } else {
                "assets/collision_meshes"@
            },
        },
{
    match given {
        Some(s) => String::from_str(s),
        None => {
            if !here && above {
                String::from_str("../assets/collision_meshes")
            } else {
                String::from_str("assets/collision_meshes")
            }
        },
    }
}

} // verus!
