# construct_engine

The core of a reinforcement-learning environment for car football, written and
verified in Verus. It says what an arena's physics is worth and what to do with
it; the physics, the networks and the Python module around it live in `app/`.

## The library (`src/`)

Everything is generic over the number type (`scalar.rs`): production code uses
`f32` and `f64`, and the contracts say which operations are applied to which
operands in which order. Square root, exponential and the like are passed in. That
the operators of `f32` and `f64` are functions of their operands (`total`, in
`scalar.rs`) is assumed by whoever calls the library with them; Verus does not
show it.

- `actions`, `tables`: the action tables and the controls their rows stand for
- `sim`: arena states as plain values
- `obs`, `obs_v1`, `obs_advanced`, `obs_necto`, `pads`, `order`: observations
- `mirror`: both teams see the same game
- `reward`: weights and what they must keep, the payments of a step and their
  telemetry, shaping, and what sharing and shaping leave unchanged
- `episode`: ends of episodes, resets, sharing among a team, and the course of
  the episodes of one arena
- `curriculum`, `reset_pool`, `pool_file`, `sampler`: what episodes start from
- `ballpred`: ball predictions that are never undefined
- `policy`, `policy_v1`, `nexto`, `element`, `layout`, `state_dict`: what the
  arrays of a network must be
- `foreign`: bots that drive cars
- `engine`: who drives which car in a rollout, what is recorded of it, how the
  workers' shares are split and merged, and what holds of a whole rollout
- `schema`, `session`, `viser`: schemas, requests, keeping real time
- `exact`, `remainder`: scalars that do not round, for properties that hold up to
  rounding, and the smallest of them
- `rotation`: unit quaternions keep lengths and angles

Properties that span several functions are proof functions named `law_..`.

## Around it

- `tests/`: tests of the compiled library, with `f32` and `f64`
- `app/`: configuration files, the simulator, forward passes, worker threads,
  streaming and the Python module

The bots `nexto` and `necto` can be loaded, and their arrays are checked, but cars
that they drive rest: the observation of the one and the decoder of the other's
answer are not part of this project.
