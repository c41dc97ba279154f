//! The core of a reinforcement-learning environment for car football.
//!
//! The library says what a state of the arena looks like to an agent, what a
//! step is worth, when an episode ends and what the next one starts from, who
//! drives which car in a rollout and what is recorded of it. The physics and the
//! networks are outside: their results come in as plain values. All of it is
//! generic over the number type, see `scalar`.

pub mod actions;
pub mod argmax;
pub mod ballpred;
pub mod basics;
pub mod bots;
pub mod curriculum;
pub mod draws;
pub mod element;
pub mod engine;
pub mod episode;
pub mod exact;
pub mod foreign;
pub mod layout;
pub mod mirror;
pub mod networks;
pub mod nexto;
pub mod obs;
pub mod obs_advanced;
pub mod obs_necto;
pub mod obs_v1;
pub mod order;
pub mod pads;
pub mod policy;
pub mod policy_v1;
pub mod pool_file;
pub mod remainder;
pub mod reset_pool;
pub mod reward;
pub mod rotation;
pub mod rows;
pub mod rules;
pub mod sampler;
pub mod scalar;
pub mod schema;
pub mod session;
pub mod shown;
pub mod sim;
pub mod state_dict;
pub mod tables;
pub mod tallies;
pub mod test_support;
pub mod viser;
