//! Many arenas spread over workers.

pub mod assembly;
pub mod collect;
pub mod course;
pub mod fields;
pub mod merge;
pub mod multi;
pub mod plan;
pub mod roles;
pub mod rollout;
pub mod shares;
pub mod stages;
pub mod weights;
pub mod workers;
