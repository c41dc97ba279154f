//! The contract between a policy and the environment it plays in.

use crate::actions::{TABLE_SIZE, TABLE_SIZE_V1, TABLE_SIZE_V1_AIR};
use crate::episode::ActionTableKind;
use crate::obs::OBS_SIZE;
use vstd::prelude::*;
use vstd::string::StringExecFns;

verus! {

/// Factors that bring positions, velocities and angular velocities to unit size.
#[derive(Debug)]
pub struct Normalization<F> {
    pub pos_norm: F,
    pub vel_norm: F,
    pub ang_vel_norm: F,
}

impl<F: Copy> Clone for Normalization<F> {
    fn clone(&self) -> (r: Self)
        ensures
            r == *self,
    {
        *self
    }
}

impl<F: Copy> Copy for Normalization<F> {

}

/// Shape of an entity observation.
#[derive(Debug, Clone, Copy, PartialEq, Eq, Structural)]
pub struct ObsV1Meta {
    pub max_ent: usize,
    pub ent_feat: usize,
    pub q_feat: usize,
    pub prev_actions: usize,
}

/// What a policy expects of the environment.
#[derive(Debug)]
pub struct Schema<F> {
    pub version: u32,
    pub obs_size: usize,
    pub action_table: String,
    pub action_count: usize,
    pub tick_skip: u32,
    pub normalization: Normalization<F>,
    pub obs_v1: Option<ObsV1Meta>,
}

/// Why a schema is refused.
#[derive(Debug, Clone, Copy, PartialEq, Eq, Structural)]
pub enum SchemaError {
    /// Entity observations without their shape.
    MissingObsV1,
    /// Entity observations of another shape.
    ObsV1Mismatch { expected: ObsV1Meta, got: ObsV1Meta },
    /// No table has this many rows; the legal widths are named.
    ActionCount { base: usize, air: usize, rows: usize },
}

/// How a schema differs from what the engine was built for.
#[derive(Debug, Clone, Copy, PartialEq, Eq, Structural)]
pub enum SchemaMismatch {
    /// An entity schema with another action table.
    EntityTable { action_count: usize },
    /// A flat schema with another observation or action table.
    Flat { obs_size: usize, action_count: usize },
}

/// The only shape of entity observations there is.
pub open spec fn expected_obs_v1() -> ObsV1Meta {
    ObsV1Meta { max_ent: 17, ent_feat: 26, q_feat: 64, prev_actions: 5 }
}

impl<F> Schema<F> {
    /// What a schema is judged to be.
    pub open spec fn judged(&self) -> Result<(), SchemaError> {
        match self.obs_v1 {
            _ if self.version != 1 => Ok(()),
            None => Err(SchemaError::MissingObsV1),
            Some(meta) => if meta != expected_obs_v1() {
                Err(SchemaError::ObsV1Mismatch { expected: expected_obs_v1(), got: meta })
            } else if self.action_count != TABLE_SIZE_V1 && self.action_count
                != TABLE_SIZE_V1_AIR {
                Err(
                    SchemaError::ActionCount {
                        base: TABLE_SIZE_V1,
                        air: TABLE_SIZE_V1_AIR,
                        rows: self.action_count,
                    },
                )
            } else {
                Ok(())
            },
        }
    }

    /// Accepts every schema whose version is not 1. A version 1 schema must
    /// give the one legal shape of entity observations and the width of one of
    /// the two tables that go with it.
    pub fn validate(&self) -> (r: Result<(), SchemaError>)
        ensures
            r == self.judged(),
            r == match self.obs_v1 {
                _ if self.version != 1 => Ok(()),
                None => Err(SchemaError::MissingObsV1),
                Some(meta) => if meta != expected_obs_v1() {
                    Err(SchemaError::ObsV1Mismatch { expected: expected_obs_v1(), got: meta })
                } else if self.action_count != TABLE_SIZE_V1 && self.action_count
                    != TABLE_SIZE_V1_AIR {
                    Err(
                        SchemaError::ActionCount {
                            base: TABLE_SIZE_V1,
                            air: TABLE_SIZE_V1_AIR,
                            rows: self.action_count,
                        },
                    )
                } else {
                    Ok::<(), SchemaError>(())
                },
            },
    {
        if self.version != 1 {
            return Ok(());
        }
        let expected = ObsV1Meta { max_ent: 17, ent_feat: 26, q_feat: 64, prev_actions: 5 };
        match self.obs_v1 {
            None => Err(SchemaError::MissingObsV1),
            Some(meta) => if meta != expected {
                Err(SchemaError::ObsV1Mismatch { expected, got: meta })
            } else if self.action_count != TABLE_SIZE_V1 && self.action_count
                != TABLE_SIZE_V1_AIR {
                Err(
                    SchemaError::ActionCount {
                        base: TABLE_SIZE_V1,
                        air: TABLE_SIZE_V1_AIR,
                        rows: self.action_count,
                    },
                )
            } else {
                Ok(())
            },
        }
    }

    /// The action table that the schema selects, by its width alone.
    pub fn action_table_kind(&self) -> (k: ActionTableKind)
        ensures
            k == if self.action_count == TABLE_SIZE_V1_AIR {
                ActionTableKind::V1Air
            } else {
                ActionTableKind::V1
            },
    {
        if self.action_count == TABLE_SIZE_V1_AIR {
            ActionTableKind::V1Air
        } else {
            ActionTableKind::V1
        }
    }
}

/// Whether a schema is one that the engine was built for.
pub open spec fn schema_fits<F>(sch: &Schema<F>) -> bool {
    if sch.version == 1 {
        ||| sch.action_count == TABLE_SIZE_V1 && sch.action_table@ == "construct_92_v1"@
        ||| sch.action_count == TABLE_SIZE_V1_AIR && sch.action_table@ == "construct_104_v1air"@
    } else {
        sch.obs_size == OBS_SIZE && sch.action_count == TABLE_SIZE && sch.action_table@
            == "rlgym_lookup_90"@
    }
}

/// Accepts the schemas that the engine was built for.
pub fn validate_schema<F>(sch: &Schema<F>) -> (r: Result<(), SchemaMismatch>)
    ensures
        r is Ok <==> schema_fits(sch),
        r matches Err(e) ==> e == if sch.version == 1 {
            SchemaMismatch::EntityTable { action_count: sch.action_count }
        } else {
            SchemaMismatch::Flat { obs_size: sch.obs_size, action_count: sch.action_count }
        },
{
    if sch.version == 1 {
        let base: String = String::from_str("construct_92_v1");
        let air: String = String::from_str("construct_104_v1air");
        let fits: bool = (sch.action_count == TABLE_SIZE_V1 && sch.action_table == base) || (
        sch.action_count == TABLE_SIZE_V1_AIR && sch.action_table == air);
        if !fits {
            return Err(SchemaMismatch::EntityTable { action_count: sch.action_count });
        }
        return Ok(());
    }
    let name: String = String::from_str("rlgym_lookup_90");
    if sch.obs_size != OBS_SIZE || sch.action_count != TABLE_SIZE || sch.action_table != name {
        return Err(
            SchemaMismatch::Flat { obs_size: sch.obs_size, action_count: sch.action_count },
        );
    }
    Ok(())
}

/// Entity observations list 17 entities of 26 numbers, ask with 64 and recall five
/// actions.
pub proof fn law_shape_of_entity_observations()
    ensures
        expected_obs_v1().max_ent == 17,
        expected_obs_v1().ent_feat == 26,
        expected_obs_v1().q_feat == 64,
        expected_obs_v1().prev_actions == 5,
{
}

/// An engine plays by the schemas it was built for: entity schemas with the table of
/// 92 or that of 104 actions, and flat schemas of 94 numbers with the table of 90, each
/// under its own name.
pub proof fn law_schemas_that_fit<F>(sch: &Schema<F>)
    ensures
        schema_fits(sch) && sch.version == 1 ==> {
            ||| sch.action_count == 92 && sch.action_table@ == "construct_92_v1"@
            ||| sch.action_count == 104 && sch.action_table@ == "construct_104_v1air"@
        },
        sch.version == 1 && sch.action_count == 92 && sch.action_table@ == "construct_92_v1"@
            ==> schema_fits(sch),
        sch.version == 1 && sch.action_count == 104 && sch.action_table@
            == "construct_104_v1air"@ ==> schema_fits(sch),
        sch.version != 1 ==> (schema_fits(sch) <==> sch.obs_size == 94 && sch.action_count == 90
            && sch.action_table@ == "rlgym_lookup_90"@),
{
}

/// A schema that is not of version 1 passes. One of version 1 passes if and only if it
/// gives the shape of entity observations as it is and has 92 or 104 actions; what is
/// wrong is reported in that order, with what was found.
pub proof fn law_schemas_that_pass<F>(sch: Schema<F>)
    ensures
        sch.judged() is Ok <==> sch.version != 1 || (sch.obs_v1 matches Some(m) && m.max_ent == 17
            && m.ent_feat == 26 && m.q_feat == 64 && m.prev_actions == 5 && (sch.action_count == 92
            || sch.action_count == 104)),
        sch.version == 1 && sch.obs_v1 is None ==> sch.judged() == Err::<(), SchemaError>(
            SchemaError::MissingObsV1,
        ),
        sch.judged() matches Err(SchemaError::ObsV1Mismatch { expected, got }) ==> sch.obs_v1
            == Some(got) && got != expected,
        sch.judged() matches Err(SchemaError::ActionCount { base, air, rows }) ==> rows
            == sch.action_count && base == 92 && air == 104,
{
}

} // verus!
