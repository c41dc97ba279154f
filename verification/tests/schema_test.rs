use construct_engine::actions::TABLE_SIZE_V1_AIR;
use construct_engine::episode::ActionTableKind;
use construct_engine::schema::{
    validate_schema, Normalization, ObsV1Meta, Schema, SchemaError, SchemaMismatch,
};

fn meta() -> ObsV1Meta {
    ObsV1Meta { max_ent: 17, ent_feat: 26, q_feat: 64, prev_actions: 5 }
}

fn schema(version: u32, obs_size: usize, actions: usize, obs_v1: Option<ObsV1Meta>) -> Schema<f64> {
    let table = match (version, actions) {
        (1, 92) => "construct_92_v1",
        (1, 104) => "construct_104_v1air",
        (0, 90) => "rlgym_lookup_90",
        _ => "nope",
    };
    Schema {
        version,
        obs_size,
        action_table: table.to_string(),
        action_count: actions,
        tick_skip: 8,
        normalization: Normalization { pos_norm: 1.0, vel_norm: 1.0, ang_vel_norm: 1.0 },
        obs_v1,
    }
}

#[test]
fn rejects_v1_with_an_unknown_action_count() {
    let err = schema(1, 0, 100, Some(meta())).validate().unwrap_err();
    assert_eq!(err, SchemaError::ActionCount { base: 92, air: 104, rows: 100 });
}

#[test]
fn a_flat_schema_needs_nothing_more() {
    let s = schema(0, 94, 90, None);
    assert_eq!(s.validate(), Ok(()));
    assert_eq!(validate_schema(&s), Ok(()));
    assert_eq!(
        validate_schema(&schema(0, 95, 90, None)),
        Err(SchemaMismatch::Flat { obs_size: 95, action_count: 90 })
    );
}

#[test]
fn an_entity_schema_names_its_shape() {
    assert_eq!(schema(1, 0, 92, None).validate(), Err(SchemaError::MissingObsV1));
    let other = ObsV1Meta { q_feat: 63, ..meta() };
    assert_eq!(
        schema(1, 0, 92, Some(other)).validate(),
        Err(SchemaError::ObsV1Mismatch { expected: meta(), got: other })
    );
    let v1 = schema(1, 0, 92, Some(meta()));
    assert_eq!(v1.validate(), Ok(()));
    assert_eq!(v1.action_table_kind(), ActionTableKind::V1);
    assert_eq!(validate_schema(&v1), Ok(()));
}

#[test]
fn a_schema_must_name_its_table() {
    let mut s = schema(1, 0, 92, Some(meta()));
    s.action_table = "rlgym_lookup_90".to_string();
    assert_eq!(validate_schema(&s), Err(SchemaMismatch::EntityTable { action_count: 92 }));
}

#[test]
fn the_air_table_is_told_by_its_width() {
    let air = schema(1, 0, TABLE_SIZE_V1_AIR, Some(meta()));
    assert_eq!(air.validate(), Ok(()));
    assert_eq!(air.action_table_kind(), ActionTableKind::V1Air);
    assert_eq!(validate_schema(&air), Ok(()));
    let misnamed = Schema { action_table: "construct_92_v1".to_string(), ..air };
    assert_eq!(
        validate_schema(&misnamed),
        Err(SchemaMismatch::EntityTable { action_count: 104 })
    );
    assert_eq!(
        validate_schema(&schema(1, 0, 93, Some(meta()))),
        Err(SchemaMismatch::EntityTable { action_count: 93 })
    );
}
