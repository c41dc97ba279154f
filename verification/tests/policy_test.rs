use construct_engine::engine::weights::{parse_state_dict, StateDictError};
use construct_engine::layout::FaultKind;
use construct_engine::order::order_by_key;
use construct_engine::policy::LayerName;
use construct_engine::policy_v1::{BatchError, BatchLens, EntityError, EntityPolicy};
use construct_engine::rows::{append_range, filled, gather, record_rows, scatter, splice};
use construct_engine::state_dict::{
    collect_numbers, find, is_evenly_numbered, parse_index, parse_name_index, to_decimal,
    NamedArray, RawStateDict,
};

fn array(name: &str, shape: &[usize]) -> NamedArray<f32> {
    NamedArray {
        name: name.to_string(),
        data: vec![0.0; shape.iter().product()],
        shape: shape.to_vec(),
    }
}

fn linear(w: &mut RawStateDict<f32>, name: &str, out_dim: usize, in_dim: usize) {
    w.push(array(&format!("{name}.weight"), &[out_dim, in_dim]));
    w.push(array(&format!("{name}.bias"), &[out_dim]));
}

fn flat_dict() -> RawStateDict<f32> {
    let mut w = Vec::new();
    linear(&mut w, "trunk.0", 5, 94);
    linear(&mut w, "trunk.2", 3, 5);
    linear(&mut w, "policy_head", 90, 3);
    linear(&mut w, "value_head", 1, 3);
    w
}

fn without(name: &str) -> RawStateDict<f32> {
    flat_dict().into_iter().filter(|a| a.name != name).collect()
}

fn with(a: NamedArray<f32>) -> RawStateDict<f32> {
    let mut d: RawStateDict<f32> = flat_dict().into_iter().filter(|b| b.name != a.name).collect();
    d.push(a);
    d
}

fn fault(d: &RawStateDict<f32>) -> StateDictError {
    match parse_state_dict(d) {
        Err(e) => e,
        Ok(_) => panic!("the state dict should be refused"),
    }
}

#[test]
fn a_flat_policy_is_read() {
    let p = match parse_state_dict(&flat_dict()) {
        Ok(p) => p,
        Err(e) => panic!("{e:?}"),
    };
    assert_eq!(p.trunk.len(), 2);
    assert_eq!((p.trunk[1].out_dim, p.trunk[1].in_dim), (3, 5));
    assert_eq!(p.policy.w.len(), 270);
    assert!(p.check().is_ok());
}

#[test]
fn each_fault_of_a_flat_policy_is_told() {
    assert_eq!(fault(&vec![]), StateDictError::NoTrunkLayers);
    let mut d = without("trunk.2.weight");
    linear(&mut d, "trunk.4", 3, 5);
    assert_eq!(fault(&d), StateDictError::TrunkIndices);
    assert_eq!(
        fault(&without("policy_head.weight")),
        StateDictError::MissingWeight(LayerName::PolicyHead)
    );
    assert_eq!(
        fault(&without("trunk.2.bias")),
        StateDictError::MissingBias(LayerName::Trunk(2))
    );
    assert_eq!(
        fault(&with(array("value_head.bias", &[2]))),
        StateDictError::BadShapes(LayerName::ValueHead)
    );
    assert_eq!(fault(&with(array("trunk.2.weight", &[3, 6]))), StateDictError::TrunkChain(1));
    assert_eq!(fault(&with(array("policy_head.weight", &[90, 4]))), StateDictError::HeadShapes);
    assert_eq!(fault(&with(array("trunk.0.weight", &[5, 93]))), StateDictError::InputDim(93));
    let mut d: RawStateDict<f32> =
        flat_dict().into_iter().filter(|a| !a.name.starts_with("policy_head")).collect();
    linear(&mut d, "policy_head", 92, 3);
    assert_eq!(fault(&d), StateDictError::OutputDim(92));
    assert_eq!(fault(&with(array("log_std", &[1]))), StateDictError::UnexpectedKey(8));
}

fn attention(w: &mut RawStateDict<f32>, p: &str) {
    for part in ["q", "k", "v", "o"] {
        linear(w, &format!("{p}.{part}"), 8, 8);
    }
}

fn norm(w: &mut RawStateDict<f32>, p: &str) {
    w.push(array(&format!("{p}.weight"), &[8]));
    w.push(array(&format!("{p}.bias"), &[8]));
}

fn entity_dict() -> RawStateDict<f32> {
    let mut w = Vec::new();
    linear(&mut w, "embed", 8, 26);
    linear(&mut w, "query_embed", 8, 64);
    linear(&mut w, "act_embed.0", 16, 8);
    linear(&mut w, "act_embed.2", 32, 16);
    w.push(array("prev_embed_w", &[5]));
    linear(&mut w, "prev_proj", 8, 32);
    for b in 0..2 {
        norm(&mut w, &format!("blocks.{b}.ln1"));
        attention(&mut w, &format!("blocks.{b}.attn"));
        norm(&mut w, &format!("blocks.{b}.ln2"));
        linear(&mut w, &format!("blocks.{b}.ff1"), 8, 8);
        linear(&mut w, &format!("blocks.{b}.ff2"), 8, 8);
    }
    norm(&mut w, "pool_ln");
    attention(&mut w, "pool");
    linear(&mut w, "policy_dot", 32, 8);
    linear(&mut w, "value_head", 1, 8);
    w.push(array("action_table", &[92, 8]));
    w
}

#[test]
fn an_entity_policy_takes_its_sizes_from_its_arrays() {
    let p = match EntityPolicy::new(&entity_dict(), 4) {
        Ok(p) => p,
        Err(e) => panic!("{e:?}"),
    };
    assert_eq!((p.d_model, p.ent_feat, p.q_feat, p.prev_actions), (8, 26, 64, 5));
    assert_eq!((p.layers, p.heads, p.head_dim), (2, 4, 2));
    assert_eq!(p.table_size(), 92);
}

#[test]
fn each_fault_of_an_entity_policy_is_told() {
    let strip = |f: &dyn Fn(&str) -> bool| -> RawStateDict<f32> {
        entity_dict().into_iter().filter(|a| !f(&a.name)).collect()
    };
    assert!(matches!(
        EntityPolicy::new(&strip(&|n| n.starts_with("blocks.")), 4),
        Err(EntityError::NoBlocks)
    ));
    assert!(matches!(
        EntityPolicy::new(&strip(&|n| n.starts_with("blocks.0.")), 4),
        Err(EntityError::BlockIndices)
    ));
    match EntityPolicy::new(&strip(&|n| n == "blocks.1.attn.k.bias"), 4) {
        Err(EntityError::Array(f)) => {
            assert_eq!((f.kind, f.key.as_str()), (FaultKind::Missing, "blocks.1.attn.k.bias"));
        }
        _ => panic!("a bias is missing"),
    }
    match EntityPolicy::new(&entity_dict(), 3) {
        Err(EntityError::Array(f)) => assert_eq!(f.kind, FaultKind::Heads),
        _ => panic!("8 does not divide into 3 heads"),
    }
}

#[test]
fn an_entity_policy_has_no_arrays_of_other_layers() {
    let with = |name: &str| -> RawStateDict<f32> {
        let mut w = entity_dict();
        w.insert(3, array(name, &[1]));
        w
    };
    for name in ["aux_reward.weight", "aux_recon.bias", "blocks.0.attn", "pool", "log_std"] {
        match EntityPolicy::new(&with(name), 4) {
            Err(EntityError::UnexpectedKey(k)) => assert_eq!(k, name),
            _ => panic!("{name} belongs to no layer"),
        }
    }
    assert!(EntityPolicy::new(&with("dims"), 4).is_ok());
}

#[test]
fn a_batch_must_fill_its_rows() {
    let p = match EntityPolicy::new(&entity_dict(), 4) {
        Ok(p) => p,
        Err(e) => panic!("{e:?}"),
    };
    let lens = BatchLens { ents: 2 * 17 * 26, mask: 2 * 17, query: 2 * 64, prev: 2 * 5 };
    assert_eq!(p.check_batch(lens, 2), Ok(17));
    assert_eq!(p.check_batch(BatchLens { mask: 35, ..lens }, 2), Err(BatchError::Mask));
    assert_eq!(p.check_batch(BatchLens { ents: 26, ..lens }, 2), Err(BatchError::Ents));
    assert_eq!(p.check_batch(BatchLens { query: 64, ..lens }, 2), Err(BatchError::Query));
    assert_eq!(p.check_batch(BatchLens { prev: 0, ..lens }, 2), Err(BatchError::Prev));
}

#[test]
fn names_carry_numbers() {
    assert_eq!(to_decimal(0), "0");
    assert_eq!(to_decimal(1070), "1070");
    assert_eq!(parse_index("0042"), Some(42));
    assert_eq!(parse_index("4x"), None);
    assert_eq!(parse_index(""), None);
    assert_eq!(parse_name_index("trunk.12.weight", "trunk.", ".weight"), Some(12));
    assert_eq!(parse_name_index("trunk.weight", "trunk.", ".weight"), None);
    let d = flat_dict();
    assert_eq!(find(&d, &"trunk.2.bias".to_string()), Some(3));
    assert_eq!(find(&d, &"nothing".to_string()), None);
    let ids = collect_numbers(&d, "trunk.", ".weight");
    assert_eq!(ids, vec![0, 2]);
    assert!(is_evenly_numbered(&ids, 2));
    assert!(!is_evenly_numbered(&ids, 1));
}

#[test]
fn keys_put_things_in_order() {
    let keys = vec![Some(5), None, Some(1), Some(5), Some(0)];
    assert_eq!(order_by_key(&keys), vec![4, 2, 0, 3]);
}

#[test]
fn rows_are_moved_as_blocks() {
    let src = vec![0, 0, 1, 1, 2, 2];
    assert_eq!(gather(&src, &vec![2, 0], 2), vec![2, 2, 0, 0]);
    let mut dst = vec![9; 6];
    scatter(&mut dst, &vec![2, 0], &vec![7, 7, 8, 8], 2);
    assert_eq!(dst, vec![8, 8, 9, 9, 7, 7]);
    splice(&mut dst, 1, &src, 2, 3);
    assert_eq!(dst, vec![8, 1, 1, 2, 7, 7]);
    let mut buf = filled(0, 8);
    record_rows(&mut buf, 1, 2, &vec![0, 2], &src, 2);
    assert_eq!(buf, vec![0, 0, 0, 0, 0, 0, 2, 2]);
    append_range(&mut buf, &src, 3, 2);
    assert_eq!(&buf[8..], &[1, 2]);
}
