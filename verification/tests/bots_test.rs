use construct_engine::actions::{make_immortal_table, make_lookup_table, TABLE_SIZE_IMMORTAL};
use construct_engine::argmax::argmax;
use construct_engine::element::{ElementNet, HeadLogits};
use construct_engine::foreign::{
    ForeignError, ForeignKind, ForeignMlp, ForeignPolicy, NetInput, NetOutput, Turn,
};
use construct_engine::layout::FaultKind;
use construct_engine::nexto::{NextoError, NextoNet};
use construct_engine::obs_advanced::{
    boost_location, build_advanced_obs, build_advanced_obs_one_other, nearest_opponent_to_ball,
    rlgym_to_canon, ADV_OBS_SIZE,
};
use construct_engine::obs_necto::{
    build_necto_obs, n_entities, NectoTimers, NECTO_KV, NECTO_PADS, NECTO_Q,
};
use construct_engine::sim::{BoostPad, CarInfo, GameState, Team, Vec3};
use construct_engine::sim::{BallHitInfo, BallState, CarState, RotMat};
use construct_engine::state_dict::{NamedArray, RawStateDict};
use construct_engine::test_support::{build_state, FixtureCar};
use std::cell::Cell;

const PI: f32 = std::f32::consts::PI;

fn v(x: f32, y: f32, z: f32) -> Vec3<f32> {
    Vec3 { x, y, z }
}

fn array(name: &str, shape: &[usize]) -> NamedArray<f32> {
    NamedArray {
        name: name.to_string(),
        data: vec![0.0; shape.iter().product()],
        shape: shape.to_vec(),
    }
}

/// The zero weights of the six-layer bot.
fn zero_weights() -> RawStateDict<f32> {
    let mut w = Vec::new();
    for li in 0..7usize {
        let in_dim = if li == 0 { 107 } else { 512 };
        let out_dim = if li == 6 { TABLE_SIZE_IMMORTAL } else { 512 };
        w.push(array(&format!("net.{}.weight", 2 * li), &[out_dim, in_dim]));
        w.push(array(&format!("net.{}.bias", 2 * li), &[out_dim]));
    }
    w
}

fn attention_weights(blocks: usize) -> RawStateDict<f32> {
    let mut w = Vec::new();
    let mut pair = |name: &str| {
        let inputs = if name == "net.output.net.0" { 8 } else { 2 };
        w.push(array(&format!("{name}.weight"), &[2, inputs]));
        w.push(array(&format!("{name}.bias"), &[2]));
    };
    for b in 0..blocks {
        let p = format!("net.earl.blocks.{b}");
        for part in ["attention.out_proj", "norm1", "norm2", "norm3", "linear1", "linear2"] {
            pair(&format!("{p}.{part}"));
        }
    }
    for name in [
        "net.output.net.0",
        "net.output.net.2",
        "net.output.net.4",
        "net.earl.query_preprocess.0",
        "net.earl.query_preprocess.2",
        "net.earl.key_value_preprocess.0",
        "net.earl.key_value_preprocess.2",
        "net.output.emb_convertor",
    ] {
        pair(name);
    }
    for b in 0..blocks {
        let p = format!("net.earl.blocks.{b}.attention");
        w.push(array(&format!("{p}.in_proj_weight"), &[384, 128]));
        w.push(array(&format!("{p}.in_proj_bias"), &[384]));
    }
    w
}

fn element_weights() -> RawStateDict<f32> {
    let mut w = Vec::new();
    for i in 1..=5usize {
        let in_dim = if i == 1 { ADV_OBS_SIZE } else { 3 };
        w.push(array(&format!("fc{i}.weight"), &[3, in_dim]));
        w.push(array(&format!("fc{i}.bias"), &[3]));
    }
    w.push(array("cat_heads.weight", &[15, 3]));
    w.push(array("cat_heads.bias", &[15]));
    w.push(array("ber_heads.weight", &[6, 3]));
    w.push(array("ber_heads.bias", &[6]));
    w
}

fn car(id: u32, team: Team, pos: Vec3<f32>) -> CarInfo<f32> {
    CarInfo {
        id,
        team,
        state: CarState {
            pos,
            rot_mat: RotMat {
                forward: v(1.0, 0.0, 0.0),
                right: v(0.0, 1.0, 0.0),
                up: v(0.0, 0.0, 1.0),
            },
            vel: v(0.0, 0.0, 0.0),
            ang_vel: v(0.0, 0.0, 0.0),
            boost: 50.0,
            is_on_ground: true,
            is_demoed: false,
            has_flipped: false,
            has_flip_or_jump: true,
            air_time_since_jump: 0.0,
            ball_hit_info: BallHitInfo { is_valid: false, tick_count_when_hit: u64::MAX },
        },
    }
}

/// Pads at the known places, in reverse order.
fn pads() -> Vec<BoostPad<f32>> {
    (0..34)
        .rev()
        .map(|j| {
            let l = boost_location(j);
            BoostPad {
                position: v(l[0] as f32, l[1] as f32, l[2] as f32),
                is_big: l[2] == 73,
                is_active: true,
                cooldown: 0.0,
            }
        })
        .collect()
}

fn duel() -> GameState<f32> {
    GameState {
        tick_count: 100,
        ball: BallState {
            pos: v(10.0, 20.0, 93.0),
            vel: v(0.0, 0.0, 0.0),
            ang_vel: v(0.0, 0.0, 0.0),
        },
        cars: vec![
            car(2, Team::Orange, v(500.0, 2000.0, 17.0)),
            car(1, Team::Blue, v(-500.0, -2000.0, 17.0)),
        ],
        pads: pads(),
    }
}

fn key(arena: u64, car: u64) -> u64 {
    (arena << 32) | car
}

fn entities(t: Turn<f32>) -> Vec<f32> {
    match t {
        Turn::Think(NetInput::Entities(o)) => o.kv,
        _ => panic!("the network has to be asked"),
    }
}

#[test]
fn reset_car_clears_that_arenas_necto_timers_and_only_that_arenas() {
    let mut p = ForeignPolicy::new(&attention_weights(1), ForeignKind::Necto).unwrap();
    let mut gs = duel();
    let canon = rlgym_to_canon(&gs.pads);
    gs.pads[0].is_active = false;
    gs.pads[7].is_active = false;
    // both arenas see the pads go, then time passes
    for tick in [100, 460] {
        gs.tick_count = tick;
        p.begin(&gs, 0, key(0, 1), &canon, PI);
        p.begin(&gs, 0, key(7, 1), &canon, PI);
    }
    p.reset_car(key(0, 1));
    // the collect loop does this once per car of the arena
    p.reset_car(key(0, 2));
    gs.tick_count = 520;
    let cleared = entities(p.begin(&gs, 0, key(0, 1), &canon, PI));
    let kept = entities(p.begin(&gs, 0, key(7, 1), &canon, PI));
    let mut fresh = ForeignPolicy::new(&attention_weights(1), ForeignKind::Necto).unwrap();
    let first = entities(fresh.begin(&gs, 0, key(0, 1), &canon, PI));
    assert_eq!(cleared, first, "the reset arena's clocks must be cleared");
    assert_ne!(kept, first, "another arena's clocks must survive");
}

#[test]
fn bots_are_known_by_name() {
    assert_eq!(ForeignKind::parse("immortal"), Some(ForeignKind::Immortal));
    assert_eq!(ForeignKind::parse("nexto"), Some(ForeignKind::Nexto));
    assert_eq!(ForeignKind::parse("necto"), Some(ForeignKind::Necto));
    assert_eq!(ForeignKind::parse("element"), Some(ForeignKind::Element));
    assert_eq!(ForeignKind::parse("Nexto"), None);
    assert!(ForeignKind::Immortal.zero_yaw_on_jump() && ForeignKind::Element.truncates_obs());
    assert!(!ForeignKind::Nexto.zero_yaw_on_jump() && !ForeignKind::Necto.truncates_obs());
}

#[test]
fn a_bot_needs_its_arrays() {
    let mut w = zero_weights();
    assert!(ForeignPolicy::new(&w, ForeignKind::Immortal).is_ok());
    w.pop();
    match ForeignPolicy::new(&w, ForeignKind::Immortal) {
        Err(ForeignError::Array(f)) => {
            assert_eq!((f.kind, f.key.as_str()), (FaultKind::Missing, "net.12.bias"));
        }
        _ => panic!("the last bias is missing"),
    }
    let mut w = zero_weights();
    w[0].shape = vec![512, 106];
    w[0].data = vec![0.0; 512 * 106];
    assert!(ForeignMlp::from_named(&w, 107, 512, 126, 6).is_err());
    assert!(matches!(
        ForeignPolicy::new(&zero_weights(), ForeignKind::Nexto),
        Err(ForeignError::NoBlocks)
    ));
}

#[test]
fn attention_blocks_are_counted_from_zero() {
    assert_eq!(NextoNet::new(&attention_weights(3)).unwrap().blocks, 3);
    assert!(matches!(NextoNet::new(&attention_weights(0)), Err(NextoError::NoBlocks)));
    let mut w = attention_weights(2);
    let at = w.iter().position(|a| a.name.ends_with("1.attention.in_proj_bias")).unwrap();
    w[at] = array("net.earl.blocks.1.attention.in_proj_bias", &[300]);
    match NextoNet::new(&w) {
        Err(NextoError::Array(f)) => {
            assert_eq!(f.kind, FaultKind::Shape);
            assert_eq!(f.key, "net.earl.blocks.1.attention.in_proj_bias");
        }
        _ => panic!("three projections need 384 rows"),
    }
}

#[test]
fn the_layers_that_embed_actions_chain_up() {
    let with = |shapes: &[(&str, &[usize])]| {
        let mut w = attention_weights(1);
        for (name, shape) in shapes {
            let name = format!("net.output.net.{name}");
            let at = w.iter().position(|a| a.name == name).unwrap();
            w[at] = array(&name, shape);
        }
        match NextoNet::new(&w) {
            Ok(_) => None,
            Err(NextoError::Array(f)) => Some((f.kind, f.key)),
            Err(NextoError::NoBlocks) => panic!("one block is there"),
        }
    };
    let fault = |kind, name: &str| Some((kind, format!("net.output.net.{name}")));
    assert_eq!(with(&[]), None);
    assert_eq!(with(&[("0.weight", &[2, 9])]), fault(FaultKind::Shape, "0.weight"));
    assert_eq!(with(&[("0.weight", &[2])]), fault(FaultKind::Rank, "0.weight"));
    assert_eq!(with(&[("2.weight", &[2, 3])]), fault(FaultKind::Shape, "2.weight"));
    assert_eq!(with(&[("2.weight", &[3, 2])]), fault(FaultKind::Shape, "2.bias"));
    assert_eq!(
        with(&[("2.weight", &[3, 2]), ("2.bias", &[3])]),
        fault(FaultKind::Shape, "4.weight")
    );
    assert_eq!(with(&[("4.bias", &[2, 2, 2])]), fault(FaultKind::Rank, "4.bias"));
    assert_eq!(with(&[("4.bias", &[2, 2])]), fault(FaultKind::Shape, "4.bias"));
    // one number for all columns, one row for all rows, one column widened
    assert_eq!(with(&[("0.bias", &[1]), ("2.bias", &[1, 2]), ("4.bias", &[90, 1])]), None);
    assert_eq!(with(&[("0.weight", &[1, 8])]), None);
    assert_eq!(with(&[("4.bias", &[])]), None);
}

#[test]
fn the_largest_logit_wins_and_the_first_of_equals() {
    assert_eq!(argmax(&vec![0.5f32, 2.0, 2.0, -1.0]), 1);
    assert_eq!(argmax(&vec![f32::NAN, 1.0]), 1);
    assert_eq!(argmax::<f32>(&vec![]), 0);
}

#[test]
fn heads_are_decoded_to_controls() {
    let net = ElementNet::new(&element_weights(), ADV_OBS_SIZE).unwrap();
    let h = HeadLogits {
        cat: vec![
            1.0, 0.0, 0.0, // -1
            0.0, 1.0, 0.0, // 0
            0.0, 0.0, 1.0, // 1
            0.0, 0.0, 0.0, // the first of equals: -1
            0.0, 5.0, 9.0, // 1
        ],
        ber: vec![1.0, 0.0, 0.0, 1.0, 0.0, 0.0],
    };
    assert_eq!(net.decide(&h), [-1.0f32, 0.0, 1.0, -1.0, 1.0, 0.0, 1.0, 0.0]);
    let mut w = element_weights();
    w[0] = array("fc1.weight", &[3, 90]);
    let f = ElementNet::new(&w, ADV_OBS_SIZE).unwrap_err();
    assert_eq!((f.kind, f.key.as_str()), (FaultKind::Shape, "fc1.weight"));
}

#[test]
fn a_bot_drives_what_the_network_picks() {
    let gs = duel();
    let canon = rlgym_to_canon(&gs.pads);
    let mut p = ForeignPolicy::new(&zero_weights(), ForeignKind::Immortal).unwrap();
    assert_eq!(p.kind(), ForeignKind::Immortal);
    let table: Vec<[f32; 8]> = make_immortal_table();
    let jump_row = table.iter().position(|r| r[5] == 1.0 && r[3] != 0.0).unwrap();
    let asked = Cell::new(0);
    let net = |i: NetInput<f32>| {
        asked.set(asked.get() + 1);
        match i {
            NetInput::Advanced(row) => assert_eq!(row.len(), ADV_OBS_SIZE),
            _ => panic!("an advanced row is due"),
        }
        let mut l = vec![0.0; TABLE_SIZE_IMMORTAL];
        l[jump_row] = 1.0;
        Some(NetOutput::Logits(l))
    };
    let c = p.decide(&gs, 0, key(0, 2), &canon, PI, &net);
    let mut want = table[jump_row];
    want[3] = 0.0;
    assert_eq!(c, want, "no steering while jumping");
    assert_eq!(p.prev_of(key(0, 2)), table[jump_row], "the choice itself is remembered");
    assert_eq!(asked.get(), 1);

    // with a period of three it thinks once and holds twice
    p.set_decision_period(3);
    assert_eq!(p.decision_period(), 3);
    for _ in 0..6 {
        assert_eq!(p.decide(&gs, 0, key(0, 2), &canon, PI, &net), want);
    }
    assert_eq!(asked.get(), 3);
    p.reset();
    assert_eq!(p.prev_of(key(0, 2)), [0.0; 8]);
}

#[test]
fn a_failed_network_leaves_the_car_at_rest() {
    let gs = duel();
    let canon = rlgym_to_canon(&gs.pads);
    let mut p = ForeignPolicy::new(&attention_weights(1), ForeignKind::Nexto).unwrap();
    p.set_prev(key(0, 2), [0.5; 8]);
    let c = p.decide(&gs, 0, key(0, 2), &canon, PI, &|_| None);
    assert_eq!(c, [0.0; 8]);
    assert_eq!(p.prev_of(key(0, 2)), [0.5; 8]);
    let row = p.decide(&gs, 0, key(0, 2), &canon, PI, &|i| {
        assert!(matches!(i, NetInput::Bare([x, ..]) if x == 0.5));
        let mut l = vec![0.0; 90];
        l[17] = 3.0;
        Some(NetOutput::Logits(l))
    });
    assert_eq!(row, make_lookup_table::<f32>()[17]);
}

#[test]
fn a_bot_without_an_opponent_rests() {
    let mut gs = duel();
    gs.cars[1].team = Team::Orange;
    let canon = rlgym_to_canon(&gs.pads);
    let mut p = ForeignPolicy::new(&element_weights(), ForeignKind::Element).unwrap();
    assert!(matches!(p.begin(&gs, 0, key(0, 2), &canon, PI), Turn::Rest));
    assert_eq!(nearest_opponent_to_ball(&gs, 0), None);
}

#[test]
fn a_bot_drives_part_of_a_team() {
    let mut p = ForeignPolicy::new(&zero_weights(), ForeignKind::Immortal).unwrap();
    assert_eq!(p.cars_in_arena(3), 3);
    p.set_foreign_cars(1);
    assert_eq!(p.cars_in_arena(3), 1);
    assert_eq!(p.cars_in_arena(0), 0);
}

#[test]
fn resetting_cars_forgets_their_choices_only() {
    let mut p = ForeignPolicy::new(&zero_weights(), ForeignKind::Immortal).unwrap();
    for k in [key(0, 1), key(0, 2), key(1, 1)] {
        p.set_prev(k, [1.0; 8]);
    }
    p.reset_cars(&vec![key(0, 1), key(0, 2)]);
    assert_eq!(p.prev_of(key(0, 1)), [0.0; 8]);
    assert_eq!(p.prev_of(key(1, 1)), [1.0; 8]);
}

#[test]
fn pads_are_found_by_place() {
    let gs = duel();
    let canon = rlgym_to_canon(&gs.pads);
    assert_eq!(canon, (0..34).rev().collect::<Vec<usize>>());
    assert_eq!(boost_location(0), [0, -4240, 70]);
}

#[test]
fn the_nearest_opponent_to_the_ball_is_shown() {
    let mut gs = duel();
    gs.cars.push(car(3, Team::Blue, v(20.0, 30.0, 17.0)));
    assert_eq!(nearest_opponent_to_ball(&gs, 0), Some(2));
    assert_eq!(nearest_opponent_to_ball(&gs, 1), Some(0));
    let canon = rlgym_to_canon(&gs.pads);
    let prev = [0.0f32, 0.1, 0.2, 0.3, 0.4, 0.5, 0.6, 0.7];
    let row = build_advanced_obs_one_other(&gs, 1, 0, &prev, &canon, PI);
    assert_eq!(row.len(), ADV_OBS_SIZE);
    let k = 1.0 / 2300.0;
    assert_eq!(&row[0..3], &[10.0 * k, 20.0 * k, 93.0 * k]);
    gs.cars.pop();
    assert_eq!(build_advanced_obs(&gs, 1, &prev, &canon, PI), {
        build_advanced_obs_one_other(&gs, 1, 0, &prev, &canon, PI)
    });
}

#[test]
fn entity_rows_hold_ball_cars_and_pads() {
    let gs = duel();
    let canon = rlgym_to_canon(&gs.pads);
    let mut t = NectoTimers::new(2);
    let o = build_necto_obs(&gs, 0, &[0.25; 8], &mut t, &canon);
    assert_eq!(n_entities(2), 1 + 2 + NECTO_PADS);
    assert_eq!(o.q.len(), NECTO_Q);
    assert_eq!(&o.q[NECTO_KV..], &[0.25; 8]);
    assert_eq!(o.kv.len(), n_entities(2) * NECTO_KV);
    assert_eq!(o.mask, vec![false; n_entities(2)]);
}

#[test]
fn the_observer_is_the_origin_of_its_rows() {
    let mut gs = duel();
    gs.cars[0].state.vel = v(300.0, -40.0, 7.0);
    gs.cars[1].state.vel = v(-120.0, 11.0, 0.0);
    let canon = rlgym_to_canon(&gs.pads);
    for car_idx in 0..2 {
        let o = build_necto_obs(&gs, car_idx, &[0.0; 8], &mut NectoTimers::new(2), &canon);
        let own: Vec<&[f32]> = o.kv.chunks(NECTO_KV).filter(|r| r[0] == 1.0).collect();
        assert_eq!(own.len(), 1);
        assert_eq!(&own[0][5..11], &[0.0; 6]);
    }
}

#[test]
fn timers_run_once_per_frame() {
    let mut gs = duel();
    let canon = rlgym_to_canon(&gs.pads);
    gs.pads[3].is_active = false;
    let mut t = NectoTimers::new(2);
    build_necto_obs(&gs, 0, &[0.0; 8], &mut t, &canon);
    gs.tick_count += 120;
    let a = build_necto_obs(&gs, 0, &[0.0; 8], &mut t, &canon);
    let b = build_necto_obs(&gs, 0, &[0.0; 8], &mut t, &canon);
    assert_eq!(a.kv, b.kv, "a second look at the same frame does not run the clocks");
}

#[test]
fn fixtures_are_laid_out_by_team() {
    let mut base = duel();
    base.pads[0].is_active = true;
    let fixture = |orange: bool, x: f32| FixtureCar {
        pos: v(x, 0.0, 17.0),
        vel: v(0.0, 0.0, 0.0),
        ang_vel: v(0.0, 0.0, 0.0),
        forward: v(1.0, 0.0, 0.0),
        up: v(0.0, 0.0, 1.0),
        boost: 0.5,
        on_ground: false,
        has_flip: false,
        is_demoed: false,
        team_orange: orange,
    };
    let ball =
        BallState { pos: v(1.0, 2.0, 3.0), vel: v(0.0, 0.0, 0.0), ang_vel: v(0.0, 0.0, 0.0) };
    let at = base.pads[5].position;
    let gs = build_state(
        base,
        &vec![fixture(false, 7.0), fixture(true, 9.0)],
        ball,
        &vec![v(at.x + 1.0, at.y, 0.0)],
        &vec![false],
    );
    assert_eq!(gs.cars[0].team, Team::Blue);
    assert_eq!((gs.cars[0].state.pos.x, gs.cars[1].state.pos.x), (7.0, 9.0));
    assert_eq!(gs.cars[0].state.boost, 50.0);
    assert!(gs.cars[0].state.has_flipped && !gs.cars[0].state.has_flip_or_jump);
    let r = gs.cars[0].state.rot_mat.right;
    assert_eq!((r.x, r.y, r.z), (0.0, 1.0, 0.0));
    assert_eq!(gs.ball.pos.y, 2.0);
    assert!(!gs.pads[5].is_active && gs.pads[4].is_active);
}
