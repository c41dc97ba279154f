use construct_engine::ballpred::BallSnap;
use construct_engine::obs::{build_obs, MAX_OTHERS, OBS_SIZE};
use construct_engine::obs_v1::{
    build, BALL_IDX, ENT_FEAT, MATES_START, MAX_ENT, OPPS_START, PADS_START, PRED_START, Q_FEAT,
    SELF_IDX,
};
use construct_engine::pads::{mirror_pad_perm, nearest_pad, PAD_COUNT};
use construct_engine::schema::Normalization;
use construct_engine::sim::{
    mir, BallHitInfo, BallState, BoostPad, CarInfo, CarState, GameState, RotMat, Team, Vec3,
};

fn v(x: f32, y: f32, z: f32) -> Vec3<f32> {
    Vec3 { x, y, z }
}

fn norm() -> Normalization<f32> {
    Normalization { pos_norm: 1.0 / 2300.0, vel_norm: 1.0 / 2300.0, ang_vel_norm: 1.0 / 5.5 }
}

fn car(id: u32, team: Team, pos: Vec3<f32>, forward: Vec3<f32>) -> CarInfo<f32> {
    CarInfo {
        id,
        team,
        state: CarState {
            pos,
            rot_mat: RotMat {
                forward,
                right: v(-forward.y, forward.x, 0.0),
                up: v(0.0, 0.0, 1.0),
            },
            vel: v(0.0, 0.0, 0.0),
            ang_vel: v(0.0, 0.0, 0.0),
            boost: 100.0 / 3.0,
            is_on_ground: true,
            is_demoed: false,
            has_flipped: false,
            has_flip_or_jump: true,
            air_time_since_jump: 0.0,
            ball_hit_info: BallHitInfo { is_valid: false, tick_count_when_hit: u64::MAX },
        },
    }
}

/// The pads of a standard arena: 28 small ones, 6 big ones, each with a
/// counterpart across the center.
fn pads() -> Vec<BoostPad<f32>> {
    let half: [(f32, f32, bool); 17] = [
        (0.0, -4240.0, false),
        (-1792.0, -4184.0, false),
        (1792.0, -4184.0, false),
        (-940.0, -3308.0, false),
        (940.0, -3308.0, false),
        (0.0, -2816.0, false),
        (-3584.0, -2484.0, false),
        (3584.0, -2484.0, false),
        (-1788.0, -2300.0, false),
        (1788.0, -2300.0, false),
        (-2048.0, -1036.0, false),
        (0.0, -1024.0, false),
        (2048.0, -1036.0, false),
        (-1024.0, 0.0, false),
        (-3072.0, -4096.0, true),
        (3072.0, -4096.0, true),
        (-3584.0, 0.0, true),
    ];
    let mut out = Vec::new();
    for (x, y, big) in half {
        for s in [1.0, -1.0] {
            out.push(BoostPad {
                position: v(s * x, s * y, if big { 73.0 } else { 70.0 }),
                is_big: big,
                is_active: true,
                cooldown: 0.0,
            });
        }
    }
    out
}

fn kickoff_1v1() -> GameState<f32> {
    GameState {
        tick_count: 0,
        ball: BallState {
            pos: v(0.0, 0.0, 93.15),
            vel: v(0.0, 0.0, 0.0),
            ang_vel: v(0.0, 0.0, 0.0),
        },
        cars: vec![
            car(2, Team::Orange, v(2048.0, 2560.0, 17.0), v(-0.6, -0.8, 0.0)),
            car(1, Team::Blue, v(-2048.0, -2560.0, 17.0), v(0.6, 0.8, 0.0)),
        ],
        pads: pads(),
    }
}

fn zero_pred() -> [BallSnap<f32>; 4] {
    [BallSnap { pos: v(0.0, 0.0, 0.0), vel: v(0.0, 0.0, 0.0) }; 4]
}

#[test]
fn layout_golden_1v1_kickoff() {
    let gs = kickoff_1v1();
    let nrm = norm();
    let perm = mirror_pad_perm(&gs.pads);
    let o = build(&gs, 0, &zero_pred(), &perm, &nrm);
    assert_eq!(o.ents.len(), MAX_ENT * ENT_FEAT);
    assert_eq!(o.mask.len(), MAX_ENT);
    assert_eq!(o.query.len(), Q_FEAT);

    assert_eq!(&o.ents[0..5], &[1.0, 0.0, 0.0, 0.0, 0.0]);
    assert!(!o.mask[SELF_IDX]);

    assert!(o.mask[MATES_START]);
    assert!(o.mask[MATES_START + 1]);
    assert!(!o.mask[OPPS_START], "the single opponent must be present");
    let opp_row = &o.ents[OPPS_START * ENT_FEAT..(OPPS_START + 1) * ENT_FEAT];
    assert_eq!(&opp_row[0..5], &[0.0, 0.0, 1.0, 0.0, 0.0]);
    assert!(o.mask[OPPS_START + 1]);
    assert!(o.mask[OPPS_START + 2]);

    assert!(!o.mask[BALL_IDX]);
    let ball_row = &o.ents[BALL_IDX * ENT_FEAT..(BALL_IDX + 1) * ENT_FEAT];
    assert_eq!(&ball_row[0..5], &[0.0, 0.0, 0.0, 1.0, 0.0]);
    let pk = nrm.pos_norm;
    assert!((ball_row[5] - gs.ball.pos.x * pk).abs() < 1e-5);
    assert!((ball_row[6] - gs.ball.pos.y * pk).abs() < 1e-5);
    assert!((ball_row[7] - gs.ball.pos.z * pk).abs() < 1e-5);

    for slot in 0..6 {
        let idx = PADS_START + slot;
        assert!(!o.mask[idx], "pad slot {slot} must be present");
        let row = &o.ents[idx * ENT_FEAT..(idx + 1) * ENT_FEAT];
        assert_eq!(&row[0..5], &[0.0, 0.0, 0.0, 0.0, 1.0], "pad slot {slot} one-hot");
    }

    let expected_horizons = [0.25f32, 0.5, 0.75, 1.0];
    for slot in 0..4 {
        let idx = PRED_START + slot;
        assert!(!o.mask[idx], "pred slot {slot} must be present");
        let row = &o.ents[idx * ENT_FEAT..(idx + 1) * ENT_FEAT];
        assert_eq!(&row[0..5], &[0.0, 0.0, 0.0, 0.0, 0.0], "pred slot {slot} type one-hot");
        assert!((row[24] - expected_horizons[slot]).abs() < 1e-6, "pred slot {slot} horizon");
    }

    assert!(o.ents.iter().all(|x| x.is_finite()));
    assert!(o.query.iter().all(|x| x.is_finite()));
}

#[test]
fn orange_obs_mirrors_blue_at_kickoff() {
    let gs = kickoff_1v1();
    let perm = mirror_pad_perm(&gs.pads);
    let b = build(&gs, 0, &zero_pred(), &perm, &norm());
    let o = build(&gs, 1, &zero_pred(), &perm, &norm());
    for i in 0..b.ents.len() {
        assert!((b.ents[i] - o.ents[i]).abs() < 1e-4, "{i}: {} vs {}", b.ents[i], o.ents[i]);
    }
    assert_eq!(b.mask, o.mask);
    for i in 0..b.query.len() {
        assert!((b.query[i] - o.query[i]).abs() < 1e-4, "{i}: {} vs {}", b.query[i], o.query[i]);
    }
}

#[test]
fn nonexistent_mate_and_opp_slots_are_zero_and_masked() {
    let gs = kickoff_1v1();
    let perm = mirror_pad_perm(&gs.pads);
    let o = build(&gs, 0, &zero_pred(), &perm, &norm());
    for idx in [MATES_START, MATES_START + 1, OPPS_START + 1, OPPS_START + 2] {
        assert!(o.mask[idx], "slot {idx} must be masked");
        let row = &o.ents[idx * ENT_FEAT..(idx + 1) * ENT_FEAT];
        assert!(row.iter().all(|&x| x == 0.0), "slot {idx} must be zero row");
    }
}

#[test]
fn pads_are_paired_across_the_center() {
    let p = pads();
    let perm = mirror_pad_perm(&p);
    assert_eq!(perm.len(), PAD_COUNT);
    for i in 0..PAD_COUNT {
        assert_eq!(perm[perm[i]], i);
        assert_eq!(p[perm[i]].position.x, -p[i].position.x);
        assert_eq!(p[perm[i]].position.y, -p[i].position.y);
    }
    assert_eq!(nearest_pad(&p, -3000.0, -4000.0, PAD_COUNT, 0), 28);
    assert_eq!(nearest_pad(&p, f32::NAN, 0.0, PAD_COUNT, 7), 7);
}

#[test]
fn pad_timers_are_seen_from_the_own_side() {
    let mut gs = kickoff_1v1();
    gs.pads[28].is_active = false;
    gs.pads[28].cooldown = 5.0;
    let perm = mirror_pad_perm(&gs.pads);
    let blue = build(&gs, 1, &zero_pred(), &perm, &norm());
    let orange = build(&gs, 0, &zero_pred(), &perm, &norm());
    assert_eq!(blue.query[ENT_FEAT + 28], 0.5);
    assert_eq!(orange.query[ENT_FEAT + 29], 0.5);
    assert_eq!(orange.query[ENT_FEAT + 28], 0.0);
}

#[test]
fn mirroring_turns_the_field() {
    let t = mir(v(1.0, -2.0, 3.0), true);
    assert_eq!((t.x, t.y, t.z), (-1.0, 2.0, 3.0));
    let s = mir(v(1.0, -2.0, 3.0), false);
    assert_eq!((s.x, s.y, s.z), (1.0, -2.0, 3.0));
}

/// The field turned by half a turn, with the teams swapped.
fn turned(gs: &GameState<f32>) -> GameState<f32> {
    let mut t = gs.clone();
    t.ball.pos = mir(gs.ball.pos, true);
    t.ball.vel = mir(gs.ball.vel, true);
    t.ball.ang_vel = mir(gs.ball.ang_vel, true);
    for c in t.cars.iter_mut() {
        c.team = if c.team == Team::Blue { Team::Orange } else { Team::Blue };
        let s = &mut c.state;
        for x in [
            &mut s.pos,
            &mut s.vel,
            &mut s.ang_vel,
            &mut s.rot_mat.forward,
            &mut s.rot_mat.right,
            &mut s.rot_mat.up,
        ] {
            *x = mir(*x, true);
        }
    }
    let perm = mirror_pad_perm(&gs.pads);
    for k in 0..gs.pads.len() {
        t.pads[perm[k]].is_active = gs.pads[k].is_active;
        t.pads[perm[k]].cooldown = gs.pads[k].cooldown;
    }
    t
}

fn busy() -> GameState<f32> {
    let mut gs = kickoff_1v1();
    gs.cars.push(car(3, Team::Blue, v(100.0, -3000.0, 200.0), v(1.0, 0.0, 0.0)));
    gs.cars.push(car(4, Team::Orange, v(-700.0, 1500.0, 17.0), v(0.0, -1.0, 0.0)));
    gs.ball.pos = v(120.0, -450.0, 333.0);
    gs.ball.vel = v(-50.0, 900.0, 10.0);
    gs.cars[1].state.vel = v(300.0, 200.0, 5.0);
    gs.pads[4].is_active = false;
    gs.pads[4].cooldown = 3.0;
    gs.pads[30].is_active = false;
    gs.pads[30].cooldown = 8.0;
    gs
}

#[test]
fn both_teams_see_the_same_game() {
    let gs = busy();
    let t = turned(&gs);
    let perm = mirror_pad_perm(&gs.pads);
    let pred = [BallSnap { pos: gs.ball.pos, vel: gs.ball.vel }; 4];
    let pred_t = [BallSnap { pos: t.ball.pos, vel: t.ball.vel }; 4];
    for i in 0..gs.cars.len() {
        let a = build(&gs, i, &pred, &perm, &norm());
        let b = build(&t, i, &pred_t, &perm, &norm());
        assert_eq!(a.ents, b.ents);
        assert_eq!(a.mask, b.mask);
        assert_eq!(a.query, b.query);
        assert_eq!(build_obs(&gs, i, &norm()), build_obs(&t, i, &norm()));
    }
}

#[test]
fn flat_rows_list_mates_then_opponents() {
    let gs = busy();
    let row = build_obs(&gs, 1, &norm());
    assert_eq!(row.len(), OBS_SIZE);
    let pk = norm().pos_norm;
    // self, then the ball and the way to it
    assert_eq!(&row[0..3], &[-2048.0 * pk, -2560.0 * pk, 17.0 * pk]);
    assert_eq!(row[15], (100.0 / 3.0) / 100.0);
    assert_eq!(&row[16..19], &[1.0, 1.0, 0.0]);
    assert_eq!(row[19], 120.0 * pk);
    assert_eq!(row[28], (120.0 + 2048.0) * pk);
    // car 3 is the mate, cars 2 and 4 the opponents
    assert_eq!(row[34], 100.0 * pk);
    assert_eq!(row[34 + 10], 1.0);
    assert_eq!(row[46], 2048.0 * pk);
    assert_eq!(row[46 + 10], 0.0);
    assert_eq!(row[58], -700.0 * pk);
    assert!(row[34 + 12 * 3..].iter().all(|x| *x == 0.0));
}

#[test]
fn flat_rows_show_five_others_at_most() {
    let mut gs = kickoff_1v1();
    for id in 3..9 {
        gs.cars.push(car(id, Team::Orange, v(id as f32, 0.0, 0.0), v(1.0, 0.0, 0.0)));
    }
    let row = build_obs(&gs, 1, &norm());
    assert_eq!(MAX_OTHERS, 5);
    assert_eq!(row.len(), OBS_SIZE);
    // ids 2, 3, 4, 5, 6
    assert_eq!(row[34 + 12 * 4], 6.0 * norm().pos_norm);
}
