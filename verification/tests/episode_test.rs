use construct_engine::actions::CarControls;
use construct_engine::curriculum::{CurriculumConfig, RandomStateBounds, Trig};
use construct_engine::episode::arena::{
    place_ball, place_car, AfterStep, EpisodeArena, KickoffCar, StepOutcome,
};
use construct_engine::episode::{
    blend_team_spirit, draw_reset_kind, state_is_finite, state_is_sane, ActionTableKind, ObsMode,
    ResetKind, StepFlags, MAX_TICKS, NO_TOUCH_TICKS,
};
use construct_engine::obs::OBS_SIZE;
use construct_engine::pads::mirror_pad_perm;
use construct_engine::reset_pool::{quat_to_rotmat, BallSpawn, CarSpawn, ResetState};
use construct_engine::reward::config::RewardConfig;
use construct_engine::reward::terms::{N_TERMS, T_AGENT_STEPS, T_GOAL, T_GOAL_EVENTS};
use construct_engine::sampler::Pcg32;
use construct_engine::schema::Normalization;
use construct_engine::sim::{
    BallHitInfo, BallState, BoostPad, CarInfo, CarState, GameState, RotMat, Team, Vec3,
};
use std::collections::HashSet;
use std::sync::Arc;

const JITTER_POS: f32 = 150.0;
const JITTER_YAW: f32 = 0.17;

fn v(x: f32, y: f32, z: f32) -> Vec3<f32> {
    Vec3 { x, y, z }
}

fn root(x: f32) -> f32 {
    x.sqrt()
}

fn yaw_rot(yaw: f32) -> RotMat<f32> {
    RotMat {
        forward: v(yaw.cos(), yaw.sin(), 0.0),
        right: v(-yaw.sin(), yaw.cos(), 0.0),
        up: v(0.0, 0.0, 1.0),
    }
}

fn car(id: u32, team: Team, pos: Vec3<f32>, yaw: f32) -> CarInfo<f32> {
    CarInfo {
        id,
        team,
        state: CarState {
            pos,
            rot_mat: yaw_rot(yaw),
            vel: v(0.0, 0.0, 0.0),
            ang_vel: v(0.0, 0.0, 0.0),
            boost: 100.0 / 3.0,
            is_on_ground: true,
            is_demoed: false,
            has_flipped: false,
            has_flip_or_jump: true,
            air_time_since_jump: 0.0,
            ball_hit_info: BallHitInfo { is_valid: false, tick_count_when_hit: u64::MAX },
        },
    }
}

/// A kickoff of `blue` against `orange` cars, listed from the last id down as
/// the physics does; the seed picks the corner.
fn kickoff_state(blue: u32, orange: u32, seed: u32) -> GameState<f32> {
    let side = if seed % 2 == 0 { 1.0 } else { -1.0 };
    let mut cars = Vec::new();
    for i in 0..blue {
        let pos = v(side * (2048.0 - 300.0 * i as f32), -2560.0 - 400.0 * i as f32, 17.0);
        cars.push(car(i + 1, Team::Blue, pos, 2.0));
    }
    for i in 0..orange {
        let pos = v(-side * (2048.0 - 300.0 * i as f32), 2560.0 + 400.0 * i as f32, 17.0);
        cars.push(car(blue + i + 1, Team::Orange, pos, -1.0));
    }
    cars.reverse();
    GameState {
        tick_count: 0,
        ball: BallState {
            pos: v(0.0, 0.0, 93.15),
            vel: v(0.0, 0.0, 0.0),
            ang_vel: v(0.0, 0.0, 0.0),
        },
        cars,
        pads: vec![
            BoostPad { position: v(0.0, -4240.0, 70.0), is_big: false, is_active: true, cooldown: 0.0 },
            BoostPad { position: v(0.0, 4240.0, 70.0), is_big: false, is_active: true, cooldown: 0.0 },
            BoostPad { position: v(3584.0, 0.0, 73.0), is_big: true, is_active: false, cooldown: 5.0 },
            BoostPad { position: v(-3584.0, 0.0, 73.0), is_big: true, is_active: true, cooldown: 0.0 },
        ],
    }
}

fn v0_reward() -> RewardConfig<f32> {
    RewardConfig {
        goal: 10.0,
        touch: 0.5,
        vel_to_ball: 0.05,
        aggression_bias: 0.0,
        touch_accel: 0.0,
        vel_ball_to_goal: 0.0,
        offensive_potential: 0.0,
        team_spirit: 0.0,
        opp_spirit: 0.0,
        win_prob_weight: 0.0,
        win_prob_k_base: 0.0,
        win_prob_t_floor: 0.0,
        win_prob_gamma: 0.0,
        touch_cooldown_ticks: 0,
        aerial_touch: 0.0,
        aerial_z_lo: 0.0,
        aerial_z_hi: 0.0,
        air_setup: 0.0,
        aerial_meas_z_lo: 0.0,
        air_setup_z_lo: 0.0,
        air_setup_z_hi: 0.0,
        boost_pickup: 0.0,
        air_hang: 0.0,
    }
}

fn norm() -> Normalization<f32> {
    Normalization { pos_norm: 1.0 / 2300.0, vel_norm: 1.0 / 2300.0, ang_vel_norm: 1.0 / 5.5 }
}

fn curr(replay: f32, kickoff: f32, random: f32, pool: Vec<ResetState<f32>>) -> CurriculumConfig<f32> {
    CurriculumConfig {
        kickoff_weight: kickoff,
        random_weight: random,
        replay_weight: replay,
        random: RandomStateBounds::standard(),
        replay_pool: None,
        match_mode: false,
        pool: Arc::new(pool),
    }
}

fn curr_with_match_mode(on: bool) -> CurriculumConfig<f32> {
    let mut c = curr(0.0, 1.0, 0.0, vec![]);
    c.match_mode = on;
    c
}

/// An arena and the state that stands for its physics.
struct Field {
    a: EpisodeArena<f32>,
    gs: GameState<f32>,
    blue: u32,
    orange: u32,
}

impl Field {
    fn new(blue: u32, orange: u32, seed: u32, c: Option<CurriculumConfig<f32>>) -> Field {
        Field::with_mode(blue, orange, seed, c, ObsMode::V0)
    }

    fn with_mode(
        blue: u32,
        orange: u32,
        seed: u32,
        c: Option<CurriculumConfig<f32>>,
        mode: ObsMode,
    ) -> Field {
        let gs = kickoff_state(blue, orange, 0);
        let a = EpisodeArena::new_full(
            (1..=blue + orange).collect(),
            blue as usize,
            8,
            v0_reward(),
            norm(),
            seed,
            c,
            mode,
            ActionTableKind::V1,
            gs.clone(),
        );
        let mut f = Field { a, gs, blue, orange };
        f.reset();
        f.a.start_match(0);
        f
    }

    fn reset(&mut self) {
        let order = self.a.begin_reset();
        let tick = self.gs.tick_count;
        let mut gs = kickoff_state(self.blue, self.orange, order.kickoff_seed);
        gs.tick_count = tick;
        let index = |gs: &GameState<f32>, id: u32| gs.cars.iter().position(|c| c.id == id).unwrap();
        match order.kind {
            ResetKind::Kickoff => {
                if order.jitter {
                    let cars: Vec<KickoffCar<f32>> = self
                        .a
                        .car_ids
                        .iter()
                        .map(|id| {
                            let s = &gs.cars[index(&gs, *id)].state;
                            let yaw = s.rot_mat.forward.y.atan2(s.rot_mat.forward.x);
                            KickoffCar { pos: s.pos, yaw }
                        })
                        .collect();
                    let (cars, ball) = self.a.jitter_kickoff(&cars, gs.ball.pos);
                    for (c, id) in cars.iter().zip(self.a.car_ids.clone()) {
                        let i = index(&gs, id);
                        gs.cars[i].state.pos = c.pos;
                        gs.cars[i].state.rot_mat = yaw_rot(c.yaw);
                    }
                    gs.ball.pos = ball;
                }
            }
            ResetKind::Random => {
                let trig = Trig {
                    cos: |x: f32| x.cos(),
                    sin: |x: f32| x.sin(),
                    tau: std::f32::consts::TAU,
                };
                let s = self.a.draw_scenario(&trig);
                gs.ball.pos = s.ball_pos;
                gs.ball.vel = s.ball_vel;
                for (c, car) in s.cars.iter().zip(gs.cars.iter_mut()) {
                    car.state.pos = c.pos;
                    car.state.vel = c.vel;
                    car.state.boost = c.boost;
                    car.state.is_on_ground = c.is_on_ground;
                }
            }
            ResetKind::Replay(k) => {
                let pool = self.a.curriculum.as_ref().unwrap().pool.clone();
                gs.ball = place_ball(&pool[k].ball);
                for (sp, id) in pool[k].cars.iter().zip(self.a.car_ids.clone()) {
                    let i = index(&gs, id);
                    let c = place_car(sp);
                    let s = &mut gs.cars[i].state;
                    s.pos = c.pos;
                    s.vel = c.vel;
                    s.ang_vel = c.ang_vel;
                    s.rot_mat = c.rot_mat;
                    s.boost = c.boost;
                    s.is_on_ground = c.is_on_ground;
                }
            }
        }
        self.gs = gs;
        self.a.finish_reset(self.gs.clone());
    }

    /// A step after which the physics is in the state that `edit` leaves.
    fn step<E: Fn(&mut GameState<f32>)>(&mut self, ball_scored: bool, edit: E) -> StepOutcome<f32> {
        let acts = vec![0i64; self.a.num_agents()];
        self.a.begin_step(&acts);
        self.gs.tick_count += 8;
        edit(&mut self.gs);
        let o = self.a.end_step(self.gs.clone(), ball_scored, &root);
        if !matches!(o.next, AfterStep::Continue) {
            self.reset();
        }
        o
    }
}

#[test]
fn blend_math_exact() {
    let mut r = vec![1.0f32, 3.0, -2.0, 0.0];
    blend_team_spirit(&mut r, 2, 0.5, 0.25);
    assert_eq!(r, vec![1.75, 2.75, -2.0, -1.0]);
}

#[test]
fn blend_handles_empty_orange() {
    let mut r = vec![2.0f32];
    blend_team_spirit(&mut r, 1, 0.5, 0.25);
    assert_eq!(r, vec![2.0]);
}

#[test]
fn sharing_between_equal_teams_scales_the_sum() {
    for opp in [0.0f64, 0.25, 1.0] {
        let raw = vec![3.0f64, -1.0, 0.5, 2.5];
        let mut r = raw.clone();
        blend_team_spirit(&mut r, 2, 0.3, opp);
        let before: f64 = raw.iter().sum();
        let after: f64 = r.iter().sum();
        assert!((after - (1.0 - opp) * before).abs() < 1e-12);
    }
}

#[test]
fn sane_rejects_blowup_ramp_but_keeps_hard_shots() {
    let mut gs = kickoff_state(0, 0, 0);
    gs.ball.pos = v(0.0, 5_100.0, 92.75);
    gs.ball.vel = v(0.0, 6_000.0, 0.0);
    assert!(state_is_sane(&gs));
    gs.ball.vel = v(0.0, 3.4e7, 0.0);
    assert!(!state_is_sane(&gs));
    assert!(state_is_finite(&gs));
    gs.ball.vel = v(0.0, f32::NAN, 0.0);
    assert!(!state_is_sane(&gs));
    assert!(!state_is_finite(&gs));
}

fn car_xy_yaw(gs: &GameState<f32>) -> Vec<(u32, f32, f32, f32)> {
    let mut l: Vec<(u32, f32, f32, f32)> = gs
        .cars
        .iter()
        .map(|c| {
            let yaw = c.state.rot_mat.forward.y.atan2(c.state.rot_mat.forward.x);
            (c.id, c.state.pos.x, c.state.pos.y, yaw)
        })
        .collect();
    l.sort_by_key(|c| c.0);
    l
}

#[test]
fn kickoff_jitter_within_bounds_and_differs_across_cars_and_episodes() {
    let mut base = Field::new(2, 2, 42, None);
    base.a.jitter_enabled = false;
    let mut jit = Field::new(2, 2, 42, None);
    jit.a.jitter_enabled = true;

    let mut episode_deltas: Vec<Vec<(u32, f32, f32, f32)>> = Vec::new();
    for ep in 0..4 {
        base.reset();
        jit.reset();
        let b = car_xy_yaw(&base.gs);
        let j = car_xy_yaw(&jit.gs);
        assert_eq!(b.len(), 4, "expected 4 cars");
        let mut deltas = Vec::new();
        for (jc, bc) in j.iter().zip(b.iter()) {
            assert_eq!(jc.0, bc.0);
            let (dx, dy, dyaw) = (jc.1 - bc.1, jc.2 - bc.2, jc.3 - bc.3);
            assert!(dx.abs() <= JITTER_POS + 1e-3, "ep {ep}: dx {dx}");
            assert!(dy.abs() <= JITTER_POS + 1e-3, "ep {ep}: dy {dy}");
            assert!(dyaw.abs() <= JITTER_YAW + 1e-3, "ep {ep}: dyaw {dyaw}");
            deltas.push((jc.0, dx, dy, dyaw));
        }
        let all_same = deltas.windows(2).all(|w| {
            (w[0].1 - w[1].1).abs() < 1e-6
                && (w[0].2 - w[1].2).abs() < 1e-6
                && (w[0].3 - w[1].3).abs() < 1e-6
        });
        assert!(!all_same, "ep {ep}: jitter must differ between cars, got {deltas:?}");
        episode_deltas.push(deltas);
    }
    assert_ne!(episode_deltas[0], episode_deltas[1], "jitter must differ across episodes");
    assert!(jit.gs.ball.pos.x.abs() <= 10.0 && jit.gs.ball.pos.y.abs() <= 10.0);
    assert_eq!(jit.gs.ball.pos.z, 93.15);
}

#[test]
fn kickoff_jitter_reproducible_for_fixed_seed() {
    let a = Field::new(2, 2, 99, None);
    let b = Field::new(2, 2, 99, None);
    assert_eq!(a.a.car_ids, b.a.car_ids);
    assert_eq!(car_xy_yaw(&a.gs), car_xy_yaw(&b.gs));
}

#[test]
fn kickoff_jitter_takes_three_draws_a_car_and_two_for_the_ball() {
    let mut f = Field::new(1, 1, 5, None);
    let mut twin = Field::new(1, 1, 5, None);
    let rng = &mut twin.a.rng;
    let cars = vec![KickoffCar { pos: v(1.0, 2.0, 17.0), yaw: 0.5 }];
    let (out, ball) = f.a.jitter_kickoff(&cars, v(0.0, 0.0, 93.15));
    let mut draw = |k: f32| -k + rng.next_f32::<f32>() * (2.0 * k);
    let (dx, dy, dyaw) = (draw(150.0), draw(150.0), draw(0.17));
    let (bx, by) = (draw(10.0), draw(10.0));
    assert_eq!((out[0].pos.x, out[0].pos.y, out[0].pos.z), (1.0 + dx, 2.0 + dy, 17.0));
    assert_eq!(out[0].yaw, 0.5 + dyaw);
    assert_eq!((ball.x, ball.y, ball.z), (bx, by, 93.15));
    assert_eq!(f.a.rng.next_u32(), rng.next_u32());
}

/// Puts the ball into the orange goal.
fn into_orange_goal(gs: &mut GameState<f32>) {
    gs.ball.pos = v(0.0, 5300.0, 320.0);
    gs.ball.vel = v(0.0, 2000.0, 0.0);
}

#[test]
fn legacy_mode_still_terminates_on_a_goal() {
    let c = curr_with_match_mode(false);
    assert!(!c.match_mode);
    let mut f = Field::new(1, 1, 5150, Some(c));
    let o = f.step(true, into_orange_goal);
    assert!(o.flags[0].terminated, "legacy mode: a goal must terminate the episode");
    assert!(!o.flags[0].truncated);
    assert!(matches!(o.next, AfterStep::Ended(_)));
    assert_eq!(o.rewards, vec![10.0, -10.0]);
}

#[test]
fn match_mode_continues_past_a_goal_and_increments_score() {
    let mut f = Field::new(1, 1, 5150, Some(curr_with_match_mode(true)));
    let o = f.step(true, into_orange_goal);
    assert!(!o.flags[0].terminated, "match mode: a goal must not terminate the episode");
    assert!(!o.flags[0].truncated, "match mode: a goal must not truncate the episode either");
    assert!(matches!(o.next, AfterStep::Kickoff));
    assert_eq!(f.a.score_blue, 1);
    assert_eq!(f.a.score_orange, 0);
    let o = f.step(true, |gs| gs.ball.pos = v(0.0, -5300.0, 320.0));
    assert!(matches!(o.next, AfterStep::Kickoff));
    assert_eq!((f.a.score_blue, f.a.score_orange), (1, 1));
}

#[test]
fn a_match_ends_with_the_clock_and_starts_over() {
    let mut f = Field::new(1, 1, 5150, Some(curr_with_match_mode(true)));
    f.step(true, into_orange_goal);
    let o = f.step(false, |gs| {
        gs.tick_count = MAX_TICKS;
        gs.cars[0].state.ball_hit_info =
            BallHitInfo { is_valid: true, tick_count_when_hit: MAX_TICKS - 1 };
    });
    assert_eq!(o.flags[0], StepFlags { terminated: true, truncated: false });
    assert_eq!((f.a.score_blue, f.a.score_orange), (0, 0));
    assert_eq!(f.a.match_start_tick, MAX_TICKS);
}

#[test]
fn a_long_time_without_a_touch_truncates() {
    let mut f = Field::new(1, 1, 7, None);
    let o = f.step(false, |gs| gs.tick_count = NO_TOUCH_TICKS - 1);
    assert_eq!(o.flags[0], StepFlags::default());
    let o = f.step(false, |gs| gs.tick_count = NO_TOUCH_TICKS);
    assert_eq!(o.flags[1], StepFlags { terminated: false, truncated: true });
    // a touch in time keeps the episode going
    let mut f = Field::new(1, 1, 7, None);
    let o = f.step(false, |gs| {
        gs.tick_count = NO_TOUCH_TICKS;
        gs.cars[1].state.ball_hit_info =
            BallHitInfo { is_valid: true, tick_count_when_hit: NO_TOUCH_TICKS - 4 };
    });
    assert_eq!(o.flags[0], StepFlags::default());
    assert_eq!(f.a.last_touch_tick, NO_TOUCH_TICKS - 4);
    // an episode that takes too long is cut off, touches or not
    let o = f.step(false, |gs| {
        gs.tick_count = MAX_TICKS;
        gs.cars[1].state.ball_hit_info.tick_count_when_hit = MAX_TICKS - 4;
    });
    assert_eq!(o.flags[0], StepFlags { terminated: false, truncated: true });
}

#[test]
fn broken_physics_ends_the_episode_with_nothing() {
    let mut f = Field::new(2, 1, 7, None);
    let o = f.step(true, |gs| gs.ball.pos = v(0.0, 8e10, 0.0));
    assert!(matches!(o.next, AfterStep::Rebuild));
    assert_eq!(o.rewards, vec![0.0; 3]);
    assert_eq!(o.flags, vec![StepFlags { terminated: true, truncated: false }; 3]);
    assert_eq!(f.a.blowup_count(), 1);
}

#[test]
fn broken_physics_restarts_the_match_with_the_clock() {
    let mut f = Field::new(1, 1, 7, Some(curr_with_match_mode(true)));
    f.a.start_match(4000);
    f.a.score_blue = 2;
    let o = f.step(false, |gs| {
        gs.tick_count = 5000;
        gs.ball.pos = v(f32::NAN, 0.0, 0.0);
    });
    assert!(matches!(o.next, AfterStep::Rebuild));
    assert_eq!((f.a.score_blue, f.a.score_orange, f.a.match_start_tick), (0, 0, 0));
    // the rebuilt arena's clock starts again
    f.gs.ball.pos = v(0.0, 0.0, 93.0);
    f.gs.tick_count = 0;
    f.a.finish_reset(f.gs.clone());
    let o = f.step(false, |gs| gs.tick_count = 8);
    assert!(matches!(o.next, AfterStep::Continue));
    assert_eq!(o.flags[0], StepFlags::default());
    // outside of matches scores and clock are left alone
    let mut f = Field::new(1, 1, 7, None);
    f.a.start_match(3);
    f.step(false, |gs| gs.ball.pos = v(f32::NAN, 0.0, 0.0));
    assert_eq!(f.a.match_start_tick, 3);
}

#[test]
fn match_state_reports_signed_diff_and_falling_clock() {
    let mut f = Field::new(1, 1, 5150, Some(curr_with_match_mode(true)));
    f.a.score_blue = 2;
    f.a.score_orange = 1;
    f.a.match_start_tick = 0;
    let half = f.a.match_state(MAX_TICKS / 2);
    assert_eq!(half.score_diff(Team::Blue), 1);
    assert_eq!(half.score_diff(Team::Orange), -1);
    assert!((half.t_frac - 0.5).abs() < 0.01, "t_frac {}", half.t_frac);
    let start = f.a.match_state(0);
    assert!((start.t_frac - 1.0).abs() < 1e-6);
    let end = f.a.match_state(MAX_TICKS);
    assert!((end.t_frac - 0.0).abs() < 1e-6);
}

#[test]
fn t_frac_never_leaves_unit_range_past_the_whistle() {
    let mut f = Field::new(1, 1, 5150, Some(curr_with_match_mode(true)));
    f.a.match_start_tick = 0;
    let over = f.a.match_state(MAX_TICKS * 2);
    assert!((0.0..=1.0).contains(&over.t_frac), "t_frac {}", over.t_frac);
    f.a.match_start_tick = 500;
    assert_eq!(f.a.match_state(100).t_frac, 1.0);
}

fn state(tag: usize) -> ResetState<f32> {
    let t = tag as f32;
    ResetState {
        ball: BallSpawn {
            pos: [1000.0 + t, 2000.0 - t, 500.0 + t * 0.5],
            vel: [10.0 + t, -20.0, 30.0],
            ang_vel: [0.5, -0.25, 1.0],
        },
        cars: [
            CarSpawn {
                pos: [-1500.0 - t, -2500.0, 17.01],
                vel: [100.0 + t, 200.0, 0.0],
                ang_vel: [0.0, 0.0, 1.5],
                quat: [0.0014666612, 0.004585884, -0.32203302, 0.9467162],
                boost: 0.42,
                team: 0,
                on_ground: true,
            },
            CarSpawn {
                pos: [1500.0 + t, 2500.0, 800.0],
                vel: [-300.0, -100.0, 250.0 + t],
                ang_vel: [1.0, -2.0, 0.5],
                quat: [0.0026252908, 0.004022506, -0.49989405, 0.86607325],
                boost: 0.11,
                team: 1,
                on_ground: false,
            },
        ],
    }
}

fn pool_of(n: usize) -> Vec<ResetState<f32>> {
    (0..n).map(state).collect()
}

#[derive(Debug, PartialEq, Eq, Clone, Copy)]
enum Kind {
    Replay,
    Kickoff,
    Random,
}

fn same_ball(b: &Vec3<f32>, p: &[f32; 3]) -> bool {
    (b.x - p[0]).abs() < 1e-2 && (b.y - p[1]).abs() < 1e-2 && (b.z - p[2]).abs() < 1e-2
}

fn classify(gs: &GameState<f32>, pool: &[ResetState<f32>]) -> Kind {
    let b = gs.ball.pos;
    if pool.iter().any(|s| same_ball(&b, &s.ball.pos)) {
        return Kind::Replay;
    }
    if (b.z - 93.15).abs() < 1e-3 && b.x.abs() < 20.0 && b.y.abs() < 20.0 {
        return Kind::Kickoff;
    }
    Kind::Random
}

fn snapshot(gs: &GameState<f32>) -> Vec<f32> {
    let mut out = vec![];
    for x in [gs.ball.pos, gs.ball.vel, gs.ball.ang_vel] {
        out.extend_from_slice(&[x.x, x.y, x.z]);
    }
    for c in &gs.cars {
        let s = &c.state;
        for x in [s.pos, s.vel, s.ang_vel, s.rot_mat.forward, s.rot_mat.right, s.rot_mat.up] {
            out.extend_from_slice(&[x.x, x.y, x.z]);
        }
        out.push(s.boost);
    }
    out
}

fn sequence(f: &mut Field, n: usize) -> Vec<Vec<f32>> {
    let mut out = Vec::with_capacity(n);
    for _ in 0..n {
        out.push(snapshot(&f.gs));
        f.reset();
    }
    out
}

#[test]
fn zero_replay_weight_is_bit_identical_to_legacy() {
    let mut a = Field::new(1, 1, 5150, Some(curr(0.0, 0.4, 0.6, pool_of(16))));
    let mut b = Field::new(1, 1, 5150, Some(curr(0.0, 0.4, 0.6, vec![])));
    assert_eq!(sequence(&mut a, 50), sequence(&mut b, 50));
}

#[test]
fn empty_pool_degrades_to_legacy_stream() {
    let mut a = Field::new(1, 1, 991, Some(curr(0.7, 0.1, 0.2, vec![])));
    let mut b = Field::new(1, 1, 991, Some(curr(0.0, 0.1, 0.2, vec![])));
    assert_eq!(
        sequence(&mut a, 50),
        sequence(&mut b, 50),
        "an empty pool must reproduce the kickoff/random stream exactly"
    );
}

#[test]
fn zero_replay_weight_matches_legacy_coin() {
    fn legacy(rng: &mut Pcg32, kickoff_weight: f32, random_weight: f32) -> ResetKind {
        let u = rng.next_f32::<f32>();
        if u < random_weight / (random_weight + kickoff_weight) {
            ResetKind::Random
        } else {
            ResetKind::Kickoff
        }
    }
    for (k, r) in
        [(0.1f32, 0.2f32), (0.4, 0.6), (0.5, 0.5), (0.9, 0.1), (1.0, 0.0), (0.0, 1.0)]
    {
        let shipped = (0.0f32 + r) / (0.0f32 + k + r);
        let legacy_thresh = r / (r + k);
        assert_eq!(
            shipped.to_bits(),
            legacy_thresh.to_bits(),
            "renormalized threshold must be bit-identical for kickoff={k} random={r}"
        );
    }
    for &(k, r) in &[(0.4f32, 0.6f32), (0.1, 0.2), (0.5, 0.5), (0.7, 0.3)] {
        let mut shipped_rng = Pcg32::new(0xC0FFEE);
        let mut legacy_rng = Pcg32::new(0xC0FFEE);
        let mut n_random = 0usize;
        for i in 0..20_000 {
            let got = draw_reset_kind(&mut shipped_rng, 0.0, k, r, 1);
            let want = legacy(&mut legacy_rng, k, r);
            assert_eq!(got, want, "draw {i} diverged from the legacy coin (k={k} r={r})");
            if got == ResetKind::Random {
                n_random += 1;
            }
        }
        let frac = n_random as f64 / 20_000.0;
        let want = (r / (r + k)) as f64;
        assert!((frac - want).abs() < 0.02, "random={frac:.3} want~{want:.3}");
    }
}

#[test]
fn nonzero_replay_weight_diverges_from_legacy() {
    let mut a = Pcg32::new(0xC0FFEE);
    let mut b = Pcg32::new(0xC0FFEE);
    let mut diffs = 0usize;
    for _ in 0..2_000 {
        let with_replay = draw_reset_kind(&mut a, 0.7f32, 0.1, 0.2, 64);
        let without = draw_reset_kind(&mut b, 0.0f32, 0.1, 0.2, 64);
        if with_replay != without {
            diffs += 1;
        }
    }
    assert!(diffs > 1_000, "a 0.7 replay share must change most draws, got {diffs}/2000");
}

#[test]
fn duel_arena_applies_pool_state_exactly() {
    let st = state(7);
    let mut f = Field::new(1, 1, 3, Some(curr(1.0, 0.0, 0.0, vec![state(7)])));
    f.reset();
    let gs = &f.gs;
    let arr = |x: Vec3<f32>| [x.x, x.y, x.z];
    assert_eq!(arr(gs.ball.pos), st.ball.pos);
    assert_eq!(arr(gs.ball.vel), st.ball.vel);
    assert_eq!(arr(gs.ball.ang_vel), st.ball.ang_vel);
    for (i, id) in f.a.car_ids.iter().enumerate() {
        let c = gs.cars.iter().find(|c| c.id == *id).unwrap();
        let sp = &st.cars[i];
        assert_eq!(arr(c.state.pos), sp.pos, "car {i} pos");
        assert_eq!(arr(c.state.vel), sp.vel, "car {i} vel");
        assert_eq!(arr(c.state.ang_vel), sp.ang_vel, "car {i} ang_vel");
        assert_eq!(c.state.boost, sp.boost * 100.0, "car {i} boost rescaled 0..1 -> 0..100");
        assert_eq!(c.state.is_on_ground, sp.on_ground, "car {i} on_ground");
        let m = quat_to_rotmat(&sp.quat);
        assert_eq!(arr(c.state.rot_mat.forward), arr(m.forward), "car {i} forward");
        assert_eq!(arr(c.state.rot_mat.up), arr(m.up), "car {i} up");
        let team_u8 = if c.team == Team::Blue { 0u8 } else { 1u8 };
        assert_eq!(team_u8, sp.team, "pool car {i} must land on the matching team");
    }
}

#[test]
fn pool_reset_clears_episode_bookkeeping() {
    let st = state(2);
    let mut f = Field::with_mode(
        1,
        1,
        11,
        Some(curr(1.0, 0.0, 0.0, vec![state(2)])),
        ObsMode::V1,
    );
    f.a.begin_step(&vec![3, 4]);
    assert_eq!(f.a.rings.as_ref().unwrap()[1], [4, 0, 0, 0, 0]);
    f.gs.tick_count = 640;
    f.reset();
    assert_eq!(f.a.episode_start_tick, 640);
    assert_eq!(f.a.last_touch_tick, 640);
    let p = f.a.prev_state.ball.pos;
    assert!(same_ball(&p, &st.ball.pos), "prev_state must latch the applied pool state: {p:?}");
    for ring in f.a.rings.as_ref().unwrap() {
        assert_eq!(*ring, [0; 5], "v1 prev-action rings must be zeroed");
    }
}

#[test]
fn pool_reset_preserves_defaults_reward_depends_on() {
    let mut f = Field::new(1, 1, 77, Some(curr(1.0, 0.0, 0.0, vec![state(1)])));
    f.reset();
    for c in &f.gs.cars {
        assert!(!c.state.ball_hit_info.is_valid, "a fresh episode must carry no hit info");
        assert!(!c.state.is_demoed);
        assert!(c.state.has_flip_or_jump, "replay-reset cars are granted a flip");
    }
}

#[test]
fn non_duel_arena_never_uses_pool() {
    let pool = pool_of(8);
    for (blue, orange) in [(2u32, 2u32), (3, 3), (2, 0)] {
        let mut f = Field::new(blue, orange, 404, Some(curr(1.0, 0.0, 0.0, pool_of(8))));
        for _ in 0..100 {
            f.reset();
            assert_ne!(
                classify(&f.gs, &pool),
                Kind::Replay,
                "{blue}v{orange} arenas must never draw a duel-only pool state"
            );
        }
    }
}

#[test]
fn non_duel_arena_renormalizes_kickoff_and_random() {
    let pool = pool_of(8);
    let mut f = Field::new(2, 2, 8_191, Some(curr(0.7, 0.1, 0.2, pool_of(8))));
    let (mut kick, mut rand) = (0usize, 0usize);
    let n = 4000;
    for _ in 0..n {
        f.reset();
        match classify(&f.gs, &pool) {
            Kind::Kickoff => kick += 1,
            Kind::Random => rand += 1,
            Kind::Replay => panic!("non-duel arena drew a replay state"),
        }
    }
    let (k, r) = (kick as f64 / n as f64, rand as f64 / n as f64);
    assert!((k - 1.0 / 3.0).abs() < 0.03, "kickoff share {k}");
    assert!((r - 2.0 / 3.0).abs() < 0.03, "random share {r}");
}

#[test]
fn duel_arena_branch_mix_matches_weights() {
    let pool = pool_of(3);
    let mut a = Field::new(1, 1, 20_260_719, Some(curr(0.7, 0.1, 0.2, pool_of(3))));
    let (mut rep, mut kick, mut rand) = (0usize, 0usize, 0usize);
    let n = 4000;
    for _ in 0..n {
        a.reset();
        match classify(&a.gs, &pool) {
            Kind::Replay => rep += 1,
            Kind::Kickoff => kick += 1,
            Kind::Random => rand += 1,
        }
    }
    let f = |x: usize| x as f64 / n as f64;
    assert!((f(rep) - 0.70).abs() < 0.03, "replay share {}", f(rep));
    assert!((f(kick) - 0.10).abs() < 0.03, "kickoff share {}", f(kick));
    assert!((f(rand) - 0.20).abs() < 0.03, "random share {}", f(rand));
}

#[test]
fn replay_reset_reproducible_for_fixed_seed() {
    let mut a = Field::new(1, 1, 6_006, Some(curr(0.7, 0.1, 0.2, pool_of(32))));
    let mut b = Field::new(1, 1, 6_006, Some(curr(0.7, 0.1, 0.2, pool_of(32))));
    assert_eq!(sequence(&mut a, 30), sequence(&mut b, 30));
}

#[test]
fn pool_index_covers_range_and_never_oob() {
    let mut a = Field::new(1, 1, 13, Some(curr(1.0, 0.0, 0.0, pool_of(1000))));
    let mut seen = HashSet::new();
    for _ in 0..5000 {
        match a.a.begin_reset().kind {
            ResetKind::Replay(i) => {
                assert!(i < 1000);
                seen.insert(i);
            }
            other => panic!("pool state expected, got {other:?}"),
        }
    }
    assert!(seen.len() > 900, "index must cover the pool, saw {}", seen.len());

    let mut one = Field::new(1, 1, 14, Some(curr(1.0, 0.0, 0.0, pool_of(1))));
    for _ in 0..100 {
        assert_eq!(one.a.begin_reset().kind, ResetKind::Replay(0));
    }
}

#[test]
fn a_step_sets_the_controls_of_every_car() {
    let mut f = Field::new(1, 1, 3, None);
    let table = f.a.table.clone();
    let forward =
        table.iter().position(|r| r[0] == 1.0 && r[1] == 0.0 && r[5] == 0.0 && r[6] == 1.0).unwrap();
    let c: Vec<(u32, CarControls<f32>)> = f.a.begin_step(&vec![forward as i64, 0]);
    assert_eq!((c[0].0, c[1].0), (1, 2));
    assert_eq!((c[0].1.throttle, c[0].1.steer), (1.0, 0.0));
    assert!(c[0].1.boost && !c[0].1.jump);
    assert_eq!(c[1].1.throttle, table[0][0]);
}

#[test]
fn terms_of_a_step_are_counted_over_all_agents() {
    let f = Field::new(2, 2, 3, None);
    let mut cur = f.gs.clone();
    cur.tick_count += 8;
    let mut t = [0.0f64; N_TERMS];
    f.a.count_terms(&cur, true, &mut t, &root);
    assert_eq!(t[T_AGENT_STEPS], 4.0);
    assert_eq!(t[T_GOAL_EVENTS], 4.0);
    assert_eq!(t[T_GOAL], 0.0, "two score and two concede");
    cur.ball.pos.x = f32::NAN;
    let mut none = [0.0f64; N_TERMS];
    f.a.count_terms(&cur, true, &mut none, &root);
    assert_eq!(none, [0.0; N_TERMS]);
}

#[test]
fn observations_come_agent_by_agent() {
    let f = Field::with_mode(2, 2, 3, None, ObsMode::V1);
    let flat = f.a.write_obs(&f.gs);
    assert_eq!(flat.len(), 4 * OBS_SIZE);
    let mine = f.gs.cars.iter().find(|c| c.id == 2).unwrap();
    assert_eq!(flat[OBS_SIZE], mine.state.pos.x * norm().pos_norm);
    let pred = [construct_engine::ballpred::BallSnap { pos: f.gs.ball.pos, vel: f.gs.ball.vel }; 4];
    let perm = mirror_pad_perm(&f.gs.pads);
    let o = f.a.write_obs_v1(&f.gs, &pred, &perm);
    assert_eq!(o.ents.len(), 4 * 17 * 26);
    assert_eq!(o.mask.len(), 4 * 17);
    assert_eq!(o.query.len(), 4 * 64);
    assert_eq!(o.prev, vec![0; 4 * 5]);
    let blank = f.a.blank_obs_v1();
    assert!(blank.ents.iter().all(|x| *x == 0.0));
    assert!(blank.mask.iter().all(|m| !*m));
}
