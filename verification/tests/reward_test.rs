use construct_engine::episode::blend_team_spirit;
use construct_engine::reward::config::{RewardConfig, RewardError};
use construct_engine::reward::shaping::{
    air_potential, air_shaping, win_potential, win_prob, win_prob_shaping, MatchState,
};
use construct_engine::reward::terms::{
    air_hang_t, compute, compute_terms, N_TERMS, TERM_NAMES, T_AERIAL_TOUCH,
    T_AERIAL_TOUCH_EVENTS, T_AGENT_STEPS, T_AIRBORNE_TOUCH_EVENTS, T_AIR_DECISIONS, T_AIR_HANG,
    T_AIR_HANG_EVENTS, T_AIR_TOUCH_Z0, T_AIR_TOUCH_Z5, T_BOOST_GAINED, T_BOOST_PICKUP,
    T_FLIP_EVENTS, T_GOAL, T_GOAL_EVENTS, T_OFFENSIVE_POTENTIAL, T_TOUCH, T_TOUCH_ACCEL,
    T_TOUCH_EVENTS, T_VEL_BALL_TO_GOAL, T_VEL_TO_BALL,
};
use construct_engine::sim::{
    BallHitInfo, BallState, CarInfo, CarState, GameState, RotMat, Team, Vec3,
};

const HANG: f32 = 1.2;

fn root(x: f32) -> f32 {
    x.sqrt()
}

fn exp(x: f32) -> f32 {
    x.exp()
}

fn v(x: f32, y: f32, z: f32) -> Vec3<f32> {
    Vec3 { x, y, z }
}

fn off() -> RewardConfig<f32> {
    RewardConfig {
        goal: 0.0,
        touch: 0.0,
        vel_to_ball: 0.0,
        aggression_bias: 0.0,
        touch_accel: 0.0,
        vel_ball_to_goal: 0.0,
        offensive_potential: 0.0,
        team_spirit: 0.0,
        opp_spirit: 0.0,
        win_prob_weight: 0.0,
        win_prob_k_base: 0.0,
        win_prob_t_floor: 0.0,
        win_prob_gamma: 0.0,
        touch_cooldown_ticks: 0,
        aerial_touch: 0.0,
        aerial_z_lo: 0.0,
        aerial_z_hi: 0.0,
        air_setup: 0.0,
        aerial_meas_z_lo: 0.0,
        air_setup_z_lo: 0.0,
        air_setup_z_hi: 0.0,
        boost_pickup: 0.0,
        air_hang: 0.0,
    }
}

fn cfg() -> RewardConfig<f32> {
    RewardConfig { goal: 10.0, touch: 0.5, vel_to_ball: 0.05, ..off() }
}

fn v0_cfg() -> RewardConfig<f32> {
    cfg()
}

fn v1_cfg() -> RewardConfig<f32> {
    RewardConfig {
        goal: 20.0,
        vel_to_ball: 0.02,
        aggression_bias: 0.2,
        touch_accel: 2.0,
        vel_ball_to_goal: 0.5,
        offensive_potential: 0.3,
        ..off()
    }
}

fn v4_cfg() -> RewardConfig<f32> {
    RewardConfig { goal: 10.0, vel_to_ball: 0.05, team_spirit: 0.3, opp_spirit: 1.0, ..off() }
}

fn v5_cfg() -> RewardConfig<f32> {
    RewardConfig {
        win_prob_weight: 1.0,
        win_prob_k_base: 0.6,
        win_prob_t_floor: 0.05,
        win_prob_gamma: 1.0,
        ..off()
    }
}

fn v9_cfg() -> RewardConfig<f32> {
    RewardConfig {
        goal: 10.0,
        touch: 0.5,
        touch_cooldown_ticks: 30,
        vel_to_ball: 0.05,
        touch_accel: 0.5,
        aerial_touch: 1.5,
        aerial_z_lo: 400.0,
        aerial_z_hi: 1400.0,
        aerial_meas_z_lo: 400.0,
        air_setup: 0.3,
        air_setup_z_lo: 100.0,
        air_setup_z_hi: 1400.0,
        win_prob_gamma: 0.9954,
        team_spirit: 0.3,
        ..off()
    }
}

fn car(id: u32, team: Team, pos: Vec3<f32>) -> CarInfo<f32> {
    CarInfo {
        id,
        team,
        state: CarState {
            pos,
            rot_mat: RotMat {
                forward: v(1.0, 0.0, 0.0),
                right: v(0.0, 1.0, 0.0),
                up: v(0.0, 0.0, 1.0),
            },
            vel: v(0.0, 0.0, 0.0),
            ang_vel: v(0.0, 0.0, 0.0),
            boost: 100.0 / 3.0,
            is_on_ground: true,
            is_demoed: false,
            has_flipped: false,
            has_flip_or_jump: true,
            air_time_since_jump: 0.0,
            ball_hit_info: BallHitInfo { is_valid: false, tick_count_when_hit: u64::MAX },
        },
    }
}

/// A kickoff: orange first, the way the physics lists the cars.
fn kickoff() -> GameState<f32> {
    GameState {
        tick_count: 0,
        ball: BallState {
            pos: v(0.0, 0.0, 93.15),
            vel: v(0.0, 0.0, 0.0),
            ang_vel: v(0.0, 0.0, 0.0),
        },
        cars: vec![
            car(2, Team::Orange, v(2048.0, 2560.0, 17.0)),
            car(1, Team::Blue, v(-2048.0, -2560.0, 17.0)),
        ],
        pads: vec![],
    }
}

fn reward(
    prev: &GameState<f32>,
    cur: &GameState<f32>,
    i: usize,
    scored: Option<Team>,
    c: &RewardConfig<f32>,
) -> f32 {
    compute(prev, cur, i, scored, c, &root)
}

fn terms(
    prev: &GameState<f32>,
    cur: &GameState<f32>,
    i: usize,
    scored: Option<Team>,
    c: &RewardConfig<f32>,
    t: &mut [f64; N_TERMS],
) -> f32 {
    compute_terms(prev, cur, i, scored, c, t, &root)
}

#[test]
fn goal_reward_signed_by_team() {
    let gs = kickoff();
    let blue = reward(&gs, &gs, 1, Some(Team::Blue), &cfg());
    let orange = reward(&gs, &gs, 0, Some(Team::Blue), &cfg());
    assert_eq!(blue, 10.0 + reward(&gs, &gs, 1, None, &cfg()));
    assert_eq!(orange, -10.0 + reward(&gs, &gs, 0, None, &cfg()));
}

#[test]
fn driving_toward_ball_pays_positive() {
    let prev = kickoff();
    let mut cur = kickoff();
    cur.tick_count = 120;
    cur.cars[1].state.pos = v(-1200.0, -1500.0, 17.0);
    cur.cars[1].state.vel = v(700.0, 900.0, 0.0);
    let r = reward(&prev, &cur, 1, None, &cfg());
    assert!(r > 0.0, "moving at ball should reward, got {r}");
    assert!(r <= 0.05 + 0.5, "bounded by vel_to_ball + touch weights, got {r}");
}

#[test]
fn no_false_touch_before_any_contact() {
    let prev = kickoff();
    assert!(!prev.cars[1].state.ball_hit_info.is_valid);
    assert_eq!(prev.cars[1].state.ball_hit_info.tick_count_when_hit, u64::MAX);
    let mut cur = kickoff();
    cur.tick_count = 1;
    let r = reward(&prev, &cur, 1, None, &cfg());
    assert!(r < cfg().touch, "spurious touch bonus on first step, got {r}");
}

#[test]
fn first_touch_ever_pays_touch_bonus() {
    let mut prev = kickoff();
    assert!(!prev.cars[1].state.ball_hit_info.is_valid, "precondition: never touched");
    prev.cars[1].state.pos = prev.ball.pos;
    prev.cars[1].state.vel = v(500.0, 0.0, 0.0);
    let mut cur = prev.clone();
    cur.tick_count = 2;
    cur.cars[1].state.ball_hit_info = BallHitInfo { is_valid: true, tick_count_when_hit: 1 };
    let r = reward(&prev, &cur, 1, None, &cfg());
    assert!(r >= cfg().touch, "expected touch bonus in reward, got {r}");
}

#[test]
fn v0_behavior_unchanged_by_new_fields() {
    let prev = kickoff();
    let mut cur = kickoff();
    cur.tick_count = 240;
    cur.ball.pos = v(31.5, -12.25, 140.0);
    cur.cars[0].state.pos = v(700.0, 1650.0, 17.0);
    cur.cars[0].state.vel = v(-350.0, -910.5, 3.25);
    cur.cars[1].state.pos = v(-100.0, -90.0, 40.0);
    cur.cars[1].state.vel = v(1500.0, 1200.0, 20.0);
    cur.cars[1].state.ball_hit_info = BallHitInfo { is_valid: true, tick_count_when_hit: 233 };
    let c = v0_cfg();
    for idx in 0..2 {
        let r = reward(&prev, &cur, idx, None, &c);
        let expected = v0_reference(&prev, &cur, idx, &c);
        assert_eq!(r, expected, "car {idx}: v0 behavior drifted");
    }
}

fn v0_reference(
    prev: &GameState<f32>,
    cur: &GameState<f32>,
    car_idx: usize,
    cfg: &RewardConfig<f32>,
) -> f32 {
    let me = &cur.cars[car_idx];
    let mut r = 0.0f32;
    let hit_now = &me.state.ball_hit_info;
    let hit_before = &prev.cars[car_idx].state.ball_hit_info;
    let touched = hit_now.is_valid
        && hit_now.tick_count_when_hit != hit_before.tick_count_when_hit
        && hit_now.tick_count_when_hit > prev.tick_count
        && hit_now.tick_count_when_hit <= cur.tick_count;
    if touched {
        r += cfg.touch;
    }
    let (bp, mp, mv) = (cur.ball.pos, me.state.pos, me.state.vel);
    let d = [bp.x - mp.x, bp.y - mp.y, bp.z - mp.z];
    let dist = (d[0] * d[0] + d[1] * d[1] + d[2] * d[2]).sqrt().max(1e-6);
    let proj = (mv.x * d[0] + mv.y * d[1] + mv.z * d[2]) / dist;
    r += cfg.vel_to_ball * (proj / 2300.0).clamp(0.0, 1.0);
    r
}

#[test]
fn aggression_bias_softens_concede_only() {
    let gs = kickoff();
    let cfg = v1_cfg();
    let shaping_b = reward(&gs, &gs, 1, None, &cfg);
    let shaping_o = reward(&gs, &gs, 0, None, &cfg);
    let rb = reward(&gs, &gs, 1, Some(Team::Blue), &cfg) - shaping_b;
    let ro = reward(&gs, &gs, 0, Some(Team::Blue), &cfg) - shaping_o;
    assert_eq!(rb, 20.0);
    assert!((ro - (-16.0)).abs() < 1e-5, "concede should be -goal*(1-0.2), got {ro}");
}

#[test]
fn vel_ball_to_goal_signed_by_team() {
    let mut gs = kickoff();
    gs.ball.pos = v(0.0, 0.0, 500.0);
    gs.ball.vel = v(0.0, 3000.0, 0.0);
    let mut cfg = v1_cfg();
    cfg.vel_to_ball = 0.0;
    cfg.offensive_potential = 0.0;
    cfg.touch_accel = 0.0;
    let rb = reward(&gs, &gs, 1, None, &cfg);
    let ro = reward(&gs, &gs, 0, None, &cfg);
    assert!(rb > 0.2, "ball flying at orange net pays blue, got {rb}");
    assert!(ro < -0.2, "and costs orange, got {ro}");
    assert!((rb + ro).abs() < 1e-5, "antisymmetric at x=0 by construction");
}

#[test]
fn touch_accel_pays_for_impact_not_contact() {
    let (prev, cur) = synth(
        [0.0, 0.0, 93.15],
        [0.0; 3],
        [1800.0, 0.0, 0.0],
        &[(Team::Blue, [-200.0, 0.0, 17.0], true)],
    );
    let mut cfg = v1_cfg();
    cfg.vel_to_ball = 0.0;
    cfg.vel_ball_to_goal = 0.0;
    cfg.offensive_potential = 0.0;
    let r = reward(&prev, &cur, 0, None, &cfg);
    assert!(r > 0.3, "hard hit should pay meaningfully, got {r}");
    assert!(r <= cfg.touch_accel, "bounded by weight, got {r}");
}

#[test]
fn offensive_potential_in_unit_range() {
    let gs = kickoff();
    let mut cfg = v1_cfg();
    cfg.vel_to_ball = 0.0;
    cfg.vel_ball_to_goal = 0.0;
    cfg.touch_accel = 0.0;
    for idx in 0..2 {
        let r = reward(&gs, &gs, idx, None, &cfg);
        assert!(r >= 0.0 && r <= cfg.offensive_potential, "car {idx}: {r}");
    }
}

#[test]
fn v4_zero_sum_on_goal_event() {
    let cfg = v4_cfg();
    let gs = kickoff();
    let raw_blue = reward(&gs, &gs, 1, Some(Team::Blue), &cfg);
    let raw_orange = reward(&gs, &gs, 0, Some(Team::Blue), &cfg);
    assert_eq!(raw_blue, 10.0, "symmetric score, no shaping at kickoff velocity");
    assert_eq!(raw_orange, -10.0, "symmetric concede, no shaping at kickoff velocity");

    let mut rewards = vec![raw_blue, raw_orange];
    blend_team_spirit(&mut rewards, 1, cfg.team_spirit, cfg.opp_spirit);
    assert!((rewards[0] - 20.0).abs() < 1e-4, "scorer should net +20, got {}", rewards[0]);
    assert!((rewards[1] - (-20.0)).abs() < 1e-4, "conceder should net -20, got {}", rewards[1]);
    assert!((rewards[0] + rewards[1]).abs() < 1e-4);
}

#[test]
fn trading_is_unprofitable_under_v4_but_not_v3() {
    let v3 = RewardConfig { goal: 10.0, aggression_bias: 0.2, ..off() };
    let v4 = v4_cfg();
    let v3_concede = -v3.goal * (1.0 - v3.aggression_bias);
    assert!((v3_concede - (-8.0)).abs() < 1e-5, "v3 concede should be -8.0, got {v3_concede}");
    let v3_blue_net = v3.goal + v3_concede;
    let v3_orange_net = v3_concede + v3.goal;
    assert!((v3_blue_net - 2.0).abs() < 1e-5);
    assert!((v3_orange_net - 2.0).abs() < 1e-5);
    assert!(v3_blue_net > 0.0 && v3_orange_net > 0.0);

    let v4_concede = -v4.goal * (1.0 - v4.aggression_bias);
    assert!((v4_concede - (-10.0)).abs() < 1e-5);
    let mut event_a = vec![v4.goal, v4_concede];
    blend_team_spirit(&mut event_a, 1, v4.team_spirit, v4.opp_spirit);
    let mut event_b = vec![v4_concede, v4.goal];
    blend_team_spirit(&mut event_b, 1, v4.team_spirit, v4.opp_spirit);
    let v4_blue_net = event_a[0] + event_b[0];
    let v4_orange_net = event_a[1] + event_b[1];
    assert!(v4_blue_net.abs() < 1e-4, "v4 blue should net exactly 0, got {v4_blue_net}");
    assert!(v4_orange_net.abs() < 1e-4, "v4 orange should net exactly 0, got {v4_orange_net}");
}

const K: f32 = 0.6;
const TF: f32 = 0.05;

#[test]
fn win_prob_is_half_at_level_score_for_every_clock() {
    for t in [1.0, 0.75, 0.5, 0.25, 0.0] {
        assert!((win_prob(0, t, K, TF, &exp) - 0.5).abs() < 1e-6, "t_frac={t}");
    }
}

#[test]
fn win_prob_is_complementary_between_teams() {
    for d in [-3, -1, 0, 1, 3] {
        for t in [1.0, 0.5, 0.1] {
            let a = win_prob(d, t, K, TF, &exp);
            let b = win_prob(-d, t, K, TF, &exp);
            assert!((a + b - 1.0).abs() < 1e-6, "d={d} t={t}: {a} + {b}");
        }
    }
}

#[test]
fn a_lead_is_worth_more_as_the_clock_runs_down() {
    let early = win_prob(1, 0.9, K, TF, &exp);
    let late = win_prob(1, 0.1, K, TF, &exp);
    assert!(late > early, "late {late} should exceed early {early}");
}

#[test]
fn win_prob_stays_bounded_at_zero_time() {
    let p = win_prob(5, 0.0, K, TF, &exp);
    assert!(p.is_finite() && (0.0..=1.0).contains(&p), "got {p}");
}

#[test]
fn win_potential_is_zero_at_level_score_for_every_clock() {
    for t in [1.0, 0.75, 0.5, 0.25, 0.0] {
        let p = win_potential(0, t, K, TF, &exp);
        assert!(p.abs() < 1e-6, "t_frac={t}: got {p}");
    }
}

#[test]
fn win_potential_negates_exactly_between_teams() {
    for d in [-3, -1, 0, 1, 3] {
        for t in [1.0, 0.5, 0.1, 0.0] {
            let a = win_potential(d, t, K, TF, &exp);
            let b = win_potential(-d, t, K, TF, &exp);
            assert!((a + b).abs() < 1e-6, "d={d} t={t}: {a} + {b} != 0");
        }
    }
}

#[test]
fn win_prob_takes_every_lead() {
    assert_eq!(win_prob(i32::MAX, 1.0, K, TF, &exp), 1.0);
    assert_eq!(win_prob(i32::MIN, 1.0, K, TF, &exp), 0.0);
    // the slope 0.6 at kickoff and a lead of one
    assert_eq!(win_prob(1, 1.0, K, TF, &exp), 1.0 / (1.0 + (-0.6f32).exp()));
    // a lead beyond the small constants, on a slope flat enough to see it
    let flat = win_prob(100_000, 1.0, 1e-5, TF, &exp);
    assert_eq!(flat, 1.0 / (1.0 + (-1e-5f32 * 100_000.0).exp()));
}

fn ms(b: u32, o: u32, t: f32) -> MatchState<f32> {
    MatchState { score_blue: b, score_orange: o, t_frac: t }
}

fn shaped(a: &MatchState<f32>, b: &MatchState<f32>, team: Team, c: &RewardConfig<f32>) -> f32 {
    win_prob_shaping(a, b, team, c.win_prob_gamma, c, &exp)
}

#[test]
fn score_diff_is_signed_by_team() {
    assert_eq!(ms(3, 1, 0.5).score_diff(Team::Blue), 2);
    assert_eq!(ms(3, 1, 0.5).score_diff(Team::Orange), -2);
}

#[test]
fn shaping_telescopes_to_the_match_outcome() {
    let cfg = v5_cfg();
    let path = [
        ms(0, 0, 1.00),
        ms(0, 0, 0.80),
        ms(1, 0, 0.80),
        ms(1, 0, 0.50),
        ms(1, 1, 0.50),
        ms(1, 1, 0.20),
        ms(2, 1, 0.20),
        ms(2, 1, 0.00),
    ];
    let mut total = 0.0f32;
    for w in path.windows(2) {
        total += shaped(&w[0], &w[1], Team::Blue, &cfg);
    }
    let prob = |m: &MatchState<f32>| {
        win_prob(
            m.score_diff(Team::Blue),
            m.t_frac,
            cfg.win_prob_k_base,
            cfg.win_prob_t_floor,
            &exp,
        )
    };
    let first = prob(&path[0]);
    let last = prob(&path[path.len() - 1]);
    assert!(
        (total - (last - first)).abs() < 1e-5,
        "sum {total} != PHI(end)-PHI(start) {}",
        last - first
    );
}

#[test]
fn shaping_is_zero_sum_between_teams() {
    for gamma in [0.9954, 1.0, 0.99, 0.9, 0.5] {
        let mut cfg = v5_cfg();
        cfg.win_prob_gamma = gamma;
        let (a, b) = (ms(0, 0, 0.5), ms(1, 0, 0.5));
        let blue = shaped(&a, &b, Team::Blue, &cfg);
        let orange = shaped(&a, &b, Team::Orange, &cfg);
        assert!((blue + orange).abs() < 1e-6, "gamma={gamma}: {blue} + {orange} != 0");
    }
}

#[test]
fn conceding_pays_negative_and_scoring_pays_positive() {
    let cfg = v5_cfg();
    let scored = shaped(&ms(0, 0, 0.5), &ms(1, 0, 0.5), Team::Blue, &cfg);
    let conceded = shaped(&ms(0, 0, 0.5), &ms(0, 1, 0.5), Team::Blue, &cfg);
    assert!(scored > 0.0, "scoring should pay positive, got {scored}");
    assert!(conceded < 0.0, "conceding should pay negative, got {conceded}");
}

#[test]
fn a_late_goal_pays_more_than_an_early_one() {
    let cfg = v5_cfg();
    let early = shaped(&ms(0, 0, 0.9), &ms(1, 0, 0.9), Team::Blue, &cfg);
    let late = shaped(&ms(0, 0, 0.1), &ms(1, 0, 0.1), Team::Blue, &cfg);
    assert!(late > early, "late {late} should exceed early {early}");
}

#[test]
fn zero_weight_makes_shaping_inert() {
    let mut cfg = v5_cfg();
    cfg.win_prob_weight = 0.0;
    let r = shaped(&ms(0, 0, 0.5), &ms(1, 0, 0.5), Team::Blue, &cfg);
    assert_eq!(r, 0.0);
}

#[test]
fn half_configured_shaping_is_rejected_not_silently_inert() {
    let mut c = v5_cfg();
    c.win_prob_k_base = 0.0;
    assert_eq!(c.validate(), Err(RewardError::WinProbSlope));
}

#[test]
fn zero_t_floor_is_rejected() {
    let mut c = v5_cfg();
    c.win_prob_t_floor = 0.0;
    assert_eq!(c.validate(), Err(RewardError::WinProbFloor));
    c.win_prob_t_floor = 1.0;
    assert_eq!(c.validate(), Err(RewardError::WinProbFloor));
    c.win_prob_t_floor = f32::NAN;
    assert_eq!(c.validate(), Err(RewardError::WinProbFloor));
}

#[test]
fn shaping_off_needs_no_other_keys() {
    let c = RewardConfig { goal: 10.0, touch: 0.0, vel_to_ball: 0.0, ..off() };
    assert!(c.validate().is_ok(), "historical configs must validate");
}

/// Two hand-built states: exact ball velocities before and after, airborne cars
/// at rest, and a contact at tick 1004 for the cars that are marked.
fn synth(
    ball_pos: [f32; 3],
    ball_v0: [f32; 3],
    ball_v1: [f32; 3],
    cars: &[(Team, [f32; 3], bool)],
) -> (GameState<f32>, GameState<f32>) {
    let mut prev = kickoff();
    prev.tick_count = 1000;
    prev.ball.pos = v(ball_pos[0], ball_pos[1], ball_pos[2]);
    prev.ball.vel = v(ball_v0[0], ball_v0[1], ball_v0[2]);
    prev.cars.clear();
    for (i, (team, pos, _)) in cars.iter().enumerate() {
        let mut c = car(i as u32 + 1, *team, v(pos[0], pos[1], pos[2]));
        c.state.is_on_ground = false;
        c.state.ball_hit_info = BallHitInfo { is_valid: true, tick_count_when_hit: 0 };
        prev.cars.push(c);
    }
    let mut cur = prev.clone();
    cur.tick_count = 1008;
    cur.ball.vel = v(ball_v1[0], ball_v1[1], ball_v1[2]);
    for (i, (_, _, touched)) in cars.iter().enumerate() {
        if *touched {
            cur.cars[i].state.ball_hit_info.tick_count_when_hit = 1004;
        }
    }
    (prev, cur)
}

/// `aerial_touch` alone for car `i` of a `synth` pair.
fn aerial_of(
    prev: &GameState<f32>,
    cur: &GameState<f32>,
    i: usize,
    cfg: &RewardConfig<f32>,
) -> f64 {
    let mut t = [0.0f64; N_TERMS];
    terms(prev, cur, i, None, cfg, &mut t);
    assert!(t[T_TOUCH_EVENTS] > 0.0, "precondition: the contact registers");
    assert!(t[T_AIRBORNE_TOUCH_EVENTS] > 0.0, "precondition: the car is airborne");
    t[T_AERIAL_TOUCH]
}

/// One car, airborne, in contact, ball at `ball_z`.
fn airborne_touch_terms(cfg: &RewardConfig<f32>, ball_z: f32) -> [f64; N_TERMS] {
    let (p, c) = synth(
        [0.0, 0.0, ball_z],
        [0.0, 0.0, 0.0],
        [0.0, 1800.0, 0.0],
        &[(Team::Blue, [0.0, -200.0, ball_z - 100.0], true)],
    );
    let mut t = [0.0f64; N_TERMS];
    terms(&p, &c, 0, None, cfg, &mut t);
    assert!(t[T_TOUCH_EVENTS] > 0.0, "precondition: the contact registers");
    t
}

fn z_hist(t: &[f64; N_TERMS]) -> [f64; 6] {
    let mut h = [0.0; 6];
    h.copy_from_slice(&t[T_AIR_TOUCH_Z0..=T_AIR_TOUCH_Z5]);
    h
}

#[test]
fn the_gated_aerial_counter_separates_real_aerials_from_airborne_contact() {
    let cfg = v9_cfg();
    let high = airborne_touch_terms(&cfg, 1000.0);
    assert_eq!(high[T_AIRBORNE_TOUCH_EVENTS], 1.0);
    assert_eq!(high[T_AERIAL_TOUCH_EVENTS], 1.0, "a real high strike must count");
    assert!(high[T_AERIAL_TOUCH] > 0.0, "and the term itself pays for it");

    let low = airborne_touch_terms(&cfg, 300.0);
    assert_eq!(low[T_AIRBORNE_TOUCH_EVENTS], 1.0);
    assert_eq!(low[T_AERIAL_TOUCH_EVENTS], 0.0);
    assert_eq!(low[T_AERIAL_TOUCH], 0.0, "the reward gate agrees: h = 0 here");
}

#[test]
fn the_touch_height_histogram_partitions_the_airborne_population() {
    let cfg = v9_cfg();
    for (z, want) in [(100.0, 0), (200.0, 1), (400.0, 2), (600.0, 3), (1000.0, 4), (1500.0, 5)] {
        let t = airborne_touch_terms(&cfg, z);
        let h = z_hist(&t);
        assert_eq!(h[want], 1.0, "ball z={z} belongs in bucket {want}, got {h:?}");
        assert_eq!(h.iter().sum::<f64>(), t[T_AIRBORNE_TOUCH_EVENTS]);
    }
}

#[test]
fn the_histogram_bucket_edges_are_half_open_from_below() {
    let cfg = v9_cfg();
    for (z, want) in
        [(149.9, 0), (150.0, 1), (299.9, 1), (300.0, 2), (1199.9, 4), (1200.0, 5)]
    {
        assert_eq!(z_hist(&airborne_touch_terms(&cfg, z))[want], 1.0, "z={z} in bucket {want}");
    }
}

#[test]
fn the_histogram_counts_touches_the_aerial_gate_rejects() {
    let cfg = v9_cfg();
    let t = airborne_touch_terms(&cfg, 300.0);
    assert_eq!(t[T_AERIAL_TOUCH_EVENTS], 0.0, "precondition: gated out");
    assert_eq!(t[T_AERIAL_TOUCH], 0.0, "precondition: paid nothing");
    assert_eq!(z_hist(&t)[2], 1.0, "and yet it is counted, in 300-500");
}

#[test]
fn the_histogram_is_live_on_a_tape_with_no_ramp() {
    let t = airborne_touch_terms(&v0_cfg(), 1000.0);
    assert_eq!(t[T_AERIAL_TOUCH_EVENTS], 0.0, "no ramp, no gate -- unchanged");
    assert_eq!(z_hist(&t)[4], 1.0, "but the distribution is still measurable");
}

#[test]
fn the_measurement_floor_defaults_to_the_payout_floor() {
    let mut cfg = v9_cfg();
    cfg.aerial_meas_z_lo = 0.0;
    let before = airborne_touch_terms(&cfg, 500.0)[T_AERIAL_TOUCH_EVENTS];
    cfg.aerial_meas_z_lo = cfg.aerial_z_lo;
    assert_eq!(airborne_touch_terms(&cfg, 500.0)[T_AERIAL_TOUCH_EVENTS], before);
}

#[test]
fn the_measurement_floor_survives_a_payout_ramp_move() {
    let mut cfg = v9_cfg();
    cfg.aerial_meas_z_lo = 400.0;
    let pinned = airborne_touch_terms(&cfg, 300.0)[T_AERIAL_TOUCH_EVENTS];
    assert_eq!(pinned, 0.0, "300 is under the pinned ruler");

    cfg.aerial_z_lo = 250.0;
    let t = airborne_touch_terms(&cfg, 300.0);
    assert!(t[T_AERIAL_TOUCH] != 0.0, "the term now pays at 300uu");
    assert_eq!(t[T_AERIAL_TOUCH_EVENTS], 0.0, "the instrument stays where it was");
}

#[test]
fn the_air_setup_ramp_defaults_to_the_shared_ramp() {
    let mut cfg = v9_cfg();
    cfg.air_setup_z_lo = 0.0;
    cfg.air_setup_z_hi = 0.0;
    for z in [0.0, 200.0, 400.0, 700.0, 1400.0, 2000.0] {
        assert_eq!(cfg.setup_ramp(z), cfg.height_ramp(z), "unset means inherit at z={z}");
    }
}

#[test]
fn the_air_setup_ramp_can_reach_below_the_payout_floor() {
    let mut cfg = v9_cfg();
    assert_eq!(cfg.height_ramp(200.0), 0.0, "precondition: flat at takeoff height");
    cfg.air_setup_z_lo = 100.0;
    cfg.air_setup_z_hi = 1400.0;
    assert!(cfg.setup_ramp(200.0) > 0.0, "now there is a gradient to climb");
    assert_eq!(cfg.height_ramp(200.0), 0.0, "and the payout ramp did not move");
    // halfway up and past the top
    assert_eq!(cfg.height_ramp(900.0), 0.5);
    assert_eq!(cfg.height_ramp(1500.0), 1.0);
}

#[test]
fn a_half_configured_air_setup_ramp_is_rejected() {
    let mut cfg = v9_cfg();
    cfg.air_setup_z_hi = 0.0;
    cfg.air_setup_z_lo = 300.0;
    assert_eq!(cfg.validate(), Err(RewardError::SetupRamp));
    cfg.air_setup_z_hi = 1400.0;
    assert!(cfg.validate().is_ok());
    cfg.air_setup_z_lo = 50.0;
    assert_eq!(cfg.validate(), Err(RewardError::SetupFloor));
}

#[test]
fn a_measurement_floor_under_the_ball_radius_is_rejected() {
    let mut cfg = v9_cfg();
    cfg.aerial_meas_z_lo = 50.0;
    assert_eq!(cfg.validate(), Err(RewardError::MeasureFloor));
    assert_eq!(cfg.validate_aerial(), Err(RewardError::MeasureFloor));
}

#[test]
fn the_measurement_floor_is_inherited_when_unset() {
    let mut cfg = v9_cfg();
    cfg.aerial_meas_z_lo = 0.0;
    assert_eq!(cfg.meas_z_lo(), 400.0);
    cfg.aerial_meas_z_lo = 250.0;
    assert_eq!(cfg.meas_z_lo(), 250.0);
}

#[test]
fn the_gated_aerial_counter_is_zero_on_a_tape_with_no_ramp() {
    let cfg = v0_cfg();
    assert_eq!((cfg.aerial_z_lo, cfg.aerial_z_hi), (0.0, 0.0), "precondition");
    let t = airborne_touch_terms(&cfg, 1000.0);
    assert_eq!(t[T_AIRBORNE_TOUCH_EVENTS], 1.0);
    assert_eq!(t[T_AERIAL_TOUCH_EVENTS], 0.0);
}

#[test]
fn aerial_touch_is_zero_on_the_ground() {
    let (mut prev, mut cur) = synth(
        [0.0, 0.0, 93.15],
        [0.0; 3],
        [0.0, 1800.0, 0.0],
        &[(Team::Blue, [0.0, -200.0, 17.0], true)],
    );
    prev.cars[0].state.is_on_ground = true;
    cur.cars[0].state.is_on_ground = true;
    let mut t = [0.0f64; N_TERMS];
    let r = terms(&prev, &cur, 0, None, &v9_cfg(), &mut t);
    assert!(t[T_TOUCH_EVENTS] > 0.0, "precondition: the strike registered a touch");
    assert_eq!(t[T_AERIAL_TOUCH], 0.0, "a grounded strike must pay zero");
    assert!(r > 0.0, "the ordinary touch terms still pay: {r}");
}

#[test]
fn aerial_touch_is_zero_below_z_lo() {
    let t = airborne_touch_terms(&v9_cfg(), 300.0);
    assert!(t[T_AIRBORNE_TOUCH_EVENTS] > 0.0, "precondition: the car was airborne");
    assert_eq!(t[T_AERIAL_TOUCH], 0.0, "a hop-height touch must pay nothing");
}

#[test]
fn aerial_touch_pays_a_real_strike_and_is_bounded_by_its_weight() {
    let cfg = v9_cfg();
    let (prev, cur) = synth(
        [0.0, 0.0, 1000.0],
        [0.0; 3],
        [0.0, 1900.0, 0.0],
        &[(Team::Blue, [0.0, -220.0, 1000.0], true)],
    );
    let paid = aerial_of(&prev, &cur, 0, &cfg);
    assert!(paid > 0.05, "a clean high strike toward the net must pay: {paid}");
    assert!(paid <= cfg.aerial_touch as f64, "the weight is the bound: {paid}");
}

#[test]
fn aerial_touch_charges_for_hitting_the_ball_backwards() {
    let cfg = v9_cfg();
    let (prev, cur) = synth(
        [0.0, 0.0, 1000.0],
        [0.0; 3],
        [0.0, -1900.0, 0.0],
        &[(Team::Blue, [0.0, 220.0, 1000.0], true)],
    );
    let paid = aerial_of(&prev, &cur, 0, &cfg);
    assert!(paid < -0.05, "impulse toward our own net must be charged: {paid}");
    assert!(paid >= -(cfg.aerial_touch as f64), "the weight is the bound: {paid}");
}

#[test]
fn aerial_touch_telescopes_to_zero_over_a_closed_ball_velocity_cycle() {
    let cfg = v9_cfg();
    const Z: f32 = 1200.0;
    let (p1, c1) = synth(
        [3000.0, 4500.0, Z],
        [0.0; 3],
        [-2400.0, 0.0, 0.0],
        &[(Team::Blue, [3300.0, 4500.0, Z], true)],
    );
    let (p2, c2) = synth(
        [-3000.0, 4500.0, Z],
        [-2400.0, 0.0, 0.0],
        [2400.0, 0.0, 0.0],
        &[(Team::Blue, [-3300.0, 4500.0, Z], true)],
    );
    let (out, back) = (aerial_of(&p1, &c1, 0, &cfg), aerial_of(&p2, &c2, 0, &cfg));
    assert_eq!((out, back), (0.0, 0.0), "a lateral cycle pays nothing on either leg");

    let (p3, c3) = synth(
        [3000.0, 4500.0, Z],
        [0.0; 3],
        [0.0, 1800.0, 0.0],
        &[(Team::Blue, [3000.0, 4300.0, Z], true)],
    );
    let (p4, c4) = synth(
        [3000.0, 4500.0, Z],
        [0.0, 1800.0, 0.0],
        [0.0; 3],
        &[(Team::Blue, [3000.0, 4700.0, Z], true)],
    );
    let (fwd, rev) = (aerial_of(&p3, &c3, 0, &cfg), aerial_of(&p4, &c4, 0, &cfg));
    assert!(fwd > 0.5, "precondition: the forward leg is a real payment: {fwd}");
    assert!((fwd + rev).abs() < 1e-6, "a closed cycle must net ~0: +{fwd} then {rev}");
}

#[test]
fn aerial_touch_credits_the_striker_not_the_passenger() {
    let cfg = v9_cfg();
    let (prev, cur) = synth(
        [0.0, 0.0, 1000.0],
        [0.0; 3],
        [0.0, 2700.0, 0.0],
        &[(Team::Blue, [0.0, -220.0, 1000.0], true), (Team::Blue, [300.0, 0.0, 1000.0], true)],
    );
    let (striker, passenger) = (aerial_of(&prev, &cur, 0, &cfg), aerial_of(&prev, &cur, 1, &cfg));
    assert!(striker > 0.5, "the real strike must be paid: {striker}");
    assert!(passenger.abs() < 1e-6, "the passenger must be paid nothing: {passenger}");
}

#[test]
fn aerial_touch_pays_no_passenger_when_the_impulse_is_an_opponents() {
    let cfg = v9_cfg();
    let (prev, cur) = synth(
        [0.0, 0.0, 1000.0],
        [0.0; 3],
        [0.0, 2700.0, 0.0],
        &[
            (Team::Orange, [0.0, -220.0, 1000.0], true),
            (Team::Blue, [300.0, 0.0, 1000.0], true),
        ],
    );
    let (orange, blue) = (aerial_of(&prev, &cur, 0, &cfg), aerial_of(&prev, &cur, 1, &cfg));
    assert!(blue.abs() < 1e-6, "the blue passenger contributed nothing: {blue}");
    assert!(orange < -0.5, "the orange car drove the ball at its own net: {orange}");
}

#[test]
fn aerial_touch_takes_the_touch_cooldown() {
    let cfg = v9_cfg();
    let car = [(Team::Blue, [0.0, -220.0, 1000.0], true)];
    let (prev, cur) = synth([0.0, 0.0, 1000.0], [0.0; 3], [0.0, 2300.0, 0.0], &car);
    let paid = aerial_of(&prev, &cur, 0, &cfg);
    assert!(paid > 0.5, "precondition: a clean strike after a long gap pays: {paid}");

    let mut soon = prev.clone();
    soon.cars[0].state.ball_hit_info.tick_count_when_hit = 1000;
    let mut cur2 = cur.clone();
    cur2.cars[0].state.ball_hit_info.tick_count_when_hit = 1004;
    let mut t = [0.0f64; N_TERMS];
    terms(&soon, &cur2, 0, None, &cfg, &mut t);
    assert!(t[T_TOUCH_EVENTS] > 0.0, "precondition: the contact still registers");
    assert_eq!(t[T_AERIAL_TOUCH], 0.0, "a re-hit inside the cooldown pays no aerial_touch");
    assert_eq!(t[T_TOUCH], 0.0, "and no flat touch");
}

#[test]
fn touch_cooldown_starves_the_carry_farm() {
    const STEPS: u32 = 60;
    let v9 = v9_cfg();
    let v8 = RewardConfig { touch_cooldown_ticks: 0, ..v9_cfg() };
    let (mut t9, mut t8) = ([0.0f64; N_TERMS], [0.0f64; N_TERMS]);
    // the ball rests on the car and every step registers a new contact
    let mut prev = kickoff();
    prev.cars[1].state.pos = v(0.0, 0.0, 100.0);
    prev.ball.pos = v(0.0, 0.0, 100.0);
    for _ in 0..STEPS {
        let mut cur = prev.clone();
        cur.tick_count = prev.tick_count + 8;
        cur.cars[1].state.ball_hit_info =
            BallHitInfo { is_valid: true, tick_count_when_hit: cur.tick_count };
        terms(&prev, &cur, 1, None, &v9, &mut t9);
        terms(&prev, &cur, 1, None, &v8, &mut t8);
        prev = cur;
    }
    let secs = (STEPS * 8) as f64 / 120.0;
    assert!(t9[T_TOUCH_EVENTS] / secs > 5.0, "precondition: the contact re-fires");
    let cap = (v9.touch * (secs as f32 * 120.0 / v9.touch_cooldown_ticks as f32 + 1.0)) as f64;
    assert!(t9[T_TOUCH] <= cap, "paid {} > cap {cap}", t9[T_TOUCH]);
    assert!(t8[T_TOUCH] > 4.0 * t9[T_TOUCH], "{} vs {}", t8[T_TOUCH], t9[T_TOUCH]);
    assert!(t9[T_TOUCH_ACCEL] < t8[T_TOUCH]);
}

#[test]
fn air_potential_telescopes_to_zero_over_a_jump_cycle() {
    let mut cfg = v9_cfg();
    cfg.air_setup = 0.3;
    cfg.win_prob_gamma = 1.0;
    assert!(cfg.validate().is_ok());
    let path: [(bool, [f32; 3], [f32; 3]); 6] = [
        (true, [0.0, 0.0, 17.0], [0.0, 0.0, 1200.0]),
        (false, [0.0, 0.0, 300.0], [0.0, 0.0, 1200.0]),
        (false, [0.0, 0.0, 900.0], [0.0, 0.0, 1200.0]),
        (false, [0.0, 300.0, 1100.0], [0.0, 0.0, 1200.0]),
        (false, [0.0, 0.0, 400.0], [0.0, 0.0, 1200.0]),
        (true, [0.0, 0.0, 17.0], [0.0, 0.0, 1200.0]),
    ];
    let at = |p: [f32; 3]| v(p[0], p[1], p[2]);
    let phi =
        |s: &(bool, [f32; 3], [f32; 3])| air_potential(s.0, at(s.1), at(s.2), &cfg, &root);
    let mut total = 0.0f32;
    for w in path.windows(2) {
        total += cfg.air_setup * (cfg.win_prob_gamma * phi(&w[1]) - phi(&w[0]));
    }
    assert!(phi(&path[2]) > 0.0, "precondition: the mid-flight potential is nonzero");
    assert!(total.abs() < 1e-5, "a jump-and-land cycle must refund exactly: got {total}");
}

#[test]
fn air_potential_is_zero_on_the_ground_at_any_ball_height() {
    let mut cfg = v9_cfg();
    cfg.air_setup = 0.3;
    for bz in [100.0, 800.0, 1400.0, 1900.0] {
        let p = air_potential(true, v(0.0, 0.0, 17.0), v(0.0, 0.0, bz), &cfg, &root);
        assert_eq!(p, 0.0, "grounded PHI must be 0 (ball z {bz})");
    }
}

#[test]
fn loitering_at_high_potential_costs_a_little_every_step() {
    let mut cfg = v9_cfg();
    cfg.air_setup = 0.3;
    cfg.win_prob_gamma = 0.9954;
    let phi = air_potential(false, v(0.0, 0.0, 1100.0), v(0.0, 0.0, 1200.0), &cfg, &root);
    let step = cfg.air_setup * (cfg.win_prob_gamma * phi - phi);
    assert!(phi > 0.0 && step < 0.0, "phi {phi} step {step}");
    // 1100 of 1300 up the ramp, 100 away from a ball within 2500
    assert!((phi - (1100.0 / 1300.0) * 0.96).abs() < 1e-6);
}

#[test]
fn air_shaping_is_inert_at_zero_weight() {
    let mut cfg = v9_cfg();
    cfg.air_setup = 0.0;
    let (prev, cur) = synth(
        [0.0, 0.0, 1000.0],
        [0.0; 3],
        [0.0, 1900.0, 0.0],
        &[(Team::Blue, [0.0, -220.0, 1000.0], true)],
    );
    assert_eq!(air_shaping(&prev, &cur, 0, 0.9954, &cfg, &root), 0.0);
    cfg.air_setup = 0.3;
    let phi = air_potential(false, v(0.0, -220.0, 1000.0), v(0.0, 0.0, 1000.0), &cfg, &root);
    assert_eq!(
        air_shaping(&prev, &cur, 0, 0.9954, &cfg, &root),
        0.3 * (0.9954 * phi - phi)
    );
}

#[test]
fn half_configured_aerial_is_rejected_not_nan() {
    let mut c = RewardConfig { goal: 10.0, ..off() };
    c.aerial_touch = 1.5;
    assert_eq!(c.validate(), Err(RewardError::AerialRamp));
    c.aerial_z_lo = 10.0;
    c.aerial_z_hi = 1400.0;
    assert_eq!(c.validate(), Err(RewardError::AerialFloor));
    c.aerial_z_lo = 400.0;
    assert!(c.validate().is_ok());
    c.aerial_z_hi = 400.0;
    assert_eq!(c.validate(), Err(RewardError::AerialRamp));
    c.aerial_z_hi = 1400.0;
    c.air_setup = 0.3;
    assert_eq!(c.validate(), Err(RewardError::SetupGamma));
    c.win_prob_gamma = 0.9954;
    assert!(c.validate().is_ok());
}

#[test]
fn compute_terms_sums_to_compute() {
    let cfg = v9_cfg();
    let (prev, cur) = synth(
        [0.0, 0.0, 1000.0],
        [0.0; 3],
        [0.0, 1900.0, 0.0],
        &[(Team::Blue, [0.0, -220.0, 1000.0], true)],
    );
    let mut t = [0.0f64; N_TERMS];
    let r = terms(&prev, &cur, 0, Some(Team::Blue), &cfg, &mut t);
    let plain = reward(&prev, &cur, 0, Some(Team::Blue), &cfg);
    assert_eq!(r, plain, "compute() must be compute_terms() with the counters discarded");
    let sum: f64 = t[T_GOAL..=T_AERIAL_TOUCH].iter().sum();
    assert!((sum - r as f64).abs() < 1e-5, "terms {sum} != total {r}");

    let bcfg = RewardConfig { boost_pickup: 0.2, ..v9_cfg() };
    let (mut bprev, mut bcur) = boost_pair();
    bprev.cars[0].state.boost = 0.0;
    bcur.cars[0].state.boost = 60.0;
    let mut bt = [0.0f64; N_TERMS];
    let br = terms(&bprev, &bcur, 0, Some(Team::Blue), &bcfg, &mut bt);
    assert!(bt[T_BOOST_PICKUP] > 0.0, "precondition: the appended term pays");
    let bsum: f64 = bt[T_GOAL..=T_AERIAL_TOUCH].iter().sum::<f64>() + bt[T_BOOST_PICKUP];
    assert!((bsum - br as f64).abs() < 1e-5, "terms {bsum} != total {br}");

    let hcfg = RewardConfig { air_hang: 0.008, ..v9_cfg() };
    let (hprev, hcur) = hang_pair(HANG - 0.1, HANG + 0.05);
    let mut ht = [0.0f64; N_TERMS];
    let hr = terms(&hprev, &hcur, 0, Some(Team::Blue), &hcfg, &mut ht);
    assert!(ht[T_AIR_HANG] > 0.0, "precondition: the appended term pays");
    let hsum: f64 =
        ht[T_GOAL..=T_AERIAL_TOUCH].iter().sum::<f64>() + ht[T_BOOST_PICKUP] + ht[T_AIR_HANG];
    assert!((hsum - hr as f64).abs() < 1e-5, "terms {hsum} != total {hr}");
}

fn boost_pair() -> (GameState<f32>, GameState<f32>) {
    synth(
        [0.0, 0.0, 800.0],
        [0.0, 0.0, 0.0],
        [0.0, 1800.0, 0.0],
        &[(Team::Blue, [0.0, -200.0, 700.0], true)],
    )
}

fn boost_terms(b0: f32, b1: f32, w: f32) -> [f64; N_TERMS] {
    let (mut prev, mut cur) = boost_pair();
    prev.cars[0].state.boost = b0;
    cur.cars[0].state.boost = b1;
    let cfg = RewardConfig { boost_pickup: w, ..off() };
    let mut t = [0.0f64; N_TERMS];
    terms(&prev, &cur, 0, None, &cfg, &mut t);
    t
}

fn boost_pay(b0: f32, b1: f32) -> f64 {
    boost_terms(b0, b1, 0.2)[T_BOOST_PICKUP]
}

#[test]
fn boost_pickup_pays_on_sqrt_of_amount_gained() {
    let t = boost_terms(0.0, 100.0, 0.2);
    assert!((t[T_BOOST_PICKUP] - 0.2).abs() < 1e-6, "got {}", t[T_BOOST_PICKUP]);
    assert!((t[T_BOOST_GAINED] - 100.0).abs() < 1e-6, "the instrument counts raw units");
    let t2 = boost_terms(0.0, 12.0, 0.2);
    assert!((t2[T_BOOST_PICKUP] - 0.2 * 0.34641).abs() < 1e-5, "got {}", t2[T_BOOST_PICKUP]);
}

#[test]
fn a_pad_pays_only_to_the_extent_the_boost_was_needed() {
    assert_eq!(boost_pay(100.0, 100.0), 0.0, "a full car gains nothing from a pad");
    let empty_big = boost_pay(0.0, 100.0);
    let nearly_full_big = boost_pay(88.0, 100.0);
    assert!(nearly_full_big > 0.0, "12 units gained is still worth something");
    assert!(nearly_full_big < empty_big / 10.0, "{nearly_full_big} vs {empty_big}");
    assert!(boost_pay(0.0, 12.0) > nearly_full_big, "need beats quantity");
}

#[test]
fn spending_boost_is_never_penalised() {
    let t = boost_terms(100.0, 40.0, 0.2);
    assert_eq!(t[T_BOOST_PICKUP], 0.0, "burning boost must cost nothing");
    assert_eq!(t[T_BOOST_GAINED], 0.0, "and must not register as a pickup");
}

#[test]
fn boost_pickup_defaults_to_zero_reward() {
    let (mut prev, mut cur) = boost_pair();
    prev.cars[0].state.boost = 0.0;
    cur.cars[0].state.boost = 100.0;
    let mut t = [0.0f64; N_TERMS];
    let r = terms(&prev, &cur, 0, None, &off(), &mut t);
    assert_eq!(t[T_BOOST_PICKUP], 0.0, "unset coefficient pays nothing");
    assert_eq!(r, 0.0, "an all-zero tape pays nothing across a pickup");
    assert!((t[T_BOOST_GAINED] - 100.0).abs() < 1e-6, "but the instrument still records");
}

#[test]
fn a_monotone_climb_pays_the_same_however_it_is_split() {
    let ladder = [0.0f32, 12.0, 24.0, 36.0, 48.0, 60.0, 72.0, 84.0, 96.0, 100.0];
    let split: f64 = ladder.windows(2).map(|w| boost_pay(w[0], w[1])).sum();
    let single = boost_pay(0.0, 100.0);
    assert!((split - single).abs() < 1e-6, "{split} vs {single}");
}

#[test]
fn burn_and_recollect_out_earns_one_full_refill_per_boost_unit() {
    let per_unit_small = boost_pay(0.0, 12.0) / 12.0;
    let per_unit_big = boost_pay(0.0, 100.0) / 100.0;
    assert!((per_unit_small / per_unit_big - 2.887).abs() < 0.01);
    assert!(boost_pay(0.0, 12.0) * 8.0 > boost_pay(0.0, 100.0) * 2.0);
}

#[test]
fn a_demo_respawn_is_not_a_pad_pickup() {
    let (mut prev, mut cur) = boost_pair();
    prev.cars[0].state.is_demoed = true;
    prev.cars[0].state.boost = 0.0;
    cur.cars[0].state.is_demoed = false;
    cur.cars[0].state.boost = 100.0 / 3.0;
    let cfg = RewardConfig { boost_pickup: 0.2, ..off() };
    let mut t = [0.0f64; N_TERMS];
    terms(&prev, &cur, 0, None, &cfg, &mut t);
    assert_eq!(t[T_BOOST_PICKUP], 0.0, "respawn boost must not pay");
    assert_eq!(t[T_BOOST_GAINED], 0.0, "and must not inflate the instrument");
}

#[test]
fn a_negative_boost_cannot_produce_a_nan() {
    let (mut prev, mut cur) = boost_pair();
    prev.cars[0].state.boost = -5.0;
    cur.cars[0].state.boost = 25.0;
    let cfg = RewardConfig { boost_pickup: 0.2, ..off() };
    let mut t = [0.0f64; N_TERMS];
    let r = terms(&prev, &cur, 0, None, &cfg, &mut t);
    assert!(r.is_finite(), "reward must stay finite; got {r}");
    assert!(t.iter().all(|x| x.is_finite()), "no term may be NaN: {t:?}");
    assert!((t[T_BOOST_PICKUP] - 0.2 * 0.5).abs() < 1e-6, "got {}", t[T_BOOST_PICKUP]);
}

#[test]
fn flip_events_counts_the_flip_rising_edge() {
    let (mut prev, mut cur) = boost_pair();
    prev.cars[0].state.has_flipped = false;
    cur.cars[0].state.has_flipped = true;
    let mut t = [0.0f64; N_TERMS];
    terms(&prev, &cur, 0, None, &off(), &mut t);
    assert_eq!(t[T_FLIP_EVENTS], 1.0, "rising edge is one flip");

    let mut t2 = [0.0f64; N_TERMS];
    prev.cars[0].state.has_flipped = true;
    terms(&prev, &cur, 0, None, &off(), &mut t2);
    assert_eq!(t2[T_FLIP_EVENTS], 0.0, "held-high must not double count");
}

#[test]
fn a_double_jump_is_not_a_flip() {
    // a double jump spends the flip and leaves `has_flipped` down
    let (mut prev, mut cur) = boost_pair();
    prev.cars[0].state.has_flipped = false;
    prev.cars[0].state.has_flip_or_jump = true;
    cur.cars[0].state.has_flipped = false;
    cur.cars[0].state.has_flip_or_jump = false;
    let mut t = [0.0f64; N_TERMS];
    terms(&prev, &cur, 0, None, &off(), &mut t);
    assert_eq!(t[T_FLIP_EVENTS], 0.0, "a double jump must not count as a flip");
}

#[test]
fn term_names_covers_every_index_and_is_unique() {
    assert_eq!(TERM_NAMES[T_BOOST_PICKUP], "boost_pickup");
    assert_eq!(TERM_NAMES[T_BOOST_GAINED], "boost_gained");
    assert_eq!(TERM_NAMES[T_FLIP_EVENTS], "flip_events");
    assert_eq!(TERM_NAMES[T_AIR_HANG], "air_hang");
    assert_eq!(TERM_NAMES[T_AIR_HANG_EVENTS], "air_hang_events");
    assert_eq!(TERM_NAMES[T_AIR_DECISIONS], "air_decisions");
    assert_eq!(T_FLIP_EVENTS, 22, "index 22 is flip_events forever");
    assert_eq!(T_AIR_DECISIONS, N_TERMS - 1, "the air-hang trio is the LAST three");
    let mut seen = std::collections::HashSet::new();
    for n in TERM_NAMES {
        assert!(seen.insert(n), "duplicate term name {n}");
    }
}

fn hang_pair(t0: f32, t1: f32) -> (GameState<f32>, GameState<f32>) {
    let (mut prev, mut cur) = boost_pair();
    prev.cars[0].state.air_time_since_jump = t0;
    cur.cars[0].state.air_time_since_jump = t1;
    (prev, cur)
}

fn hang_terms(t0: f32, t1: f32, w: f32) -> [f64; N_TERMS] {
    let (prev, cur) = hang_pair(t0, t1);
    let cfg = RewardConfig { air_hang: w, ..off() };
    let mut t = [0.0f64; N_TERMS];
    terms(&prev, &cur, 0, None, &cfg, &mut t);
    t
}

#[test]
fn the_hang_gate_fires_once_on_the_crossing_and_never_on_the_level() {
    assert_eq!(air_hang_t::<f32>(), HANG);
    let w = 0.008;
    let t = hang_terms(HANG - 0.1, HANG + 0.05, w);
    assert_eq!(t[T_AIR_HANG_EVENTS], 1.0, "the crossing is one event");
    assert!((t[T_AIR_HANG] - w as f64).abs() < 1e-9, "got {}", t[T_AIR_HANG]);

    let held = hang_terms(HANG + 0.05, HANG + 0.12, w);
    assert_eq!(held[T_AIR_HANG_EVENTS], 0.0, "held-high must not double count");
    assert_eq!(held[T_AIR_HANG], 0.0);

    let short = hang_terms(0.5, HANG - 0.01, w);
    assert_eq!(short[T_AIR_HANG_EVENTS], 0.0, "below the threshold pays nothing");

    let exact = hang_terms(HANG - 0.1, HANG, w);
    assert_eq!(exact[T_AIR_HANG_EVENTS], 1.0, "reaching it exactly is a crossing");
}

#[test]
fn the_hang_gate_reads_the_post_jump_clock_not_raw_air_time() {
    let (prev, cur) = hang_pair(0.0, 0.0);
    let cfg = RewardConfig { air_hang: 0.008, ..off() };
    let mut t = [0.0f64; N_TERMS];
    let r = terms(&prev, &cur, 0, None, &cfg, &mut t);
    assert_eq!(t[T_AIR_HANG_EVENTS], 0.0, "air the car never jumped for does not qualify");
    assert_eq!(r, 0.0, "and must not move the reward at all");
    assert_eq!(t[T_AIR_DECISIONS], 1.0, "but the duty instrument still counts it");
}

#[test]
fn a_crossing_on_the_landing_decision_is_not_paid() {
    let (mut prev, mut cur) = hang_pair(HANG - 0.1, HANG + 0.05);
    cur.cars[0].state.is_on_ground = true;
    let cfg = RewardConfig { air_hang: 0.008, ..off() };
    let mut t = [0.0f64; N_TERMS];
    terms(&prev, &cur, 0, None, &cfg, &mut t);
    assert_eq!(t[T_AIR_HANG_EVENTS], 0.0, "a landed car is not hanging");
    assert_eq!(t[T_AIR_HANG], 0.0);
    assert_eq!(t[T_AIR_DECISIONS], 0.0, "and the duty instrument agrees");

    prev.cars[0].state.is_on_ground = false;
    cur.cars[0].state.is_on_ground = false;
    let mut air = [0.0f64; N_TERMS];
    terms(&prev, &cur, 0, None, &cfg, &mut air);
    assert_eq!(air[T_AIR_HANG_EVENTS], 1.0);
}

#[test]
fn air_hang_defaults_to_zero_reward_but_the_instrument_still_records() {
    let (prev, cur) = hang_pair(HANG - 0.1, HANG + 0.05);
    let mut t = [0.0f64; N_TERMS];
    let r = terms(&prev, &cur, 0, None, &off(), &mut t);
    assert_eq!(r, 0.0, "an all-zero tape pays nothing across a crossing");
    assert_eq!(t[T_AIR_HANG], 0.0, "unset coefficient pays nothing");
    assert_eq!(t[T_AIR_HANG_EVENTS], 1.0, "but the ruler records");
}

#[test]
fn air_decisions_counts_airborne_decisions_and_nothing_else() {
    let (mut prev, mut cur) = boost_pair();
    let mut t = [0.0f64; N_TERMS];
    terms(&prev, &cur, 0, None, &off(), &mut t);
    assert_eq!(t[T_AIR_DECISIONS], 1.0, "an airborne decision counts");
    assert_eq!(t[T_AGENT_STEPS], 1.0, "the duty denominator is agent_steps");

    prev.cars[0].state.is_on_ground = true;
    cur.cars[0].state.is_on_ground = true;
    let mut g = [0.0f64; N_TERMS];
    terms(&prev, &cur, 0, None, &off(), &mut g);
    assert_eq!(g[T_AIR_DECISIONS], 0.0, "a grounded decision is not air time");
    assert_eq!(g[T_AGENT_STEPS], 1.0);
}

#[test]
fn each_shaping_formula_gives_its_exact_value() {
    // a car 1000 behind a ball at rest, driving straight at it at 1150
    let (mut prev, mut cur) = synth(
        [0.0, 0.0, 100.0],
        [0.0; 3],
        [0.0; 3],
        &[(Team::Blue, [0.0, -1000.0, 100.0], false)],
    );
    for gs in [&mut prev, &mut cur] {
        gs.cars[0].state.vel = v(0.0, 1150.0, 0.0);
    }
    let mut t = [0.0f64; N_TERMS];
    let c = RewardConfig { vel_to_ball: 2.0, ..off() };
    assert_eq!(terms(&prev, &cur, 0, None, &c, &mut t), 1.0, "half of full speed, twice");
    assert_eq!(t[T_VEL_TO_BALL], 1.0);

    // the ball flies at the orange goal at half of its top speed
    let mut t = [0.0f64; N_TERMS];
    let mut flying = cur.clone();
    flying.ball.pos = v(0.0, 0.0, 642.775 / 2.0);
    flying.ball.vel = v(0.0, 3000.0, 0.0);
    let c = RewardConfig { vel_ball_to_goal: 1.0, ..off() };
    let r = terms(&prev, &flying, 0, None, &c, &mut t);
    assert!((r - 0.5).abs() < 1e-3, "got {r}");
    assert_eq!(t[T_VEL_BALL_TO_GOAL], r as f64);

    let mut t = [0.0f64; N_TERMS];
    let c = RewardConfig { offensive_potential: 1.0, ..off() };
    let r = terms(&prev, &cur, 0, None, &c, &mut t);
    assert_eq!(t[T_OFFENSIVE_POTENTIAL], r as f64);
    assert!(r > 0.0 && r <= 1.0);

    // a goal counts once and pays by side
    let mut t = [0.0f64; N_TERMS];
    let c = RewardConfig { goal: 10.0, aggression_bias: 0.25, ..off() };
    assert_eq!(terms(&prev, &cur, 0, Some(Team::Blue), &c, &mut t), 10.0);
    assert_eq!(terms(&prev, &cur, 0, Some(Team::Orange), &c, &mut t), -7.5);
    assert_eq!(t[T_GOAL_EVENTS], 2.0);
    assert_eq!(t[T_GOAL], 2.5);
}
