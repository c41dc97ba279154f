//! The library against the formulas written out in plain arithmetic, on random
//! states.

use construct_engine::curriculum::{random_reset, RandomStateBounds, Trig};
use construct_engine::obs_advanced::{
    boost_location, build_advanced_obs_one_other, rlgym_to_canon, ADV_OBS_SIZE,
};
use construct_engine::obs_necto::{build_necto_obs, NectoTimers};
use construct_engine::obs_v1::{build, ENT_FEAT, MAX_ENT};
use construct_engine::pads::mirror_pad_perm;
use construct_engine::reward::config::RewardConfig;
use construct_engine::reward::terms::{compute_terms, N_TERMS};
use construct_engine::sampler::{sample_categorical, Pcg32};
use construct_engine::schema::Normalization;
use construct_engine::sim::{
    mir, BallHitInfo, BallState, BoostPad, CarInfo, CarState, GameState, RotMat, Team, Vec3,
};

fn v(x: f32, y: f32, z: f32) -> Vec3<f32> {
    Vec3 { x, y, z }
}

struct Dice(Pcg32);

impl Dice {
    fn num(&mut self, lo: f32, hi: f32) -> f32 {
        lo + self.0.next_f32::<f32>() * (hi - lo)
    }

    fn yes(&mut self) -> bool {
        self.0.next_u32() % 2 == 0
    }

    fn vec(&mut self, k: f32) -> Vec3<f32> {
        v(self.num(-k, k), self.num(-k, k), self.num(-k, k))
    }

    fn car(&mut self, id: u32, team: Team) -> CarInfo<f32> {
        let hit = self.0.next_u32() as u64 % 40;
        CarInfo {
            id,
            team,
            state: CarState {
                pos: v(self.num(-4000.0, 4000.0), self.num(-5000.0, 5000.0), self.num(17.0, 1900.0)),
                rot_mat: RotMat { forward: self.vec(1.0), right: self.vec(1.0), up: self.vec(1.0) },
                vel: self.vec(2300.0),
                ang_vel: self.vec(5.5),
                boost: self.num(-1.0, 100.0),
                is_on_ground: self.yes(),
                is_demoed: self.yes(),
                has_flipped: self.yes(),
                has_flip_or_jump: self.yes(),
                air_time_since_jump: self.num(0.0, 2.4),
                ball_hit_info: BallHitInfo { is_valid: self.yes(), tick_count_when_hit: hit },
            },
        }
    }

    fn state(&mut self, tick: u64, teams: &[Team]) -> GameState<f32> {
        let mut pads = Vec::new();
        for j in 0..34 {
            let l = boost_location(j);
            pads.push(BoostPad {
                position: v(l[0] as f32, l[1] as f32, l[2] as f32),
                is_big: l[2] == 73,
                is_active: self.yes(),
                cooldown: self.num(0.0, 10.0),
            });
        }
        pads.rotate_left(5);
        GameState {
            tick_count: tick,
            ball: BallState {
                pos: v(self.num(-4000.0, 4000.0), self.num(-5000.0, 5000.0), self.num(93.0, 1900.0)),
                vel: self.vec(3000.0),
                ang_vel: self.vec(6.0),
            },
            cars: teams.iter().enumerate().map(|(i, t)| self.car(9 - i as u32, *t)).collect(),
            pads,
        }
    }

    fn weights(&mut self) -> RewardConfig<f32> {
        RewardConfig {
            goal: self.num(1.0, 20.0),
            touch: self.num(0.1, 1.0),
            vel_to_ball: self.num(0.01, 0.5),
            aggression_bias: self.num(-0.3, 0.3),
            touch_accel: self.num(0.1, 2.0),
            vel_ball_to_goal: self.num(0.1, 1.0),
            offensive_potential: self.num(0.1, 1.0),
            team_spirit: 0.0,
            opp_spirit: 0.0,
            win_prob_weight: 0.0,
            win_prob_k_base: 0.0,
            win_prob_t_floor: 0.0,
            win_prob_gamma: 0.0,
            touch_cooldown_ticks: self.0.next_u32() % 12,
            aerial_touch: self.num(0.5, 2.0),
            aerial_z_lo: self.num(100.0, 500.0),
            aerial_z_hi: self.num(800.0, 1500.0),
            air_setup: 0.0,
            aerial_meas_z_lo: if self.yes() { 0.0 } else { self.num(100.0, 900.0) },
            air_setup_z_lo: 0.0,
            air_setup_z_hi: 0.0,
            boost_pickup: self.num(0.1, 0.5),
            air_hang: self.num(0.001, 0.01),
        }
    }
}

fn expected_terms(
    prev: &GameState<f32>,
    cur: &GameState<f32>,
    i: usize,
    scored: Option<Team>,
    cfg: &RewardConfig<f32>,
    t: &mut [f64; N_TERMS],
) -> f32 {
    let team = cur.cars[i].team;
    let me = &cur.cars[i].state;
    let was = &prev.cars[i].state;
    let mut r = 0.0f32;
    t[12] += 1.0;
    if !was.is_demoed {
        let gained = me.boost - was.boost;
        if gained > 0.0 {
            t[21] += gained as f64;
            let g = (me.boost.max(0.0).sqrt() - was.boost.max(0.0).sqrt()) / 10.0;
            if g > 0.0 {
                r += cfg.boost_pickup * g;
                t[20] += (cfg.boost_pickup * g) as f64;
            }
        }
    }
    if me.has_flipped && !was.has_flipped {
        t[22] += 1.0;
    }
    if !me.is_on_ground && !me.is_demoed {
        t[25] += 1.0;
    }
    if !me.is_on_ground && was.air_time_since_jump < 1.2 && me.air_time_since_jump >= 1.2 {
        t[24] += 1.0;
        r += cfg.air_hang;
        t[23] += cfg.air_hang as f64;
    }
    if let Some(s) = scored {
        let g = if s == team { cfg.goal } else { -cfg.goal * (1.0 - cfg.aggression_bias) };
        r += g;
        t[0] += g as f64;
        t[11] += 1.0;
    }
    let (now, before) = (&me.ball_hit_info, &was.ball_hit_info);
    let (tn, tb) = (now.tick_count_when_hit, before.tick_count_when_hit);
    let touched = now.is_valid && tn != tb && tn > prev.tick_count && tn <= cur.tick_count;
    let paid = cfg.touch_cooldown_ticks == 0
        || !before.is_valid
        || tn < tb
        || tn - tb >= cfg.touch_cooldown_ticks as u64;
    let bp = cur.ball.pos;
    if touched {
        t[9] += 1.0;
        if !me.is_on_ground {
            t[10] += 1.0;
            let b = [150.0, 300.0, 500.0, 800.0, 1200.0].iter().filter(|e| bp.z >= **e).count();
            t[14 + b] += 1.0;
            let lo = if cfg.aerial_meas_z_lo > 0.0 { cfg.aerial_meas_z_lo } else { cfg.aerial_z_lo };
            if cfg.aerial_z_hi > cfg.aerial_z_lo && bp.z > lo {
                t[13] += 1.0;
            }
        }
        if paid {
            r += cfg.touch;
            t[1] += cfg.touch as f64;
        }
    }
    let d = [bp.x - me.pos.x, bp.y - me.pos.y, bp.z - me.pos.z];
    let dist = (d[0] * d[0] + d[1] * d[1] + d[2] * d[2]).sqrt().max(1e-6);
    let proj = (me.vel.x * d[0] + me.vel.y * d[1] + me.vel.z * d[2]) / dist;
    let toward = (proj / 2300.0).clamp(0.0, 1.0);
    r += cfg.vel_to_ball * toward;
    t[2] += (cfg.vel_to_ball * toward) as f64;
    let goal_y: f32 = if team == Team::Blue { 5120.0 } else { -5120.0 };
    let (b1, b0) = (cur.ball.vel, prev.ball.vel);
    let dv = [b1.x - b0.x, b1.y - b0.y, b1.z - b0.z];
    let dvn = (dv[0] * dv[0] + dv[1] * dv[1] + dv[2] * dv[2]).sqrt();
    if touched {
        let ta = cfg.touch_accel * (dvn / 2300.0).clamp(0.0, 1.0);
        r += ta;
        t[3] += ta as f64;
    }
    let g = [0.0 - bp.x, goal_y - bp.y];
    let gn = (g[0] * g[0] + g[1] * g[1]).sqrt().max(1e-6);
    let vbg = cfg.vel_ball_to_goal * ((b1.x * g[0] + b1.y * g[1]) / gn / 6000.0).clamp(-1.0, 1.0);
    r += vbg;
    t[4] += vbg as f64;
    let cb = [bp.x - me.pos.x, bp.y - me.pos.y];
    let cbn = (cb[0] * cb[0] + cb[1] * cb[1]).sqrt().max(1e-6);
    let align = ((cb[0] * g[0] + cb[1] * g[1]) / (cbn * gn)).clamp(0.0, 1.0);
    let op = cfg.offensive_potential * (toward * align).sqrt();
    r += op;
    t[5] += op as f64;
    if touched && !me.is_on_ground && paid {
        let h = ((bp.z - cfg.aerial_z_lo) / (cfg.aerial_z_hi - cfg.aerial_z_lo)).clamp(0.0, 1.0);
        let fwd = (goal_y.signum() * dv[1] / 2300.0).clamp(-1.0, 1.0);
        let n = dvn.max(1e-6);
        let mine = ((dv[0] * d[0] + dv[1] * d[1] + dv[2] * d[2]) / n / dist).clamp(0.0, 1.0);
        let at = cfg.aerial_touch * h * fwd * mine;
        r += at;
        t[6] += at as f64;
    }
    r
}

#[test]
fn rewards_follow_their_formulas() {
    let mut dice = Dice(Pcg32::new(71));
    let teams = [Team::Orange, Team::Blue];
    let mut touches = 0.0;
    for _ in 0..3000 {
        let prev = dice.state(10, &teams);
        let cur = dice.state(34, &teams);
        let cfg = dice.weights();
        let scored = match dice.0.next_u32() % 3 {
            0 => None,
            1 => Some(Team::Blue),
            _ => Some(Team::Orange),
        };
        for i in 0..2 {
            let mut got = [0.0f64; N_TERMS];
            let mut want = [0.0f64; N_TERMS];
            let r = compute_terms(&prev, &cur, i, scored, &cfg, &mut got, &|x: f32| x.sqrt());
            let e = expected_terms(&prev, &cur, i, scored, &cfg, &mut want);
            assert_eq!(r, e);
            assert_eq!(got, want);
            touches += got[9];
        }
    }
    assert!(touches > 500.0, "the states must exercise touches");
}

fn expected_advanced(gs: &GameState<f32>, i: usize, o: usize, prev: &[f32; 8]) -> Vec<f32> {
    let m = gs.cars[i].team == Team::Orange;
    let mut out = Vec::new();
    let k = 1.0 / 2300.0f32;
    let a = 1.0 / std::f32::consts::PI;
    let mut put = |w: Vec3<f32>, k: f32| out.extend_from_slice(&[w.x * k, w.y * k, w.z * k]);
    put(mir(gs.ball.pos, m), k);
    put(mir(gs.ball.vel, m), k);
    put(mir(gs.ball.ang_vel, m), a);
    out.extend_from_slice(prev);
    for j in 0..34 {
        let l = boost_location(if m { 33 - j } else { j });
        let p = gs
            .pads
            .iter()
            .find(|p| p.position.x == l[0] as f32 && p.position.y == l[1] as f32)
            .unwrap();
        out.push(p.is_active as u8 as f32);
    }
    let sub = |a: Vec3<f32>, b: Vec3<f32>| v(a.x - b.x, a.y - b.y, a.z - b.z);
    for c in [i, o] {
        let s = &gs.cars[c].state;
        let mut put = |w: Vec3<f32>, k: f32| out.extend_from_slice(&[w.x * k, w.y * k, w.z * k]);
        put(mir(sub(gs.ball.pos, s.pos), m), k);
        put(mir(sub(gs.ball.vel, s.vel), m), k);
        put(mir(s.pos, m), k);
        put(mir(s.rot_mat.forward, m), 1.0);
        put(mir(s.rot_mat.up, m), 1.0);
        put(mir(s.vel, m), k);
        put(mir(s.ang_vel, m), a);
        out.push(s.boost / 100.0);
        out.push(s.is_on_ground as u8 as f32);
        out.push(s.has_flip_or_jump as u8 as f32);
        out.push(s.is_demoed as u8 as f32);
    }
    let (me, other) = (&gs.cars[i].state, &gs.cars[o].state);
    let mut put = |w: Vec3<f32>, k: f32| out.extend_from_slice(&[w.x * k, w.y * k, w.z * k]);
    put(sub(mir(other.pos, m), mir(me.pos, m)), k);
    put(sub(mir(other.vel, m), mir(me.vel, m)), k);
    out
}

#[test]
fn one_other_rows_follow_their_layout() {
    let mut dice = Dice(Pcg32::new(5));
    for _ in 0..200 {
        let gs = dice.state(1, &[Team::Orange, Team::Blue, Team::Blue]);
        let canon = rlgym_to_canon(&gs.pads);
        let prev = [0.1, 0.2, 0.3, 0.4, 0.5, 0.6, 0.7, 0.8];
        for (i, o) in [(0, 1), (1, 0), (2, 0), (0, 2)] {
            let got =
                build_advanced_obs_one_other(&gs, i, o, &prev, &canon, std::f32::consts::PI);
            assert_eq!(got.len(), ADV_OBS_SIZE);
            assert_eq!(got, expected_advanced(&gs, i, o, &prev));
        }
    }
}

/// The timers and rows of the entity observation, kept in plain vectors.
struct Clocks {
    boost: [f32; 34],
    demo: Vec<f32>,
}

fn expected_entities(
    gs: &GameState<f32>,
    i: usize,
    prev: &[f32; 8],
    clocks: &mut Clocks,
) -> (Vec<f32>, Vec<f32>) {
    let n = gs.cars.len();
    let mut order: Vec<usize> = (0..n).collect();
    order.sort_by_key(|&c| gs.cars[c].id);
    for t in clocks.demo.iter_mut() {
        *t = if *t <= 0.0 { 3.0 } else { (*t - 8.0 / 120.0).max(0.0) };
    }
    let mut emit = [0.0f32; 34];
    for j in 0..34 {
        let l = boost_location(j);
        let p = gs
            .pads
            .iter()
            .find(|p| p.position.x == l[0] as f32 && p.position.y == l[1] as f32)
            .unwrap();
        if p.is_active && clocks.boost[j] == 0.0 {
            clocks.boost[j] = 0.4 + 0.6 * ((l[2] > 72) as u8 as f32);
        }
        clocks.boost[j] *= p.is_active as u8 as f32;
        emit[j] = clocks.boost[j];
        clocks.boost[j] = (clocks.boost[j] - 8.0 / 1200.0).max(0.0);
    }
    let mut kv = vec![[0.0f32; 24]; 1 + n + 34];
    let fill = |row: &mut [f32; 24], at: usize, w: Vec3<f32>| {
        row[at] = w.x;
        row[at + 1] = w.y;
        row[at + 2] = w.z;
    };
    kv[0][3] = 1.0;
    fill(&mut kv[0], 5, gs.ball.pos);
    fill(&mut kv[0], 8, gs.ball.vel);
    fill(&mut kv[0], 17, gs.ball.ang_vel);
    for (pi, &ci) in order.iter().enumerate() {
        let row = &mut kv[1 + pi];
        let s = &gs.cars[ci].state;
        row[if gs.cars[ci].team == Team::Blue { 1 } else { 2 }] = 1.0;
        fill(row, 5, s.pos);
        fill(row, 8, s.vel);
        fill(row, 11, s.rot_mat.forward);
        fill(row, 14, s.rot_mat.up);
        fill(row, 17, s.ang_vel);
        row[20] = s.boost / 100.0;
        row[21] = clocks.demo[pi] / 10.0;
        row[22] = s.is_on_ground as u8 as f32;
        row[23] = s.has_flip_or_jump as u8 as f32;
    }
    for j in 0..34 {
        let row = &mut kv[1 + n + j];
        let l = boost_location(j);
        row[4] = 1.0;
        fill(row, 5, v(l[0] as f32, l[1] as f32, l[2] as f32));
        row[20] = 0.12 + 0.88 * ((l[2] > 72) as u8 as f32);
        row[21] = emit[j];
    }
    for row in kv.iter_mut() {
        for x in row[5..11].iter_mut() {
            *x /= 2300.0;
        }
        for x in row[17..20].iter_mut() {
            *x /= 5.5;
        }
    }
    let me = 1 + order.iter().position(|&c| c == i).unwrap();
    kv[me][0] = 1.0;
    if gs.cars[i].team == Team::Orange {
        for row in kv.iter_mut() {
            row.swap(1, 2);
            for (k, x) in row.iter_mut().enumerate() {
                if (5..20).contains(&k) && (k - 5) % 3 != 2 {
                    *x *= -1.0;
                }
            }
        }
    }
    let mut q: Vec<f32> = kv[me].to_vec();
    q.extend_from_slice(prev);
    for row in kv.iter_mut() {
        for k in 5..11 {
            row[k] -= q[k];
        }
    }
    (q, kv.into_iter().flatten().collect())
}

#[test]
fn entity_lists_follow_their_layout() {
    let mut dice = Dice(Pcg32::new(88));
    let teams = [Team::Orange, Team::Blue, Team::Orange, Team::Blue];
    for viewer in 0..4 {
        let mut timers = NectoTimers::new(4);
        let mut clocks = Clocks { boost: [0.0; 34], demo: vec![0.0; 4] };
        for frame in 0..120u64 {
            let gs = dice.state(8 * frame, &teams);
            let canon = rlgym_to_canon(&gs.pads);
            let prev = [0.5; 8];
            let got = build_necto_obs(&gs, viewer, &prev, &mut timers, &canon);
            let (q, kv) = expected_entities(&gs, viewer, &prev, &mut clocks);
            assert_eq!(got.q, q, "viewer {viewer} frame {frame}");
            assert_eq!(got.kv, kv, "viewer {viewer} frame {frame}");
        }
    }
}

#[test]
fn entity_tables_follow_their_layout() {
    let mut dice = Dice(Pcg32::new(17));
    let n = Normalization { pos_norm: 0.25f32, vel_norm: 0.5, ang_vel_norm: 2.0 };
    let teams = [Team::Blue, Team::Orange, Team::Blue, Team::Orange, Team::Orange, Team::Orange];
    for _ in 0..100 {
        let gs = dice.state(3, &teams);
        let perm = mirror_pad_perm(&gs.pads);
        let pred = [(); 4].map(|_| construct_engine::ballpred::BallSnap {
            pos: dice.vec(100.0),
            vel: dice.vec(100.0),
        });
        for i in 0..teams.len() {
            let o = build(&gs, i, &pred, &perm, &n);
            let m = teams[i] == Team::Orange;
            let mut rows: Vec<Vec<f32>> = Vec::new();
            let car = |hot: usize, c: &CarInfo<f32>| -> Vec<f32> {
                let s = &c.state;
                let mut r = vec![0.0f32; 26];
                r[hot] = 1.0;
                for (at, w, k) in [
                    (5, s.pos, n.pos_norm),
                    (8, s.vel, n.vel_norm),
                    (11, s.ang_vel, n.ang_vel_norm),
                    (14, s.rot_mat.forward, 1.0),
                    (17, s.rot_mat.up, 1.0),
                ] {
                    let w = mir(w, m);
                    r[at] = w.x * k;
                    r[at + 1] = w.y * k;
                    r[at + 2] = w.z * k;
                }
                r[20] = s.boost / 100.0;
                r[21] = s.is_on_ground as u8 as f32;
                r[22] = s.has_flip_or_jump as u8 as f32;
                r[23] = s.is_demoed as u8 as f32;
                r
            };
            rows.push(car(0, &gs.cars[i]));
            for (hot, slots, mates) in [(1, 2, true), (2, 3, false)] {
                let mut side: Vec<&CarInfo<f32>> = gs
                    .cars
                    .iter()
                    .enumerate()
                    .filter(|(j, c)| *j != i && (c.team == teams[i]) == mates)
                    .map(|(_, c)| c)
                    .collect();
                side.sort_by_key(|c| c.id);
                for k in 0..slots {
                    rows.push(match side.get(k) {
                        Some(c) => car(hot, c),
                        None => vec![0.0; 26],
                    });
                }
            }
            let plain = |hot: Option<usize>, p: Vec3<f32>, w: Vec3<f32>| -> Vec<f32> {
                let mut r = vec![0.0f32; 26];
                if let Some(h) = hot {
                    r[h] = 1.0;
                }
                let (p, w) = (mir(p, m), mir(w, m));
                r[5] = p.x * n.pos_norm;
                r[6] = p.y * n.pos_norm;
                r[7] = p.z * n.pos_norm;
                r[8] = w.x * n.vel_norm;
                r[9] = w.y * n.vel_norm;
                r[10] = w.z * n.vel_norm;
                r
            };
            let mut ball = plain(Some(3), gs.ball.pos, gs.ball.vel);
            let spin = mir(gs.ball.ang_vel, m);
            ball[11] = spin.x * n.ang_vel_norm;
            ball[12] = spin.y * n.ang_vel_norm;
            ball[13] = spin.z * n.ang_vel_norm;
            rows.push(ball);
            let timer = |p: &BoostPad<f32>| if p.is_active { 0.0 } else { p.cooldown / 10.0 };
            let at = |k: usize| if m { perm[k] } else { k };
            for k in (0..34).filter(|k| gs.pads[*k].is_big) {
                let p = &gs.pads[at(k)];
                let mut r = plain(Some(4), p.position, v(0.0, 0.0, 0.0));
                r[8..11].fill(0.0);
                r[20] = timer(p);
                r[21] = p.is_active as u8 as f32;
                rows.push(r);
            }
            for (k, s) in pred.iter().enumerate() {
                let mut r = plain(None, s.pos, s.vel);
                r[24] = (k + 1) as f32 * 0.25;
                rows.push(r);
            }
            assert_eq!(rows.len(), MAX_ENT);
            for (k, r) in rows.iter().enumerate() {
                assert_eq!(&o.ents[k * ENT_FEAT..(k + 1) * ENT_FEAT], &r[..], "slot {k}");
            }
            assert_eq!(&o.query[..26], &rows[0][..]);
            for k in 0..34 {
                assert_eq!(o.query[26 + k], timer(&gs.pads[at(k)]));
            }
            assert_eq!(&o.query[60..], &[0.0; 4]);
        }
    }
}

#[test]
fn random_scenarios_follow_their_draws() {
    let b = RandomStateBounds::<f32>::standard();
    let tau = std::f32::consts::TAU;
    let trig = Trig { cos: |x: f32| x.cos(), sin: |x: f32| x.sin(), tau };
    for seed in 0..100u64 {
        let mut rng = Pcg32::new(seed);
        let s = random_reset(4, &mut rng, &b, &trig);
        let mut d = Dice(Pcg32::new(seed));
        let mut placed: Vec<Vec3<f32>> = Vec::new();
        fn place(d: &mut Dice, lo: f32, hi: f32, placed: &[Vec3<f32>]) -> Vec3<f32> {
            let mut p = v(0.0, 0.0, lo);
            for _ in 0..10 {
                p = v(d.num(-3500.0, 3500.0), d.num(-4500.0, 4500.0), d.num(lo, hi));
                let ok = placed.iter().all(|q| {
                    let (x, y, z) = (p.x - q.x, p.y - q.y, p.z - q.z);
                    x * x + y * y + z * z >= 300.0 * 300.0
                });
                if ok {
                    break;
                }
            }
            p
        }
        fn velocity(d: &mut Dice, max: f32, tau: f32) -> Vec3<f32> {
            let yaw = d.num(0.0, tau);
            let pitch = d.num(-1.2, 1.2);
            let mag = d.0.next_f32::<f32>() * max;
            v(mag * pitch.cos() * yaw.cos(), mag * pitch.cos() * yaw.sin(), mag * pitch.sin())
        }
        let same = |a: Vec3<f32>, c: Vec3<f32>| assert_eq!((a.x, a.y, a.z), (c.x, c.y, c.z));
        let ball = place(&mut d, 93.15, b.z_max, &placed);
        placed.push(ball);
        same(s.ball_pos, ball);
        same(s.ball_vel, velocity(&mut d, b.ball_speed_max, tau));
        for c in &s.cars {
            let grounded = d.0.next_f32::<f32>() < 0.5;
            let (lo, hi) = if grounded { (17.0, 17.0) } else { (100.0, b.z_max) };
            let p = place(&mut d, lo, hi, &placed);
            placed.push(p);
            same(c.pos, p);
            let w = velocity(&mut d, b.car_speed_max, tau);
            same(c.vel, if grounded { v(w.x, w.y, 0.0) } else { w });
            assert_eq!(c.yaw, d.num(0.0, tau));
            let (pitch, roll) =
                if grounded { (0.0, 0.0) } else { (d.num(-1.0, 1.0), d.num(-1.0, 1.0)) };
            assert_eq!((c.pitch, c.roll), (pitch, roll));
            assert_eq!(c.boost, d.num(0.0, 100.0));
            assert_eq!(c.is_on_ground, grounded);
        }
        assert_eq!(rng.next_u32(), d.0.next_u32());
    }
}

#[test]
fn categorical_samples_follow_the_running_sum() {
    let mut dice = Dice(Pcg32::new(2));
    let mut a = Pcg32::new(40);
    let mut b = Pcg32::new(40);
    for _ in 0..500 {
        let logits: Vec<f32> = (0..7).map(|_| dice.num(-3.0, 3.0)).collect();
        let (i, lp) =
            sample_categorical(&logits, &mut a, &|x: f32| x.exp(), &|x: f32| x.ln());
        let max = logits.iter().cloned().fold(f32::NEG_INFINITY, f32::max);
        let exps: Vec<f32> = logits.iter().map(|l| (l - max).exp()).collect();
        let sum: f32 = exps.iter().sum();
        let target = b.next_f32::<f32>() * sum;
        let mut acc = 0.0f32;
        let mut want = logits.len() - 1;
        for (k, e) in exps.iter().enumerate() {
            acc += e;
            if target < acc {
                want = k;
                break;
            }
        }
        assert_eq!(i, want);
        assert!((lp - (exps[i] / sum).ln()).abs() < 1e-5);
    }
}
