use construct_engine::curriculum::{
    rand_range, rand_vel, random_reset, CurriculumConfig, CurriculumError, RandomStateBounds,
    ReplayPoolConfig, Trig,
};
use construct_engine::sampler::Pcg32;
use construct_engine::sim::Vec3;
use std::sync::Arc;

fn weights(kickoff: f32, random: f32, replay: f32, pool: Option<&str>) -> CurriculumConfig<f32> {
    CurriculumConfig {
        kickoff_weight: kickoff,
        random_weight: random,
        replay_weight: replay,
        random: RandomStateBounds::standard(),
        replay_pool: pool.map(|p| ReplayPoolConfig { path: p.to_string(), max_states: 0 }),
        match_mode: false,
        pool: Arc::new(vec![]),
    }
}

fn cos(x: f32) -> f32 {
    x.cos()
}

fn sin(x: f32) -> f32 {
    x.sin()
}

#[test]
fn default_bounds_match_brief() {
    let b = RandomStateBounds::<f32>::standard();
    assert_eq!(b.car_speed_max, 1800.0);
    assert_eq!(b.ball_speed_max, 2500.0);
    assert_eq!(b.z_max, 1700.0);
    assert_eq!(b.min_separation, 300.0);
}

#[test]
fn load_rejects_zero_weights() {
    assert_eq!(weights(0.0, 0.0, 0.0, None).validate(), Err(CurriculumError::Weights));
}

#[test]
fn rejects_negative_replay_weight() {
    assert_eq!(weights(0.5, 0.5, -0.1, None).validate(), Err(CurriculumError::ReplayWeight));
    assert_eq!(weights(-0.5, 0.5, 0.0, None).validate(), Err(CurriculumError::Weights));
}

#[test]
fn rejects_all_zero_weights() {
    assert_eq!(weights(0.0, 0.0, 0.0, None).validate(), Err(CurriculumError::Weights));
    let c = weights(0.0, 0.0, 1.0, Some("/nope.jsonl"));
    assert_eq!(c.validate(), Ok(()));
    assert_eq!(c.replay_weight, 1.0);
}

#[test]
fn replay_weight_without_pool_section_is_an_error() {
    assert_eq!(weights(0.1, 0.2, 0.7, None).validate(), Err(CurriculumError::MissingPool));
}

#[test]
fn missing_pool_file_is_not_a_load_error() {
    let c = weights(0.1, 0.2, 0.7, Some("/nope/absent.jsonl"));
    assert_eq!(c.validate(), Ok(()));
    assert!(c.pool.is_empty());
    assert_eq!(c.replay_weight, 0.7);
    assert_eq!(c.pool_to_load().map(|p| p.path.as_str()), Some("/nope/absent.jsonl"));
    assert!(weights(0.5, 0.5, 0.0, Some("x")).pool_to_load().is_none());
}

#[test]
fn load_rejects_bad_z_max() {
    let mut c = weights(0.5, 0.5, 0.0, None);
    c.random.z_max = 50.0;
    assert_eq!(c.validate(), Err(CurriculumError::ZMax));
    let mut c = weights(0.5, 0.5, 0.0, None);
    c.random.car_speed_max = 0.0;
    assert_eq!(c.validate(), Err(CurriculumError::CarSpeed));
    let mut c = weights(0.5, 0.5, 0.0, None);
    c.random.ball_speed_max = -1.0;
    assert_eq!(c.validate(), Err(CurriculumError::BallSpeed));
    let mut c = weights(0.5, 0.5, 0.0, None);
    c.random.min_separation = -1.0;
    assert_eq!(c.validate(), Err(CurriculumError::Separation));
}

#[test]
fn the_mix_leaves_out_a_pool_that_is_empty() {
    let c = weights(0.1, 0.3, 0.6, Some("p"));
    let (replay, kickoff, random) = c.effective_mix();
    assert_eq!(replay, 0.0);
    assert_eq!(kickoff, 0.1 / (0.0 + 0.1 + 0.3));
    assert_eq!(random, 0.3 / (0.0 + 0.1 + 0.3));
    assert_eq!(c.fallback_mix(), (0.1 / (0.1 + 0.3), 0.3 / (0.1 + 0.3)));
    assert_eq!(weights(0.0, 0.0, 1.0, Some("p")).fallback_mix(), (1.0, 0.0));
}

#[test]
fn a_draw_lies_between_its_bounds() {
    let mut a = Pcg32::new(9);
    let mut b = Pcg32::new(9);
    for _ in 0..100 {
        let x = rand_range(&mut a, -5.0f32, 5.0);
        assert!((-5.0..=5.0).contains(&x));
        assert_eq!(x, -5.0 + b.next_f32::<f32>() * 10.0);
    }
}

#[test]
fn a_velocity_is_no_faster_than_its_bound() {
    let trig = Trig { cos, sin, tau: std::f32::consts::TAU };
    let mut rng = Pcg32::new(3);
    for _ in 0..200 {
        let v = rand_vel(&mut rng, 1800.0, &trig);
        assert!((v.x * v.x + v.y * v.y).sqrt() <= 1800.0 + 1e-2);
    }
}

#[test]
fn random_cars_keep_their_distance() {
    let trig = Trig { cos, sin, tau: std::f32::consts::TAU };
    let b = RandomStateBounds::<f32>::standard();
    for seed in 0..50u64 {
        let mut rng = Pcg32::new(seed);
        let s = random_reset(6, &mut rng, &b, &trig);
        assert_eq!(s.cars.len(), 6);
        let mut all: Vec<Vec3<f32>> = s.cars.iter().map(|c| c.pos).collect();
        all.push(s.ball_pos);
        for i in 0..all.len() {
            for j in 0..i {
                let d = Vec3 {
                    x: all[i].x - all[j].x,
                    y: all[i].y - all[j].y,
                    z: all[i].z - all[j].z,
                };
                let dist = (d.x * d.x + d.y * d.y + d.z * d.z).sqrt();
                assert!(dist >= 300.0 - 1e-2, "seed {seed}: {i} and {j} are {dist} apart");
            }
        }
        for c in &s.cars {
            assert!((0.0..=100.0).contains(&c.boost));
            assert!(c.pos.z <= 1700.0);
            if c.is_on_ground {
                assert_eq!((c.pitch, c.roll), (0.0, 0.0));
            }
        }
    }
}

#[test]
fn random_scenarios_are_reproducible() {
    let trig = Trig { cos, sin, tau: std::f32::consts::TAU };
    let b = RandomStateBounds::<f32>::standard();
    let mut one = Pcg32::new(11);
    let mut two = Pcg32::new(11);
    let a = random_reset(3, &mut one, &b, &trig);
    let c = random_reset(3, &mut two, &b, &trig);
    assert_eq!((a.ball_pos.x, a.ball_vel.y), (c.ball_pos.x, c.ball_vel.y));
    assert_eq!(a.cars[2].yaw, c.cars[2].yaw);
    assert_eq!(one.next_u32(), two.next_u32());
}
