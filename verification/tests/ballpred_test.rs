use construct_engine::ballpred::{all_finite, contain_nonfinite, BallSnap};
use construct_engine::sim::{BallState, Vec3};

fn v(x: f32, y: f32, z: f32) -> Vec3<f32> {
    Vec3 { x, y, z }
}

fn flat(s: &[BallSnap<f32>; 4]) -> Vec<f32> {
    s.iter().flat_map(|b| [b.pos.x, b.pos.y, b.pos.z, b.vel.x, b.vel.y, b.vel.z]).collect()
}

#[test]
fn nonfinite_snapshots_collapse_to_input_fallback() {
    let ball =
        BallState { pos: v(100.0, -200.0, 300.0), vel: v(1.0, 2.0, 3.0), ang_vel: v(0.0, 0.0, 0.0) };
    let good = [BallSnap { pos: v(1.0, 2.0, 3.0), vel: v(4.0, 5.0, 6.0) }; 4];
    assert!(all_finite(&good));
    let p = contain_nonfinite(good, &ball);
    assert_eq!(flat(&p.snaps), flat(&good), "finite snaps pass through untouched");
    assert!(!p.rebuild);

    let fb = [BallSnap { pos: ball.pos, vel: ball.vel }; 4];
    let mut bad = good;
    bad[2].pos.y = f32::NAN;
    let p = contain_nonfinite(bad, &ball);
    assert_eq!(flat(&p.snaps), flat(&fb), "any NaN collapses all horizons to the input ball");
    assert!(p.rebuild);

    let mut inf = good;
    inf[0].vel.z = f32::INFINITY;
    assert_eq!(flat(&contain_nonfinite(inf, &ball).snaps), flat(&fb));
}

#[test]
fn a_finite_ball_gives_a_finite_prediction() {
    let ball =
        BallState { pos: v(0.0, 0.0, 93.15), vel: v(0.0, 0.0, 0.0), ang_vel: v(0.0, 0.0, 0.0) };
    let mut out = [BallSnap { pos: v(1.0, 1.0, 1.0), vel: v(1.0, 1.0, 1.0) }; 4];
    out[3].vel.x = f32::NEG_INFINITY;
    assert!(all_finite(&contain_nonfinite(out, &ball).snaps));
}
