use construct_engine::reset_pool::{
    accept, is_acceptable, quat_to_rotmat, BallSpawn, CarSpawn, Chunk, PoolLoader, Reject,
    RejectCounts, ResetState, BALL_SCORE_Y_TWICE, GOAL_LINE_Y, MAX_BALL_SPEED, MAX_LINE_BYTES,
    RESERVOIR_SEED,
};
use construct_engine::sampler::Pcg32;
use construct_engine::sim::Vec3;

const GOLDEN: &str = r#"{"ball":{"pos":[1377.0392,-1571.8032,93.15],"vel":[355.37018,-410.93005,0.0],"ang_vel":[4.5153623,3.9048707,0.6028991]},"cars":[{"pos":[1136.5748,-1442.4575,17.011116],"vel":[1027.664,-812.5248,0.13396516],"ang_vel":[-0.038042724,0.037549272,-4.791631],"quat":[0.0014666612,0.004585884,-0.32203302,0.9467162],"boost":0.121568635,"team":0,"on_ground":true},{"pos":[1723.522,-569.9986,17.00996],"vel":[1001.0869,-945.01855,-0.0047683716],"ang_vel":[0.0059034913,-0.0074107987,-5.499992],"quat":[0.0026252908,0.004022506,-0.49989405,0.86607325],"boost":0.03512711,"team":1,"on_ground":true}]}"#;

fn golden() -> ResetState<f32> {
    ResetState {
        ball: BallSpawn {
            pos: [1377.0392, -1571.8032, 93.15],
            vel: [355.37018, -410.93005, 0.0],
            ang_vel: [4.5153623, 3.9048707, 0.6028991],
        },
        cars: [
            CarSpawn {
                pos: [1136.5748, -1442.4575, 17.011116],
                vel: [1027.664, -812.5248, 0.13396516],
                ang_vel: [-0.038042724, 0.037549272, -4.791631],
                quat: [0.0014666612, 0.004585884, -0.32203302, 0.9467162],
                boost: 0.121568635,
                team: 0,
                on_ground: true,
            },
            CarSpawn {
                pos: [1723.522, -569.9986, 17.00996],
                vel: [1001.0869, -945.01855, -0.0047683716],
                ang_vel: [0.0059034913, -0.0074107987, -5.499992],
                quat: [0.0026252908, 0.004022506, -0.49989405, 0.86607325],
                boost: 0.03512711,
                team: 1,
                on_ground: true,
            },
        ],
    }
}

fn plain_car(team: u8, pos: [f32; 3]) -> CarSpawn<f32> {
    CarSpawn {
        pos,
        vel: [10.0, 0.0, 0.0],
        ang_vel: [0.1, 0.0, 0.0],
        quat: [0.0, 0.0, 0.0, 1.0],
        boost: 0.5,
        team,
        on_ground: true,
    }
}

fn check(s: &ResetState<f32>) -> Result<(), Reject> {
    accept(s, &|x: f32| x.sqrt())
}

/// Reads `bytes` piece by piece, the way a buffered file is read.
fn load<P: Fn(&[u8]) -> Option<ResetState<f32>>>(
    bytes: &[u8],
    max_states: usize,
    parse: P,
) -> (Vec<ResetState<f32>>, RejectCounts) {
    let mut l = PoolLoader::new(max_states);
    let mut at = 0usize;
    loop {
        let rest = &bytes[at..];
        let cap = rest.len().min(MAX_LINE_BYTES);
        let n = rest[..cap].iter().position(|b| *b == b'\n').map_or(cap, |i| i + 1);
        let raw = rest[..n].to_vec();
        at += n;
        match l.chunk(&raw) {
            Chunk::Stop => break,
            Chunk::Skip => continue,
            Chunk::Parse => l.line(parse(&raw), &|x: f32| x.sqrt()),
        }
    }
    l.finish()
}

/// Parses the golden line and nothing else.
fn golden_only(raw: &[u8]) -> Option<ResetState<f32>> {
    let line = raw.strip_suffix(b"\n").unwrap_or(raw);
    if line == GOLDEN.as_bytes() { Some(golden()) } else { None }
}

#[test]
fn the_golden_state_is_accepted() {
    let s = golden();
    assert_eq!(s.ball.pos, [1377.0392, -1571.8032, 93.15]);
    assert!(check(&s).is_ok(), "the golden line must survive the filter");
    assert!(is_acceptable(&s, &|x: f32| x.sqrt()));
}

#[test]
fn rejects_origin_ball() {
    let mut s = golden();
    s.ball.pos = [0.0, 0.0, 0.0];
    assert_eq!(check(&s), Err(Reject::OriginBall));

    let mut t = golden();
    t.ball.pos = [10.0, 0.0, 0.0];
    assert!(check(&t).is_ok());

    let (kept, counts) = load(b"{}\n", 0, |_| {
        Some(ResetState {
            ball: BallSpawn { pos: [0.0; 3], vel: [0.0; 3], ang_vel: [0.0; 3] },
            cars: [plain_car(0, [100.0, 0.0, 17.0]), plain_car(1, [500.0, 0.0, 17.0])],
        })
    });
    assert!(kept.is_empty());
    assert_eq!(counts.origin_ball, 1);
}

#[test]
fn rejects_ball_past_goal_line() {
    let mut s = golden();
    s.ball.pos[1] = 5300.0;
    assert_eq!(check(&s), Err(Reject::BallPastGoal));

    s.ball.pos[1] = -5300.0;
    assert_eq!(check(&s), Err(Reject::BallPastGoal), "both signs");

    s.ball.pos[1] = 5119.0;
    assert_eq!(check(&s), Err(Reject::BallPastGoal), "inside the goal line is NOT enough");
    s.ball.pos[1] = -5024.9;
    assert_eq!(check(&s), Err(Reject::BallPastGoal), "an observed first-step-goal case");

    s.ball.pos[1] = 4799.0;
    assert!(check(&s).is_ok(), "inside the band is legal");

    s.ball.pos[1] = GOAL_LINE_Y as f32;
    assert!(check(&s).is_ok(), "boundary is `>`, not `>=`");
}

#[test]
fn f2_band_covers_one_tick_skip_of_travel() {
    const TICK_SKIP: f32 = 8.0;
    const TICKS_PER_SEC: f32 = 120.0;
    let score_y = BALL_SCORE_Y_TWICE as f32 / 2.0;
    assert_eq!(score_y, 5124.25 + 91.25);
    let line = GOAL_LINE_Y as f32;
    let max_travel = MAX_BALL_SPEED as f32 * (TICK_SKIP / TICKS_PER_SEC);
    assert!(
        line + max_travel < score_y,
        "a ball at the F2 boundary must not reach the score threshold in one step: \
         {line} + {max_travel} >= {score_y}"
    );
}

#[test]
fn rejects_implausible_magnitudes() {
    let mut s = golden();
    s.cars[0].ang_vel = [0.0, 0.0, 96.53176];
    assert_eq!(check(&s), Err(Reject::Implausible));

    let mut ok = golden();
    ok.cars[0].ang_vel = [0.0, 0.0, 5.9];
    assert!(check(&ok).is_ok(), "near-cap spin is legitimate");

    let mut m = golden();
    m.cars[1].ang_vel = [3.5, 3.5, 3.5];
    assert_eq!(check(&m), Err(Reject::Implausible), "magnitude, not per-component");

    let mut v = golden();
    v.cars[0].vel = [2500.0, 0.0, 0.0];
    assert_eq!(check(&v), Err(Reject::Implausible), "car above CAR_MAX_SPEED");

    let mut b = golden();
    b.ball.vel = [0.0, 7000.0, 0.0];
    assert_eq!(check(&b), Err(Reject::Implausible), "ball above BALL_MAX_SPEED");

    let mut huge = golden();
    huge.cars[0].vel = [1e30, 0.0, 0.0];
    assert!(huge.cars[0].vel[0].is_finite());
    assert_eq!(check(&huge), Err(Reject::Implausible), "finite-but-absurd must not pass");
}

#[test]
fn rejects_sub_floor_ball_and_cars() {
    let mut b = golden();
    b.ball.pos[2] = -165.2858;
    assert_eq!(check(&b), Err(Reject::OriginBall));

    let mut c = golden();
    c.cars[1].pos[2] = -39.721916;
    assert_eq!(check(&c), Err(Reject::OriginBall));

    let mut ok = golden();
    ok.ball.pos[2] = 0.0;
    assert!(check(&ok).is_ok(), "resting ON the floor plane is not sub-floor");
}

#[test]
fn rejects_frozen_car_demo_proxy() {
    let mut s = golden();
    s.cars[1].vel = [0.0, 0.0, 0.0];
    s.cars[1].ang_vel = [0.0, 0.0, 0.0];
    assert_eq!(check(&s), Err(Reject::FrozenCar));

    let mut t = golden();
    t.cars[1].vel = [0.0, 0.0, 0.0];
    t.cars[1].ang_vel = [0.0, 0.0, 1.5];
    assert!(check(&t).is_ok(), "zero vel with nonzero ang_vel is a live car");
}

#[test]
fn rejects_overlapping_cars() {
    let mut s = golden();
    s.cars[1].pos = [s.cars[0].pos[0] + 60.0, s.cars[0].pos[1], s.cars[0].pos[2]];
    assert_eq!(check(&s), Err(Reject::CarsOverlap));

    s.cars[1].pos = [s.cars[0].pos[0] + 101.0, s.cars[0].pos[1], s.cars[0].pos[2]];
    assert!(check(&s).is_ok());

    s.cars[1].pos = [s.cars[0].pos[0] + 100.0, s.cars[0].pos[1], s.cars[0].pos[2]];
    assert!(check(&s).is_ok(), "boundary is `<`, not `<=`");
}

#[test]
fn rejects_grounded_frozen_high() {
    let mut ok = golden();
    ok.cars[0].pos[2] = 900.0;
    ok.cars[0].on_ground = true;
    assert!(check(&ok).is_ok(), "wall driving must survive");

    let mut bad = golden();
    bad.cars[0].pos[2] = 900.0;
    bad.cars[0].on_ground = true;
    bad.cars[0].vel = [0.0, 0.0, 0.0];
    assert_eq!(check(&bad), Err(Reject::GroundedFrozenHigh));
}

#[test]
fn rejects_nonfinite() {
    for mutate in [
        (|s: &mut ResetState<f32>| s.ball.pos[0] = f32::NAN) as fn(&mut ResetState<f32>),
        |s| s.ball.vel[1] = f32::NAN,
        |s| s.ball.ang_vel[2] = f32::INFINITY,
        |s| s.cars[0].pos[2] = f32::INFINITY,
        |s| s.cars[0].vel[0] = f32::NAN,
        |s| s.cars[1].ang_vel[1] = f32::NAN,
        |s| s.cars[1].quat[3] = f32::NAN,
        |s| s.cars[1].boost = f32::NEG_INFINITY,
    ] {
        let mut s = golden();
        mutate(&mut s);
        assert_eq!(check(&s), Err(Reject::NonFinite), "non-finite must be rejected");
    }
}

#[test]
fn rejects_wrong_car_count_and_team_order() {
    // lines with another number of cars do not parse
    let (kept, counts) = load(b"three cars\none car\n", 0, |_| None);
    assert!(kept.is_empty());
    assert_eq!(counts.malformed, 2);

    let mut s = golden();
    s.cars[0].team = 1;
    s.cars[1].team = 0;
    assert_eq!(check(&s), Err(Reject::TeamOrder));

    let mut same = golden();
    same.cars[1].team = 0;
    assert_eq!(check(&same), Err(Reject::TeamOrder), "both blue is not blue-then-orange");
}

#[test]
fn skips_malformed_lines_without_failing() {
    let lines = [
        GOLDEN,
        "{\"ball\":{\"pos\":[1.0,2.0",
        GOLDEN,
        "",
        "this is not json at all",
        GOLDEN,
    ];
    let file = lines.join("\n") + "\n";
    let (kept, counts) = load(file.as_bytes(), 0, golden_only);
    assert_eq!(kept.len(), 3, "exactly the 3 good lines survive");
    assert_eq!(counts.malformed, 3);
}

#[test]
fn invalid_utf8_line_does_not_truncate_the_pool() {
    let mut bytes: Vec<u8> = Vec::new();
    for i in 0..20 {
        if i == 10 {
            bytes.extend_from_slice(&[0xFF, 0xFE, 0xFD]);
            bytes.push(b'\n');
        }
        bytes.extend_from_slice(GOLDEN.as_bytes());
        bytes.push(b'\n');
    }
    let (kept, counts) = load(&bytes, 0, golden_only);
    assert_eq!(kept.len(), 20, "every good line after the bad byte must survive");
    assert_eq!(counts.read, 21);
    assert_eq!(counts.malformed, 1, "the bad line is malformed, not fatal");
}

#[test]
fn over_long_line_is_malformed_not_buffered() {
    let mut bytes: Vec<u8> = Vec::new();
    bytes.push(b'[');
    for i in 0..600 {
        if i > 0 {
            bytes.push(b',');
        }
        bytes.extend_from_slice(GOLDEN.as_bytes());
    }
    bytes.extend_from_slice(b"]\n");
    assert!(bytes.len() > MAX_LINE_BYTES * 3, "fixture must exceed the cap severalfold");
    bytes.extend_from_slice(GOLDEN.as_bytes());
    bytes.push(b'\n');

    let (kept, counts) = load(&bytes, 0, golden_only);
    assert_eq!(kept.len(), 1, "only the well-formed trailing line is kept");
    assert_eq!(counts.malformed, 1);
    assert_eq!(counts.read, 2);
}

#[test]
fn no_bytes_yield_an_empty_pool() {
    let (kept, counts) = load(b"", 0, golden_only);
    assert!(kept.is_empty());
    assert_eq!(counts, RejectCounts::new());
}

/// 67 clean states and 11 that are dropped, told apart by the ball's x.
fn numbered(raw: &[u8]) -> Option<ResetState<f32>> {
    let text = std::str::from_utf8(raw).ok()?;
    let n: usize = text.trim().parse().ok()?;
    let mut s = golden();
    s.ball.pos[0] = n as f32;
    if n % 7 == 6 {
        s.ball.pos[1] = 5300.0;
    }
    Some(s)
}

fn numbered_file() -> Vec<u8> {
    let lines: Vec<String> = (0..78).map(|n| n.to_string()).collect();
    (lines.join("\n") + "\n").into_bytes()
}

#[test]
fn max_states_cap_respected_and_deterministic() {
    let file = numbered_file();
    let (full, counts) = load(&file, 0, numbered);
    assert_eq!(full.len(), 67);
    assert_eq!(counts.ball_past_goal, 11);

    let a = load(&file, 10, numbered).0;
    let b = load(&file, 10, numbered).0;
    assert_eq!(a.len(), 10);
    for (x, y) in a.iter().zip(b.iter()) {
        assert_eq!(x.ball.pos, y.ball.pos);
        assert_eq!(x.cars[0].pos, y.cars[0].pos);
        assert_eq!(x.cars[1].quat, y.cars[1].quat);
    }
    for x in &a {
        assert!(full.iter().any(|f| f.ball.pos == x.ball.pos && f.cars[0].pos == x.cars[0].pos));
    }
    assert_eq!(load(&file, 1000, numbered).0.len(), 67);
    let prefix: Vec<[f32; 3]> = full.iter().take(10).map(|s| s.ball.pos).collect();
    let sampled: Vec<[f32; 3]> = a.iter().map(|s| s.ball.pos).collect();
    assert_ne!(prefix, sampled, "reservoir must not degenerate to the file prefix");
}

#[test]
fn reservoir_replaces_by_the_fixed_generator() {
    let file = numbered_file();
    let full = load(&file, 0, numbered).0;
    let mut rng = Pcg32::new(RESERVOIR_SEED);
    let mut want: Vec<f32> = Vec::new();
    for (accepted, s) in full.iter().enumerate() {
        if want.len() < 10 {
            want.push(s.ball.pos[0]);
        } else {
            let j = rng.next_u32() as usize % (accepted + 1);
            if j < 10 {
                want[j] = s.ball.pos[0];
            }
        }
    }
    let got: Vec<f32> = load(&file, 10, numbered).0.iter().map(|s| s.ball.pos[0]).collect();
    assert_eq!(got, want);
}

#[test]
fn every_line_comes_to_one_end() {
    let (kept, c) = load(&numbered_file(), 5, numbered);
    assert_eq!(kept.len(), 5);
    let accepted = 67;
    let dropped = c.origin_ball + c.ball_past_goal + c.frozen_car + c.cars_overlap
        + c.grounded_frozen_high + c.nonfinite + c.team_order + c.implausible;
    assert_eq!(c.read, c.malformed + dropped + accepted);
}

#[test]
fn a_line_of_exactly_the_cap_with_its_newline_is_parsed() {
    let mut bytes = vec![b'x'; MAX_LINE_BYTES - 1];
    bytes.push(b'\n');
    let (kept, c) = load(&bytes, 0, |_| Some(golden()));
    assert_eq!((kept.len(), c.read, c.malformed), (1, 1, 0));
    // one byte more and the newline lies behind the cap
    let mut long = vec![b'x'; MAX_LINE_BYTES];
    long.push(b'\n');
    let (kept, c) = load(&long, 0, |_| Some(golden()));
    assert_eq!((kept.len(), c.read, c.malformed), (0, 1, 1));
}

#[test]
fn bump_counts_each_reason() {
    let mut c = RejectCounts::new();
    for r in [
        Reject::OriginBall,
        Reject::BallPastGoal,
        Reject::FrozenCar,
        Reject::CarsOverlap,
        Reject::GroundedFrozenHigh,
        Reject::NonFinite,
        Reject::TeamOrder,
        Reject::Implausible,
    ] {
        c.bump(r);
    }
    c.bump(Reject::TeamOrder);
    assert_eq!(
        (c.origin_ball, c.ball_past_goal, c.frozen_car, c.cars_overlap),
        (1, 1, 1, 1)
    );
    assert_eq!(
        (c.grounded_frozen_high, c.nonfinite, c.team_order, c.implausible),
        (1, 1, 2, 1)
    );
    assert_eq!((c.malformed, c.read), (0, 0));
}

#[test]
fn quat_to_rotmat_matches_replay_construction() {
    let q = [0.0014666612f32, 0.004585884, -0.32203302, 0.9467162];
    let m = quat_to_rotmat(&q);
    let close = |a: f32, b: f32, what: &str| {
        assert!((a - b).abs() < 1e-6, "{what}: {a} vs {b}");
    };
    close(m.forward.x, 0.7925474047660828, "forward.x");
    close(m.forward.y, -0.609734296798706, "forward.y");
    close(m.forward.z, -0.009627687744796276, "forward.z");
    close(m.right.x, 0.6097612380981445, "right.x");
    close(m.right.y, 0.7925851345062256, "right.y");
    close(m.right.z, -0.00017658830620348454, "right.z");
    close(m.up.x, 0.007738434709608555, "up.x");
    close(m.up.y, -0.005730636417865753, "up.y");
    close(m.up.z, 0.9999536275863647, "up.z");
}

#[test]
fn quat_to_rotmat_orthonormal() {
    let id = quat_to_rotmat(&[0.0f32, 0.0, 0.0, 1.0]);
    assert_eq!((id.forward.x, id.forward.y, id.forward.z), (1.0, 0.0, 0.0));
    assert_eq!((id.right.x, id.right.y, id.right.z), (0.0, 1.0, 0.0));
    assert_eq!((id.up.x, id.up.y, id.up.z), (0.0, 0.0, 1.0));

    let mut rng = Pcg32::new(0xBEEF);
    let dot = |a: &Vec3<f32>, b: &Vec3<f32>| a.x * b.x + a.y * b.y + a.z * b.z;
    for _ in 0..200 {
        let raw: [f32; 4] = [
            rng.next_f32::<f32>() * 2.0 - 1.0,
            rng.next_f32::<f32>() * 2.0 - 1.0,
            rng.next_f32::<f32>() * 2.0 - 1.0,
            rng.next_f32::<f32>() * 2.0 - 1.0,
        ];
        let n = (raw.iter().map(|x| x * x).sum::<f32>()).sqrt();
        if n < 1e-3 {
            continue;
        }
        let q = [raw[0] / n, raw[1] / n, raw[2] / n, raw[3] / n];
        let m = quat_to_rotmat(&q);
        for (v, name) in [(&m.forward, "forward"), (&m.right, "right"), (&m.up, "up")] {
            assert!((dot(v, v).sqrt() - 1.0).abs() < 1e-5, "{name} not unit");
        }
        assert!(dot(&m.forward, &m.right).abs() < 1e-5);
        assert!(dot(&m.forward, &m.up).abs() < 1e-5);
        assert!(dot(&m.right, &m.up).abs() < 1e-5);
        let cx = m.forward.y * m.right.z - m.forward.z * m.right.y;
        let cy = m.forward.z * m.right.x - m.forward.x * m.right.z;
        let cz = m.forward.x * m.right.y - m.forward.y * m.right.x;
        let det = cx * m.up.x + cy * m.up.y + cz * m.up.z;
        assert!((det - 1.0).abs() < 1e-5, "det must be +1, got {det}");
    }
}
