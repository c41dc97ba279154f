use construct_engine::sampler::{find_crossing, sample_categorical, Pcg32};

fn sample(logits: &Vec<f32>, rng: &mut Pcg32) -> (usize, f32) {
    sample_categorical(logits, rng, &|x: f32| x.exp(), &|x: f32| x.ln())
}

#[test]
fn deterministic_given_seed() {
    let logits = vec![0.1f32, 2.0, -1.0, 0.5];
    let (mut a, mut b) = (Pcg32::new(42), Pcg32::new(42));
    for _ in 0..100 {
        assert_eq!(sample(&logits, &mut a).0, sample(&logits, &mut b).0);
    }
}

#[test]
fn samples_follow_distribution() {
    let logits = vec![0.0f32, (3.0f32).ln()];
    let mut rng = Pcg32::new(7);
    let n = 100_000;
    let ones = (0..n).filter(|_| sample(&logits, &mut rng).0 == 1).count();
    let frac = ones as f32 / n as f32;
    assert!((frac - 0.75).abs() < 0.01, "got {frac}");
}

#[test]
fn logprob_matches_log_softmax() {
    let logits = vec![1.0f32, 2.0, 3.0];
    let max = 3.0f32;
    let exps: Vec<f32> = logits.iter().map(|l| (l - max).exp()).collect();
    let z: f32 = exps.iter().sum();
    let mut rng = Pcg32::new(1);
    for _ in 0..50 {
        let (a, lp) = sample(&logits, &mut rng);
        let expected = (exps[a] / z).ln();
        assert!((lp - expected).abs() < 1e-6, "a={a} lp={lp} expected={expected}");
    }
}

#[test]
fn extreme_logits_do_not_nan() {
    let logits = vec![1000.0f32, -1000.0, 0.0];
    let mut rng = Pcg32::new(3);
    let (a, lp) = sample(&logits, &mut rng);
    assert_eq!(a, 0);
    assert!(lp.is_finite() && lp <= 0.0);
}

/// The generator written with the standard library's own operations.
struct Reference {
    state: u64,
    inc: u64,
}

impl Reference {
    fn new(seed: u64) -> Self {
        let mut s = Reference { state: 0, inc: (seed << 1) | 1 };
        s.next();
        s.state = s.state.wrapping_add(seed);
        s.next();
        s
    }
    fn next(&mut self) -> u32 {
        let old = self.state;
        self.state = old.wrapping_mul(6364136223846793005).wrapping_add(self.inc);
        ((((old >> 18) ^ old) >> 27) as u32).rotate_right((old >> 59) as u32)
    }
}

#[test]
fn generator_matches_the_standard_operations() {
    for seed in [0u64, 1, 42, 7919 * 3 + 13, u64::MAX, 0x5245_5345_5400_0001] {
        let (mut a, mut b) = (Pcg32::new(seed), Reference::new(seed));
        for _ in 0..1000 {
            assert_eq!(a.next_u32(), b.next());
        }
    }
}

#[test]
fn fractions_are_the_top_24_bits() {
    let (mut a, mut b) = (Pcg32::new(9), Pcg32::new(9));
    for _ in 0..1000 {
        let u: f32 = a.next_f32();
        assert_eq!(u, (b.next_u32() >> 8) as f32 * (1.0 / (1u32 << 24) as f32));
        assert!((0.0..1.0).contains(&u));
    }
}

#[test]
fn one_number_per_sample() {
    let (mut a, mut b) = (Pcg32::new(5), Pcg32::new(5));
    sample(&vec![0.0f32, 1.0, 2.0], &mut a);
    b.next_u32();
    assert_eq!(a.next_u32(), b.next_u32());
}

#[test]
fn crossing_is_the_first_sum_above_the_target() {
    let w = vec![1.0f32, 2.0, 3.0];
    assert_eq!(find_crossing(&w, 0.0), 0);
    assert_eq!(find_crossing(&w, 1.0), 1);
    assert_eq!(find_crossing(&w, 2.9), 1);
    assert_eq!(find_crossing(&w, 3.0), 2);
    assert_eq!(find_crossing(&w, 6.0), 2, "round-off falls back to the last index");
}

#[test]
fn a_single_logit_is_certain() {
    let (i, lp) = sample(&vec![-3.5f32], &mut Pcg32::new(11));
    assert_eq!(i, 0);
    assert_eq!(lp, 0.0);
}
