use construct_engine::engine::collect::{CollectOut, ObsBatch, ENTS_WIDTH};
use construct_engine::engine::merge::merge;
use construct_engine::engine::multi::{
    find_first_error, join_steps, sum_reward_terms, AssignmentError, MultiEngine, NetWeights,
    StepError, StepRows, WeightsError,
};
use construct_engine::engine::plan::{
    agent_arenas, bot_cars_in_arena, foreign_slot, RolloutPlan, TeamSizes,
};
use construct_engine::engine::rollout::{begin_stage, car_key, next_stage, sample_all, Stage};
use construct_engine::engine::shares::{
    allocate_team_sizes, arena_seed, can_serve, check_team_weights, sampler_seed, split_arenas,
    thread_count,
};
use construct_engine::episode::{ObsMode, StepFlags};
use construct_engine::foreign::ForeignKind;
use construct_engine::obs::OBS_SIZE;
use construct_engine::policy::{LayerMismatch, LayerWeights, PolicyWeights};
use construct_engine::sampler::{sample_categorical, Pcg32};
use construct_engine::schema::{Normalization, ObsV1Meta, Schema};
use construct_engine::session::{
    arena_sizes, check_emit_v0_obs, check_opponent_count, check_step_policy, default_assignment,
    mesh_path, render_seed, v0_only, v1_only, RequestError,
};
use construct_engine::state_dict::NamedArray;
use construct_engine::viser::Pacer;

fn exp(x: f32) -> f32 {
    x.exp()
}

fn ln(x: f32) -> f32 {
    x.ln()
}

#[test]
fn allocates_largest_remainder_deterministic() {
    assert_eq!(allocate_team_sizes(4, &[1.0, 0.0, 0.0]), vec![1, 1, 1, 1]);
    let s = allocate_team_sizes(192, &[0.5, 0.3, 0.2]);
    assert_eq!(s.iter().filter(|&&x| x == 1).count(), 96);
    assert_eq!(s.iter().filter(|&&x| x == 2).count(), 58);
    assert_eq!(s.iter().filter(|&&x| x == 3).count(), 38);
    assert_eq!(s.len(), 192);
    let mut sorted = s.clone();
    sorted.sort_unstable();
    assert_eq!(s, sorted);
    assert_eq!(allocate_team_sizes(4, &[0.5, 0.25, 0.25]), vec![1, 1, 2, 3]);
}

#[test]
fn every_arena_gets_a_team_size() {
    for n in 0..60usize {
        for w in [[1.0f64, 1.0, 1.0], [0.1, 0.2, 0.7], [0.0, 0.3, 0.3], [5.0, 0.0, 1.0]] {
            assert!(can_serve(n, &w));
            assert_eq!(allocate_team_sizes(n, &w).len(), n);
        }
    }
    // three equal remainders, one arena short: the smallest team is served
    assert_eq!(allocate_team_sizes(4, &[1.0f64, 1.0, 1.0]), vec![1, 1, 2, 3]);
    assert!(!can_serve(4, &[2.0f64, -1.0, 0.0]));
    assert!(!can_serve(4, &[f64::NAN, 1.0, 1.0]));
    assert!(!can_serve(4, &[-1.0f64, -1.0, -1.0]));
    assert!(!can_serve(4, &[0.0f64, 0.0, 0.0]));
}

#[test]
fn a_negative_share_has_a_remainder_too() {
    let slight = [1.0f64, -0.01, 0.0];
    assert!(can_serve(4, &slight));
    assert_eq!(allocate_team_sizes(4, &slight), vec![1, 1, 1, 1]);
    // remainders 0.5, 0.6 and 0.9
    let last = [1.5f64, 2.6, -0.1];
    assert!(can_serve(4, &last));
    assert_eq!(allocate_team_sizes(4, &last), vec![1, 2, 2, 3]);
}

#[test]
fn team_weights_are_three_and_not_negative() {
    assert!(check_team_weights(&vec![0.0f64, 0.0, 1.0]));
    assert!(!check_team_weights(&vec![0.0f64, 0.0, 0.0]));
    assert!(!check_team_weights(&vec![1.0f64, -0.5, 1.0]));
    assert!(!check_team_weights(&vec![1.0f64, 1.0]));
}

#[test]
fn arenas_are_split_evenly() {
    assert_eq!(split_arenas(10, 4), vec![2, 2, 3, 3]);
    assert_eq!(split_arenas(2, 2), vec![1, 1]);
    assert_eq!(thread_count(4, Some(16), 2), 2);
    assert_eq!(thread_count(0, Some(6), 100), 4);
    assert_eq!(thread_count(0, Some(1), 100), 1);
    assert_eq!(thread_count(0, None, 100), 4);
}

#[test]
fn seeds_differ_between_arenas() {
    let a: Vec<u64> = (0..50).map(|i| sampler_seed(7, i)).collect();
    for i in 0..a.len() {
        for j in 0..i {
            assert_ne!(a[i], a[j]);
        }
    }
    assert_ne!(arena_seed(7, 0), arena_seed(7, 1));
}

/// One duel in self-play, one two-on-two against native slot 0, one two-on-two
/// against foreign slot 0, which drives one car.
fn plan() -> (Vec<TeamSizes>, RolloutPlan) {
    let sizes = vec![(1, 1), (2, 2), (2, 2)];
    let p = RolloutPlan::new(&sizes, &vec![-1, 0, -2], 1, &vec![1]);
    (sizes, p)
}

#[test]
fn a_plan_tells_who_drives_whom() {
    let (sizes, p) = plan();
    assert_eq!(p.agents, 10);
    assert_eq!(p.learner_idx, vec![0, 1, 2, 3, 6, 7]);
    // the second orange car of the last arena is played by the learner's policy
    assert_eq!(p.fwd_idx, vec![0, 1, 2, 3, 6, 7, 9]);
    assert_eq!(p.opp_idx, vec![vec![4, 5]]);
    assert_eq!(p.learner_team_size, vec![1, 1, 2, 2, 2, 2]);
    assert_eq!(p.learner_col[6], Some(4));
    assert_eq!(p.learner_col[9], None);
    assert_eq!(p.bot_in(0), None);
    // slot 0, in the arena whose agents begin at 6
    assert_eq!(p.bot_in(2), Some((0, 6)));
    assert_eq!(agent_arenas(&sizes), vec![0, 0, 1, 1, 1, 1, 2, 2, 2, 2]);
    assert_eq!((foreign_slot(-2), foreign_slot(-5)), (0, 3));
    assert_eq!(bot_cars_in_arena(&vec![1, 9], 0, 3), 1);
    assert_eq!(bot_cars_in_arena(&vec![1, 9], 1, 3), 3);
    assert_eq!(bot_cars_in_arena(&vec![1, 9], 2, 3), 3);
}

#[test]
fn self_play_records_every_car() {
    let p = RolloutPlan::new(&vec![(1, 1), (3, 3)], &vec![-1, -1], 0, &vec![]);
    assert_eq!(p.learner_idx, (0..8).collect::<Vec<usize>>());
    assert_eq!(p.fwd_idx, p.learner_idx);
}

#[test]
fn a_rollout_goes_through_its_stages() {
    let (_, p) = plan();
    let mut seen = Vec::new();
    let mut s = begin_stage(2);
    while !matches!(s, Stage::Finished) {
        seen.push(s);
        let ended = if matches!(s, Stage::Step(0)) { 2 } else { 0 };
        s = next_stage(&p, 2, s, ended);
    }
    assert_eq!(
        seen,
        vec![
            Stage::Observe(0),
            Stage::Forward(0),
            Stage::Opponent(0, 0),
            Stage::Sample(0),
            Stage::Step(0),
            Stage::FinalValues(0),
            Stage::Observe(1),
            Stage::Forward(1),
            Stage::Opponent(1, 0),
            Stage::Sample(1),
            Stage::Step(1),
            Stage::ObserveLast,
            Stage::Bootstrap,
        ]
    );
    assert_eq!(begin_stage(0), Stage::ObserveLast);
}

#[test]
fn sampling_uses_the_generator_of_the_arena() {
    let logits = vec![0.0f32, 1.0, -1.0, 2.0, 0.0, 0.5, 0.1, 0.2, 0.3];
    let mut rngs = vec![Pcg32::new(1), Pcg32::new(2)];
    let (acts, lps) = sample_all(&logits, 3, &mut rngs, &vec![0, 0, 1], &exp, &ln);
    let mut a = Pcg32::new(1);
    let mut b = Pcg32::new(2);
    let rows: Vec<Vec<f32>> = logits.chunks(3).map(|c| c.to_vec()).collect();
    let want = [
        sample_categorical(&rows[0], &mut a, &exp, &ln),
        sample_categorical(&rows[1], &mut a, &exp, &ln),
        sample_categorical(&rows[2], &mut b, &exp, &ln),
    ];
    for i in 0..3 {
        assert_eq!((acts[i], lps[i]), (want[i].0 as i64, want[i].1));
    }
}

#[test]
fn car_keys_hold_arena_and_car() {
    assert_eq!(car_key(3, 7), (3u64 << 32) | 7);
    assert_ne!(car_key(0, 1), car_key(1, 0));
}

fn flat_rollout(plan: &RolloutPlan, steps: usize) -> CollectOut<f32> {
    let mut out = CollectOut::for_plan(plan, steps, ObsMode::V0, false);
    for t in 0..steps {
        let at = |a: usize| (100 * t + a) as f32;
        let obs: Vec<f32> =
            (0..plan.agents).flat_map(|a| std::iter::repeat(at(a)).take(OBS_SIZE)).collect();
        out.record_obs_v0(plan, t, steps, &obs);
        let mut all = vec![0.0f32; plan.agents * 2];
        let n = plan.fwd_idx.len();
        let values: Vec<f32> = plan.fwd_idx.iter().map(|a| at(*a)).collect();
        out.record_forward(plan, t, steps, &mut all, 2, &vec![1.5; 2 * n], &values);
        for a in 0..plan.agents {
            let want = if plan.fwd_idx.contains(&a) { 1.5 } else { 0.0 };
            assert_eq!(&all[2 * a..2 * a + 2], &[want, want]);
        }
        let acts: Vec<i64> = (0..plan.agents as i64).collect();
        let lps: Vec<f32> = (0..plan.agents).map(|a| -at(a)).collect();
        out.record_actions(plan, t, steps, &acts, &lps);
        let rewards: Vec<f32> = (0..plan.agents).map(at).collect();
        let mut flags = vec![StepFlags::default(); plan.agents];
        flags[0].terminated = true;
        flags[4].truncated = true;
        flags[7].truncated = true;
        let done = out.record_step(plan, t, steps, &rewards, &flags);
        assert_eq!(done, vec![0, 7], "agent 4 is not recorded");
        out.record_final_values(plan, t, steps, &done, &vec![0.25, 0.75]);
    }
    out.record_last_values((0..plan.learner_idx.len()).map(|i| i as f32).collect());
    out
}

#[test]
fn buffers_follow_the_plan() {
    let (_, p) = plan();
    let out: CollectOut<f32> = CollectOut::for_plan(&p, 3, ObsMode::V1, true);
    assert_eq!(out.learner_agents, 6);
    assert_eq!(out.forward_rows, 7);
    assert_eq!(out.learner_team_size, vec![1, 1, 2, 2, 2, 2]);
    assert_eq!(out.ents.len(), 3 * 6 * ENTS_WIDTH);
    assert_eq!(out.obs_v0.len(), 3 * 6 * OBS_SIZE);
    assert!(out.obs.is_empty());
    let flat: CollectOut<f32> = CollectOut::for_plan(&p, 3, ObsMode::V0, false);
    assert_eq!((flat.learner_agents, flat.forward_rows), (6, 6));
    assert_eq!(flat.obs.len(), 3 * 6 * OBS_SIZE);
    assert!(flat.ents.is_empty() && flat.learner_team_size.is_empty());
}

#[test]
fn a_rollout_is_stored_step_by_step_and_row_by_row() {
    let (_, p) = plan();
    let out = flat_rollout(&p, 2);
    let n = p.learner_idx.len();
    assert_eq!(out.learner_agents, n);
    for t in 0..2 {
        for (i, a) in p.learner_idx.iter().enumerate() {
            let cell = t * n + i;
            let at = (100 * t + a) as f32;
            assert_eq!(out.obs[cell * OBS_SIZE], at);
            assert_eq!(out.values[cell], at);
            assert_eq!(out.actions[cell], *a as i64);
            assert_eq!(out.logprobs[cell], -at);
            assert_eq!(out.rewards[cell], at);
            assert_eq!(out.terminated[cell], *a == 0);
            assert_eq!(out.truncated[cell], *a == 7);
            let fin = match a {
                0 => 0.25,
                7 => 0.75,
                _ => 0.0,
            };
            assert_eq!(out.final_values[cell], fin);
        }
    }
    assert_eq!(out.last_values, vec![0.0, 1.0, 2.0, 3.0, 4.0, 5.0]);
}

#[test]
fn merging_sets_workers_side_by_side() {
    let (_, p) = plan();
    let a = flat_rollout(&p, 2);
    let b = flat_rollout(&p, 2);
    let m = merge(vec![a, b], ObsMode::V0, 2, 12, false);
    assert_eq!(m.learner_agents, 12);
    assert_eq!(m.rewards.len(), 24);
    // step 1, row 6 is the second worker's first row
    assert_eq!(m.rewards[12 + 6], 100.0);
    assert_eq!(m.rewards[12 + 4], 106.0);
    assert_eq!(m.obs[(12 + 6) * OBS_SIZE], 100.0);
    assert_eq!(m.last_values.len(), 12);
}

fn batch(n: usize) -> ObsBatch<f32> {
    ObsBatch {
        ents: (0..n * ENTS_WIDTH).map(|i| (i / ENTS_WIDTH) as f32).collect(),
        mask: vec![false; n * 17],
        query: (0..n * 64).map(|i| (i / 64) as f32).collect(),
        prev: (0..n * 5).map(|i| (i / 5) as i64).collect(),
    }
}

#[test]
fn entity_rollouts_keep_flat_rows_beside_them() {
    let p = RolloutPlan::new(&vec![(1, 1)], &vec![0], 1, &vec![]);
    let mut out: CollectOut<f32> = CollectOut::zeros_v1(1, 1, true);
    out.record_obs_v1(&p, 0, 1, &batch(2), Some(&vec![0.5; 2 * OBS_SIZE]));
    assert_eq!(out.ents, vec![0.0; ENTS_WIDTH]);
    assert_eq!(out.obs_v0, vec![0.5; OBS_SIZE]);
    let rows = batch(4).gather(&vec![3, 1]);
    assert_eq!((rows.query[0], rows.query[64]), (3.0, 1.0));
    assert_eq!(rows.prev, vec![3, 3, 3, 3, 3, 1, 1, 1, 1, 1]);
}

fn schema(version: u32) -> Schema<f64> {
    Schema {
        version,
        obs_size: if version == 1 { 0 } else { 94 },
        action_table: String::new(),
        action_count: if version == 1 { 92 } else { 90 },
        tick_skip: 8,
        normalization: Normalization { pos_norm: 1.0, vel_norm: 1.0, ang_vel_norm: 1.0 },
        obs_v1: if version == 1 {
            Some(ObsV1Meta { max_ent: 17, ent_feat: 26, q_feat: 64, prev_actions: 5 })
        } else {
            None
        },
    }
}

fn engine(version: u32) -> MultiEngine {
    MultiEngine::new(vec![(1, 1), (2, 2), (1, 1)], &schema(version), 2, Some(8), false)
}

#[test]
fn arenas_are_found_at_their_workers() {
    let e = engine(0);
    assert_eq!((e.num_arenas, e.num_agents), (3, 8));
    assert_eq!(e.workers.len(), 2);
    assert_eq!(e.team_sizes(), vec![1, 2, 1]);
    assert_eq!(e.locate_arena(0), Ok((0, 0)));
    assert_eq!(e.locate_arena(1), Ok((1, 0)));
    assert_eq!(e.locate_arena(2), Ok((1, 1)));
    assert_eq!(e.locate_arena(3), Err(3));
}

#[test]
fn actions_are_checked_and_shared_out() {
    let e = engine(0);
    let mut acts: Vec<i64> = vec![0, 1, 2, 3, 4, 5, 6, 89];
    assert_eq!(e.check_actions(&acts), Ok(()));
    assert_eq!(e.worker_actions(&acts, 0), vec![0, 1]);
    assert_eq!(e.worker_actions(&acts, 1), vec![2, 3, 4, 5, 6, 89]);
    acts[3] = 90;
    assert_eq!(e.check_actions(&acts), Err(StepError::OutOfRange(90)));
    acts[3] = -1;
    assert_eq!(e.check_actions(&acts), Err(StepError::OutOfRange(-1)));
    acts.pop();
    assert_eq!(e.check_actions(&acts), Err(StepError::Length { expected: 8, got: 7 }));
}

#[test]
fn assignments_name_slots_that_are_set_up() {
    let mut e = engine(0);
    assert_eq!(e.check_assignment(&vec![-1, -1, -1]), Ok(8));
    assert_eq!(
        e.check_assignment(&vec![-1]),
        Err(AssignmentError::Length { expected: 3, got: 1 })
    );
    assert_eq!(e.check_assignment(&vec![-1, 0, -1]), Err(AssignmentError::OutOfRange(0)));
    assert_eq!(e.check_assignment(&vec![-1, -2, -1]), Err(AssignmentError::OutOfRange(-2)));
    assert_eq!(e.set_opponents::<u8>(1, vec![None, None]), Ok(()));
    assert_eq!(e.set_foreign_opponents::<u8>(1, vec![None, None]), Ok(()));
    assert_eq!(e.check_assignment(&vec![-1, 0, -2]), Ok(2 + 2 + 1));
    assert_eq!(e.set_opponents(4, vec![None, Some("refused")]), Err("refused"));
    let mut alone = MultiEngine::new(vec![(0, 1)], &schema(0), 1, None, false);
    assert_eq!(alone.set_opponents::<u8>(1, vec![None]), Ok(()));
    assert_eq!(alone.check_assignment(&vec![0]), Err(AssignmentError::NoLearners));
}

fn layer(out_dim: usize, in_dim: usize) -> LayerWeights<f32> {
    LayerWeights { w: vec![0.0; out_dim * in_dim], b: vec![0.0; out_dim], out_dim, in_dim }
}

fn flat_policy() -> PolicyWeights<f32> {
    PolicyWeights { trunk: vec![layer(4, 94), layer(3, 4)], policy: layer(90, 3), value: layer(1, 3) }
}

#[test]
fn weights_must_be_of_the_engines_family() {
    let e = engine(0);
    assert!(e.check_weights(&NetWeights::V0(flat_policy())).is_ok());
    let mut bad = flat_policy();
    bad.trunk[1].b.pop();
    match e.check_weights(&NetWeights::V0(bad)) {
        Err(WeightsError::Layer(m)) => {
            assert_eq!(m, LayerMismatch { w: 12, b: 2, out_dim: 3, in_dim: 4 });
        }
        _ => panic!("a bias is missing"),
    }
    assert!(matches!(
        e.check_weights(&NetWeights::V1::<f32> { raw: vec![], heads: 4 }),
        Err(WeightsError::V1GivenToV0)
    ));
    let v1 = engine(1);
    assert!(matches!(
        v1.check_weights(&NetWeights::V0(flat_policy())),
        Err(WeightsError::V0GivenToV1)
    ));
    assert!(matches!(
        v1.check_weights(&NetWeights::V1::<f32> { raw: vec![], heads: 4 }),
        Err(WeightsError::Entity(_))
    ));
    let bot = |_: u8| NetWeights::Foreign::<f32> {
        raw: vec![],
        kind: ForeignKind::Nexto,
        period: 1,
        cars: 1,
    };
    assert!(matches!(e.check_weights(&bot(0)), Err(WeightsError::Foreign)));
    assert!(e.check_foreign_opponents(&vec![bot(0)]).is_ok());
    assert!(matches!(
        e.check_foreign_opponents(&vec![NetWeights::V0(flat_policy())]),
        Err(WeightsError::NotForeign)
    ));
}

#[test]
fn opponents_must_have_the_engines_table() {
    let v1 = engine(1);
    let dict = |rows: usize| NetWeights::V1 {
        raw: vec![NamedArray {
            name: "action_table".to_string(),
            data: vec![0.0f32; rows * 8],
            shape: vec![rows, 8],
        }],
        heads: 4,
    };
    assert!(v1.check_opponents(&vec![dict(92)]).is_ok());
    match v1.check_opponents(&vec![dict(92), dict(104)]) {
        Err(WeightsError::Table { slot, engine, dict }) => {
            assert_eq!((slot, engine, dict), (1, 92, 104));
        }
        _ => panic!("the table is too wide"),
    }
}

#[test]
fn entity_rollouts_add_up_their_forward_rows() {
    let mut a: CollectOut<f32> = CollectOut::zeros_v1(1, 2, false);
    a.forward_rows = 5;
    a.learner_team_size = vec![1, 2];
    let b: CollectOut<f32> = CollectOut::zeros_v1(1, 3, false);
    let m = merge(vec![a, b], ObsMode::V1, 1, 5, false);
    assert_eq!(m.forward_rows, 5 + 3);
    assert_eq!(m.ents.len(), 5 * ENTS_WIDTH);
    assert_eq!(&m.learner_team_size[..2], &[1, 2]);
    assert!(m.obs.is_empty() && m.obs_v0.is_empty());
}

#[test]
fn the_first_error_of_the_workers_is_reported() {
    assert_eq!(find_first_error::<u8>(vec![None, None]), None);
    assert_eq!(find_first_error(vec![None, Some(4), Some(5)]), Some(4));
}

#[test]
fn steps_and_terms_of_the_workers_are_joined() {
    let rows = |x: f32| StepRows {
        obs: vec![x; 2],
        rewards: vec![x],
        terminated: vec![x > 1.0],
        truncated: vec![false],
        final_obs: vec![-x; 2],
    };
    let r = join_steps(&vec![rows(1.0), rows(2.0)]);
    assert_eq!(r.obs, vec![1.0, 1.0, 2.0, 2.0]);
    assert_eq!(r.rewards, vec![1.0, 2.0]);
    assert_eq!(r.terminated, vec![false, true]);
    assert_eq!(r.final_obs, vec![-1.0, -1.0, -2.0, -2.0]);
    let mut a = [1.0f64; 26];
    a[3] = 5.0;
    let t = sum_reward_terms(&vec![a, [0.5; 26]]);
    assert_eq!((t[0], t[3]), (1.5, 5.5));
}

#[test]
fn requests_are_checked_against_the_family() {
    assert_eq!(v0_only(ObsMode::V0), Ok(()));
    assert_eq!(v0_only(ObsMode::V1), Err(RequestError::FlatOnly));
    assert_eq!(v1_only(ObsMode::V0), Err(RequestError::EntityOnly));
    assert_eq!(check_emit_v0_obs(true, 0), Err(RequestError::FlatBesideFlat));
    assert_eq!(check_emit_v0_obs(true, 1), Ok(()));
    assert_eq!(check_opponent_count(8), Ok(()));
    assert_eq!(check_opponent_count(9), Err(RequestError::TooManyOpponents));
    assert_eq!(check_step_policy(ObsMode::V1, true), Ok(()));
    assert_eq!(check_step_policy(ObsMode::V1, false), Err(RequestError::NoWeights));
    assert_eq!(check_step_policy(ObsMode::V0, true), Err(RequestError::EntityOnly));
}

#[test]
fn arenas_get_fixed_or_weighted_sizes() {
    assert_eq!(arena_sizes::<f64>(2, 3, 1, None), Ok(vec![(3, 1), (3, 1)]));
    assert_eq!(
        arena_sizes(4, 1, 1, Some(&vec![0.5f64, 0.25, 0.25])),
        Ok(vec![(1, 1), (1, 1), (2, 2), (3, 3)])
    );
    assert_eq!(
        arena_sizes(4, 1, 1, Some(&vec![0.0f64, 0.0, 0.0])),
        Err(RequestError::TeamWeights)
    );
    assert_eq!(default_assignment(3), vec![-1, -1, -1]);
}

#[test]
fn meshes_are_looked_for_here_and_above() {
    assert_eq!(mesh_path(Some("x/y"), false, false), "x/y");
    let here = mesh_path(None, true, true);
    let above = mesh_path(None, false, true);
    assert_ne!(here, above);
    assert_ne!(render_seed(1), render_seed(2));
}

#[test]
fn steps_are_paced() {
    let mut p = Pacer::new(8, 1_000);
    assert_eq!(p.wait(1_000), 0);
    p.pace(1_000);
    // 8 ticks of 1/120 s
    assert_eq!(p.wait(1_000), 66_666_667);
    assert_eq!(p.wait(1_000 + 66_666_667), 0);
    // a late step delays the next one
    p.pace(500_000_000);
    assert_eq!(p.wait(500_000_000), 66_666_667);
}
