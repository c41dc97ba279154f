//! The course of episodes in one arena.
//!
//! The physics runs elsewhere. This module says what to do with it: which
//! controls to set, what a step is worth, when an episode ends, and what the
//! next one starts from.

use crate::actions::{
    base_table, controls_of, make_lookup_table, make_lookup_table_v1, make_lookup_table_v1_air,
    table_reads, to_controls, v1_air_table, v1_table, CarControls,
};
use crate::ballpred::BallSnap;
use crate::curriculum::{
    drawn_cars, drawn_velocity, found_position, random_reset, CurriculumConfig, RandomScenario,
    RandomStateBounds, Trig,
};
use crate::engine::collect::{ObsBatch, ENTS_WIDTH};
use crate::episode::{
    after_kind, blend_team_spirit, draw_reset_kind, drawn_kind, sane_state, shared_rewards,
    state_is_sane, ActionTableKind, ObsMode, ResetKind, StepFlags, MAX_TICKS, NO_TOUCH_TICKS,
};
use crate::obs::{build_obs, obs_row, OBS_SIZE};
use crate::obs_v1::{
    absent, all_features, build, entity_slots, perm_fits, query_row, EntityObs, MAX_ENT,
    PREV_ACTIONS, Q_FEAT,
};
use crate::reset_pool::{orientation, quat_to_rotmat, BallSpawn, CarSpawn};
use crate::reward::config::RewardConfig;
use crate::reward::shaping::MatchState;
use crate::reward::terms::{
    compute, compute_terms, paid_total, settled, step_postings, LedgerView,
};
use crate::rows::{append_range, has_rows, repeated};
use crate::sampler::{pcg_next, pcg_output, pcg_seeded, unit, Pcg32};
use crate::scalar::{
    clamp, clamped, count, frac, functional, gt, minus, num, number, ordered, over, plus, ratio,
    same, times, total, whole, widens, Scalar,
};
use crate::schema::Normalization;
use crate::sim::{BallState, CarInfo, GameState, RotMat, Team, Vec3};
use vstd::prelude::*;

verus! {

/// Actions that an agent took last, the latest first.
pub type Ring = [i64; 5];

/// The changing state of an arena's episodes.
pub struct ArenaView<F> {
    /// Seed of the next kickoff.
    pub seed: u32,
    /// When the episode began.
    pub episode_start_tick: u64,
    /// When the ball was last touched, or the episode began.
    pub last_touch_tick: u64,
    pub score_blue: u32,
    pub score_orange: u32,
    /// When the match began.
    pub match_start_tick: u64,
    /// The state before the step.
    pub prev_state: GameState<F>,
    /// The generator.
    pub rng: (u64, u64),
    /// Recent actions of each agent, where they are kept.
    pub rings: Option<Seq<Ring>>,
    /// How often the physics broke down.
    pub blowup_count: u64,
}

/// The episodes of one arena.
pub struct EpisodeArena<F> {
    /// Rows of the action table.
    pub table: Vec<[F; 8]>,
    /// Ids of the agents' cars, blue before orange.
    pub car_ids: Vec<u32>,
    /// Number of blue cars.
    pub blue_count: usize,
    /// Physics ticks of one step.
    pub tick_skip: u32,
    pub reward_cfg: RewardConfig<F>,
    pub norm: Normalization<F>,
    pub curriculum: Option<CurriculumConfig<F>>,
    /// Whether kickoffs are jittered.
    pub jitter_enabled: bool,
    pub seed: u32,
    pub episode_start_tick: u64,
    pub last_touch_tick: u64,
    pub score_blue: u32,
    pub score_orange: u32,
    pub match_start_tick: u64,
    pub prev_state: GameState<F>,
    pub rng: Pcg32,
    pub rings: Option<Vec<Ring>>,
    pub blowup_count: u64,
}

impl<F> View for EpisodeArena<F> {
    type V = ArenaView<F>;

    open spec fn view(&self) -> ArenaView<F> {
        ArenaView {
            seed: self.seed,
            episode_start_tick: self.episode_start_tick,
            last_touch_tick: self.last_touch_tick,
            score_blue: self.score_blue,
            score_orange: self.score_orange,
            match_start_tick: self.match_start_tick,
            prev_state: self.prev_state,
            rng: self.rng@,
            rings: match self.rings {
                Some(r) => Some(r@),
                None => None,
            },
            blowup_count: self.blowup_count,
        }
    }
}

/// The parts of an arena that never change are the same.
pub open spec fn same_setup<F>(a: EpisodeArena<F>, b: EpisodeArena<F>) -> bool {
    &&& a.table == b.table
    &&& a.car_ids == b.car_ids
    &&& a.blue_count == b.blue_count
    &&& a.tick_skip == b.tick_skip
    &&& a.reward_cfg == b.reward_cfg
    &&& a.norm == b.norm
    &&& a.curriculum == b.curriculum
    &&& a.jitter_enabled == b.jitter_enabled
}

/// A ring without actions.
pub open spec fn empty_ring() -> Ring {
    [0i64, 0i64, 0i64, 0i64, 0i64]
}

/// The next kickoff seed.
pub open spec fn next_seed(seed: u32) -> u32 {
    ((seed * 747796405 + 2891336453) % 0x1_0000_0000) as u32
}

/// A ring after another action.
pub open spec fn pushed(ring: Seq<i64>, act: i64) -> Seq<i64> {
    seq![act, ring[0], ring[1], ring[2], ring[3]]
}

/// The replay weight that counts in an arena: recorded states are duels.
pub open spec fn replay_share<F: Scalar>(a: EpisodeArena<F>, c: CurriculumConfig<F>) -> F {
    if c.pool@.len() > 0 && a.car_ids@.len() == 2 && a.blue_count == 1 {
        c.replay_weight
    } else {
        num::<F>(0)
    }
}

/// What the next episode starts from.
pub open spec fn next_kind<F: Scalar>(a: EpisodeArena<F>) -> ResetKind {
    match a.curriculum {
        Some(c) => drawn_kind(
            a@.rng,
            replay_share(a, c),
            c.kickoff_weight,
            c.random_weight,
            c.pool@.len() as usize,
        ),
        None => ResetKind::Kickoff,
    }
}

/// The generator after it was decided what the next episode starts from.
pub open spec fn rng_after_kind<F: Scalar>(a: EpisodeArena<F>) -> (u64, u64) {
    match a.curriculum {
        Some(c) => after_kind(
            a@.rng,
            replay_share(a, c),
            c.kickoff_weight,
            c.random_weight,
            c.pool@.len() as usize,
        ),
        None => a@.rng,
    }
}

/// An arena after a reset that ended in state `gs`.
pub open spec fn after_reset<F>(v: ArenaView<F>, gs: GameState<F>) -> ArenaView<F> {
    ArenaView {
        seed: next_seed(v.seed),
        episode_start_tick: gs.tick_count,
        last_touch_tick: gs.tick_count,
        prev_state: gs,
        rings: match v.rings {
            Some(r) => Some(repeated(empty_ring(), r.len() as int)),
            None => None,
        },
        ..v
    }
}

/// How to begin a reset: first a kickoff from this seed, then what `kind` says.
#[derive(Clone, Copy, Debug, PartialEq, Eq, Structural)]
pub struct ResetOrder {
    pub kind: ResetKind,
    pub kickoff_seed: u32,
    /// Whether the kickoff is to be jittered.
    pub jitter: bool,
}

/// The table of an observation family.
pub open spec fn table_for(mode: ObsMode, kind: ActionTableKind) -> Seq<Seq<int>> {
    match (mode, kind) {
        (ObsMode::V0, _) => base_table(),
        (ObsMode::V1, ActionTableKind::V1) => v1_table(),
        (ObsMode::V1, ActionTableKind::V1Air) => v1_air_table(),
    }
}

/// An arena that has not played yet.
pub open spec fn is_fresh<F: Scalar>(
    a: EpisodeArena<F>,
    car_ids: Seq<u32>,
    blue: usize,
    seed: u32,
    obs_mode: ObsMode,
    state: GameState<F>,
) -> bool {
    &&& a.car_ids@ == car_ids
    &&& a.blue_count == blue
    &&& a.jitter_enabled
    &&& a@ == (ArenaView {
        seed,
        episode_start_tick: state.tick_count,
        last_touch_tick: state.tick_count,
        score_blue: 0,
        score_orange: 0,
        match_start_tick: 0,
        prev_state: state,
        rng: pcg_seeded((seed * 7919 + 13) as u64),
        rings: match obs_mode {
            ObsMode::V0 => None,
            ObsMode::V1 => Some(repeated(empty_ring(), car_ids.len() as int)),
        },
        blowup_count: 0,
    })
}

impl<F: Scalar> EpisodeArena<F> {
    /// An arena with flat observations that starts every episode from a
    /// kickoff.
    pub fn new(
        car_ids: Vec<u32>,
        blue: usize,
        tick_skip: u32,
        reward_cfg: RewardConfig<F>,
        norm: Normalization<F>,
        seed: u32,
        state: GameState<F>,
    ) -> (a: Self)
        requires
            total::<F>(),
            blue <= car_ids@.len(),
        ensures
            table_reads(a.table@, base_table()),
            is_fresh(a, car_ids@, blue, seed, ObsMode::V0, state),
            a.tick_skip == tick_skip,
            a.reward_cfg == reward_cfg,
            a.norm == norm,
            a.curriculum is None,
    {
        Self::new_with_curriculum(car_ids, blue, tick_skip, reward_cfg, norm, seed, None, state)
    }

    /// An arena with flat observations.
    pub fn new_with_curriculum(
        car_ids: Vec<u32>,
        blue: usize,
        tick_skip: u32,
        reward_cfg: RewardConfig<F>,
        norm: Normalization<F>,
        seed: u32,
        curriculum: Option<CurriculumConfig<F>>,
        state: GameState<F>,
    ) -> (a: Self)
        requires
            total::<F>(),
            blue <= car_ids@.len(),
        ensures
            table_reads(a.table@, base_table()),
            is_fresh(a, car_ids@, blue, seed, ObsMode::V0, state),
            a.tick_skip == tick_skip,
            a.reward_cfg == reward_cfg,
            a.norm == norm,
            a.curriculum == curriculum,
    {
        Self::new_full(
            car_ids,
            blue,
            tick_skip,
            reward_cfg,
            norm,
            seed,
            curriculum,
            ObsMode::V0,
            ActionTableKind::V1,
            state,
        )
    }

    /// An arena before its first reset. `car_ids` are the ids that the physics
    /// gave to the cars, blue before orange, and `state` is the state it is in.
    pub fn new_full(
        car_ids: Vec<u32>,
        blue: usize,
        tick_skip: u32,
        reward_cfg: RewardConfig<F>,
        norm: Normalization<F>,
        seed: u32,
        curriculum: Option<CurriculumConfig<F>>,
        obs_mode: ObsMode,
        table: ActionTableKind,
        state: GameState<F>,
    ) -> (a: Self)
        requires
            total::<F>(),
            blue <= car_ids@.len(),
        ensures
            table_reads(a.table@, table_for(obs_mode, table)),
            is_fresh(a, car_ids@, blue, seed, obs_mode, state),
            a.tick_skip == tick_skip,
            a.reward_cfg == reward_cfg,
            a.norm == norm,
            a.curriculum == curriculum,
    {
        let rows: Vec<[F; 8]> = match obs_mode {
            ObsMode::V0 => make_lookup_table(),
            ObsMode::V1 => match table {
                ActionTableKind::V1 => make_lookup_table_v1(),
                ActionTableKind::V1Air => make_lookup_table_v1_air(),
            },
        };
        let rings: Option<Vec<Ring>> = match obs_mode {
            ObsMode::V0 => None,
            ObsMode::V1 => Some(empty_rings(car_ids.len())),
        };
        let start: u64 = state.tick_count;
        EpisodeArena {
            table: rows,
            car_ids,
            blue_count: blue,
            tick_skip,
            reward_cfg,
            norm,
            curriculum,
            jitter_enabled: true,
            seed,
            episode_start_tick: start,
            last_touch_tick: start,
            score_blue: 0,
            score_orange: 0,
            match_start_tick: 0,
            prev_state: state,
            rng: Pcg32::new(seed as u64 * 7919 + 13),
            rings,
            blowup_count: 0,
        }
    }

    /// Number of agents.
    pub fn num_agents(&self) -> (n: usize)
        ensures
            n == self.car_ids@.len(),
    {
        self.car_ids.len()
    }

    /// How often the physics broke down.
    pub fn blowup_count(&self) -> (n: u64)
        ensures
            n == self@.blowup_count,
    {
        self.blowup_count
    }

    /// Begins a new match at `tick`: no goals, a full clock.
    pub fn start_match(&mut self, tick: u64)
        ensures
            same_setup(*final(self), *old(self)),
            final(self)@ == (ArenaView {
                score_blue: 0,
                score_orange: 0,
                match_start_tick: tick,
                ..old(self)@
            }),
    {
        self.score_blue = 0;
        self.score_orange = 0;
        self.match_start_tick = tick;
    }

    /// Decides what the next episode starts from.
    pub fn begin_reset(&mut self) -> (o: ResetOrder)
        requires
            total::<F>(),
        ensures
            same_setup(*final(self), *old(self)),
            o.kind == next_kind(*old(self)),
            o.kickoff_seed == old(self)@.seed,
            o.jitter == (o.kind == ResetKind::Kickoff && old(self).jitter_enabled),
            final(self)@ == (ArenaView { rng: rng_after_kind(*old(self)), ..old(self)@ }),
    {
        let duel: bool = self.car_ids.len() == 2 && self.blue_count == 1;
        let kind: ResetKind = match &self.curriculum {
            Some(c) => {
                let n: usize = c.pool.len();
                let replay: F = if n > 0 && duel {
                    c.replay_weight
                } else {
                    whole(0)
                };
                draw_reset_kind(&mut self.rng, replay, c.kickoff_weight, c.random_weight, n)
            },
            None => ResetKind::Kickoff,
        };
        ResetOrder {
            kind,
            kickoff_seed: self.seed,
            jitter: kind == ResetKind::Kickoff && self.jitter_enabled,
        }
    }

    /// Ends a reset in state `gs`: a new kickoff seed, a fresh clock, no recent
    /// actions.
    pub fn finish_reset(&mut self, gs: GameState<F>)
        ensures
            same_setup(*final(self), *old(self)),
            final(self)@ == after_reset(old(self)@, gs),
    {
        self.seed = advance_seed(self.seed);
        self.episode_start_tick = gs.tick_count;
        self.last_touch_tick = gs.tick_count;
        self.prev_state = gs;
        let n: Option<usize> = match &self.rings {
            Some(r) => Some(r.len()),
            None => None,
        };
        if let Some(n) = n {
            self.rings = Some(empty_rings(n));
        }
    }

    /// Whether an episode is a whole match.
    pub open spec fn plays_matches(&self) -> bool {
        match self.curriculum {
            Some(c) => c.match_mode,
            None => false,
        }
    }

    /// Whether an episode is a whole match.
    pub fn match_mode(&self) -> (m: bool)
        ensures
            m == self.plays_matches(),
    {
        match &self.curriculum {
            Some(c) => c.match_mode,
            None => false,
        }
    }

    /// Score and clock of the match at `cur_tick`.
    pub fn match_state(&self, cur_tick: u64) -> (m: MatchState<F>)
        requires
            total::<F>(),
        ensures
            m.score_blue == self@.score_blue,
            m.score_orange == self@.score_orange,
            m.t_frac == clock_left::<F>(self@.match_start_tick, cur_tick),
    {
        let elapsed: u64 = if cur_tick > self.match_start_tick {
            cur_tick - self.match_start_tick
        } else {
            0
        };
        let one: F = whole(1);
        let length: F = count(MAX_TICKS);
        let t: F = one - count::<F>(elapsed) / length;
        MatchState {
            score_blue: self.score_blue,
            score_orange: self.score_orange,
            t_frac: clamp(t, whole(0), one),
        }
    }
}

/// Fraction of the clock that remains at `cur_tick`, from 0 to 1.
pub open spec fn clock_left<F: Scalar>(start: u64, cur_tick: u64) -> F {
    let elapsed = if cur_tick > start {
        cur_tick - start
    } else {
        0
    };
    clamped(
        minus(num::<F>(1), over(number::<F>(elapsed), number::<F>(MAX_TICKS as int))),
        num::<F>(0),
        num::<F>(1),
    )
}

fn advance_seed(seed: u32) -> (r: u32)
    ensures
        r == next_seed(seed),
{
    let wide: u64 = seed as u64 * 747796405 + 2891336453;
    (wide % 0x1_0000_0000) as u32
}

fn empty_rings(n: usize) -> (r: Vec<Ring>)
    ensures
        r@ == repeated(empty_ring(), n as int),
{
    let mut r: Vec<Ring> = Vec::new();
    let mut i: usize = 0;
    while i < n
        invariant
            i <= n,
            r@ =~= repeated(empty_ring(), i as int),
        decreases n - i,
    {
        r.push([0i64, 0i64, 0i64, 0i64, 0i64]);
        i = i + 1;
    }
    r
}

/// Index of the first car from `from` on with id `id`.
pub open spec fn car_with<F>(cars: Seq<CarInfo<F>>, id: u32, from: int) -> Option<int>
    decreases cars.len() - from,
{
    if from < 0 || from >= cars.len() {
        None
    } else if cars[from].id == id {
        Some(from)
    } else {
        car_with(cars, id, from + 1)
    }
}

/// Index of agent `a`'s car.
pub open spec fn car_of<F>(ids: Seq<u32>, cars: Seq<CarInfo<F>>, a: int) -> int {
    car_with(cars, ids[a], 0)->0
}

/// Every agent has a car.
pub open spec fn agents_present<F>(ids: Seq<u32>, cars: Seq<CarInfo<F>>) -> bool {
    forall|a: int| 0 <= a < ids.len() ==> car_with(cars, #[trigger] ids[a], 0) is Some
}

fn find_car<F>(cars: &Vec<CarInfo<F>>, id: u32) -> (i: usize)
    requires
        car_with(cars@, id, 0) is Some,
    ensures
        car_with(cars@, id, 0) == Some(i as int),
        i < cars@.len(),
{
    let mut i: usize = 0;
    while i < cars.len()
        invariant
            i <= cars@.len(),
            car_with(cars@, id, 0) is Some,
            car_with(cars@, id, 0) == car_with(cars@, id, i as int),
        decreases cars.len() - i,
    {
        if cars[i].id == id {
            return i;
        }
        i = i + 1;
    }
    0
}

/// The rings after every agent took an action.
pub open spec fn rings_pushed(rings: Seq<Ring>, acts: Seq<i64>, after: Seq<Ring>) -> bool {
    &&& after.len() == rings.len()
    &&& forall|a: int|
        0 <= a < rings.len() ==> (#[trigger] after[a])@ == pushed(rings[a]@, acts[a])
}

/// Every action names a row of the table.
pub open spec fn actions_fit<F>(acts: Seq<i64>, table: Seq<[F; 8]>) -> bool {
    forall|a: int| 0 <= a < acts.len() ==> 0 <= #[trigger] acts[a] < table.len()
}

/// What the agents order: each for its own car, what its action's row of the table
/// stands for.
pub open spec fn orders<F: Scalar>(
    ids: Seq<u32>,
    table: Seq<[F; 8]>,
    acts: Seq<i64>,
) -> Seq<(u32, CarControls<F>)> {
    Seq::new(acts.len(), |a: int| (ids[a], controls_of(table[acts[a] as int])))
}

/// What became of a step.
pub enum AfterStep<F> {
    /// The physics broke down: rebuild the arena, then reset. The final
    /// observation is all zeros.
    Rebuild,
    /// A goal that does not end the episode: reset.
    Kickoff,
    /// The episode ended in this state: take the final observation, then reset.
    Ended(GameState<F>),
    /// The episode goes on.
    Continue,
}

/// The outcome of a step.
pub struct StepOutcome<F> {
    pub rewards: Vec<F>,
    pub flags: Vec<StepFlags>,
    pub next: AfterStep<F>,
}

/// What is to be done after a step that ended in state `cur`.
pub open spec fn next_after<F: Scalar>(
    a: EpisodeArena<F>,
    cur: GameState<F>,
    ball_scored: bool,
) -> AfterStep<F> {
    let f = flags_after(a, cur, ball_scored);
    if !sane_state(cur) {
        AfterStep::Rebuild
    } else if f.terminated || f.truncated {
        AfterStep::Ended(cur)
    } else if a.plays_matches() && scorer(cur, ball_scored) is Some {
        AfterStep::Kickoff
    } else {
        AfterStep::Continue
    }
}

/// The rewards of a step that ended in state `cur`: none where the physics broke down.
pub open spec fn rewards_after<F: Scalar, S: Fn(F) -> F>(
    a: EpisodeArena<F>,
    cur: GameState<F>,
    ball_scored: bool,
    sqrt: S,
) -> Seq<F> {
    if sane_state(cur) {
        step_rewards(a, cur, scorer(cur, ball_scored), sqrt)
    } else {
        repeated(num::<F>(0), a.car_ids@.len() as int)
    }
}

/// The flags of all agents after a step that ended in state `cur`: the episode is over
/// for them where the physics broke down.
pub open spec fn all_flags_after<F: Scalar>(
    a: EpisodeArena<F>,
    cur: GameState<F>,
    ball_scored: bool,
) -> Seq<StepFlags> {
    let f = if sane_state(cur) {
        flags_after(a, cur, ball_scored)
    } else {
        StepFlags { terminated: true, truncated: false }
    };
    repeated(f, a.car_ids@.len() as int)
}

/// The team that scored, by the end of the field the ball is at.
pub open spec fn scorer<F: Scalar>(cur: GameState<F>, ball_scored: bool) -> Option<Team> {
    if !ball_scored {
        None
    } else if gt(cur.ball.pos.y, num::<F>(0)) {
        Some(Team::Blue)
    } else {
        Some(Team::Orange)
    }
}

/// The team that scored.
fn scoring_team<F: Scalar>(cur: &GameState<F>, ball_scored: bool) -> (t: Option<Team>)
    requires
        ordered::<F>(),
    ensures
        t == scorer(*cur, ball_scored),
{
    let zero: F = whole(0);
    if !ball_scored {
        None
    } else if cur.ball.pos.y > zero {
        Some(Team::Blue)
    } else {
        Some(Team::Orange)
    }
}

/// The last touch after the first `n` agents were looked at.
pub open spec fn touch_after<F>(
    ids: Seq<u32>,
    cur: GameState<F>,
    last: u64,
    n: int,
) -> u64
    decreases n,
{
    if n <= 0 {
        last
    } else {
        let before = touch_after(ids, cur, last, n - 1);
        let hit = cur.cars@[car_of(ids, cur.cars@, n - 1)].state.ball_hit_info;
        if hit.is_valid && before < hit.tick_count_when_hit <= cur.tick_count {
            hit.tick_count_when_hit
        } else {
            before
        }
    }
}

/// How a step ends. In a match only the clock ends it and a goal does not; a
/// single episode ends with a goal. Without a touch for too long either is cut
/// off; so is a single episode that takes too long.
pub open spec fn step_flags(
    matches: bool,
    goal: bool,
    tick: u64,
    last_touch: u64,
    episode_start: u64,
    match_start: u64,
) -> StepFlags {
    let stalled = tick - last_touch >= NO_TOUCH_TICKS;
    if matches {
        let over = tick - match_start >= MAX_TICKS;
        StepFlags { terminated: over, truncated: !over && stalled }
    } else {
        StepFlags {
            terminated: goal,
            truncated: !goal && (stalled || tick - episode_start >= MAX_TICKS),
        }
    }
}

/// What the agents earn before it is shared.
pub open spec fn raw_rewards<F: Scalar, S: Fn(F) -> F>(
    a: EpisodeArena<F>,
    cur: GameState<F>,
    scored: Option<Team>,
    sqrt: S,
) -> Seq<F> {
    Seq::new(
        a.car_ids@.len(),
        |i: int|
            paid_total(
                num::<F>(0),
                step_postings(
                    a.prev_state,
                    cur,
                    car_of(a.car_ids@, cur.cars@, i),
                    scored,
                    a.reward_cfg,
                    sqrt,
                ),
            ),
    )
}

/// What the agents earn.
pub open spec fn step_rewards<F: Scalar, S: Fn(F) -> F>(
    a: EpisodeArena<F>,
    cur: GameState<F>,
    scored: Option<Team>,
    sqrt: S,
) -> Seq<F> {
    let raw = raw_rewards(a, cur, scored, sqrt);
    let cfg = a.reward_cfg;
    if !same(cfg.team_spirit, num::<F>(0)) || !same(cfg.opp_spirit, num::<F>(0)) {
        shared_rewards(raw, a.blue_count as int, cfg.team_spirit, cfg.opp_spirit)
    } else {
        raw
    }
}

/// The reward terms after a step of the first `n` agents was added to them.
pub open spec fn counted_terms<F: Scalar, G: Scalar + From<F>, S: Fn(F) -> F>(
    a: EpisodeArena<F>,
    cur: GameState<F>,
    scored: Option<Team>,
    terms: Seq<G>,
    sqrt: S,
    n: int,
) -> Seq<G>
    decreases n,
{
    if n <= 0 {
        terms
    } else {
        settled(
            LedgerView {
                reward: num::<F>(0),
                terms: counted_terms(a, cur, scored, terms, sqrt, n - 1),
            },
            step_postings(
                a.prev_state,
                cur,
                car_of(a.car_ids@, cur.cars@, n - 1),
                scored,
                a.reward_cfg,
                sqrt,
            ),
        ).terms
    }
}

/// The arena after a sane step; a reset may follow.
pub open spec fn arena_after_step<F: Scalar>(
    a: EpisodeArena<F>,
    cur: GameState<F>,
    scored: Option<Team>,
    flags: StepFlags,
) -> ArenaView<F> {
    let ended = flags.terminated || flags.truncated;
    let matches = a.plays_matches();
    let counted = ArenaView {
        last_touch_tick: touch_after(
            a.car_ids@,
            cur,
            a@.last_touch_tick,
            a.car_ids@.len() as int,
        ),
        score_blue: if matches && ended {
            0
        } else if matches && scored == Some(Team::Blue) {
            (a@.score_blue + 1) as u32
        } else {
            a@.score_blue
        },
        score_orange: if matches && ended {
            0
        } else if matches && scored == Some(Team::Orange) {
            (a@.score_orange + 1) as u32
        } else {
            a@.score_orange
        },
        match_start_tick: if matches && ended {
            cur.tick_count
        } else {
            a@.match_start_tick
        },
        ..a@
    };
    if ended || (matches && scored is Some) {
        counted
    } else {
        ArenaView { prev_state: cur, ..counted }
    }
}

/// A step can end in state `cur`. A sane state has the agents' cars and no more
/// cars than the state before, its clock has not run backwards, and there is room
/// to count its goals; of any other state nothing is asked but that there is room
/// to count it.
pub open spec fn can_end<F: Scalar>(a: EpisodeArena<F>, cur: GameState<F>) -> bool {
    if sane_state(cur) {
        &&& agents_present(a.car_ids@, cur.cars@)
        &&& cur.cars@.len() <= a@.prev_state.cars@.len()
        &&& clocks_ok(a, cur.tick_count)
        &&& a.plays_matches() ==> a@.score_blue < u32::MAX && a@.score_orange < u32::MAX
    } else {
        a@.blowup_count < u64::MAX
    }
}

/// The arena after the physics broke down. The arena that is rebuilt starts its
/// clock at 0, and so does a match in it.
pub open spec fn after_breakdown<F: Scalar>(a: EpisodeArena<F>) -> ArenaView<F> {
    let counted = ArenaView { blowup_count: (a@.blowup_count + 1) as u64, ..a@ };
    if a.plays_matches() {
        ArenaView { score_blue: 0, score_orange: 0, match_start_tick: 0, ..counted }
    } else {
        counted
    }
}

/// The arena after a step that ended in state `cur`.
pub open spec fn after_end<F: Scalar>(
    a: EpisodeArena<F>,
    cur: GameState<F>,
    ball_scored: bool,
) -> ArenaView<F> {
    if sane_state(cur) {
        arena_after_step(
            a,
            cur,
            scorer(cur, ball_scored),
            flags_after(a, cur, ball_scored),
        )
    } else {
        after_breakdown(a)
    }
}

/// How the step of a sane arena ends.
pub open spec fn flags_after<F: Scalar>(
    a: EpisodeArena<F>,
    cur: GameState<F>,
    ball_scored: bool,
) -> StepFlags {
    step_flags(
        a.plays_matches(),
        scorer(cur, ball_scored) is Some,
        cur.tick_count,
        touch_after(a.car_ids@, cur, a@.last_touch_tick, a.car_ids@.len() as int),
        a@.episode_start_tick,
        a@.match_start_tick,
    )
}

/// The clocks have not run backwards.
pub open spec fn clocks_ok<F: Scalar>(a: EpisodeArena<F>, tick: u64) -> bool {
    &&& a@.last_touch_tick <= tick
    &&& a@.episode_start_tick <= tick
    &&& a.plays_matches() ==> a@.match_start_tick <= tick
}

impl<F: Scalar> EpisodeArena<F> {
    /// Begins a step: remembers the actions and returns the controls of every
    /// car.
    pub fn begin_step(&mut self, acts: &Vec<i64>) -> (c: Vec<(u32, CarControls<F>)>)
        requires
            total::<F>(),
            acts@.len() == old(self).car_ids@.len(),
            actions_fit(acts@, old(self).table@),
            old(self)@.rings matches Some(r) ==> r.len() == acts@.len(),
        ensures
            same_setup(*final(self), *old(self)),
            final(self)@ == (ArenaView { rings: final(self)@.rings, ..old(self)@ }),
            match old(self)@.rings {
                Some(r) => final(self)@.rings is Some && rings_pushed(
                    r,
                    acts@,
                    final(self)@.rings->0,
                ),
                None => final(self)@.rings is None,
            },
            c@ == orders(old(self).car_ids@, old(self).table@, acts@),
            c@.len() == acts@.len(),
            forall|a: int|
                0 <= a < c@.len() ==> {
                    let row = old(self).table@[acts@[a] as int];
                    let k = (#[trigger] c@[a]).1;
                    &&& c@[a].0 == old(self).car_ids@[a]
                    &&& k.throttle == row@[0] && k.steer == row@[1] && k.pitch == row@[2]
                    &&& k.yaw == row@[3] && k.roll == row@[4]
                    &&& k.jump == !same(row@[5], num::<F>(0))
                    &&& k.boost == !same(row@[6], num::<F>(0))
                    &&& k.handbrake == !same(row@[7], num::<F>(0))
                },
    {
        let n: usize = acts.len();
        if let Some(r) = &self.rings {
            let next: Vec<Ring> = push_all(r, acts);
            self.rings = Some(next);
        }
        let mut c: Vec<(u32, CarControls<F>)> = Vec::new();
        let mut a: usize = 0;
        while a < n
            invariant
                a <= n,
                n == acts@.len(),
                n == self.car_ids@.len(),
                total::<F>(),
                actions_fit(acts@, self.table@),
                c@.len() == a,
                forall|j: int|
                    0 <= j < a ==> #[trigger] c@[j] == (
                        self.car_ids@[j],
                        controls_of(self.table@[acts@[j] as int]),
                    ),
                forall|j: int|
                    0 <= j < a ==> {
                        let row = self.table@[acts@[j] as int];
                        let k = (#[trigger] c@[j]).1;
                        &&& c@[j].0 == self.car_ids@[j]
                        &&& k.throttle == row@[0] && k.steer == row@[1] && k.pitch == row@[2]
                        &&& k.yaw == row@[3] && k.roll == row@[4]
                        &&& k.jump == !same(row@[5], num::<F>(0))
                        &&& k.boost == !same(row@[6], num::<F>(0))
                        &&& k.handbrake == !same(row@[7], num::<F>(0))
                    },
            decreases n - a,
        {
            assert(0 <= acts@[a as int] < self.table@.len());
            assert(self.table@.len() == self.table.len());
            let row: [F; 8] = self.table[acts[a] as usize];
            c.push((self.car_ids[a], to_controls(&row)));
            a = a + 1;
        }
        assert(c@ =~= orders(self.car_ids@, self.table@, acts@));
        c
    }

    /// Updates the last touch by what the agents' cars report.
    fn track_touches(&mut self, cur: &GameState<F>)
        requires
            agents_present(old(self).car_ids@, cur.cars@),
        ensures
            same_setup(*final(self), *old(self)),
            final(self)@ == (ArenaView {
                last_touch_tick: touch_after(
                    old(self).car_ids@,
                    *cur,
                    old(self)@.last_touch_tick,
                    old(self).car_ids@.len() as int,
                ),
                ..old(self)@
            }),
    {
        let mut last: u64 = self.last_touch_tick;
        let mut a: usize = 0;
        while a < self.car_ids.len()
            invariant
                a <= self.car_ids@.len(),
                agents_present(self.car_ids@, cur.cars@),
                last == touch_after(self.car_ids@, *cur, self.last_touch_tick, a as int),
            decreases self.car_ids.len() - a,
        {
            assert(car_with(cur.cars@, self.car_ids@[a as int], 0) is Some);
            let ci: usize = find_car(&cur.cars, self.car_ids[a]);
            let hit = cur.cars[ci].state.ball_hit_info;
            if hit.is_valid && hit.tick_count_when_hit > last && hit.tick_count_when_hit
                <= cur.tick_count {
                last = hit.tick_count_when_hit;
            }
            a = a + 1;
        }
        self.last_touch_tick = last;
    }

    /// What the agents earn.
    fn earn<S: Fn(F) -> F>(
        &self,
        cur: &GameState<F>,
        scored: Option<Team>,
        sqrt: &S,
    ) -> (r: Vec<F>)
        requires
            total::<F>(),
            functional(*sqrt),
            agents_present(self.car_ids@, cur.cars@),
            cur.cars@.len() <= self.prev_state.cars@.len(),
            self.blue_count <= self.car_ids@.len(),
        ensures
            r@ == step_rewards(*self, *cur, scored, *sqrt),
    {
        let ghost raw = raw_rewards(*self, *cur, scored, *sqrt);
        let mut r: Vec<F> = Vec::new();
        let mut a: usize = 0;
        while a < self.car_ids.len()
            invariant
                a <= self.car_ids@.len(),
                total::<F>(),
                    functional(*sqrt),
                agents_present(self.car_ids@, cur.cars@),
                cur.cars@.len() <= self.prev_state.cars@.len(),
                raw == raw_rewards(*self, *cur, scored, *sqrt),
                r@ =~= raw.take(a as int),
            decreases self.car_ids.len() - a,
        {
            assert(car_with(cur.cars@, self.car_ids@[a as int], 0) is Some);
            let ci: usize = find_car(&cur.cars, self.car_ids[a]);
            r.push(compute(&self.prev_state, cur, ci, scored, &self.reward_cfg, sqrt));
            a = a + 1;
        }
        assert(r@ =~= raw);
        let zero: F = whole(0);
        let cfg = &self.reward_cfg;
        if cfg.team_spirit != zero || cfg.opp_spirit != zero {
            blend_team_spirit(&mut r, self.blue_count, cfg.team_spirit, cfg.opp_spirit);
        }
        r
    }

    /// Adds to `terms` what the step to `cur` pays and counts, by term, over all
    /// agents; nothing where the physics broke down. Called before the step ends.
    pub fn count_terms<G: Scalar + From<F>, S: Fn(F) -> F>(
        &self,
        cur: &GameState<F>,
        ball_scored: bool,
        terms: &mut [G; 26],
        sqrt: &S,
    )
        requires
            total::<F>(),
            total::<G>(),
            widens::<F, G>(),
            functional(*sqrt),
            sane_state(*cur) ==> agents_present(self.car_ids@, cur.cars@),
            sane_state(*cur) ==> cur.cars@.len() <= self.prev_state.cars@.len(),
        ensures
            final(terms)@ == if sane_state(*cur) {
                counted_terms(
                    *self,
                    *cur,
                    scorer(*cur, ball_scored),
                    old(terms)@,
                    *sqrt,
                    self.car_ids@.len() as int,
                )
            } else {
                old(terms)@
            },
    {
        if !state_is_sane(cur) {
            return;
        }
        let scored: Option<Team> = scoring_team(cur, ball_scored);
        let ghost start = terms@;
        let mut a: usize = 0;
        while a < self.car_ids.len()
            invariant
                a <= self.car_ids@.len(),
                total::<F>(),
                total::<G>(),
                widens::<F, G>(),
                functional(*sqrt),
                agents_present(self.car_ids@, cur.cars@),
                cur.cars@.len() <= self.prev_state.cars@.len(),
                terms@ == counted_terms(*self, *cur, scored, start, *sqrt, a as int),
            decreases self.car_ids.len() - a,
        {
            assert(car_with(cur.cars@, self.car_ids@[a as int], 0) is Some);
            let ci: usize = find_car(&cur.cars, self.car_ids[a]);
            compute_terms(&self.prev_state, cur, ci, scored, &self.reward_cfg, terms, sqrt);
            a = a + 1;
        }
    }

    /// Ends a step in state `cur`. Where the physics broke down the episode ends
    /// with nothing earned, whatever the state says of goals; a match begins anew
    /// with the clock of the arena that is rebuilt.
    pub fn end_step<S: Fn(F) -> F>(
        &mut self,
        cur: GameState<F>,
        ball_scored: bool,
        sqrt: &S,
    ) -> (o: StepOutcome<F>)
        requires
            total::<F>(),
            functional(*sqrt),
            old(self).blue_count <= old(self).car_ids@.len(),
            can_end(*old(self), cur),
        ensures
            same_setup(*final(self), *old(self)),
            o.next == next_after(*old(self), cur, ball_scored),
            o.rewards@ == rewards_after(*old(self), cur, ball_scored, *sqrt),
            o.flags@ == all_flags_after(*old(self), cur, ball_scored),
            !sane_state(cur) ==> {
                &&& o.next is Rebuild
                &&& o.rewards@ == repeated(num::<F>(0), old(self).car_ids@.len() as int)
                &&& o.flags@ == repeated(
                    StepFlags { terminated: true, truncated: false },
                    old(self).car_ids@.len() as int,
                )
            },
            sane_state(cur) ==> ({
                let scored = scorer(cur, ball_scored);
                let f = flags_after(*old(self), cur, ball_scored);
                let ended = f.terminated || f.truncated;
                &&& o.rewards@ == step_rewards(*old(self), cur, scored, *sqrt)
                &&& o.flags@ == repeated(f, old(self).car_ids@.len() as int)
                &&& match o.next {
                    AfterStep::Ended(s) => ended && s == cur,
                    AfterStep::Kickoff => !ended && old(self).plays_matches() && scored is Some,
                    AfterStep::Continue => !ended && !(old(self).plays_matches() && scored is Some),
                    AfterStep::Rebuild => false,
                }
            }),
            final(self)@ == after_end(*old(self), cur, ball_scored),
    {
        let n: usize = self.car_ids.len();
        if !state_is_sane(&cur) {
            self.blowup_count = self.blowup_count + 1;
            if self.match_mode() {
                self.start_match(0);
            }
            let zero: F = whole(0);
            return StepOutcome {
                rewards: crate::rows::filled(zero, n),
                flags: crate::rows::filled(StepFlags { terminated: true, truncated: false }, n),
                next: AfterStep::Rebuild,
            };
        }
        let scored: Option<Team> = scoring_team(&cur, ball_scored);
        let rewards: Vec<F> = self.earn(&cur, scored, sqrt);
        self.track_touches(&cur);
        proof {
            lemma_touch_bounds(
                old(self).car_ids@,
                cur,
                old(self)@.last_touch_tick,
                old(self).car_ids@.len() as int,
            );
        }
        let matches: bool = self.match_mode();
        let stalled: bool = cur.tick_count - self.last_touch_tick >= NO_TOUCH_TICKS;
        let flags: StepFlags = if matches {
            let over: bool = cur.tick_count - self.match_start_tick >= MAX_TICKS;
            StepFlags { terminated: over, truncated: !over && stalled }
        } else {
            let goal: bool = scored.is_some();
            StepFlags {
                terminated: goal,
                truncated: !goal && (stalled || cur.tick_count - self.episode_start_tick
                    >= MAX_TICKS),
            }
        };
        if matches {
            if let Some(team) = scored {
                match team {
                    Team::Blue => {
                        self.score_blue = self.score_blue + 1;
                    },
                    Team::Orange => {
                        self.score_orange = self.score_orange + 1;
                    },
                }
            }
        }
        let all_flags: Vec<StepFlags> = crate::rows::filled(flags, n);
        if flags.terminated || flags.truncated {
            if matches {
                self.start_match(cur.tick_count);
            }
            return StepOutcome { rewards, flags: all_flags, next: AfterStep::Ended(cur) };
        }
        if matches && scored.is_some() {
            return StepOutcome { rewards, flags: all_flags, next: AfterStep::Kickoff };
        }
        self.prev_state = cur;
        StepOutcome { rewards, flags: all_flags, next: AfterStep::Continue }
    }
}

/// The last touch lies between the one before and the present.
pub proof fn lemma_touch_bounds<F>(ids: Seq<u32>, cur: GameState<F>, last: u64, n: int)
    requires
        last <= cur.tick_count,
    ensures
        last <= touch_after(ids, cur, last, n) <= cur.tick_count,
    decreases n,
{
    if n > 0 {
        lemma_touch_bounds(ids, cur, last, n - 1);
    }
}

/// A ring after another action.
fn push_ring(r: &Ring, act: i64) -> (n: Ring)
    ensures
        n@ == pushed(r@, act),
{
    let n: Ring = [act, r[0], r[1], r[2], r[3]];
    assert(n@ =~= pushed(r@, act));
    n
}

fn push_all(rings: &Vec<Ring>, acts: &Vec<i64>) -> (next: Vec<Ring>)
    requires
        rings@.len() == acts@.len(),
    ensures
        rings_pushed(rings@, acts@, next@),
{
    let mut next: Vec<Ring> = Vec::new();
    let mut a: usize = 0;
    while a < rings.len()
        invariant
            a <= rings@.len(),
            rings@.len() == acts@.len(),
            next@.len() == a,
            forall|j: int| 0 <= j < a ==> (#[trigger] next@[j])@ == pushed(rings@[j]@, acts@[j]),
        decreases rings.len() - a,
    {
        next.push(push_ring(&rings[a], acts[a]));
        a = a + 1;
    }
    next
}

/// The flat observations of the first `n` agents.
pub open spec fn flat_rows<F: Scalar>(a: EpisodeArena<F>, gs: GameState<F>, n: int) -> Seq<F>
    decreases n,
{
    if n <= 0 {
        Seq::empty()
    } else {
        flat_rows(a, gs, n - 1) + obs_row(gs, car_of(a.car_ids@, gs.cars@, n - 1), a.norm)
    }
}

/// The entity features of the first `n` agents.
pub open spec fn ents_rows<F: Scalar>(
    a: EpisodeArena<F>,
    gs: GameState<F>,
    pred: [BallSnap<F>; 4],
    perm: Seq<usize>,
    n: int,
) -> Seq<F>
    decreases n,
{
    if n <= 0 {
        Seq::empty()
    } else {
        ents_rows(a, gs, pred, perm, n - 1) + all_features(
            entity_slots(gs, car_of(a.car_ids@, gs.cars@, n - 1), pred, perm, a.norm),
        )
    }
}

/// The masks of the first `n` agents.
pub open spec fn mask_rows<F: Scalar>(
    a: EpisodeArena<F>,
    gs: GameState<F>,
    pred: [BallSnap<F>; 4],
    perm: Seq<usize>,
    n: int,
) -> Seq<bool>
    decreases n,
{
    if n <= 0 {
        Seq::empty()
    } else {
        mask_rows(a, gs, pred, perm, n - 1) + absent(
            entity_slots(gs, car_of(a.car_ids@, gs.cars@, n - 1), pred, perm, a.norm),
        )
    }
}

/// The query rows of the first `n` agents.
pub open spec fn query_rows<F: Scalar>(
    a: EpisodeArena<F>,
    gs: GameState<F>,
    perm: Seq<usize>,
    n: int,
) -> Seq<F>
    decreases n,
{
    if n <= 0 {
        Seq::empty()
    } else {
        query_rows(a, gs, perm, n - 1) + query_row(
            gs,
            car_of(a.car_ids@, gs.cars@, n - 1),
            perm,
            a.norm,
        )
    }
}

/// The recent actions of the first `n` agents.
pub open spec fn prev_rows(rings: Seq<Ring>, n: int) -> Seq<i64>
    decreases n,
{
    if n <= 0 {
        Seq::empty()
    } else {
        prev_rows(rings, n - 1) + rings[n - 1]@
    }
}

impl<F: Scalar> EpisodeArena<F> {
    /// The flat observations of all agents in state `gs`.
    pub fn write_obs(&self, gs: &GameState<F>) -> (out: Vec<F>)
        requires
            total::<F>(),
            agents_present(self.car_ids@, gs.cars@),
        ensures
            out@ == flat_rows(*self, *gs, self.car_ids@.len() as int),
            has_rows(out@, self.car_ids@.len() as int, OBS_SIZE as int),
    {
        let mut out: Vec<F> = Vec::new();
        let mut a: usize = 0;
        while a < self.car_ids.len()
            invariant
                a <= self.car_ids@.len(),
                total::<F>(),
                agents_present(self.car_ids@, gs.cars@),
                out@ == flat_rows(*self, *gs, a as int),
                out@.len() == a * OBS_SIZE,
            decreases self.car_ids.len() - a,
        {
            assert(car_with(gs.cars@, self.car_ids@[a as int], 0) is Some);
            let ci: usize = find_car(&gs.cars, self.car_ids[a]);
            let row: Vec<F> = build_obs(gs, ci, &self.norm);
            append_all(&mut out, &row);
            a = a + 1;
        }
        out
    }

    /// The entity observations of all agents in state `gs`, with one ball
    /// prediction for all and each agent's recent actions.
    pub fn write_obs_v1(
        &self,
        gs: &GameState<F>,
        pred: &[BallSnap<F>; 4],
        perm: &Vec<usize>,
    ) -> (o: ObsBatch<F>)
        requires
            total::<F>(),
            agents_present(self.car_ids@, gs.cars@),
            perm_fits(gs.pads@, perm@),
            self@.rings is Some,
            self@.rings->0.len() == self.car_ids@.len(),
        ensures
            ({
                let n = self.car_ids@.len() as int;
                &&& o.ents@ == ents_rows(*self, *gs, *pred, perm@, n)
                &&& o.mask@ == mask_rows(*self, *gs, *pred, perm@, n)
                &&& o.query@ == query_rows(*self, *gs, perm@, n)
                &&& o.prev@ == prev_rows(self@.rings->0, n)
                &&& o.holds(n)
            }),
    {
        let mut ents: Vec<F> = Vec::new();
        let mut mask: Vec<bool> = Vec::new();
        let mut query: Vec<F> = Vec::new();
        let mut a: usize = 0;
        while a < self.car_ids.len()
            invariant
                a <= self.car_ids@.len(),
                total::<F>(),
                agents_present(self.car_ids@, gs.cars@),
                perm_fits(gs.pads@, perm@),
                ents@ == ents_rows(*self, *gs, *pred, perm@, a as int),
                mask@ == mask_rows(*self, *gs, *pred, perm@, a as int),
                query@ == query_rows(*self, *gs, perm@, a as int),
                ents@.len() == a * ENTS_WIDTH,
                mask@.len() == a * MAX_ENT,
                query@.len() == a * Q_FEAT,
            decreases self.car_ids.len() - a,
        {
            assert(car_with(gs.cars@, self.car_ids@[a as int], 0) is Some);
            let ci: usize = find_car(&gs.cars, self.car_ids[a]);
            let e: EntityObs<F> = build(gs, ci, pred, perm, &self.norm);
            append_all(&mut ents, &e.ents);
            append_all(&mut mask, &e.mask);
            append_all(&mut query, &e.query);
            a = a + 1;
        }
        let prev: Vec<i64> = match &self.rings {
            Some(r) => copy_rings(r),
            None => Vec::new(),
        };
        ObsBatch { ents, mask, query, prev }
    }

    /// The final observation of an episode that ended because the physics broke
    /// down: zeros, nothing masked.
    pub fn blank_obs_v1(&self) -> (o: ObsBatch<F>)
        requires
            total::<F>(),
            self.car_ids@.len() * ENTS_WIDTH <= usize::MAX,
        ensures
            ({
                let n = self.car_ids@.len() as int;
                &&& o.ents@ == repeated(num::<F>(0), n * ENTS_WIDTH)
                &&& o.mask@ == repeated(false, n * MAX_ENT)
                &&& o.query@ == repeated(num::<F>(0), n * Q_FEAT)
                &&& o.prev@ == repeated(0i64, n * PREV_ACTIONS)
            }),
    {
        let n: usize = self.car_ids.len();
        let zero: F = whole(0);
        ObsBatch {
            ents: crate::rows::filled(zero, n * ENTS_WIDTH),
            mask: crate::rows::filled(false, n * MAX_ENT),
            query: crate::rows::filled(zero, n * Q_FEAT),
            prev: crate::rows::filled(0i64, n * PREV_ACTIONS),
        }
    }
}

fn append_all<T: Copy>(out: &mut Vec<T>, v: &Vec<T>)
    ensures
        final(out)@ == old(out)@ + v@,
{
    let len: usize = v.len();
    append_range(out, v, 0, len);
    assert(v@.subrange(0, len as int) =~= v@);
}

fn copy_rings(rings: &Vec<Ring>) -> (prev: Vec<i64>)
    ensures
        prev@ == prev_rows(rings@, rings@.len() as int),
        prev@.len() == rings@.len() * PREV_ACTIONS,
{
    let mut prev: Vec<i64> = Vec::new();
    let mut a: usize = 0;
    while a < rings.len()
        invariant
            a <= rings@.len(),
            prev@ == prev_rows(rings@, a as int),
            prev@.len() == a * PREV_ACTIONS,
        decreases rings.len() - a,
    {
        let ghost before = prev@;
        prev.push(rings[a][0]);
        prev.push(rings[a][1]);
        prev.push(rings[a][2]);
        prev.push(rings[a][3]);
        prev.push(rings[a][4]);
        assert(prev@ =~= before + rings@[a as int]@);
        a = a + 1;
    }
    prev
}

/// A car's place at kickoff.
#[derive(Debug)]
pub struct KickoffCar<F> {
    pub pos: Vec3<F>,
    pub yaw: F,
}

impl<F: Copy> Clone for KickoffCar<F> {
    fn clone(&self) -> (r: Self)
        ensures
            r == *self,
    {
        *self
    }
}

impl<F: Copy> Copy for KickoffCar<F> {

}

/// A draw from `g` between `neg` and `k`, of which the first is the opposite of
/// the second.
pub open spec fn jitter<F: Scalar>(g: (u64, u64), neg: F, k: F) -> F {
    plus(neg, times(unit::<F>(pcg_output(g)), times(num::<F>(2), k)))
}

/// A car at kickoff after it was jittered by three draws from `g`: across, along
/// and in its heading. Its height stays.
pub open spec fn jittered_car<F: Scalar>(c: KickoffCar<F>, g: (u64, u64)) -> KickoffCar<F> {
    KickoffCar {
        pos: Vec3 {
            x: plus(c.pos.x, jitter(g, num::<F>(-150), num::<F>(150))),
            y: plus(c.pos.y, jitter(pcg_next(g), num::<F>(-150), num::<F>(150))),
            z: c.pos.z,
        },
        yaw: plus(
            c.yaw,
            jitter(pcg_next(pcg_next(g)), frac::<F>(-17, 100), frac::<F>(17, 100)),
        ),
    }
}

/// The generator after `n` cars were jittered.
pub open spec fn jitter_rng(g: (u64, u64), n: int) -> (u64, u64)
    decreases n,
{
    if n <= 0 {
        g
    } else {
        pcg_next(pcg_next(pcg_next(jitter_rng(g, n - 1))))
    }
}

/// The ball at kickoff after it was jittered by two draws from `g`.
pub open spec fn jittered_ball<F: Scalar>(pos: Vec3<F>, g: (u64, u64)) -> Vec3<F> {
    Vec3 {
        x: plus(pos.x, jitter(g, num::<F>(-10), num::<F>(10))),
        y: plus(pos.y, jitter(pcg_next(g), num::<F>(-10), num::<F>(10))),
        z: pos.z,
    }
}

fn draw_jitter<F: Scalar>(rng: &mut Pcg32, neg: F, k: F) -> (d: F)
    requires
        total::<F>(),
    ensures
        d == jitter(old(rng)@, neg, k),
        final(rng)@ == pcg_next(old(rng)@),
{
    let u: F = rng.next_f32();
    let two: F = whole(2);
    neg + u * (two * k)
}

/// A recorded car as it is put into the arena.
pub struct ReplayCar<F> {
    pub pos: Vec3<F>,
    pub vel: Vec3<F>,
    pub ang_vel: Vec3<F>,
    pub rot_mat: RotMat<F>,
    /// Boost from 0 to 100.
    pub boost: F,
    pub is_on_ground: bool,
}

/// The vector of three numbers.
pub open spec fn vec_of<F>(a: [F; 3]) -> Vec3<F> {
    Vec3 { x: a@[0], y: a@[1], z: a@[2] }
}

fn to_vec3<F: Copy>(a: &[F; 3]) -> (v: Vec3<F>)
    ensures
        v == vec_of(*a),
{
    Vec3 { x: a[0], y: a[1], z: a[2] }
}

/// A recorded car as it is put into the arena.
pub open spec fn placed<F: Scalar>(c: CarSpawn<F>) -> ReplayCar<F> {
    ReplayCar {
        pos: vec_of(c.pos),
        vel: vec_of(c.vel),
        ang_vel: vec_of(c.ang_vel),
        rot_mat: orientation(c.quat),
        boost: times(c.boost, num::<F>(100)),
        is_on_ground: c.on_ground,
    }
}

/// A recorded ball as it is put into the arena.
pub fn place_ball<F: Scalar>(b: &BallSpawn<F>) -> (r: BallState<F>)
    ensures
        r == (BallState { pos: vec_of(b.pos), vel: vec_of(b.vel), ang_vel: vec_of(b.ang_vel) }),
{
    BallState { pos: to_vec3(&b.pos), vel: to_vec3(&b.vel), ang_vel: to_vec3(&b.ang_vel) }
}

/// A recorded car as it is put into the arena.
pub fn place_car<F: Scalar>(c: &CarSpawn<F>) -> (r: ReplayCar<F>)
    requires
        total::<F>(),
    ensures
        r == placed(*c),
{
    let full: F = whole(100);
    ReplayCar {
        pos: to_vec3(&c.pos),
        vel: to_vec3(&c.vel),
        ang_vel: to_vec3(&c.ang_vel),
        rot_mat: quat_to_rotmat(&c.quat),
        boost: c.boost * full,
        is_on_ground: c.on_ground,
    }
}

impl<F: Scalar> EpisodeArena<F> {
    /// Jitters the cars and the ball of a kickoff.
    pub fn jitter_kickoff(&mut self, cars: &Vec<KickoffCar<F>>, ball: Vec3<F>) -> (r: (
        Vec<KickoffCar<F>>,
        Vec3<F>,
    ))
        requires
            total::<F>(),
        ensures
            same_setup(*final(self), *old(self)),
            r.0@.len() == cars@.len(),
            forall|i: int|
                0 <= i < cars@.len() ==> #[trigger] r.0@[i] == jittered_car(
                    cars@[i],
                    jitter_rng(old(self)@.rng, i),
                ),
            r.1 == jittered_ball(ball, jitter_rng(old(self)@.rng, cars@.len() as int)),
            final(self)@ == (ArenaView {
                rng: pcg_next(pcg_next(jitter_rng(old(self)@.rng, cars@.len() as int))),
                ..old(self)@
            }),
    {
        let ghost g = self@.rng;
        let ghost start = *self;
        let mut out: Vec<KickoffCar<F>> = Vec::new();
        let mut i: usize = 0;
        while i < cars.len()
            invariant
                i <= cars@.len(),
                total::<F>(),
                g == start@.rng,
                same_setup(*self, start),
                self@ == (ArenaView { rng: jitter_rng(g, i as int), ..start@ }),
                out@.len() == i,
                forall|j: int|
                    0 <= j < i ==> #[trigger] out@[j] == jittered_car(cars@[j], jitter_rng(g, j)),
            decreases cars.len() - i,
        {
            let c: KickoffCar<F> = cars[i];
            let dx: F = draw_jitter(&mut self.rng, whole(-150), whole(150));
            let dy: F = draw_jitter(&mut self.rng, whole(-150), whole(150));
            let dyaw: F = draw_jitter(&mut self.rng, ratio(-17, 100), ratio(17, 100));
            out.push(
                KickoffCar {
                    pos: Vec3 { x: c.pos.x + dx, y: c.pos.y + dy, z: c.pos.z },
                    yaw: c.yaw + dyaw,
                },
            );
            i = i + 1;
        }
        let bx: F = draw_jitter(&mut self.rng, whole(-10), whole(10));
        let by: F = draw_jitter(&mut self.rng, whole(-10), whole(10));
        (out, Vec3 { x: ball.x + bx, y: ball.y + by, z: ball.z })
    }

    /// Draws a random scenario for the arena's cars.
    pub fn draw_scenario<C: Fn(F) -> F, S: Fn(F) -> F>(&mut self, trig: &Trig<F, C, S>) -> (s:
        RandomScenario<F>)
        requires
            total::<F>(),
            trig.usable(),
            old(self).curriculum is Some,
        ensures
            same_setup(*final(self), *old(self)),
            ({
                let b = old(self).curriculum->0.random;
                let (ball, g1) = found_position(
                    old(self)@.rng,
                    frac::<F>(9315, 100),
                    b.z_max,
                    Seq::empty(),
                    b.min_separation,
                    10,
                );
                let g2 = pcg_next(pcg_next(pcg_next(g1)));
                let (cars, g3) = drawn_cars(g2, ball, b, *trig, old(self).car_ids@.len() as int);
                &&& s.ball_pos == ball
                &&& s.ball_vel == drawn_velocity(g1, b.ball_speed_max, *trig)
                &&& s.cars@ == cars
                &&& final(self)@ == (ArenaView { rng: g3, ..old(self)@ })
            }),
    {
        let n: usize = self.car_ids.len();
        let b: RandomStateBounds<F> = match &self.curriculum {
            Some(c) => c.random,
            None => RandomStateBounds::standard(),
        };
        random_reset(n, &mut self.rng, &b, trig)
    }
}

/// An episode never ends and is cut off at once. In a match a goal does not end
/// it; a single episode ends with every goal.
pub proof fn law_how_steps_end(
    matches: bool,
    goal: bool,
    tick: u64,
    last_touch: u64,
    episode_start: u64,
    match_start: u64,
)
    ensures
        ({
            let f = step_flags(matches, goal, tick, last_touch, episode_start, match_start);
            let quiet = step_flags(matches, false, tick, last_touch, episode_start, match_start);
            &&& !(f.terminated && f.truncated)
            &&& matches ==> f == quiet
            &&& !matches && goal ==> f.terminated
            &&& !matches ==> (f.terminated <==> goal)
        }),
{
}

/// A ring after a run of actions.
pub open spec fn ring_after(ring: Seq<i64>, acts: Seq<i64>) -> Seq<i64>
    decreases acts.len(),
{
    if acts.len() == 0 {
        ring
    } else {
        pushed(ring_after(ring, acts.drop_last()), acts.last())
    }
}

/// After five actions a ring holds these, the latest first; after fewer the
/// older places hold what the ring held first.
pub proof fn law_ring_holds_latest_actions(ring: Seq<i64>, acts: Seq<i64>, i: int)
    requires
        ring.len() == 5,
        0 <= i < 5,
    ensures
        ring_after(ring, acts).len() == 5,
        ring_after(ring, acts)[i] == if i < acts.len() {
            acts[acts.len() - 1 - i]
        } else {
            ring[i - acts.len()]
        },
    decreases acts.len(),
{
    if acts.len() > 0 {
        law_ring_holds_latest_actions(ring, acts.drop_last(), 0);
        if i > 0 {
            law_ring_holds_latest_actions(ring, acts.drop_last(), i - 1);
        }
    }
}

} // verus!
