//! Rollout buffers: what one worker records, and how the workers' buffers are
//! put together.

use crate::engine::plan::RolloutPlan;
use crate::episode::{ObsMode, StepFlags};
use crate::obs::OBS_SIZE;
use crate::obs_v1::{MAX_ENT, PREV_ACTIONS, Q_FEAT};
use crate::rows::{
    append_range, filled, gather, gathered, has_rows, lemma_row_bounds, record_rows, repeated, rows_within,
    scatter, scattered, spliced,
};
use crate::scalar::{converts, num, whole, Scalar};
use vstd::prelude::*;

verus! {

/// Features of all entity slots of one observation.
pub const ENTS_WIDTH: usize = 442;

/// The buffers of a rollout. Step `t` of a buffer with `k` values per row holds
/// `learner_agents` rows from `t * learner_agents * k` on. A flat-observation
/// rollout fills `obs`; an entity rollout fills `ents`, `mask`, `query`, `prev`
/// and, on request, `obs_v0`.
pub struct CollectOut<F> {
    pub obs: Vec<F>,
    pub ents: Vec<F>,
    pub mask: Vec<bool>,
    pub query: Vec<F>,
    pub prev: Vec<i64>,
    pub obs_v0: Vec<F>,
    pub actions: Vec<i64>,
    pub logprobs: Vec<F>,
    pub values: Vec<F>,
    pub rewards: Vec<F>,
    pub terminated: Vec<bool>,
    pub truncated: Vec<bool>,
    pub final_values: Vec<F>,
    /// One bootstrap value per row, after the last step.
    pub last_values: Vec<F>,
    /// Rows per step.
    pub learner_agents: usize,
    /// Team size of the arena of each row.
    pub learner_team_size: Vec<i8>,
    /// Rows per step that the learner's policy plays.
    pub forward_rows: usize,
}

/// The contents of the buffers of a rollout.
pub struct CollectView<F> {
    pub obs: Seq<F>,
    pub ents: Seq<F>,
    pub mask: Seq<bool>,
    pub query: Seq<F>,
    pub prev: Seq<i64>,
    pub obs_v0: Seq<F>,
    pub actions: Seq<i64>,
    pub logprobs: Seq<F>,
    pub values: Seq<F>,
    pub rewards: Seq<F>,
    pub terminated: Seq<bool>,
    pub truncated: Seq<bool>,
    pub final_values: Seq<F>,
    pub last_values: Seq<F>,
    pub learner_agents: usize,
    pub learner_team_size: Seq<i8>,
    pub forward_rows: usize,
}

impl<F> View for CollectOut<F> {
    type V = CollectView<F>;

    open spec fn view(&self) -> CollectView<F> {
        CollectView {
            obs: self.obs@,
            ents: self.ents@,
            mask: self.mask@,
            query: self.query@,
            prev: self.prev@,
            obs_v0: self.obs_v0@,
            actions: self.actions@,
            logprobs: self.logprobs@,
            values: self.values@,
            rewards: self.rewards@,
            terminated: self.terminated@,
            truncated: self.truncated@,
            final_values: self.final_values@,
            last_values: self.last_values@,
            learner_agents: self.learner_agents,
            learner_team_size: self.learner_team_size@,
            forward_rows: self.forward_rows,
        }
    }
}

/// Empty rollout buffers of a flat-observation rollout.
pub open spec fn zeros_view<F: Scalar>(steps: int, agents: usize, obs_dim: int) -> CollectView<F> {
    let z = num::<F>(0);
    let cells = steps * agents;
    CollectView {
        obs: repeated(z, cells * obs_dim),
        ents: Seq::empty(),
        mask: Seq::empty(),
        query: Seq::empty(),
        prev: Seq::empty(),
        obs_v0: Seq::empty(),
        actions: repeated(0i64, cells),
        logprobs: repeated(z, cells),
        values: repeated(z, cells),
        rewards: repeated(z, cells),
        terminated: repeated(false, cells),
        truncated: repeated(false, cells),
        final_values: repeated(z, cells),
        last_values: repeated(z, agents as int),
        learner_agents: agents,
        learner_team_size: Seq::empty(),
        forward_rows: agents,
    }
}

/// Empty rollout buffers of an entity rollout.
pub open spec fn zeros_v1_view<F: Scalar>(
    steps: int,
    agents: usize,
    emit_v0_obs: bool,
) -> CollectView<F> {
    let z = num::<F>(0);
    let cells = steps * agents;
    CollectView {
        obs: Seq::empty(),
        ents: repeated(z, cells * ENTS_WIDTH),
        mask: repeated(false, cells * MAX_ENT),
        query: repeated(z, cells * Q_FEAT),
        prev: repeated(0i64, cells * PREV_ACTIONS),
        obs_v0: if emit_v0_obs {
            repeated(z, cells * OBS_SIZE)
        } else {
            Seq::empty()
        },
        learner_team_size: repeated(0i8, agents as int),
        ..zeros_view(steps, agents, 0)
    }
}

impl<F: Scalar> CollectOut<F> {
    /// Zeroed buffers of a flat-observation rollout.
    pub fn zeros(steps: usize, agents: usize, obs_dim: usize) -> (out: Self)
        requires
            converts::<F>(),
            steps * agents <= usize::MAX,
            steps * agents * obs_dim <= usize::MAX,
        ensures
            out@ == zeros_view::<F>(steps as int, agents, obs_dim as int),
    {
        let z: F = whole(0);
        let cells: usize = steps * agents;
        let out = CollectOut {
            obs: filled(z, cells * obs_dim),
            ents: Vec::new(),
            mask: Vec::new(),
            query: Vec::new(),
            prev: Vec::new(),
            obs_v0: Vec::new(),
            actions: filled(0i64, cells),
            logprobs: filled(z, cells),
            values: filled(z, cells),
            rewards: filled(z, cells),
            terminated: filled(false, cells),
            truncated: filled(false, cells),
            final_values: filled(z, cells),
            last_values: filled(z, agents),
            learner_agents: agents,
            learner_team_size: Vec::new(),
            forward_rows: agents,
        };
        out
    }

    /// Zeroed buffers of an entity rollout.
    pub fn zeros_v1(steps: usize, agents: usize, emit_v0_obs: bool) -> (out: Self)
        requires
            converts::<F>(),
            steps * agents * ENTS_WIDTH <= usize::MAX,
        ensures
            out@ == zeros_v1_view::<F>(steps as int, agents, emit_v0_obs),
    {
        proof {
            let c = steps * agents;
            assert(0 <= c && c * 442 <= usize::MAX) by (nonlinear_arith)
                requires
                    c == steps * agents,
                    0 <= steps,
                    0 <= agents,
                    steps * agents * 442 <= usize::MAX,
            ;
        }
        let z: F = whole(0);
        let cells: usize = steps * agents;
        let mut out: CollectOut<F> = CollectOut::zeros(steps, agents, 0);
        out.ents = filled(z, cells * ENTS_WIDTH);
        out.mask = filled(false, cells * MAX_ENT);
        out.query = filled(z, cells * Q_FEAT);
        out.prev = filled(0i64, cells * PREV_ACTIONS);
        if emit_v0_obs {
            out.obs_v0 = filled(z, cells * OBS_SIZE);
        }
        out.learner_team_size = filled(0i8, agents);
        assert(out.obs@ =~= Seq::empty());
        out
    }
}

/// Empty buffers of a rollout that follows a plan. The labels of an entity rollout
/// are the plan's.
pub open spec fn planned_view<F: Scalar>(
    plan: RolloutPlan,
    steps: int,
    mode: ObsMode,
    emit_v0_obs: bool,
) -> CollectView<F> {
    let n = plan.learner_idx@.len() as usize;
    match mode {
        ObsMode::V0 => zeros_view(steps, n, OBS_SIZE as int),
        ObsMode::V1 => CollectView {
            learner_team_size: plan.learner_team_size@,
            forward_rows: plan.fwd_idx@.len() as usize,
            ..zeros_v1_view(steps, n, emit_v0_obs)
        },
    }
}

impl<F: Scalar> CollectOut<F> {
    /// Zeroed buffers of a rollout that follows a plan.
    pub fn for_plan(plan: &RolloutPlan, steps: usize, mode: ObsMode, emit_v0_obs: bool) -> (out:
        Self)
        requires
            converts::<F>(),
            plan.columns_invert_rows(),
            steps * plan.learner_idx@.len() * ENTS_WIDTH <= usize::MAX,
        ensures
            out@ == planned_view::<F>(*plan, steps as int, mode, emit_v0_obs),
            out.planned(plan),
            match mode {
                ObsMode::V0 => out.shaped_v0(steps as int),
                ObsMode::V1 => out.shaped_v1(steps as int, emit_v0_obs),
            },
    {
        let n: usize = plan.learner_idx.len();
        let ghost cells = steps * n;
        proof {
            assert(0 <= cells <= cells * 94 <= usize::MAX && cells * 442 <= usize::MAX)
                by (nonlinear_arith)
                requires
                    cells == steps * n,
                    0 <= steps,
                    0 <= n,
                    steps * n * 442 <= usize::MAX,
            ;
        }
        match mode {
            ObsMode::V0 => CollectOut::zeros(steps, n, OBS_SIZE),
            ObsMode::V1 => {
                let mut out: CollectOut<F> = CollectOut::zeros_v1(steps, n, emit_v0_obs);
                let mut labels: Vec<i8> = Vec::new();
                let count: usize = plan.learner_team_size.len();
                append_range(&mut labels, &plan.learner_team_size, 0, count);
                assert(labels@ =~= plan.learner_team_size@);
                out.learner_team_size = labels;
                out.forward_rows = plan.fwd_idx.len();
                out
            },
        }
    }
}

/// The entity observations of a number of agents, one row each.
pub struct ObsBatch<F> {
    pub ents: Vec<F>,
    pub mask: Vec<bool>,
    pub query: Vec<F>,
    pub prev: Vec<i64>,
}

/// Entity observations as contents, one row per agent.
pub struct BatchView<F> {
    pub ents: Seq<F>,
    pub mask: Seq<bool>,
    pub query: Seq<F>,
    pub prev: Seq<i64>,
}

impl<F> View for ObsBatch<F> {
    type V = BatchView<F>;

    open spec fn view(&self) -> BatchView<F> {
        BatchView {
            ents: self.ents@,
            mask: self.mask@,
            query: self.query@,
            prev: self.prev@,
        }
    }
}

impl<F> BatchView<F> {
    /// The batch holds `n` rows.
    pub open spec fn holds(self, n: int) -> bool {
        &&& has_rows(self.ents, n, ENTS_WIDTH as int)
        &&& has_rows(self.mask, n, MAX_ENT as int)
        &&& has_rows(self.query, n, Q_FEAT as int)
        &&& has_rows(self.prev, n, PREV_ACTIONS as int)
    }
}

impl<F: Scalar> ObsBatch<F> {
    /// The batch holds `n` rows.
    pub open spec fn holds(&self, n: int) -> bool {
        self@.holds(n)
    }

    /// The rows `idx` of the batch, as a batch of their own.
    pub fn gather(&self, idx: &Vec<usize>) -> (r: ObsBatch<F>)
        requires
            exists|n: int| #[trigger] self.holds(n) && rows_within(idx@, n),
        ensures
            r.holds(idx@.len() as int),
            r.ents@ == gathered(self.ents@, idx@, ENTS_WIDTH as int),
            r.mask@ == gathered(self.mask@, idx@, MAX_ENT as int),
            r.query@ == gathered(self.query@, idx@, Q_FEAT as int),
            r.prev@ == gathered(self.prev@, idx@, PREV_ACTIONS as int),
    {
        let ghost n = choose|n: int| #[trigger] self.holds(n) && rows_within(idx@, n);
        assert(has_rows(self.ents@, n, ENTS_WIDTH as int));
        assert(has_rows(self.mask@, n, MAX_ENT as int));
        assert(has_rows(self.query@, n, Q_FEAT as int));
        assert(has_rows(self.prev@, n, PREV_ACTIONS as int));
        ObsBatch {
            ents: gather(&self.ents, idx, ENTS_WIDTH),
            mask: gather(&self.mask, idx, MAX_ENT),
            query: gather(&self.query, idx, Q_FEAT),
            prev: gather(&self.prev, idx, PREV_ACTIONS),
        }
    }
}

/// `buf` after value `j` was stored, for each of the first `m` agents of `idx`
/// that has a column, at that column counted from `base`.
pub open spec fn stored_by_column<F>(
    buf: Seq<F>,
    base: int,
    col: Seq<Option<usize>>,
    idx: Seq<usize>,
    vals: Seq<F>,
    m: int,
) -> Seq<F>
    decreases m,
{
    if m <= 0 {
        buf
    } else {
        let before = stored_by_column(buf, base, col, idx, vals, m - 1);
        match col[idx[m - 1] as int] {
            Some(c) => before.update(base + c, vals[m - 1]),
            None => before,
        }
    }
}

/// The agents among the first `m` of `idx` whose episode ended, in order.
pub open spec fn ended(idx: Seq<usize>, flags: Seq<StepFlags>, m: int) -> Seq<usize>
    decreases m,
{
    if m <= 0 {
        Seq::empty()
    } else {
        let f = flags[idx[m - 1] as int];
        let before = ended(idx, flags, m - 1);
        if f.terminated || f.truncated {
            before.push(idx[m - 1])
        } else {
            before
        }
    }
}

/// `buf` with the elements `idx` of `src` recorded as step `t`.
pub open spec fn step_recorded<T>(
    buf: Seq<T>,
    t: int,
    idx: Seq<usize>,
    src: Seq<T>,
    width: int,
) -> Seq<T> {
    spliced(buf, t * idx.len() * width, gathered(src, idx, width))
}

/// Stores each value of `vals` whose agent has a column at that column of step `t`.
fn store_by_column<F: Copy>(
    buf: &mut Vec<F>,
    t: usize,
    steps: usize,
    n: usize,
    col: &Vec<Option<usize>>,
    idx: &Vec<usize>,
    vals: &Vec<F>,
)
    requires
        t < steps,
        old(buf)@.len() == steps * n,
        vals@.len() == idx@.len(),
        rows_within(idx@, col@.len() as int),
        forall|a: int|
            0 <= a < col@.len() ==> match #[trigger] col@[a] {
                Some(c) => c < n,
                None => true,
            },
    ensures
        final(buf)@ == stored_by_column(
            old(buf)@,
            t * n,
            col@,
            idx@,
            vals@,
            idx@.len() as int,
        ),
        final(buf)@.len() == old(buf)@.len(),
{
    let ghost start = buf@;
    proof {
        lemma_row_bounds(t as int, steps as int, n as int);
        assert(buf.len() == steps * n);
    }
    let base: usize = t * n;
    let mut j: usize = 0;
    while j < idx.len()
        invariant
            j <= idx@.len(),
            base == t * n,
            base + n <= buf.len(),
            buf@.len() == start.len(),
            vals@.len() == idx@.len(),
            rows_within(idx@, col@.len() as int),
            forall|a: int|
                0 <= a < col@.len() ==> match #[trigger] col@[a] {
                    Some(c) => c < n,
                    None => true,
                },
            buf@ == stored_by_column(start, base as int, col@, idx@, vals@, j as int),
        decreases idx.len() - j,
    {
        let a: usize = idx[j];
        assert(idx@[j as int] < col@.len());
        if let Some(c) = col[a] {
            buf[base + c] = vals[j];
        }
        j = j + 1;
    }
}

/// Stores by column reach every column that an agent of `idx` has: where each
/// column belongs to one agent only, it holds that agent's value afterwards.
pub proof fn law_stored_by_column<F>(
    buf: Seq<F>,
    base: int,
    col: Seq<Option<usize>>,
    idx: Seq<usize>,
    vals: Seq<F>,
    m: int,
)
    requires
        0 <= base,
        0 <= m <= idx.len(),
        forall|j: int|
            0 <= j < m ==> match col[#[trigger] idx[j] as int] {
                Some(c) => base + c < buf.len(),
                None => true,
            },
        forall|i: int, j: int|
            0 <= i < j < m && col[#[trigger] idx[i] as int] is Some ==> col[idx[i] as int]
                != col[#[trigger] idx[j] as int],
    ensures
        stored_by_column(buf, base, col, idx, vals, m).len() == buf.len(),
        forall|j: int|
            0 <= j < m ==> match col[#[trigger] idx[j] as int] {
                Some(c) => stored_by_column(buf, base, col, idx, vals, m)[base + c] == vals[j],
                None => true,
            },
        forall|i: int|
            0 <= i < buf.len() && (forall|j: int|
                0 <= j < m ==> match col[#[trigger] idx[j] as int] {
                    Some(c) => base + c != i,
                    None => true,
                }) ==> #[trigger] stored_by_column(buf, base, col, idx, vals, m)[i] == buf[i],
    decreases m,
{
    if m > 0 {
        law_stored_by_column(buf, base, col, idx, vals, m - 1);
        assert(idx[m - 1] == idx[m - 1]);
    }
}

/// The buffers after entity observations were recorded as step `t`, with flat
/// ones beside them where those are given.
pub open spec fn with_entities<F>(
    v: CollectView<F>,
    plan: RolloutPlan,
    t: int,
    batch: BatchView<F>,
    flat: Option<Seq<F>>,
) -> CollectView<F> {
    let idx = plan.learner_idx@;
    CollectView {
        ents: step_recorded(v.ents, t, idx, batch.ents, ENTS_WIDTH as int),
        mask: step_recorded(v.mask, t, idx, batch.mask, MAX_ENT as int),
        query: step_recorded(v.query, t, idx, batch.query, Q_FEAT as int),
        prev: step_recorded(v.prev, t, idx, batch.prev, PREV_ACTIONS as int),
        obs_v0: match flat {
            Some(o) => step_recorded(v.obs_v0, t, idx, o, OBS_SIZE as int),
            None => v.obs_v0,
        },
        ..v
    }
}

/// The buffers after flat observations were recorded as step `t`.
pub open spec fn with_flat<F>(
    v: CollectView<F>,
    plan: RolloutPlan,
    t: int,
    obs: Seq<F>,
) -> CollectView<F> {
    CollectView {
        obs: step_recorded(v.obs, t, plan.learner_idx@, obs, OBS_SIZE as int),
        ..v
    }
}

/// The buffers after the values of the forwarded agents were recorded as step `t`.
pub open spec fn with_values<F>(
    v: CollectView<F>,
    plan: RolloutPlan,
    t: int,
    values: Seq<F>,
) -> CollectView<F> {
    CollectView {
        values: stored_by_column(
            v.values,
            t * v.learner_agents,
            plan.learner_col@,
            plan.fwd_idx@,
            values,
            plan.fwd_idx@.len() as int,
        ),
        ..v
    }
}

/// The buffers after drawn actions were recorded as step `t`.
pub open spec fn with_actions<F>(
    v: CollectView<F>,
    plan: RolloutPlan,
    t: int,
    acts: Seq<i64>,
    logprobs: Seq<F>,
) -> CollectView<F> {
    CollectView {
        actions: step_recorded(v.actions, t, plan.learner_idx@, acts, 1),
        logprobs: step_recorded(v.logprobs, t, plan.learner_idx@, logprobs, 1),
        ..v
    }
}

/// The buffers after rewards and flags were recorded as step `t`.
pub open spec fn with_step<F>(
    v: CollectView<F>,
    plan: RolloutPlan,
    t: int,
    rewards: Seq<F>,
    flags: Seq<StepFlags>,
) -> CollectView<F> {
    CollectView {
        rewards: step_recorded(v.rewards, t, plan.learner_idx@, rewards, 1),
        terminated: step_recorded(
            v.terminated,
            t,
            plan.learner_idx@,
            flags.map_values(|f: StepFlags| f.terminated),
            1,
        ),
        truncated: step_recorded(
            v.truncated,
            t,
            plan.learner_idx@,
            flags.map_values(|f: StepFlags| f.truncated),
            1,
        ),
        ..v
    }
}

/// The recorded agents whose episode ended, in order.
pub open spec fn all_ended(plan: RolloutPlan, flags: Seq<StepFlags>) -> Seq<usize> {
    ended(plan.learner_idx@, flags, plan.learner_idx@.len() as int)
}

/// The buffers after the values of the final observations of `done` were recorded
/// as step `t`.
pub open spec fn with_final_values<F>(
    v: CollectView<F>,
    plan: RolloutPlan,
    t: int,
    done: Seq<usize>,
    values: Seq<F>,
) -> CollectView<F> {
    CollectView {
        final_values: stored_by_column(
            v.final_values,
            t * v.learner_agents,
            plan.learner_col@,
            done,
            values,
            done.len() as int,
        ),
        ..v
    }
}

/// The buffers after the bootstrap values were recorded.
pub open spec fn with_last_values<F>(v: CollectView<F>, values: Seq<F>) -> CollectView<F> {
    CollectView { last_values: values, ..v }
}

impl<F: Scalar> CollectOut<F> {
    /// The buffers have the shape of an entity rollout of `steps` steps.
    pub open spec fn shaped_v1(&self, steps: int, emit_v0_obs: bool) -> bool {
        let cells = steps * self.learner_agents;
        &&& cells <= usize::MAX
        &&& has_rows(self.ents@, cells, ENTS_WIDTH as int)
        &&& has_rows(self.mask@, cells, MAX_ENT as int)
        &&& has_rows(self.query@, cells, Q_FEAT as int)
        &&& has_rows(self.prev@, cells, PREV_ACTIONS as int)
        &&& emit_v0_obs ==> has_rows(self.obs_v0@, cells, OBS_SIZE as int)
        &&& self.shaped_rows(steps)
    }

    /// The buffers have the shape of a flat-observation rollout of `steps` steps.
    pub open spec fn shaped_v0(&self, steps: int) -> bool {
        let cells = steps * self.learner_agents;
        &&& cells <= usize::MAX
        &&& has_rows(self.obs@, cells, OBS_SIZE as int)
        &&& self.shaped_rows(steps)
    }

    /// The buffers with one value per row have one per recorded row and step.
    pub open spec fn shaped_rows(&self, steps: int) -> bool {
        let cells = steps * self.learner_agents;
        &&& self.actions@.len() == cells
        &&& self.logprobs@.len() == cells
        &&& self.values@.len() == cells
        &&& self.rewards@.len() == cells
        &&& self.terminated@.len() == cells
        &&& self.truncated@.len() == cells
        &&& self.final_values@.len() == cells
        &&& self.last_values@.len() == self.learner_agents
    }

    /// The plan's recorded rows are this rollout's rows.
    pub open spec fn planned(&self, plan: &RolloutPlan) -> bool {
        &&& self.learner_agents == plan.learner_idx@.len()
        &&& plan.columns_invert_rows()
    }

    /// Records the entity observations of the recorded agents as step `t`, with
    /// the flat ones beside them where those are given.
    pub fn record_obs_v1(
        &mut self,
        plan: &RolloutPlan,
        t: usize,
        steps: usize,
        batch: &ObsBatch<F>,
        flat: Option<&Vec<F>>,
    )
        requires
            t < steps,
            old(self).planned(plan),
            old(self).shaped_v1(steps as int, flat is Some),
            batch.holds(plan.agents as int),
            flat matches Some(v) ==> has_rows(v@, plan.agents as int, OBS_SIZE as int),
        ensures
            final(self)@ == with_entities(
                old(self)@,
                *plan,
                t as int,
                batch@,
                match flat {
                    Some(v) => Some(v@),
                    None => None,
                },
            ),
    {
        let idx = &plan.learner_idx;
        assert(rows_within(idx@, plan.agents as int));
        record_rows(&mut self.ents, t, steps, idx, &batch.ents, ENTS_WIDTH);
        record_rows(&mut self.mask, t, steps, idx, &batch.mask, MAX_ENT);
        record_rows(&mut self.query, t, steps, idx, &batch.query, Q_FEAT);
        record_rows(&mut self.prev, t, steps, idx, &batch.prev, PREV_ACTIONS);
        if let Some(v) = flat {
            record_rows(&mut self.obs_v0, t, steps, idx, v, OBS_SIZE);
        }
    }

    /// Records the flat observations of the recorded agents as step `t`.
    pub fn record_obs_v0(&mut self, plan: &RolloutPlan, t: usize, steps: usize, obs: &Vec<F>)
        requires
            t < steps,
            old(self).planned(plan),
            old(self).shaped_v0(steps as int),
            has_rows(obs@, plan.agents as int, OBS_SIZE as int),
        ensures
            final(self)@ == with_flat(old(self)@, *plan, t as int, obs@),
    {
        assert(rows_within(plan.learner_idx@, plan.agents as int));
        record_rows(&mut self.obs, t, steps, &plan.learner_idx, obs, OBS_SIZE);
    }

    /// Takes the policy's answer for the forwarded agents: every agent's logits
    /// go to its row of `logits_all`, and the values of recorded agents are
    /// recorded as step `t`.
    pub fn record_forward(
        &mut self,
        plan: &RolloutPlan,
        t: usize,
        steps: usize,
        logits_all: &mut Vec<F>,
        action_count: usize,
        logits: &Vec<F>,
        values: &Vec<F>,
    )
        requires
            t < steps,
            old(self).planned(plan),
            old(self).shaped_rows(steps as int),
            rows_within(plan.fwd_idx@, plan.agents as int),
            has_rows(old(logits_all)@, plan.agents as int, action_count as int),
            has_rows(logits@, plan.fwd_idx@.len() as int, action_count as int),
            values@.len() == plan.fwd_idx@.len(),
        ensures
            final(logits_all)@ == scattered(
                old(logits_all)@,
                plan.fwd_idx@,
                logits@,
                action_count as int,
            ),
            final(self)@ == with_values(old(self)@, *plan, t as int, values@),
    {
        scatter(logits_all, &plan.fwd_idx, logits, action_count);
        let n: usize = self.learner_agents;
        store_by_column(
            &mut self.values,
            t,
            steps,
            n,
            &plan.learner_col,
            &plan.fwd_idx,
            values,
        );
    }

    /// Records the sampled actions of the recorded agents as step `t`.
    pub fn record_actions(
        &mut self,
        plan: &RolloutPlan,
        t: usize,
        steps: usize,
        acts: &Vec<i64>,
        logprobs: &Vec<F>,
    )
        requires
            t < steps,
            old(self).planned(plan),
            old(self).shaped_rows(steps as int),
            steps * old(self).learner_agents <= usize::MAX,
            acts@.len() == plan.agents,
            logprobs@.len() == plan.agents,
        ensures
            final(self)@ == with_actions(old(self)@, *plan, t as int, acts@, logprobs@),
    {
        let idx = &plan.learner_idx;
        assert(rows_within(idx@, plan.agents as int));
        assert(has_rows(acts@, plan.agents as int, 1));
        assert(has_rows(logprobs@, plan.agents as int, 1));
        record_rows(&mut self.actions, t, steps, idx, acts, 1);
        record_rows(&mut self.logprobs, t, steps, idx, logprobs, 1);
    }

    /// Records rewards and flags of the recorded agents as step `t` and returns
    /// the recorded agents whose episode ended, in order.
    pub fn record_step(
        &mut self,
        plan: &RolloutPlan,
        t: usize,
        steps: usize,
        rewards: &Vec<F>,
        flags: &Vec<StepFlags>,
    ) -> (done: Vec<usize>)
        requires
            t < steps,
            old(self).planned(plan),
            old(self).shaped_rows(steps as int),
            steps * old(self).learner_agents <= usize::MAX,
            rewards@.len() == plan.agents,
            flags@.len() == plan.agents,
        ensures
            done@ == all_ended(*plan, flags@),
            final(self)@ == with_step(old(self)@, *plan, t as int, rewards@, flags@),
    {
        let idx = &plan.learner_idx;
        let mut terminated: Vec<bool> = Vec::new();
        let mut truncated: Vec<bool> = Vec::new();
        let mut a: usize = 0;
        while a < flags.len()
            invariant
                a <= flags@.len(),
                terminated@ =~= flags@.subrange(0, a as int).map_values(
                    |f: StepFlags| f.terminated,
                ),
                truncated@ =~= flags@.subrange(0, a as int).map_values(|f: StepFlags| f.truncated),
            decreases flags.len() - a,
        {
            terminated.push(flags[a].terminated);
            truncated.push(flags[a].truncated);
            a = a + 1;
        }
        assert(flags@.subrange(0, a as int) =~= flags@);
        assert(rows_within(idx@, plan.agents as int));
        assert(has_rows(rewards@, plan.agents as int, 1));
        assert(has_rows(terminated@, plan.agents as int, 1));
        assert(has_rows(truncated@, plan.agents as int, 1));
        record_rows(&mut self.rewards, t, steps, idx, rewards, 1);
        record_rows(&mut self.terminated, t, steps, idx, &terminated, 1);
        record_rows(&mut self.truncated, t, steps, idx, &truncated, 1);
        let mut done: Vec<usize> = Vec::new();
        let mut c: usize = 0;
        while c < idx.len()
            invariant
                c <= idx@.len(),
                rows_within(idx@, flags@.len() as int),
                done@ == ended(idx@, flags@, c as int),
            decreases idx.len() - c,
        {
            assert(idx@[c as int] < flags@.len());
            let f: StepFlags = flags[idx[c]];
            if f.terminated || f.truncated {
                done.push(idx[c]);
            }
            c = c + 1;
        }
        done
    }

    /// Records the values of the final observations of the ended agents as step `t`.
    pub fn record_final_values(
        &mut self,
        plan: &RolloutPlan,
        t: usize,
        steps: usize,
        done: &Vec<usize>,
        values: &Vec<F>,
    )
        requires
            t < steps,
            old(self).planned(plan),
            old(self).shaped_rows(steps as int),
            rows_within(done@, plan.agents as int),
            values@.len() == done@.len(),
        ensures
            final(self)@ == with_final_values(old(self)@, *plan, t as int, done@, values@),
    {
        let n: usize = self.learner_agents;
        store_by_column(&mut self.final_values, t, steps, n, &plan.learner_col, done, values);
    }

    /// Records the bootstrap values after the last step.
    pub fn record_last_values(&mut self, values: Vec<F>)
        requires
            values@.len() == old(self).learner_agents,
        ensures
            final(self)@ == with_last_values(old(self)@, values@),
    {
        self.last_values = values;
    }
}

/// The ended agents are recorded agents, each with its column.
pub proof fn law_ended_are_recorded(plan: &RolloutPlan, flags: Seq<StepFlags>, m: int)
    requires
        plan.columns_invert_rows(),
        0 <= m <= plan.learner_idx@.len(),
    ensures
        forall|j: int|
            0 <= j < ended(plan.learner_idx@, flags, m).len() ==> {
                let a = #[trigger] ended(plan.learner_idx@, flags, m)[j];
                &&& a < plan.agents
                &&& plan.learner_col@[a as int] is Some
                &&& flags[a as int].terminated || flags[a as int].truncated
            },
    decreases m,
{
    if m > 0 {
        law_ended_are_recorded(plan, flags, m - 1);
    }
}

} // verus!
