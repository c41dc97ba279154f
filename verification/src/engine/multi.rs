//! The engine: which worker has which arenas, what it accepts, and how the
//! workers' answers are put together.

use crate::actions::{TABLE_SIZE, TABLE_SIZE_V1, TABLE_SIZE_V1_AIR};
use crate::engine::merge::end_to_end;
use crate::engine::plan::{
    agent_count, agent_offset, foreign_slot, foreign_slot_of, law_self_play_rows,
    learner_rows, lemma_offset_monotone, TeamSizes,
};
use crate::engine::shares::{
    assigned_to, law_even_split, split_arenas, thread_count, threads_for, worker_shares,
};
use crate::episode::{ActionTableKind, ObsMode};
use crate::foreign::ForeignKind;
use crate::obs::OBS_SIZE;
use crate::policy::{first_mismatch, LayerMismatch, PolicyWeights};
use crate::policy_v1::{entity_in, EntityError, EntityPolicy};
use crate::rows::append_range;
use crate::scalar::{num, plus, total, whole, Scalar};
use crate::schema::Schema;
use crate::state_dict::{find, lookup, NamedArray, RawStateDict};
use vstd::prelude::*;
use vstd::string::StringExecFns;

verus! {

/// The arenas of one worker.
#[derive(Clone, Copy, Debug, PartialEq, Eq, Structural)]
pub struct WorkerSpan {
    /// The first of them among all arenas.
    pub first_arena: usize,
    pub num_arenas: usize,
    pub num_agents: usize,
}

/// Weights of a network, by family.
pub enum NetWeights<F> {
    /// A flat-observation policy.
    V0(PolicyWeights<F>),
    /// An entity policy with its number of heads.
    V1 { raw: RawStateDict<F>, heads: usize },
    /// A foreign bot, how long its decisions last and how many cars it drives.
    Foreign { raw: RawStateDict<F>, kind: ForeignKind, period: u32, cars: u32 },
}

/// The engine.
pub struct MultiEngine {
    pub workers: Vec<WorkerSpan>,
    pub num_agents: usize,
    pub num_arenas: usize,
    /// Width of a flat observation row, 0 for entity observations.
    pub obs_size: usize,
    /// Rows of the action table.
    pub action_count: usize,
    pub obs_mode: ObsMode,
    /// Whether flat observations are recorded beside entity ones.
    pub emit_v0_obs: bool,
    /// Teams of every arena.
    pub sizes: Vec<TeamSizes>,
    /// Native opponents that are set up.
    pub opponent_slots: usize,
    /// Foreign bots that are set up.
    pub foreign_slots: usize,
}

/// The arenas of worker `t` of `threads`.
pub open spec fn span_of(sizes: Seq<TeamSizes>, threads: int, t: int) -> WorkerSpan {
    let n = sizes.len() as int;
    let first = assigned_to(n, threads, t);
    let next = assigned_to(n, threads, t + 1);
    WorkerSpan {
        first_arena: first as usize,
        num_arenas: (next - first) as usize,
        num_agents: (agent_offset(sizes, next) - agent_offset(sizes, first)) as usize,
    }
}

/// Rows of the action table of an observation family.
pub open spec fn table_rows(mode: ObsMode, kind: ActionTableKind) -> usize {
    match (mode, kind) {
        (ObsMode::V0, _) => TABLE_SIZE,
        (ObsMode::V1, ActionTableKind::V1) => TABLE_SIZE_V1,
        (ObsMode::V1, ActionTableKind::V1Air) => TABLE_SIZE_V1_AIR,
    }
}

impl MultiEngine {
    /// The engine's parts belong together.
    pub open spec fn valid(&self) -> bool {
        let n = self.sizes@.len() as int;
        let threads = self.workers@.len() as int;
        &&& self.num_arenas == n
        &&& self.num_agents == agent_count(self.sizes@)
        &&& n > 0 ==> 0 < threads <= n
        &&& n == 0 ==> threads == 0
        &&& forall|t: int|
            0 <= t < threads ==> #[trigger] self.workers@[t] == span_of(self.sizes@, threads, t)
    }

    /// An engine for arenas of the given sizes.
    pub fn new<F>(
        sizes: Vec<TeamSizes>,
        schema: &Schema<F>,
        num_threads: usize,
        available: Option<usize>,
        emit_v0_obs: bool,
    ) -> (e: MultiEngine)
        requires
            agent_count(sizes@) <= usize::MAX,
        ensures
            e.valid(),
            e.sizes@ == sizes@,
            e.obs_mode == (if schema.version == 1 {
                ObsMode::V1
            } else {
                ObsMode::V0
            }),
            e.obs_size == (if schema.version == 1 {
                0
            } else {
                OBS_SIZE
            }),
            e.action_count == table_rows(
                e.obs_mode,
                if schema.action_count == TABLE_SIZE_V1_AIR {
                    ActionTableKind::V1Air
                } else {
                    ActionTableKind::V1
                },
            ),
            e.workers@.len() == threads_for(num_threads, available, sizes@.len() as int),
            e.emit_v0_obs == emit_v0_obs,
            e.opponent_slots == 0,
            e.foreign_slots == 0,
    {
        let obs_mode: ObsMode = if schema.version == 1 {
            ObsMode::V1
        } else {
            ObsMode::V0
        };
        let kind: ActionTableKind = schema.action_table_kind();
        let action_count: usize = match obs_mode {
            ObsMode::V0 => TABLE_SIZE,
            ObsMode::V1 => match kind {
                ActionTableKind::V1 => TABLE_SIZE_V1,
                ActionTableKind::V1Air => TABLE_SIZE_V1_AIR,
            },
        };
        let n: usize = sizes.len();
        let threads: usize = thread_count(num_threads, available, n);
        let shares: Vec<usize> = split_arenas(n, threads);
        let mut workers: Vec<WorkerSpan> = Vec::new();
        let mut first: usize = 0;
        let mut t: usize = 0;
        while t < threads
            invariant
                t <= threads,
                n == sizes@.len(),
                agent_count(sizes@) <= usize::MAX,
                shares@ == worker_shares(n as int, threads as int),
                first == assigned_to(n as int, threads as int, t as int),
                workers@.len() == t,
                forall|j: int|
                    0 <= j < t ==> #[trigger] workers@[j] == span_of(
                        sizes@,
                        threads as int,
                        j,
                    ),
            decreases threads - t,
        {
            proof {
                law_even_split(n as int, threads as int, t as int);
            }
            let share: usize = shares[t];
            let agents: usize = agents_between(&sizes, first, first + share);
            workers.push(
                WorkerSpan { first_arena: first, num_arenas: share, num_agents: agents },
            );
            first = first + share;
            t = t + 1;
        }
        let num_agents: usize = agents_between(&sizes, 0, n);
        MultiEngine {
            workers,
            num_agents,
            num_arenas: n,
            obs_size: match obs_mode {
                ObsMode::V0 => OBS_SIZE,
                ObsMode::V1 => 0,
            },
            action_count,
            obs_mode,
            emit_v0_obs,
            sizes,
            opponent_slots: 0,
            foreign_slots: 0,
        }
    }

    /// The team size label of every arena: its larger team.
    pub fn team_sizes(&self) -> (r: Vec<usize>)
        ensures
            r@ == self.sizes@.map_values(
                |s: TeamSizes|
                    if s.0 > s.1 {
                        s.0
                    } else {
                        s.1
                    },
            ),
    {
        let mut r: Vec<usize> = Vec::new();
        let mut i: usize = 0;
        while i < self.sizes.len()
            invariant
                i <= self.sizes@.len(),
                r@ =~= self.sizes@.take(i as int).map_values(
                    |s: TeamSizes|
                        if s.0 > s.1 {
                            s.0
                        } else {
                            s.1
                        },
                ),
            decreases self.sizes.len() - i,
        {
            let (b, o) = self.sizes[i];
            r.push(
                if b > o {
                    b
                } else {
                    o
                },
            );
            i = i + 1;
        }
        assert(self.sizes@.take(i as int) =~= self.sizes@);
        r
    }

    /// The worker of an arena and the arena's place there; the number of arenas
    /// if there is no such arena.
    pub fn locate_arena(&self, arena_idx: usize) -> (r: Result<(usize, usize), usize>)
        requires
            self.valid(),
        ensures
            match r {
                Ok((w, local)) => {
                    &&& arena_idx < self.num_arenas
                    &&& w < self.workers@.len()
                    &&& local < self.workers@[w as int].num_arenas
                    &&& self.workers@[w as int].first_arena + local == arena_idx
                },
                Err(n) => arena_idx >= self.num_arenas && n == self.num_arenas,
            },
    {
        let mut base: usize = 0;
        let mut w: usize = 0;
        let ghost n = self.num_arenas as int;
        let ghost threads = self.workers@.len() as int;
        while w < self.workers.len()
            invariant
                w <= self.workers@.len(),
                self.valid(),
                n == self.num_arenas,
                threads == self.workers@.len(),
                base == assigned_to(n, threads, w as int),
                base <= arena_idx,
                base <= n,
            decreases self.workers.len() - w,
        {
            proof {
                law_even_split(n, threads, w as int);
                assert(self.workers@[w as int] == span_of(self.sizes@, threads, w as int));
            }
            let k: usize = self.workers[w].num_arenas;
            if arena_idx < base + k {
                return Ok((w, arena_idx - base));
            }
            base = base + k;
            w = w + 1;
        }
        proof {
            if threads > 0 {
                law_even_split(n, threads, 0);
            }
        }
        Err(base)
    }
}

/// Number of agents of the arenas from `from` up to but not including `to`.
fn agents_between(sizes: &Vec<TeamSizes>, from: usize, to: usize) -> (n: usize)
    requires
        from <= to <= sizes@.len(),
        agent_count(sizes@) <= usize::MAX,
    ensures
        n == agent_offset(sizes@, to as int) - agent_offset(sizes@, from as int),
{
    let mut n: usize = 0;
    let mut i: usize = from;
    while i < to
        invariant
            from <= i <= to <= sizes@.len(),
            agent_count(sizes@) <= usize::MAX,
            n == agent_offset(sizes@, i as int) - agent_offset(sizes@, from as int),
        decreases to - i,
    {
        proof {
            lemma_offset_monotone(sizes@, 0, from as int);
            lemma_offset_monotone(sizes@, from as int, i as int);
            lemma_offset_monotone(sizes@, i + 1, sizes@.len() as int);
        }
        let (b, o) = sizes[i];
        n = n + b + o;
        i = i + 1;
    }
    n
}

/// The workers' agents follow each other without gaps and make up all agents.
pub proof fn law_workers_cover_all_agents(e: MultiEngine, t: int)
    requires
        e.valid(),
        0 <= t < e.workers@.len(),
    ensures
        ({
            let n = e.sizes@.len() as int;
            let threads = e.workers@.len() as int;
            let w = e.workers@[t];
            &&& w.first_arena + w.num_arenas == assigned_to(n, threads, t + 1)
            &&& t + 1 < threads ==> e.workers@[t + 1].first_arena == w.first_arena + w.num_arenas
            &&& t + 1 == threads ==> w.first_arena + w.num_arenas == n
            &&& agent_offset(e.sizes@, w.first_arena as int) + w.num_agents == agent_offset(
                e.sizes@,
                w.first_arena + w.num_arenas,
            )
        }),
{
    let n = e.sizes@.len() as int;
    let threads = e.workers@.len() as int;
    law_even_split(n, threads, t);
    assert(e.workers@[t] == span_of(e.sizes@, threads, t));
    let first = assigned_to(n, threads, t);
    let next = assigned_to(n, threads, t + 1);
    lemma_offset_monotone(e.sizes@, first, next);
    lemma_offset_monotone(e.sizes@, next, n);
    if t + 1 < threads {
        law_even_split(n, threads, t + 1);
        assert(e.workers@[t + 1] == span_of(e.sizes@, threads, t + 1));
    }
}

/// Why actions are refused.
#[derive(Clone, Copy, Debug, PartialEq, Eq, Structural)]
pub enum StepError {
    Length { expected: usize, got: usize },
    /// An action that names no row of the table.
    OutOfRange(i64),
}

/// The first action from `from` on that names no row of a table of `rows` rows.
pub open spec fn bad_action(acts: Seq<i64>, rows: usize, from: int) -> Option<i64>
    decreases acts.len() - from,
{
    if from < 0 || from >= acts.len() {
        None
    } else if acts[from] < 0 || acts[from] >= rows {
        Some(acts[from])
    } else {
        bad_action(acts, rows, from + 1)
    }
}

/// Why an assignment is refused.
#[derive(Clone, Copy, Debug, PartialEq, Eq, Structural)]
pub enum AssignmentError {
    Length { expected: usize, got: usize },
    /// A code that names no opponent that is set up.
    OutOfRange(i32),
    /// Nothing would be learned from.
    NoLearners,
}

/// Whether an opponent code is self-play or names an opponent that is set up.
pub open spec fn code_ok(k: i32, opponents: usize, foreigners: usize) -> bool {
    if k == -1 {
        true
    } else if k <= -2 {
        foreign_slot_of(k) < foreigners
    } else {
        k < opponents
    }
}

/// The first code from `from` on that names no opponent that is set up.
pub open spec fn bad_code(
    asg: Seq<i32>,
    opponents: usize,
    foreigners: usize,
    from: int,
) -> Option<i32>
    decreases asg.len() - from,
{
    if from < 0 || from >= asg.len() {
        None
    } else if !code_ok(asg[from], opponents, foreigners) {
        Some(asg[from])
    } else {
        bad_code(asg, opponents, foreigners, from + 1)
    }
}

/// Why weights are refused.
#[derive(Debug)]
pub enum WeightsError {
    /// A layer of a flat-observation policy does not fit.
    Layer(LayerMismatch),
    /// An entity policy does not fit.
    Entity(EntityError),
    /// The policy was made for an action table of another width.
    Table { slot: usize, engine: usize, dict: usize },
    /// An entity policy for a flat-observation engine.
    V1GivenToV0,
    /// A flat-observation policy for an entity engine.
    V0GivenToV1,
    /// A foreign bot where a policy is wanted.
    Foreign,
    /// A policy where a foreign bot is wanted.
    NotForeign,
}

/// Whether the action table that an entity policy carries has another width than
/// `rows`.
pub open spec fn table_differs<F>(raw: Seq<NamedArray<F>>, rows: usize) -> bool {
    match lookup(raw, "action_table"@) {
        Some(a) => a.shape@.len() == 2 && a.shape@[0] != rows,
        None => false,
    }
}

/// Whether weights can be an opponent.
pub open spec fn opponent_ok<F>(mode: ObsMode, rows: usize, w: NetWeights<F>) -> bool {
    match (mode, w) {
        (ObsMode::V0, NetWeights::V0(_)) => true,
        (ObsMode::V1, NetWeights::V1 { raw, heads }) => !table_differs(raw@, rows),
        _ => false,
    }
}

/// What is said of weights in `slot` that cannot be an opponent.
pub open spec fn opponent_fault<F>(
    mode: ObsMode,
    rows: usize,
    slot: int,
    w: NetWeights<F>,
    e: WeightsError,
) -> bool {
    match w {
        NetWeights::Foreign { raw, kind, period, cars } => e is Foreign,
        NetWeights::V0(_) => e is V0GivenToV1,
        NetWeights::V1 { raw, heads } => if mode == ObsMode::V0 {
            e is V1GivenToV0
        } else {
            e == (WeightsError::Table {
                slot: slot as usize,
                engine: rows,
                dict: lookup(raw@, "action_table"@)->0.shape@[0],
            })
        },
    }
}

/// The first answer that is an error.
pub open spec fn first_error<E>(replies: Seq<Option<E>>, from: int) -> Option<E>
    decreases replies.len() - from,
{
    if from < 0 || from >= replies.len() {
        None
    } else if replies[from] is Some {
        replies[from]
    } else {
        first_error(replies, from + 1)
    }
}

/// The first answer that is an error.
pub fn find_first_error<E>(replies: Vec<Option<E>>) -> (r: Option<E>)
    ensures
        r == first_error(replies@, 0),
{
    let ghost all = replies@;
    let mut found: Option<E> = None;
    for reply in it: replies
        invariant
            it.seq() == all,
            match found {
                Some(e) => first_error(all, 0) == Some(e),
                None => first_error(all, 0) == first_error(all, it.index()),
            },
    {
        if found.is_none() {
            found = reply;
        }
    }
    found
}

impl MultiEngine {
    /// Accepts one action per agent, each of which names a row of the table.
    pub fn check_actions(&self, actions: &Vec<i64>) -> (r: Result<(), StepError>)
        ensures
            r == if actions@.len() != self.num_agents {
                Err(StepError::Length { expected: self.num_agents, got: actions@.len() as usize })
            } else {
                match bad_action(actions@, self.action_count, 0) {
                    Some(a) => Err(StepError::OutOfRange(a)),
                    None => Ok::<(), StepError>(()),
                }
            },
    {
        if actions.len() != self.num_agents {
            return Err(StepError::Length { expected: self.num_agents, got: actions.len() });
        }
        let mut i: usize = 0;
        while i < actions.len()
            invariant
                i <= actions@.len(),
                actions@.len() == self.num_agents,
                bad_action(actions@, self.action_count, 0) == bad_action(
                    actions@,
                    self.action_count,
                    i as int,
                ),
            decreases actions.len() - i,
        {
            let a: i64 = actions[i];
            if a < 0 || a as u64 >= self.action_count as u64 {
                return Err(StepError::OutOfRange(a));
            }
            i = i + 1;
        }
        Ok(())
    }

    /// The actions of one worker's agents.
    pub open spec fn actions_of(&self, actions: Seq<i64>, w: int) -> Seq<i64> {
        let first = agent_offset(self.sizes@, self.workers@[w].first_arena as int);
        actions.subrange(first, first + self.workers@[w].num_agents)
    }

    /// The actions of one worker's agents.
    pub fn worker_actions(&self, actions: &Vec<i64>, w: usize) -> (r: Vec<i64>)
        requires
            self.valid(),
            actions@.len() == self.num_agents,
            w < self.workers@.len(),
        ensures
            r@ == self.actions_of(actions@, w as int),
            ({
                let first = agent_offset(self.sizes@, self.workers@[w as int].first_arena as int);
                r@ == actions@.subrange(first, first + self.workers@[w as int].num_agents)
            }),
    {
        let span: WorkerSpan = self.workers[w];
        proof {
            law_workers_cover_all_agents(*self, w as int);
            law_even_split(
                self.sizes@.len() as int,
                self.workers@.len() as int,
                w as int,
            );
            lemma_offset_monotone(
                self.sizes@,
                span.first_arena + span.num_arenas,
                self.sizes@.len() as int,
            );
            lemma_offset_monotone(self.sizes@, 0, span.first_arena as int);
        }
        let first: usize = agents_between(&self.sizes, 0, span.first_arena);
        let mut r: Vec<i64> = Vec::new();
        append_range(&mut r, actions, first, span.num_agents);
        assert(r@ =~= actions@.subrange(first as int, first + span.num_agents));
        r
    }

    /// What an assignment is judged to be.
    pub open spec fn assignment_judged(&self, asg: Seq<i32>) -> Result<usize, AssignmentError> {
        let rows = learner_rows(self.sizes@, asg, self.num_arenas as int).len();
        if asg.len() != self.num_arenas {
            Err(AssignmentError::Length { expected: self.num_arenas, got: asg.len() as usize })
        } else if let Some(k) = bad_code(asg, self.opponent_slots, self.foreign_slots, 0) {
            Err(AssignmentError::OutOfRange(k))
        } else if rows == 0 {
            Err(AssignmentError::NoLearners)
        } else {
            Ok(rows as usize)
        }
    }

    /// Accepts an assignment that gives every arena self-play or an opponent
    /// that is set up, and leaves something to learn from; returns how many
    /// agents are learned from.
    pub fn check_assignment(&self, assignment: &Vec<i32>) -> (r: Result<usize, AssignmentError>)
        requires
            self.valid(),
        ensures
            r == self.assignment_judged(assignment@),
            r == if assignment@.len() != self.num_arenas {
                Err(
                    AssignmentError::Length {
                        expected: self.num_arenas,
                        got: assignment@.len() as usize,
                    },
                )
            } else {
                match bad_code(assignment@, self.opponent_slots, self.foreign_slots, 0) {
                    Some(k) => Err(AssignmentError::OutOfRange(k)),
                    None => {
                        let rows = learner_rows(
                            self.sizes@,
                            assignment@,
                            self.num_arenas as int,
                        ).len();
                        if rows == 0 {
                            Err(AssignmentError::NoLearners)
                        } else {
                            Ok::<usize, AssignmentError>(rows as usize)
                        }
                    },
                }
            },
    {
        if assignment.len() != self.num_arenas {
            return Err(
                AssignmentError::Length { expected: self.num_arenas, got: assignment.len() },
            );
        }
        let mut i: usize = 0;
        while i < assignment.len()
            invariant
                i <= assignment@.len(),
                assignment@.len() == self.num_arenas,
                bad_code(assignment@, self.opponent_slots, self.foreign_slots, 0) == bad_code(
                    assignment@,
                    self.opponent_slots,
                    self.foreign_slots,
                    i as int,
                ),
            decreases assignment.len() - i,
        {
            let k: i32 = assignment[i];
            let ok: bool = if k == -1 {
                true
            } else if k <= -2 {
                foreign_slot(k) < self.foreign_slots
            } else {
                (k as usize) < self.opponent_slots
            };
            if !ok {
                return Err(AssignmentError::OutOfRange(k));
            }
            i = i + 1;
        }
        let mut rows: usize = 0;
        i = 0;
        while i < self.sizes.len()
            invariant
                i <= self.sizes@.len(),
                self.valid(),
                assignment@.len() == self.sizes@.len(),
                rows == learner_rows(self.sizes@, assignment@, i as int).len(),
                rows <= agent_offset(self.sizes@, i as int),
            decreases self.sizes.len() - i,
        {
            proof {
                lemma_offset_monotone(self.sizes@, i + 1, self.sizes@.len() as int);
                lemma_offset_monotone(self.sizes@, i as int, i + 1);
            }
            let (b, o) = self.sizes[i];
            rows = rows + if assignment[i] == -1 {
                b + o
            } else {
                b
            };
            i = i + 1;
        }
        if rows == 0 {
            return Err(AssignmentError::NoLearners);
        }
        Ok(rows)
    }

    /// Accepts weights that the learner can play with: of the engine's family,
    /// complete, and made for the engine's action table.
    pub fn check_weights<F>(&self, w: &NetWeights<F>) -> (r: Result<(), WeightsError>)
        requires
            w matches NetWeights::V1 { raw, heads } ==> *heads > 0,
        ensures
            match *w {
                NetWeights::Foreign { raw, kind, period, cars } => r matches Err(e) && e is Foreign,
                NetWeights::V0(p) => if self.obs_mode == ObsMode::V1 {
                    r matches Err(e) && e is V0GivenToV1
                } else {
                    match first_mismatch(p@.layers(), p@.layers().len() as int) {
                        Some(m) => r == Err::<(), WeightsError>(WeightsError::Layer(m)),
                        None => r is Ok,
                    }
                },
                NetWeights::V1 { raw, heads } => if self.obs_mode == ObsMode::V0 {
                    r matches Err(e) && e is V1GivenToV0
                } else {
                    match entity_in(raw@, heads) {
                        Err(v) => r matches Err(WeightsError::Entity(e)) && e@ == v,
                        Ok(p) => if p.table_size != self.action_count {
                            r == Err::<(), WeightsError>(
                                WeightsError::Table {
                                    slot: 0,
                                    engine: self.action_count,
                                    dict: p.table_size,
                                },
                            )
                        } else {
                            r is Ok
                        },
                    }
                },
            },
    {
        match w {
            NetWeights::Foreign { .. } => Err(WeightsError::Foreign),
            NetWeights::V0(p) => {
                if self.obs_mode == ObsMode::V1 {
                    return Err(WeightsError::V0GivenToV1);
                }
                match p.check() {
                    Ok(_) => Ok(()),
                    Err(m) => Err(WeightsError::Layer(m)),
                }
            },
            NetWeights::V1 { raw, heads } => {
                if self.obs_mode == ObsMode::V0 {
                    return Err(WeightsError::V1GivenToV0);
                }
                match EntityPolicy::new(raw, *heads) {
                    Err(e) => Err(WeightsError::Entity(e)),
                    Ok(p) => {
                        if p.table_size() != self.action_count {
                            return Err(
                                WeightsError::Table {
                                    slot: 0,
                                    engine: self.action_count,
                                    dict: p.table_size(),
                                },
                            );
                        }
                        Ok(())
                    },
                }
            },
        }
    }

    /// Accepts opponents that are all of the engine's family and made for its
    /// action table; otherwise tells what is wrong with the first that is not.
    pub fn check_opponents<F>(&self, ws: &Vec<NetWeights<F>>) -> (r: Result<(), WeightsError>)
        ensures
            match r {
                Ok(_) => forall|s: int|
                    0 <= s < ws@.len() ==> opponent_ok(
                        self.obs_mode,
                        self.action_count,
                        #[trigger] ws@[s],
                    ),
                Err(e) => exists|s: int|
                    0 <= s < ws@.len() && !opponent_ok(
                        self.obs_mode,
                        self.action_count,
                        #[trigger] ws@[s],
                    ) && opponent_fault(self.obs_mode, self.action_count, s, ws@[s], e) && forall|
                        j: int,
                    |
                        0 <= j < s ==> opponent_ok(
                            self.obs_mode,
                            self.action_count,
                            #[trigger] ws@[j],
                        ),
            },
    {
        let key: String = String::from_str("action_table");
        let mut s: usize = 0;
        while s < ws.len()
            invariant
                s <= ws@.len(),
                key@ == "action_table"@,
                forall|j: int|
                    0 <= j < s ==> opponent_ok(
                        self.obs_mode,
                        self.action_count,
                        #[trigger] ws@[j],
                    ),
            decreases ws.len() - s,
        {
            let fault: Option<WeightsError> = match &ws[s] {
                NetWeights::Foreign { .. } => Some(WeightsError::Foreign),
                NetWeights::V0(_) => {
                    if self.obs_mode == ObsMode::V1 {
                        Some(WeightsError::V0GivenToV1)
                    } else {
                        None
                    }
                },
                NetWeights::V1 { raw, .. } => {
                    if self.obs_mode == ObsMode::V0 {
                        Some(WeightsError::V1GivenToV0)
                    } else {
                        match find(raw, &key) {
                            None => None,
                            Some(i) => {
                                let shape = &raw[i].shape;
                                if shape.len() == 2 && shape[0] != self.action_count {
                                    Some(
                                        WeightsError::Table {
                                            slot: s,
                                            engine: self.action_count,
                                            dict: shape[0],
                                        },
                                    )
                                } else {
                                    None
                                }
                            },
                        }
                    }
                },
            };
            if let Some(e) = fault {
                assert(!opponent_ok(self.obs_mode, self.action_count, ws@[s as int]));
                assert(opponent_fault(self.obs_mode, self.action_count, s as int, ws@[s as int], e));
                return Err(e);
            }
            assert(opponent_ok(self.obs_mode, self.action_count, ws@[s as int]));
            s = s + 1;
        }
        Ok(())
    }

    /// Accepts a list of foreign bots.
    pub fn check_foreign_opponents<F>(&self, ws: &Vec<NetWeights<F>>) -> (r: Result<
        (),
        WeightsError,
    >)
        ensures
            r is Ok <==> forall|s: int|
                0 <= s < ws@.len() ==> (#[trigger] ws@[s]) is Foreign,
            r matches Err(e) ==> e is NotForeign,
    {
        let mut s: usize = 0;
        while s < ws.len()
            invariant
                s <= ws@.len(),
                forall|j: int| 0 <= j < s ==> (#[trigger] ws@[j]) is Foreign,
            decreases ws.len() - s,
        {
            let foreign: bool = match &ws[s] {
                NetWeights::Foreign { .. } => true,
                _ => false,
            };
            if !foreign {
                assert(!(ws@[s as int] is Foreign));
                return Err(WeightsError::NotForeign);
            }
            s = s + 1;
        }
        Ok(())
    }

    /// Takes the workers' answers to a list of `n` opponents: only if none of
    /// them failed do the opponents count as set up.
    pub fn set_opponents<E>(&mut self, n: usize, replies: Vec<Option<E>>) -> (r: Result<(), E>)
        ensures
            match first_error(replies@, 0) {
                Some(e) => r == Err::<(), E>(e) && *final(self) == *old(self),
                None => r is Ok && *final(self) == (MultiEngine {
                    opponent_slots: n,
                    ..*old(self)
                }),
            },
    {
        match find_first_error(replies) {
            Some(e) => Err(e),
            None => {
                self.opponent_slots = n;
                Ok(())
            },
        }
    }

    /// Takes the workers' answers to a list of `n` foreign bots: only if none of
    /// them failed do the bots count as set up.
    pub fn set_foreign_opponents<E>(&mut self, n: usize, replies: Vec<Option<E>>) -> (r: Result<
        (),
        E,
    >)
        ensures
            match first_error(replies@, 0) {
                Some(e) => r == Err::<(), E>(e) && *final(self) == *old(self),
                None => r is Ok && *final(self) == (MultiEngine {
                    foreign_slots: n,
                    ..*old(self)
                }),
            },
    {
        match find_first_error(replies) {
            Some(e) => Err(e),
            None => {
                self.foreign_slots = n;
                Ok(())
            },
        }
    }
}

/// An assignment is accepted only if every code is self-play or names an opponent
/// that is set up.
pub proof fn law_accepted_codes_are_set_up(
    asg: Seq<i32>,
    opponents: usize,
    foreigners: usize,
    from: int,
    i: int,
)
    requires
        0 <= from <= i < asg.len(),
        bad_code(asg, opponents, foreigners, from) is None,
    ensures
        code_ok(asg[i], opponents, foreigners),
    decreases asg.len() - from,
{
    if from < i {
        law_accepted_codes_are_set_up(asg, opponents, foreigners, from + 1, i);
    }
}

proof fn lemma_self_play_codes(asg: Seq<i32>, opponents: usize, foreigners: usize, from: int)
    requires
        0 <= from <= asg.len(),
        forall|i: int| 0 <= i < asg.len() ==> #[trigger] asg[i] == -1,
    ensures
        bad_code(asg, opponents, foreigners, from) is None,
    decreases asg.len() - from,
{
    if from < asg.len() {
        lemma_self_play_codes(asg, opponents, foreigners, from + 1);
    }
}

/// Self-play everywhere has no code that is refused, whatever opponents are set
/// up, and every agent is learned from.
pub proof fn law_self_play_is_accepted(
    sizes: Seq<TeamSizes>,
    asg: Seq<i32>,
    opponents: usize,
    foreigners: usize,
)
    requires
        asg.len() == sizes.len(),
        forall|i: int| 0 <= i < asg.len() ==> #[trigger] asg[i] == -1,
        agent_count(sizes) <= usize::MAX,
    ensures
        bad_code(asg, opponents, foreigners, 0) is None,
        learner_rows(sizes, asg, sizes.len() as int).len() == agent_count(sizes),
{
    lemma_self_play_codes(asg, opponents, foreigners, 0);
    law_self_play_rows(sizes, asg, Seq::empty(), sizes.len() as int);
    lemma_offset_monotone(sizes, 0, sizes.len() as int);
}

/// One worker's answer to a step.
pub struct StepRows<F> {
    pub obs: Vec<F>,
    pub rewards: Vec<F>,
    pub terminated: Vec<bool>,
    pub truncated: Vec<bool>,
    pub final_obs: Vec<F>,
}

/// Appends all of `v`.
fn append_all<T: Copy>(out: &mut Vec<T>, v: &Vec<T>)
    ensures
        final(out)@ == old(out)@ + v@,
{
    let len: usize = v.len();
    append_range(out, v, 0, len);
    assert(v@.subrange(0, len as int) =~= v@);
}

/// One part of every worker's answer.
pub open spec fn all_obs<F>(outs: Seq<StepRows<F>>) -> Seq<Seq<F>> {
    outs.map_values(|o: StepRows<F>| o.obs@)
}

/// One part of every worker's answer.
pub open spec fn all_rewards<F>(outs: Seq<StepRows<F>>) -> Seq<Seq<F>> {
    outs.map_values(|o: StepRows<F>| o.rewards@)
}

/// One part of every worker's answer.
pub open spec fn all_terminated<F>(outs: Seq<StepRows<F>>) -> Seq<Seq<bool>> {
    outs.map_values(|o: StepRows<F>| o.terminated@)
}

/// One part of every worker's answer.
pub open spec fn all_truncated<F>(outs: Seq<StepRows<F>>) -> Seq<Seq<bool>> {
    outs.map_values(|o: StepRows<F>| o.truncated@)
}

/// One part of every worker's answer.
pub open spec fn all_final_obs<F>(outs: Seq<StepRows<F>>) -> Seq<Seq<F>> {
    outs.map_values(|o: StepRows<F>| o.final_obs@)
}

/// Sets the workers' answers one after the other.
pub fn join_steps<F: Copy>(outs: &Vec<StepRows<F>>) -> (r: StepRows<F>)
    ensures
        r.obs@ == end_to_end(all_obs(outs@)),
        r.rewards@ == end_to_end(all_rewards(outs@)),
        r.terminated@ == end_to_end(all_terminated(outs@)),
        r.truncated@ == end_to_end(all_truncated(outs@)),
        r.final_obs@ == end_to_end(all_final_obs(outs@)),
{
    let mut r: StepRows<F> = StepRows {
        obs: Vec::new(),
        rewards: Vec::new(),
        terminated: Vec::new(),
        truncated: Vec::new(),
        final_obs: Vec::new(),
    };
    let mut w: usize = 0;
    assert(outs@.take(0) =~= Seq::empty());
    while w < outs.len()
        invariant
            w <= outs@.len(),
            r.obs@ == end_to_end(all_obs(outs@.take(w as int))),
            r.rewards@ == end_to_end(all_rewards(outs@.take(w as int))),
            r.terminated@ == end_to_end(all_terminated(outs@.take(w as int))),
            r.truncated@ == end_to_end(all_truncated(outs@.take(w as int))),
            r.final_obs@ == end_to_end(all_final_obs(outs@.take(w as int))),
        decreases outs.len() - w,
    {
        proof {
            let next = outs@.take(w + 1);
            let here = outs@.take(w as int);
            assert(all_obs(next).drop_last() =~= all_obs(here));
            assert(all_rewards(next).drop_last() =~= all_rewards(here));
            assert(all_terminated(next).drop_last() =~= all_terminated(here));
            assert(all_truncated(next).drop_last() =~= all_truncated(here));
            assert(all_final_obs(next).drop_last() =~= all_final_obs(here));
        }
        append_all(&mut r.obs, &outs[w].obs);
        append_all(&mut r.rewards, &outs[w].rewards);
        append_all(&mut r.terminated, &outs[w].terminated);
        append_all(&mut r.truncated, &outs[w].truncated);
        append_all(&mut r.final_obs, &outs[w].final_obs);
        w = w + 1;
    }
    assert(outs@.take(w as int) =~= outs@);
    r
}

/// Term `i` of the first `n` workers added up in order.
pub open spec fn term_sum<G: Scalar>(parts: Seq<[G; 26]>, i: int, n: int) -> G
    decreases n,
{
    if n <= 0 {
        num::<G>(0)
    } else {
        plus(term_sum(parts, i, n - 1), parts[n - 1]@[i])
    }
}

/// Adds up the telemetry of all workers, term by term.
pub fn sum_reward_terms<G: Scalar>(parts: &Vec<[G; 26]>) -> (r: [G; 26])
    requires
        total::<G>(),
    ensures
        forall|i: int|
            0 <= i < 26 ==> #[trigger] r@[i] == term_sum(parts@, i, parts@.len() as int),
{
    let zero: G = whole(0);
    let mut r: [G; 26] = [zero; 26];
    let mut w: usize = 0;
    while w < parts.len()
        invariant
            w <= parts@.len(),
            total::<G>(),
            forall|i: int| 0 <= i < 26 ==> #[trigger] r@[i] == term_sum(parts@, i, w as int),
        decreases parts.len() - w,
    {
        let ghost before = r@;
        let mut i: usize = 0;
        while i < 26
            invariant
                i <= 26,
                w < parts@.len(),
                total::<G>(),
                before.len() == 26,
                forall|j: int|
                    0 <= j < 26 ==> #[trigger] before[j] == term_sum(parts@, j, w as int),
                forall|j: int|
                    0 <= j < 26 ==> #[trigger] r@[j] == (if j < i {
                        term_sum(parts@, j, w + 1)
                    } else {
                        before[j]
                    }),
            decreases 26 - i,
        {
            assert(r@[i as int] == before[i as int]);
            r[i] = r[i] + parts[w][i];
            i = i + 1;
        }
        w = w + 1;
    }
    r
}

} // verus!
