//! Bots from elsewhere that play as opponents.

use crate::actions::{
    base_table, immortal_table, make_immortal_table, make_lookup_table, table_reads,
};
use crate::argmax::{argmax, argmax_of};
use crate::element::{decoded, element_steps, ElementNet, HeadLogits};
use crate::layout::{
    checkable, first_fault, lemma_checkable_concat, push_step, run_steps, step, step_views, Fault,
    Rule, Step, StepView,
};
use crate::nexto::{block_count, nexto_blocks, nexto_rest, NextoError, NextoNet};
use crate::obs_advanced::{
    adv_row, build_advanced_obs_one_other, canon_fits, nearest_opponent, nearest_opponent_to_ball,
    ADV_OBS_SIZE,
};
use crate::obs_necto::{
    after_look, build_necto_obs, entity_rows, self_row, timers_fit, timers_show, zero_timers,
    NectoObs, NectoTimers, TimersView, NECTO_PADS,
};
use crate::scalar::{gt, num, total, whole, Scalar};
use crate::sim::GameState;
use crate::state_dict::{decimal, to_decimal, RawStateDict};
use std::collections::HashMap;
use vstd::prelude::*;
use vstd::string::StringExecFns;

verus! {

/// Which bot drives an opponent.
#[derive(Clone, Copy, Debug, PartialEq, Eq, Structural)]
pub enum ForeignKind {
    /// Sees one other car and picks a row of the wide table.
    Immortal,
    /// Attends to the whole arena and picks a row of the base table.
    Nexto,
    /// Attends to the whole arena with timers and gives its controls directly.
    Necto,
    /// Sees one other car and gives its controls directly.
    Element,
}

impl ForeignKind {
    /// Whether the bot does not steer while it jumps.
    pub open spec fn jumps_straight(self) -> bool {
        self == ForeignKind::Immortal || self == ForeignKind::Element
    }

    /// Whether the bot does not steer while it jumps.
    pub fn zero_yaw_on_jump(self) -> (r: bool)
        ensures
            r == self.jumps_straight(),
    {
        match self {
            ForeignKind::Immortal => true,
            ForeignKind::Element => true,
            ForeignKind::Nexto => false,
            ForeignKind::Necto => false,
        }
    }

    /// Whether the bot sees one other car only.
    pub fn truncates_obs(self) -> (r: bool)
        ensures
            r == (self == ForeignKind::Immortal || self == ForeignKind::Element),
    {
        match self {
            ForeignKind::Immortal => true,
            ForeignKind::Element => true,
            ForeignKind::Nexto => false,
            ForeignKind::Necto => false,
        }
    }

    /// The bot of a name.
    pub open spec fn named(s: Seq<char>) -> Option<ForeignKind> {
        if s == "immortal"@ {
            Some(ForeignKind::Immortal)
        } else if s == "nexto"@ {
            Some(ForeignKind::Nexto)
        } else if s == "necto"@ {
            Some(ForeignKind::Necto)
        } else if s == "element"@ {
            Some(ForeignKind::Element)
        } else {
            None
        }
    }

    /// The bot of a name.
    pub fn parse(s: &str) -> (r: Option<ForeignKind>)
        ensures
            r == ForeignKind::named(s@),
    {
        let name: String = String::from_str(s);
        if name == String::from_str("immortal") {
            Some(ForeignKind::Immortal)
        } else if name == String::from_str("nexto") {
            Some(ForeignKind::Nexto)
        } else if name == String::from_str("necto") {
            Some(ForeignKind::Necto)
        } else if name == String::from_str("element") {
            Some(ForeignKind::Element)
        } else {
            None
        }
    }
}

/// A plain network of linear layers.
#[derive(Clone, Copy, Debug, PartialEq, Eq, Structural)]
pub struct ForeignMlp {
    pub in_dim: usize,
    pub hidden: usize,
    pub out_dim: usize,
    pub n_hidden: usize,
}

/// Name of layer `li`.
pub open spec fn net_layer(li: nat) -> Seq<char> {
    "net."@ + decimal(2 * li)
}

impl ForeignMlp {
    /// What layer `li` takes.
    pub open spec fn layer_in(self, li: int) -> usize {
        if li == 0 {
            self.in_dim
        } else {
            self.hidden
        }
    }

    /// What layer `li` gives.
    pub open spec fn layer_out(self, li: int) -> usize {
        if li == self.n_hidden {
            self.out_dim
        } else {
            self.hidden
        }
    }

    /// What the arrays of layer `li` must be.
    pub open spec fn layer_steps(self, li: int) -> Seq<StepView> {
        let p = net_layer(li as nat);
        let (o, i) = (self.layer_out(li), self.layer_in(li));
        seq![
            step(Rule::Present, p, ".weight"@, 0, 0),
            step(Rule::Present, p, ".bias"@, 0, 0),
            step(Rule::Exact, p, ".weight"@, o, i),
            step(Rule::Tensor, p, ".weight"@, 0, 0),
            step(Rule::Length, p, ".bias"@, o, 0),
        ]
    }

    /// What the arrays of the first `n` layers must be.
    pub open spec fn layers_steps(self, n: int) -> Seq<StepView>
        decreases n,
    {
        if n <= 0 {
            Seq::empty()
        } else {
            self.layers_steps(n - 1) + self.layer_steps(n - 1)
        }
    }

    /// What the arrays of the network must be, in the order in which they are
    /// checked.
    pub open spec fn steps(self) -> Seq<StepView> {
        self.layers_steps(self.n_hidden + 1)
    }

    proof fn lemma_checkable(self, n: int)
        ensures
            checkable(self.layers_steps(n)),
        decreases n,
    {
        if n > 0 {
            self.lemma_checkable(n - 1);
            lemma_checkable_concat(self.layers_steps(n - 1), self.layer_steps(n - 1));
        }
    }

    /// Checks that a state dict holds a network with layers `net.0`, `net.2`, ..
    /// from `in_dim` through `n_hidden` hidden layers to `out_dim`.
    pub fn from_named<F>(
        w: &RawStateDict<F>,
        in_dim: usize,
        hidden: usize,
        out_dim: usize,
        n_hidden: usize,
    ) -> (r: Result<ForeignMlp, Fault>)
        requires
            2 * n_hidden <= usize::MAX,
        ensures
            ({
                let net = ForeignMlp { in_dim, hidden, out_dim, n_hidden };
                match r {
                    Ok(m) => m == net && first_fault(w@, net.steps(), 0) is None,
                    Err(e) => first_fault(w@, net.steps(), 0) == Some(e@),
                }
            }),
    {
        let net = ForeignMlp { in_dim, hidden, out_dim, n_hidden };
        let mut steps: Vec<Step> = Vec::new();
        assert(step_views(steps@) =~= Seq::empty());
        let mut li: usize = 0;
        let mut more: bool = true;
        while more
            invariant
                li <= n_hidden + 1,
                more ==> li <= n_hidden,
                !more ==> li == n_hidden,
                2 * n_hidden <= usize::MAX,
                net == (ForeignMlp { in_dim, hidden, out_dim, n_hidden }),
                step_views(steps@) == net.layers_steps(
                    if more {
                        li as int
                    } else {
                        li + 1
                    },
                ),
            decreases n_hidden - li + (if more {
                1int
            } else {
                0
            }),
        {
            let mut p: String = String::from_str("net.");
            let d: String = to_decimal(2 * li);
            p.append(d.as_str());
            let i: usize = if li == 0 {
                in_dim
            } else {
                hidden
            };
            let o: usize = if li == n_hidden {
                out_dim
            } else {
                hidden
            };
            let ghost before = step_views(steps@);
            push_step(&mut steps, Rule::Present, p.as_str(), ".weight", 0, 0);
            push_step(&mut steps, Rule::Present, p.as_str(), ".bias", 0, 0);
            push_step(&mut steps, Rule::Exact, p.as_str(), ".weight", o, i);
            push_step(&mut steps, Rule::Tensor, p.as_str(), ".weight", 0, 0);
            push_step(&mut steps, Rule::Length, p.as_str(), ".bias", o, 0);
            assert(step_views(steps@) =~= before + net.layer_steps(li as int));
            if li == n_hidden {
                more = false;
            } else {
                li = li + 1;
            }
        }
        proof {
            net.lemma_checkable(n_hidden + 1);
        }
        match run_steps(w, &steps) {
            Ok(_) => Ok(net),
            Err(e) => Err(e),
        }
    }
}

/// The network that Immortal plays with.
pub open spec fn immortal_net() -> ForeignMlp {
    ForeignMlp { in_dim: ADV_OBS_SIZE, hidden: 512, out_dim: 126, n_hidden: 6 }
}

/// Why a state dict is no such bot.
#[derive(Debug)]
pub enum ForeignError {
    /// An array fails a requirement.
    Array(Fault),
    /// The attention network has no blocks.
    NoBlocks,
}

/// What a bot's network is given.
pub enum NetInput<F> {
    /// A row that shows one other car.
    Advanced(Vec<F>),
    /// A list of entities.
    Entities(NectoObs<F>),
    /// The previous action; the network looks at the arena by itself.
    Bare([F; 8]),
}

/// What a bot's network answers.
pub enum NetOutput<F> {
    /// A score for each row of the action table.
    Logits(Vec<F>),
    /// Scores of direct outputs.
    Heads(HeadLogits<F>),
    /// The controls themselves.
    Controls([F; 8]),
}

/// Controls at rest.
pub open spec fn idle<F: Scalar>() -> Seq<F> {
    Seq::new(8, |i: int| num::<F>(0))
}

/// The state of a bot.
pub struct BotView<F> {
    pub kind: ForeignKind,
    pub table: Seq<[F; 8]>,
    /// How many decisions one decision lasts.
    pub period: u32,
    /// How many orange cars of an arena the bot drives.
    pub cars: u32,
    /// How long a car's controls are held yet, and the controls.
    pub hold: Map<u64, (u32, [F; 8])>,
    /// What the bot chose last for a car.
    pub prev: Map<u64, [F; 8]>,
    /// Timers of an arena.
    pub timers: Map<u64, TimersView<F>>,
}

/// A bot that drives cars in one or more arenas. A car is known by a key whose
/// upper half is its arena.
pub struct ForeignPolicy<F> {
    kind: ForeignKind,
    table: Vec<[F; 8]>,
    decision_period: u32,
    foreign_cars: u32,
    hold: HashMap<u64, (u32, [F; 8])>,
    necto_timers: HashMap<u64, NectoTimers<F>>,
    prev: HashMap<u64, [F; 8]>,
}

impl<F> View for ForeignPolicy<F> {
    type V = BotView<F>;

    closed spec fn view(&self) -> BotView<F> {
        BotView {
            kind: self.kind,
            table: self.table@,
            period: self.decision_period,
            cars: self.foreign_cars,
            hold: self.hold@,
            prev: self.prev@,
            timers: self.necto_timers@.map_values(|t: NectoTimers<F>| t@),
        }
    }
}

/// The arena of a car.
pub open spec fn arena_of(key: u64) -> u64 {
    key >> 32
}

impl<F: Scalar> ForeignPolicy<F> {
    /// A fresh bot of the given kind and table: full strength, whole teams, no
    /// memory.
    pub open spec fn fresh(v: BotView<F>, kind: ForeignKind) -> bool {
        &&& v.kind == kind
        &&& v.period == 1
        &&& v.cars == u32::MAX
        &&& v.hold == Map::<u64, (u32, [F; 8])>::empty()
        &&& v.prev == Map::<u64, [F; 8]>::empty()
        &&& v.timers == Map::<u64, TimersView<F>>::empty()
        &&& match kind {
            ForeignKind::Immortal => table_reads(v.table, immortal_table()),
            ForeignKind::Element => v.table == Seq::<[F; 8]>::empty(),
            _ => table_reads(v.table, base_table()),
        }
    }

    /// Checks the bot's network and sets it up: full strength, whole teams, no
    /// memory.
    pub fn new(w: &RawStateDict<F>, kind: ForeignKind) -> (r: Result<Self, ForeignError>)
        requires
            total::<F>(),
            w@.len() < usize::MAX,
        ensures
            r matches Ok(p) ==> Self::fresh(p@, kind),
            kind == ForeignKind::Immortal ==> match r {
                Ok(_) => first_fault(w@, immortal_net().steps(), 0) is None,
                Err(ForeignError::Array(e)) => first_fault(w@, immortal_net().steps(), 0) == Some(
                    e@,
                ),
                Err(ForeignError::NoBlocks) => false,
            },
            kind == ForeignKind::Element ==> match r {
                Ok(_) => first_fault(w@, element_steps(ADV_OBS_SIZE), 0) is None,
                Err(ForeignError::Array(e)) => first_fault(w@, element_steps(ADV_OBS_SIZE), 0)
                    == Some(e@),
                Err(ForeignError::NoBlocks) => false,
            },
            kind == ForeignKind::Nexto || kind == ForeignKind::Necto ==> exists|n: int| #[trigger]
                block_count(w@, n) && match r {
                    Ok(_) => n > 0 && first_fault(w@, nexto_blocks(n) + nexto_rest(w@), 0) is None,
                    Err(ForeignError::NoBlocks) => n == 0,
                    Err(ForeignError::Array(e)) => n > 0 && first_fault(
                        w@,
                        nexto_blocks(n) + nexto_rest(w@),
                        0,
                    ) == Some(e@),
                },
    {
        broadcast use vstd::std_specs::hash::group_hash_axioms;

        let table: Vec<[F; 8]> = match kind {
            ForeignKind::Immortal => {
                if let Err(e) = ForeignMlp::from_named(w, ADV_OBS_SIZE, 512, 126, 6) {
                    return Err(ForeignError::Array(e));
                }
                make_immortal_table()
            },
            ForeignKind::Element => {
                if let Err(e) = ElementNet::new(w, ADV_OBS_SIZE) {
                    return Err(ForeignError::Array(e));
                }
                Vec::new()
            },
            _ => {
                match NextoNet::new(w) {
                    Ok(_) => {},
                    Err(NextoError::NoBlocks) => {
                        return Err(ForeignError::NoBlocks);
                    },
                    Err(NextoError::Array(e)) => {
                        return Err(ForeignError::Array(e));
                    },
                }
                make_lookup_table()
            },
        };
        let p = ForeignPolicy {
            kind,
            table,
            decision_period: 1,
            foreign_cars: u32::MAX,
            hold: HashMap::new(),
            necto_timers: HashMap::new(),
            prev: HashMap::new(),
        };
        assert(p@.timers =~= Map::<u64, TimersView<F>>::empty());
        Ok(p)
    }

    /// Which bot it is.
    pub fn kind(&self) -> (k: ForeignKind)
        ensures
            k == self@.kind,
    {
        self.kind
    }

    /// Lets the bot drive the first `n` orange cars of an arena, at least one.
    pub fn set_foreign_cars(&mut self, n: u32)
        ensures
            final(self)@ == (BotView {
                cars: if n < 1 {
                    1
                } else {
                    n
                },
                ..old(self)@
            }),
    {
        self.foreign_cars = if n < 1 {
            1
        } else {
            n
        };
    }

    /// How many of `orange` cars the bot drives.
    pub fn cars_in_arena(&self, orange: usize) -> (n: usize)
        ensures
            n == if self@.cars < orange {
                self@.cars as int
            } else {
                orange as int
            },
    {
        if (self.foreign_cars as usize) < orange {
            self.foreign_cars as usize
        } else {
            orange
        }
    }

    /// Lets a decision last for `n` decisions, at least one.
    pub fn set_decision_period(&mut self, n: u32)
        ensures
            final(self)@ == (BotView {
                period: if n < 1 {
                    1
                } else {
                    n
                },
                ..old(self)@
            }),
    {
        self.decision_period = if n < 1 {
            1
        } else {
            n
        };
    }

    /// How many decisions one decision lasts.
    pub fn decision_period(&self) -> (n: u32)
        ensures
            n == self@.period,
    {
        self.decision_period
    }

    /// Forgets every car's last choice and held controls.
    pub fn reset(&mut self)
        ensures
            final(self)@ == (BotView { hold: Map::empty(), prev: Map::empty(), ..old(self)@ }),
    {
        broadcast use vstd::std_specs::hash::group_hash_axioms;

        self.prev.clear();
        self.hold.clear();
    }

    /// What the bot chose last for a car, at rest if nothing.
    pub fn prev_of(&self, key: u64) -> (c: [F; 8])
        requires
            total::<F>(),
        ensures
            c@ == last_choice(self@, key),
    {
        broadcast use vstd::std_specs::hash::group_hash_axioms;

        match self.prev.get(&key) {
            Some(c) => *c,
            None => {
                let zero: F = whole(0);
                let c: [F; 8] = [zero; 8];
                assert(c@ =~= idle::<F>());
                c
            },
        }
    }

    /// Replaces what counts as the bot's last choice for a car.
    pub fn set_prev(&mut self, key: u64, controls: [F; 8])
        ensures
            final(self)@ == (BotView { prev: old(self)@.prev.insert(key, controls), ..old(self)@ }),
    {
        broadcast use vstd::std_specs::hash::group_hash_axioms;

        self.prev.insert(key, controls);
    }

    /// Forgets one car's last choice and held controls, and its arena's timers.
    pub fn reset_car(&mut self, key: u64)
        ensures
            final(self)@ == (BotView {
                hold: old(self)@.hold.remove(key),
                prev: old(self)@.prev.remove(key),
                timers: old(self)@.timers.remove(arena_of(key)),
                ..old(self)@
            }),
    {
        broadcast use vstd::std_specs::hash::group_hash_axioms;

        let ghost before = self@;
        self.prev.remove(&key);
        self.hold.remove(&key);
        let arena: u64 = key >> 32;
        self.necto_timers.remove(&arena);
        assert(self@.timers =~= before.timers.remove(arena_of(key)));
    }
}

/// What a bot chose last for a car, at rest if nothing.
pub open spec fn last_choice<F: Scalar>(v: BotView<F>, key: u64) -> Seq<F> {
    if v.prev.contains_key(key) {
        v.prev[key]@
    } else {
        idle::<F>()
    }
}

/// What a network is given, as values.
pub enum InputView<F> {
    Advanced(Seq<F>),
    Entities { q: Seq<F>, kv: Seq<F>, mask: Seq<bool> },
    Bare(Seq<F>),
}

impl<F> View for NetInput<F> {
    type V = InputView<F>;

    open spec fn view(&self) -> InputView<F> {
        match self {
            NetInput::Advanced(v) => InputView::Advanced(v@),
            NetInput::Entities(o) => InputView::Entities { q: o.q@, kv: o.kv@, mask: o.mask@ },
            NetInput::Bare(p) => InputView::Bare(p@),
        }
    }
}

/// Whether a car's controls are held over.
pub open spec fn is_held<F>(v: BotView<F>, key: u64) -> bool {
    v.period > 1 && v.hold.contains_key(key) && v.hold[key].0 > 0
}

/// The timers of a car's arena, fresh ones if there are none.
pub open spec fn timers_of<F: Scalar>(v: BotView<F>, key: u64, n: int) -> TimersView<F> {
    if v.timers.contains_key(arena_of(key)) {
        v.timers[arena_of(key)]
    } else {
        TimersView {
            boost: zero_timers::<F>(NECTO_PADS as int),
            demo: zero_timers::<F>(n),
            boost_emit: zero_timers::<F>(NECTO_PADS as int),
            demo_emit: zero_timers::<F>(n),
            last_tick: None,
        }
    }
}

/// The timers of a car's arena after it looked at the arena.
pub open spec fn timers_after<F: Scalar>(
    v: BotView<F>,
    key: u64,
    state: GameState<F>,
    canon: Seq<usize>,
) -> TimersView<F> {
    let n = state.cars@.len() as int;
    after_look(timers_of(v, key, n), state.tick_count, state.pads@, canon, n)
}

/// What the network is given for a car; nothing where it has no opponent to look
/// at.
pub open spec fn input_for<F: Scalar>(
    v: BotView<F>,
    key: u64,
    state: GameState<F>,
    car_idx: usize,
    canon: Seq<usize>,
    pi: F,
) -> Option<InputView<F>> {
    let prev = last_choice(v, key);
    let n = state.cars@.len() as int;
    match v.kind {
        ForeignKind::Nexto => Some(InputView::Bare(prev)),
        ForeignKind::Necto => {
            let t = timers_after(v, key, state, canon);
            Some(
                InputView::Entities {
                    q: self_row(state, car_idx, t) + prev,
                    kv: entity_rows(state, car_idx, t, 1 + n + NECTO_PADS),
                    mask: Seq::new((1 + n + NECTO_PADS) as nat, |i: int| false),
                },
            )
        },
        _ => match nearest_opponent(state.cars@, car_idx as int, state.ball.pos, n) {
            Some(o) => Some(
                InputView::Advanced(adv_row(state, car_idx as int, o, prev, canon, pi)),
            ),
            None => None,
        },
    }
}

/// A bot's turn.
pub enum Turn<F> {
    /// Earlier controls still hold.
    Held([F; 8]),
    /// There is nothing to look at; the car rests.
    Rest,
    /// The network has to be asked.
    Think(NetInput<F>),
}

/// The bot's timers fit, and those of this arena show something for every car.
pub open spec fn ready<F: Scalar>(
    v: BotView<F>,
    key: u64,
    state: GameState<F>,
    car_idx: usize,
    canon: Seq<usize>,
) -> bool {
    &&& car_idx < state.cars@.len()
    &&& state.cars@.len() + 35 <= usize::MAX
    &&& canon_fits(state.pads@, canon)
    &&& timers_fit(timers_of(v, key, state.cars@.len() as int))
    &&& timers_show(timers_of(v, key, state.cars@.len() as int), state.cars@.len() as int)
}

/// The bot after a turn has begun: held controls count down, and a bot with
/// timers has looked at the arena.
pub open spec fn turn_begun<F: Scalar>(
    v: BotView<F>,
    key: u64,
    state: GameState<F>,
    canon: Seq<usize>,
) -> BotView<F> {
    if is_held(v, key) {
        BotView {
            hold: v.hold.insert(key, ((v.hold[key].0 - 1) as u32, v.hold[key].1)),
            ..v
        }
    } else if v.kind == ForeignKind::Necto {
        BotView {
            timers: v.timers.insert(arena_of(key), timers_after(v, key, state, canon)),
            ..v
        }
    } else {
        v
    }
}

/// `raw` is what the network's answer stands for.
pub open spec fn is_choice<F: Scalar>(v: BotView<F>, out: NetOutput<F>, raw: [F; 8]) -> bool {
    match out {
        NetOutput::Logits(l) => {
            &&& v.kind == ForeignKind::Immortal || v.kind == ForeignKind::Nexto
            &&& argmax_of(l@) < v.table.len()
            &&& raw == v.table[argmax_of(l@)]
        },
        NetOutput::Heads(h) => {
            &&& v.kind == ForeignKind::Element
            &&& heads_fit(h)
            &&& forall|i: int|
                0 <= i < 8 ==> #[trigger] raw@[i] == num::<F>(decoded(h.cat@, h.ber@, i))
        },
        NetOutput::Controls(c) => v.kind == ForeignKind::Necto && raw == c,
    }
}

/// There are logits for every head.
pub open spec fn heads_fit<F>(h: HeadLogits<F>) -> bool {
    h.cat@.len() == 15 && h.ber@.len() == 6
}

/// The network's answer stands for controls.
pub open spec fn has_choice<F: Scalar>(v: BotView<F>, out: Option<NetOutput<F>>) -> bool {
    match out {
        None => false,
        Some(NetOutput::Logits(l)) => (v.kind == ForeignKind::Immortal || v.kind
            == ForeignKind::Nexto) && argmax_of(l@) < v.table.len(),
        Some(NetOutput::Heads(h)) => v.kind == ForeignKind::Element && heads_fit(h),
        Some(NetOutput::Controls(c)) => v.kind == ForeignKind::Necto,
    }
}

/// The controls that are carried out for a choice.
pub open spec fn carried_out<F: Scalar>(kind: ForeignKind, raw: [F; 8]) -> Seq<F> {
    if kind.jumps_straight() && gt(raw@[5], num::<F>(0)) {
        raw@.update(3, num::<F>(0))
    } else {
        raw@
    }
}

/// The bot after it chose `raw` and carried out `done`: the choice is
/// remembered as it was made, and the controls are held for the rest of the
/// period.
pub open spec fn choice_made<F>(
    v: BotView<F>,
    key: u64,
    raw: [F; 8],
    done: [F; 8],
) -> BotView<F> {
    BotView {
        prev: v.prev.insert(key, raw),
        hold: if v.period > 1 {
            v.hold.insert(key, ((v.period - 1) as u32, done))
        } else {
            v.hold
        },
        ..v
    }
}

/// A turn came to its end with controls `c`.
pub open spec fn turn_ended<F: Scalar>(
    v: BotView<F>,
    key: u64,
    out: Option<NetOutput<F>>,
    c: [F; 8],
    after: BotView<F>,
) -> bool {
    if has_choice(v, out) {
        exists|raw: [F; 8]| #[trigger]
            is_choice(v, out->0, raw) && c@ == carried_out(v.kind, raw) && after == choice_made(
                v,
                key,
                raw,
                c,
            )
    } else {
        c@ == idle::<F>() && after == v
    }
}

impl<F: Scalar> ForeignPolicy<F> {
    fn rest(&self) -> (c: [F; 8])
        requires
            total::<F>(),
        ensures
            c@ == idle::<F>(),
    {
        let zero: F = whole(0);
        let c: [F; 8] = [zero; 8];
        assert(c@ =~= idle::<F>());
        c
    }

    fn look_around(
        &mut self,
        state: &GameState<F>,
        car_idx: usize,
        key: u64,
        prev: &[F; 8],
        canon: &Vec<usize>,
    ) -> (o: NectoObs<F>)
        requires
            total::<F>(),
            ready(old(self)@, key, *state, car_idx, canon@),
        ensures
            ({
                let t = timers_after(old(self)@, key, *state, canon@);
                let n = state.cars@.len() as int;
                &&& o.q@ == self_row(*state, car_idx, t) + prev@
                &&& o.kv@ == entity_rows(*state, car_idx, t, 1 + n + NECTO_PADS)
                &&& o.mask@ == Seq::new((1 + n + NECTO_PADS) as nat, |i: int| false)
                &&& final(self)@ == (BotView {
                    timers: old(self)@.timers.insert(arena_of(key), t),
                    ..old(self)@
                })
            }),
    {
        broadcast use vstd::std_specs::hash::group_hash_axioms;

        let ghost before = self@;
        let arena: u64 = key >> 32;
        let n: usize = state.cars.len();
        let mut timers: NectoTimers<F> = match self.necto_timers.remove(&arena) {
            Some(t) => t,
            None => NectoTimers::new(n),
        };
        assert(timers@ == timers_of(before, key, n as int));
        let o: NectoObs<F> = build_necto_obs(state, car_idx, prev, &mut timers, canon);
        self.necto_timers.insert(arena, timers);
        assert(self@.timers =~= before.timers.insert(
            arena_of(key),
            timers_after(before, key, *state, canon@),
        ));
        o
    }

    /// Begins a turn for `state.cars[car_idx]`: earlier controls may still hold,
    /// or there may be nothing to look at; otherwise the network has to be asked.
    pub fn begin(
        &mut self,
        state: &GameState<F>,
        car_idx: usize,
        key: u64,
        canon: &Vec<usize>,
        pi: F,
    ) -> (t: Turn<F>)
        requires
            total::<F>(),
            ready(old(self)@, key, *state, car_idx, canon@),
        ensures
            final(self)@ == turn_begun(old(self)@, key, *state, canon@),
            match t {
                Turn::Held(c) => is_held(old(self)@, key) && c == old(self)@.hold[key].1,
                Turn::Rest => !is_held(old(self)@, key) && input_for(
                    old(self)@,
                    key,
                    *state,
                    car_idx,
                    canon@,
                    pi,
                ) is None,
                Turn::Think(i) => !is_held(old(self)@, key) && input_for(
                    old(self)@,
                    key,
                    *state,
                    car_idx,
                    canon@,
                    pi,
                ) == Some(i@),
            },
    {
        broadcast use vstd::std_specs::hash::group_hash_axioms;

        if self.decision_period > 1 {
            let held: Option<(u32, [F; 8])> = match self.hold.get(&key) {
                Some(h) => Some(*h),
                None => None,
            };
            if let Some((left, c)) = held {
                if left > 0 {
                    self.hold.insert(key, (left - 1, c));
                    return Turn::Held(c);
                }
            }
        }
        let prev: [F; 8] = self.prev_of(key);
        match self.kind {
            ForeignKind::Nexto => Turn::Think(NetInput::Bare(prev)),
            ForeignKind::Necto => {
                let o: NectoObs<F> = self.look_around(state, car_idx, key, &prev, canon);
                Turn::Think(NetInput::Entities(o))
            },
            _ => match nearest_opponent_to_ball(state, car_idx) {
                None => Turn::Rest,
                Some(o) => {
                    let row: Vec<F> = build_advanced_obs_one_other(
                        state,
                        car_idx,
                        o,
                        &prev,
                        canon,
                        pi,
                    );
                    Turn::Think(NetInput::Advanced(row))
                },
            },
        }
    }

    /// What the network's answer stands for.
    fn choose_controls(&self, out: &Option<NetOutput<F>>) -> (raw: Option<[F; 8]>)
        requires
            total::<F>(),
        ensures
            raw is Some == has_choice(self@, *out),
            raw matches Some(c) ==> is_choice(self@, out->0, c),
    {
        match out {
            None => None,
            Some(NetOutput::Logits(l)) => {
                let at: usize = argmax(l);
                if (self.kind == ForeignKind::Immortal || self.kind == ForeignKind::Nexto) && at
                    < self.table.len() {
                    Some(self.table[at])
                } else {
                    None
                }
            },
            Some(NetOutput::Heads(h)) => {
                if self.kind == ForeignKind::Element && h.cat.len() == 15 && h.ber.len() == 6 {
                    let net = ElementNet { obs_size: ADV_OBS_SIZE };
                    Some(net.decide(h))
                } else {
                    None
                }
            },
            Some(NetOutput::Controls(c)) => {
                if self.kind == ForeignKind::Necto {
                    Some(*c)
                } else {
                    None
                }
            },
        }
    }

    /// Ends a turn with the network's answer. Without a usable answer the car
    /// rests and the bot remembers nothing.
    pub fn finish(&mut self, key: u64, out: &Option<NetOutput<F>>) -> (c: [F; 8])
        requires
            total::<F>(),
        ensures
            turn_ended(old(self)@, key, *out, c, final(self)@),
    {
        broadcast use vstd::std_specs::hash::group_hash_axioms;

        let ghost before = self@;
        match self.choose_controls(out) {
            None => self.rest(),
            Some(raw) => {
                self.prev.insert(key, raw);
                let mut c: [F; 8] = raw;
                let zero: F = whole(0);
                if self.kind.zero_yaw_on_jump() && c[5] > zero {
                    c[3] = zero;
                }
                assert(c@ =~= carried_out(before.kind, raw));
                if self.decision_period > 1 {
                    self.hold.insert(key, (self.decision_period - 1, c));
                }
                assert(self@ == choice_made(before, key, raw, c));
                assert(is_choice(before, out->0, raw));
                c
            },
        }
    }

    /// One decision for `state.cars[car_idx]`; `net` answers what the network
    /// says, nothing if it fails.
    pub fn decide<N: Fn(NetInput<F>) -> Option<NetOutput<F>>>(
        &mut self,
        state: &GameState<F>,
        car_idx: usize,
        key: u64,
        canon: &Vec<usize>,
        pi: F,
        net: &N,
    ) -> (c: [F; 8])
        requires
            total::<F>(),
            ready(old(self)@, key, *state, car_idx, canon@),
            forall|i: NetInput<F>| #[trigger] net.requires((i,)),
        ensures
            ({
                let begun = turn_begun(old(self)@, key, *state, canon@);
                let input = input_for(old(self)@, key, *state, car_idx, canon@, pi);
                if is_held(old(self)@, key) {
                    c == old(self)@.hold[key].1 && final(self)@ == begun
                } else if input is None {
                    c@ == idle::<F>() && final(self)@ == begun
                } else {
                    exists|i: NetInput<F>, out: Option<NetOutput<F>>|
                        i@ == input->0 && #[trigger] net.ensures((i,), out) && turn_ended(
                            begun,
                            key,
                            out,
                            c,
                            final(self)@,
                        )
                }
            }),
    {
        match self.begin(state, car_idx, key, canon, pi) {
            Turn::Held(c) => c,
            Turn::Rest => self.rest(),
            Turn::Think(i) => {
                let ghost given = i;
                let out: Option<NetOutput<F>> = net(i);
                assert(net.ensures((given,), out));
                self.finish(key, &out)
            },
        }
    }
}

/// Resetting a car leaves every other car's memory and every other arena's
/// timers alone, and doing it again changes nothing.
pub proof fn law_reset_car_is_local<F>(v: BotView<F>, key: u64, other: u64)
    requires
        other != key,
    ensures
        ({
            let once = BotView {
                hold: v.hold.remove(key),
                prev: v.prev.remove(key),
                timers: v.timers.remove(arena_of(key)),
                ..v
            };
            let twice = BotView {
                hold: once.hold.remove(key),
                prev: once.prev.remove(key),
                timers: once.timers.remove(arena_of(key)),
                ..once
            };
            &&& once.hold.contains_key(other) == v.hold.contains_key(other)
            &&& v.hold.contains_key(other) ==> once.hold[other] == v.hold[other]
            &&& once.prev.contains_key(other) == v.prev.contains_key(other)
            &&& v.prev.contains_key(other) ==> once.prev[other] == v.prev[other]
            &&& !once.timers.contains_key(arena_of(key))
            &&& forall|a: u64|
                a != arena_of(key) ==> #[trigger] once.timers.contains_key(a)
                    == v.timers.contains_key(a) && (v.timers.contains_key(a) ==> once.timers[a]
                    == v.timers[a])
            &&& twice == once
        }),
{
    let once = BotView {
        hold: v.hold.remove(key),
        prev: v.prev.remove(key),
        timers: v.timers.remove(arena_of(key)),
        ..v
    };
    assert(once.hold.remove(key) =~= once.hold);
    assert(once.prev.remove(key) =~= once.prev);
    assert(once.timers.remove(arena_of(key)) =~= once.timers);
}

/// The bot after `n` turns of a car that all begin with held controls.
pub open spec fn held_turns<F: Scalar>(
    v: BotView<F>,
    key: u64,
    state: GameState<F>,
    canon: Seq<usize>,
    n: nat,
) -> BotView<F>
    decreases n,
{
    if n == 0 {
        v
    } else {
        turn_begun(held_turns(v, key, state, canon, (n - 1) as nat), key, state, canon)
    }
}

/// A bot thinks once per period: after a choice its controls hold for exactly
/// the next `period - 1` turns, and what it remembers of the car stays as it is.
pub proof fn law_thinks_once_per_period<F: Scalar>(
    v: BotView<F>,
    key: u64,
    raw: [F; 8],
    done: [F; 8],
    state: GameState<F>,
    canon: Seq<usize>,
    n: nat,
)
    requires
        v.period >= 1,
        n < v.period,
        v.period == 1 ==> !v.hold.contains_key(key),
    ensures
        ({
            let after = held_turns(choice_made(v, key, raw, done), key, state, canon, n);
            &&& is_held(after, key) <==> n < v.period - 1
            &&& after.prev == v.prev.insert(key, raw)
            &&& after.timers == v.timers
            &&& v.period > 1 ==> after.hold[key] == ((v.period - 1 - n) as u32, done)
        }),
    decreases n,
{
    if n > 0 {
        law_thinks_once_per_period(v, key, raw, done, state, canon, (n - 1) as nat);
        let before = held_turns(choice_made(v, key, raw, done), key, state, canon, (n - 1) as nat);
        lemma_held_turns_keep(choice_made(v, key, raw, done), key, state, canon, (n - 1) as nat);
    } else {
        lemma_held_turns_keep(choice_made(v, key, raw, done), key, state, canon, 0);
    }
}

/// A fresh bot is ready for every arena, and a bot that took a turn in an arena
/// is ready for the next one there, as long as no car joins.
pub proof fn law_stays_ready<F: Scalar>(
    v: BotView<F>,
    kind: ForeignKind,
    key: u64,
    state: GameState<F>,
    car_idx: usize,
    canon: Seq<usize>,
    next: GameState<F>,
    next_idx: usize,
    raw: [F; 8],
    done: [F; 8],
)
    requires
        car_idx < state.cars@.len() <= usize::MAX - 35,
        canon_fits(state.pads@, canon),
        next_idx < next.cars@.len() <= state.cars@.len(),
        canon_fits(next.pads@, canon),
    ensures
        ForeignPolicy::<F>::fresh(v, kind) ==> ready(v, key, state, car_idx, canon),
        ready(v, key, state, car_idx, canon) ==> {
            let begun = turn_begun(v, key, state, canon);
            &&& ready(begun, key, next, next_idx, canon)
            &&& ready(choice_made(begun, key, raw, done), key, next, next_idx, canon)
        },
{
}

proof fn lemma_held_turns_keep<F: Scalar>(
    v: BotView<F>,
    key: u64,
    state: GameState<F>,
    canon: Seq<usize>,
    n: nat,
)
    ensures
        held_turns(v, key, state, canon, n).period == v.period,
        held_turns(v, key, state, canon, n).kind == v.kind,
    decreases n,
{
    if n > 0 {
        lemma_held_turns_keep(v, key, state, canon, (n - 1) as nat);
    }
}

/// The bot after the first `n` cars of a list were reset.
pub open spec fn cars_reset<F>(v: BotView<F>, keys: Seq<u64>, n: int) -> BotView<F>
    decreases n,
{
    if n <= 0 {
        v
    } else {
        let before = cars_reset(v, keys, n - 1);
        BotView {
            hold: before.hold.remove(keys[n - 1]),
            prev: before.prev.remove(keys[n - 1]),
            timers: before.timers.remove(arena_of(keys[n - 1])),
            ..before
        }
    }
}

impl<F: Scalar> ForeignPolicy<F> {
    /// Resets every car of a list.
    pub fn reset_cars(&mut self, keys: &Vec<u64>)
        ensures
            final(self)@ == cars_reset(old(self)@, keys@, keys@.len() as int),
    {
        let ghost start = self@;
        let mut i: usize = 0;
        while i < keys.len()
            invariant
                i <= keys@.len(),
                self@ == cars_reset(start, keys@, i as int),
            decreases keys.len() - i,
        {
            self.reset_car(keys[i]);
            i = i + 1;
        }
    }
}

} // verus!
