//! What telemetry terms hold after any number of steps.

use crate::exact::{exact, number_steps, number_sum};
use crate::reward::config::RewardConfig;
use crate::reward::laws::{events, law_buckets_partition_air_touches};
use crate::reward::telemetry::{
    all_well_booked, is_event_term, lemma_step_is_well_booked, well_booked,
};
use crate::reward::terms::{
    aerial_postings, boost_postings, cooled_down, goal_postings, motion_postings, play_postings,
    settled, step_postings, touch_postings, touched, LedgerView, Posting, N_TERMS, T_AERIAL_TOUCH,
    T_AGENT_STEPS, T_AIRBORNE_TOUCH_EVENTS, T_AIR_SETUP, T_AIR_TOUCH_Z0, T_AIR_TOUCH_Z1,
    T_AIR_TOUCH_Z2, T_AIR_TOUCH_Z3, T_AIR_TOUCH_Z4, T_AIR_TOUCH_Z5, T_BOOST_GAINED, T_BOOST_PICKUP,
    T_FLIP_EVENTS, T_TOUCH_EVENTS, T_WIN_PROB,
};
use crate::scalar::{num, number, plus, widened, Scalar};
use crate::sim::{BallState, CarState, GameState, Team};
use vstd::prelude::*;

verus! {

/// What a term that held `x` holds after a list of postings.
pub open spec fn booked<F: Scalar, G: Scalar + From<F>>(
    x: G,
    ps: Seq<Posting<F>>,
    t: int,
) -> G
    decreases ps.len(),
{
    if ps.len() == 0 {
        x
    } else {
        let before = booked(x, ps.drop_last(), t);
        match ps.last() {
            Posting::Pay { term, amount } => if term == t {
                plus(before, widened::<F, G>(amount))
            } else {
                before
            },
            Posting::Count { term } => if term == t {
                plus(before, num::<G>(1))
            } else {
                before
            },
            Posting::Tally { term, amount } => if term == t {
                plus(before, widened::<F, G>(amount))
            } else {
                before
            },
        }
    }
}

/// The term that a posting is booked under.
pub open spec fn term_of<F>(p: Posting<F>) -> usize {
    match p {
        Posting::Pay { term, amount } => term,
        Posting::Count { term } => term,
        Posting::Tally { term, amount } => term,
    }
}

/// No posting of the list is booked under term `t`.
pub open spec fn leaves_alone<F>(ps: Seq<Posting<F>>, t: int) -> bool {
    forall|i: int| 0 <= i < ps.len() ==> term_of(#[trigger] ps[i]) != t
}

/// What postings leave under a term is what they book under it.
pub proof fn lemma_settled_term<F: Scalar, G: Scalar + From<F>>(
    l: LedgerView<F, G>,
    ps: Seq<Posting<F>>,
    t: int,
)
    requires
        all_well_booked(ps),
        l.terms.len() == N_TERMS,
        0 <= t < N_TERMS,
    ensures
        settled(l, ps).terms.len() == N_TERMS,
        settled(l, ps).terms[t] == booked(l.terms[t], ps, t),
    decreases ps.len(),
{
    if ps.len() > 0 {
        let head = ps.drop_last();
        assert forall|i: int| 0 <= i < head.len() implies well_booked(#[trigger] head[i]) by {
            assert(head[i] == ps[i]);
        }
        lemma_settled_term(l, head, t);
        assert(well_booked(ps[ps.len() - 1]));
    }
}

/// Postings book one after the other.
pub proof fn lemma_booked_concat<F: Scalar, G: Scalar + From<F>>(
    x: G,
    a: Seq<Posting<F>>,
    b: Seq<Posting<F>>,
    t: int,
)
    ensures
        booked(x, a + b, t) == booked(booked(x, a, t), b, t),
    decreases b.len(),
{
    if b.len() == 0 {
        assert(a + b =~= a);
    } else {
        assert((a + b).drop_last() =~= a + b.drop_last());
        lemma_booked_concat(x, a, b.drop_last(), t);
    }
}

/// A term without postings stays as it is.
pub proof fn lemma_left_alone<F: Scalar, G: Scalar + From<F>>(x: G, ps: Seq<Posting<F>>, t: int)
    requires
        leaves_alone(ps, t),
    ensures
        booked(x, ps, t) == x,
    decreases ps.len(),
{
    if ps.len() > 0 {
        let head = ps.drop_last();
        assert forall|i: int| 0 <= i < head.len() implies term_of(#[trigger] head[i]) != t by {
            assert(head[i] == ps[i]);
        }
        lemma_left_alone(x, head, t);
        assert(term_of(ps[ps.len() - 1]) != t);
    }
}

/// What the parts of a step book under a term, one after the other.
pub proof fn lemma_booked_parts<F: Scalar, G: Scalar + From<F>, S: Fn(F) -> F>(
    x: G,
    s: AgentStep<F>,
    sqrt: S,
    t: int,
)
    ensures
        ({
            let me = s.me();
            let was = s.was();
            let p0 = seq![Posting::<F>::Count { term: T_AGENT_STEPS }];
            let p1 = boost_postings(was, me, s.cfg, sqrt);
            let p2 = motion_postings(was, me, s.cfg);
            let p3 = goal_postings(s.scored, s.team(), s.cfg);
            let p4 = touch_postings(s.hit(), s.paid(), me.is_on_ground, s.cur.ball.pos.z, s.cfg);
            let p5 = play_postings(
                s.hit(),
                s.team(),
                me,
                s.prev.ball,
                s.cur.ball,
                s.cfg,
                sqrt,
            );
            let p6 = aerial_postings(
                s.hit(),
                s.paid(),
                s.team(),
                me,
                s.prev.ball,
                s.cur.ball,
                s.cfg,
                sqrt,
            );
            let x1 = booked(booked(x, p0, t), p1, t);
            let x3 = booked(booked(x1, p2, t), p3, t);
            booked(x, s.postings(sqrt), t) == booked(
                booked(booked(x3, p4, t), p5, t),
                p6,
                t,
            )
        }),
{
    let me = s.me();
    let was = s.was();
    let p0 = seq![Posting::<F>::Count { term: T_AGENT_STEPS }];
    let p1 = boost_postings(was, me, s.cfg, sqrt);
    let p2 = motion_postings(was, me, s.cfg);
    let p3 = goal_postings(s.scored, s.team(), s.cfg);
    let p4 = touch_postings(s.hit(), s.paid(), me.is_on_ground, s.cur.ball.pos.z, s.cfg);
    let p5 = play_postings(s.hit(), s.team(), me, s.prev.ball, s.cur.ball, s.cfg, sqrt);
    let p6 = aerial_postings(
        s.hit(),
        s.paid(),
        s.team(),
        me,
        s.prev.ball,
        s.cur.ball,
        s.cfg,
        sqrt,
    );
    lemma_booked_concat(x, p0, p1, t);
    lemma_booked_concat(x, p0 + p1, p2, t);
    lemma_booked_concat(x, p0 + p1 + p2, p3, t);
    lemma_booked_concat(x, p0 + p1 + p2 + p3, p4, t);
    lemma_booked_concat(x, p0 + p1 + p2 + p3 + p4, p5, t);
    lemma_booked_concat(x, p0 + p1 + p2 + p3 + p4 + p5, p6, t);
}

proof fn lemma_motion_alone<F: Scalar>(
    was: CarState<F>,
    me: CarState<F>,
    cfg: RewardConfig<F>,
    t: int,
)
    requires
        t < T_FLIP_EVENTS,
    ensures
        leaves_alone(motion_postings(was, me, cfg), t),
{
}

proof fn lemma_touch_alone<F: Scalar>(
    hit: bool,
    paid: bool,
    on_ground: bool,
    z: F,
    cfg: RewardConfig<F>,
    t: int,
)
    requires
        t == T_AERIAL_TOUCH || t == T_AGENT_STEPS || T_BOOST_PICKUP <= t,
    ensures
        leaves_alone(touch_postings(hit, paid, on_ground, z, cfg), t),
{
}

proof fn lemma_play_alone<F: Scalar, S: Fn(F) -> F>(
    hit: bool,
    team: Team,
    me: CarState<F>,
    before: BallState<F>,
    now: BallState<F>,
    cfg: RewardConfig<F>,
    sqrt: S,
    t: int,
)
    requires
        T_AERIAL_TOUCH <= t,
    ensures
        leaves_alone(play_postings(hit, team, me, before, now, cfg, sqrt), t),
{
}

/// What the parts of a step book under a term that only the first, the second or
/// the last of them books under.
proof fn lemma_outer_parts<F: Scalar, G: Scalar + From<F>, S: Fn(F) -> F>(
    x: G,
    s: AgentStep<F>,
    sqrt: S,
    t: int,
)
    requires
        t == T_AERIAL_TOUCH || t == T_AGENT_STEPS || t == T_BOOST_PICKUP || t == T_BOOST_GAINED,
    ensures
        booked(x, s.postings(sqrt), t) == booked(
            booked(
                booked(x, seq![Posting::<F>::Count { term: T_AGENT_STEPS }], t),
                boost_postings(s.was(), s.me(), s.cfg, sqrt),
                t,
            ),
            s.aerial(sqrt),
            t,
        ),
{
    lemma_booked_parts::<F, G, S>(x, s, sqrt, t);
    let y = booked(
        booked(x, seq![Posting::<F>::Count { term: T_AGENT_STEPS }], t),
        boost_postings(s.was(), s.me(), s.cfg, sqrt),
        t,
    );
    lemma_motion_alone(s.was(), s.me(), s.cfg, t);
    lemma_left_alone(y, motion_postings(s.was(), s.me(), s.cfg), t);
    lemma_left_alone(y, goal_postings(s.scored, s.team(), s.cfg), t);
    let z = s.cur.ball.pos.z;
    let ground = s.me().is_on_ground;
    lemma_touch_alone(s.hit(), s.paid(), ground, z, s.cfg, t);
    lemma_left_alone(y, touch_postings(s.hit(), s.paid(), ground, z, s.cfg), t);
    let (before, now) = (s.prev.ball, s.cur.ball);
    lemma_play_alone(s.hit(), s.team(), s.me(), before, now, s.cfg, sqrt, t);
    lemma_left_alone(y, play_postings(s.hit(), s.team(), s.me(), before, now, s.cfg, sqrt), t);
}

/// One agent's step: what its reward is computed from.
pub struct AgentStep<F> {
    pub prev: GameState<F>,
    pub cur: GameState<F>,
    pub car_idx: int,
    pub scored: Option<Team>,
    pub cfg: RewardConfig<F>,
}

impl<F: Scalar> AgentStep<F> {
    /// The car before the step.
    pub open spec fn was(self) -> CarState<F> {
        self.prev.cars@[self.car_idx].state
    }

    /// The car after the step.
    pub open spec fn me(self) -> CarState<F> {
        self.cur.cars@[self.car_idx].state
    }

    /// The car's team.
    pub open spec fn team(self) -> Team {
        self.cur.cars@[self.car_idx].team
    }

    /// Whether the car touched the ball in the step.
    pub open spec fn hit(self) -> bool {
        touched(
            self.was().ball_hit_info,
            self.me().ball_hit_info,
            self.prev.tick_count,
            self.cur.tick_count,
        )
    }

    /// Whether a touch would be paid.
    pub open spec fn paid(self) -> bool {
        cooled_down(
            self.was().ball_hit_info,
            self.me().ball_hit_info,
            self.cfg.touch_cooldown_ticks,
        )
    }

    /// What the step pays for a touch in the air.
    pub open spec fn aerial<S: Fn(F) -> F>(self, sqrt: S) -> Seq<Posting<F>> {
        aerial_postings(
            self.hit(),
            self.paid(),
            self.team(),
            self.me(),
            self.prev.ball,
            self.cur.ball,
            self.cfg,
            sqrt,
        )
    }

    /// The ledger of the step.
    pub open spec fn postings<S: Fn(F) -> F>(self, sqrt: S) -> Seq<Posting<F>> {
        step_postings(self.prev, self.cur, self.car_idx, self.scored, self.cfg, sqrt)
    }

    /// The terms after the step, which held `terms` before.
    pub open spec fn terms_after<G: Scalar + From<F>, S: Fn(F) -> F>(
        self,
        terms: Seq<G>,
        sqrt: S,
    ) -> Seq<G> {
        settled(LedgerView { reward: num::<F>(0), terms }, self.postings(sqrt)).terms
    }
}

/// The terms after the first `n` of many steps.
pub open spec fn terms_through<F: Scalar, G: Scalar + From<F>, S: Fn(F) -> F>(
    steps: Seq<AgentStep<F>>,
    terms: Seq<G>,
    sqrt: S,
    n: int,
) -> Seq<G>
    decreases n,
{
    if n <= 0 {
        terms
    } else {
        steps[n - 1].terms_after(terms_through(steps, terms, sqrt, n - 1), sqrt)
    }
}

/// How many events of term `t` the first `n` of many steps count.
pub open spec fn counted_through<F: Scalar, S: Fn(F) -> F>(
    steps: Seq<AgentStep<F>>,
    sqrt: S,
    t: int,
    n: int,
) -> int
    decreases n,
{
    if n <= 0 {
        0
    } else {
        counted_through(steps, sqrt, t, n - 1) + events(steps[n - 1].postings(sqrt), t, t)
    }
}

/// Terms that nothing was booked under yet.
pub open spec fn empty_terms<G: Scalar>(terms: Seq<G>) -> bool {
    &&& terms.len() == N_TERMS
    &&& forall|t: int| 0 <= t < N_TERMS ==> #[trigger] terms[t] == num::<G>(0)
}

proof fn lemma_events_not_negative<F>(ps: Seq<Posting<F>>, lo: int, hi: int)
    ensures
        events(ps, lo, hi) >= 0,
    decreases ps.len(),
{
    if ps.len() > 0 {
        lemma_events_not_negative(ps.drop_last(), lo, hi);
    }
}

/// An event term holds the number of its events.
proof fn lemma_event_term<F: Scalar, G: Scalar + From<F>>(
    ps: Seq<Posting<F>>,
    before: int,
    t: int,
)
    requires
        exact::<G>(),
        all_well_booked(ps),
        is_event_term(t),
        0 <= before,
    ensures
        booked(number::<G>(before), ps, t) == number::<G>(before + events(ps, t, t)),
    decreases ps.len(),
{
    if ps.len() > 0 {
        let head = ps.drop_last();
        assert forall|i: int| 0 <= i < head.len() implies well_booked(#[trigger] head[i]) by {
            assert(head[i] == ps[i]);
        }
        lemma_event_term::<F, G>(head, before, t);
        lemma_events_not_negative(head, t, t);
        number_steps::<G>(before + events(head, t, t));
        assert(well_booked(ps[ps.len() - 1]));
    }
}

proof fn lemma_terms_through<F: Scalar, G: Scalar + From<F>, S: Fn(F) -> F>(
    steps: Seq<AgentStep<F>>,
    terms: Seq<G>,
    sqrt: S,
    t: int,
    n: int,
)
    requires
        exact::<G>(),
        empty_terms(terms),
        is_event_term(t),
        0 <= n <= steps.len(),
    ensures
        terms_through(steps, terms, sqrt, n).len() == N_TERMS,
        terms_through(steps, terms, sqrt, n)[t] == number::<G>(counted_through(steps, sqrt, t, n)),
        counted_through(steps, sqrt, t, n) >= 0,
    decreases n,
{
    if n > 0 {
        lemma_terms_through(steps, terms, sqrt, t, n - 1);
        let s = steps[n - 1];
        let before = terms_through(steps, terms, sqrt, n - 1);
        lemma_step_is_well_booked(s.prev, s.cur, s.car_idx, s.scored, s.cfg, sqrt);
        lemma_settled_term(LedgerView { reward: num::<F>(0), terms: before }, s.postings(sqrt), t);
        lemma_event_term::<F, G>(s.postings(sqrt), counted_through(steps, sqrt, t, n - 1), t);
        lemma_events_not_negative(s.postings(sqrt), t, t);
    }
}

proof fn lemma_events_split<F>(ps: Seq<Posting<F>>)
    ensures
        events(ps, 14, 19) == events(ps, 14, 14) + events(ps, 15, 15) + events(ps, 16, 16) + events(
            ps,
            17,
            17,
        ) + events(ps, 18, 18) + events(ps, 19, 19),
    decreases ps.len(),
{
    if ps.len() > 0 {
        lemma_events_split(ps.drop_last());
    }
}

/// How many touches in the air the first `n` of many steps count, over all height
/// buckets.
pub open spec fn bucketed_through<F: Scalar, S: Fn(F) -> F>(
    steps: Seq<AgentStep<F>>,
    sqrt: S,
    n: int,
) -> int {
    counted_through(steps, sqrt, T_AIR_TOUCH_Z0 as int, n) + counted_through(
        steps,
        sqrt,
        T_AIR_TOUCH_Z1 as int,
        n,
    ) + counted_through(steps, sqrt, T_AIR_TOUCH_Z2 as int, n) + counted_through(
        steps,
        sqrt,
        T_AIR_TOUCH_Z3 as int,
        n,
    ) + counted_through(steps, sqrt, T_AIR_TOUCH_Z4 as int, n) + counted_through(
        steps,
        sqrt,
        T_AIR_TOUCH_Z5 as int,
        n,
    )
}

proof fn lemma_histogram<F: Scalar, S: Fn(F) -> F>(steps: Seq<AgentStep<F>>, sqrt: S, n: int)
    requires
        0 <= n <= steps.len(),
    ensures
        bucketed_through(steps, sqrt, n) == counted_through(
            steps,
            sqrt,
            T_AIRBORNE_TOUCH_EVENTS as int,
            n,
        ),
        counted_through(steps, sqrt, T_AIRBORNE_TOUCH_EVENTS as int, n) <= counted_through(
            steps,
            sqrt,
            T_TOUCH_EVENTS as int,
            n,
        ),
    decreases n,
{
    if n > 0 {
        lemma_histogram(steps, sqrt, n - 1);
        let s = steps[n - 1];
        law_buckets_partition_air_touches(s.prev, s.cur, s.car_idx, s.scored, s.cfg, sqrt);
        lemma_events_split(s.postings(sqrt));
    }
}

/// However many steps filled them, the terms of the height buckets add up to the
/// term of the touches in the air, each term holds the number of its events, and
/// no more touches are made in the air than touches.
pub proof fn law_histogram_partitions_air_touches<F: Scalar, G: Scalar + From<F>, S: Fn(F) -> F>(
    steps: Seq<AgentStep<F>>,
    terms: Seq<G>,
    sqrt: S,
)
    requires
        exact::<G>(),
        empty_terms(terms),
    ensures
        ({
            let n = steps.len() as int;
            let after = terms_through(steps, terms, sqrt, n);
            let airborne = counted_through(steps, sqrt, T_AIRBORNE_TOUCH_EVENTS as int, n);
            let touches = counted_through(steps, sqrt, T_TOUCH_EVENTS as int, n);
            &&& plus(
                plus(
                    plus(
                        plus(
                            plus(after[T_AIR_TOUCH_Z0 as int], after[T_AIR_TOUCH_Z1 as int]),
                            after[T_AIR_TOUCH_Z2 as int],
                        ),
                        after[T_AIR_TOUCH_Z3 as int],
                    ),
                    after[T_AIR_TOUCH_Z4 as int],
                ),
                after[T_AIR_TOUCH_Z5 as int],
            ) == after[T_AIRBORNE_TOUCH_EVENTS as int]
            &&& after[T_AIRBORNE_TOUCH_EVENTS as int] == number::<G>(airborne)
            &&& after[T_TOUCH_EVENTS as int] == number::<G>(touches)
            &&& 0 <= airborne <= touches
        }),
{
    let n = steps.len() as int;
    lemma_terms_through(steps, terms, sqrt, T_TOUCH_EVENTS as int, n);
    lemma_terms_through(steps, terms, sqrt, T_AIRBORNE_TOUCH_EVENTS as int, n);
    lemma_terms_through(steps, terms, sqrt, T_AIR_TOUCH_Z0 as int, n);
    lemma_terms_through(steps, terms, sqrt, T_AIR_TOUCH_Z1 as int, n);
    lemma_terms_through(steps, terms, sqrt, T_AIR_TOUCH_Z2 as int, n);
    lemma_terms_through(steps, terms, sqrt, T_AIR_TOUCH_Z3 as int, n);
    lemma_terms_through(steps, terms, sqrt, T_AIR_TOUCH_Z4 as int, n);
    lemma_terms_through(steps, terms, sqrt, T_AIR_TOUCH_Z5 as int, n);
    lemma_histogram(steps, sqrt, n);
    let z0 = counted_through(steps, sqrt, T_AIR_TOUCH_Z0 as int, n);
    let z1 = counted_through(steps, sqrt, T_AIR_TOUCH_Z1 as int, n);
    let z2 = counted_through(steps, sqrt, T_AIR_TOUCH_Z2 as int, n);
    let z3 = counted_through(steps, sqrt, T_AIR_TOUCH_Z3 as int, n);
    let z4 = counted_through(steps, sqrt, T_AIR_TOUCH_Z4 as int, n);
    let z5 = counted_through(steps, sqrt, T_AIR_TOUCH_Z5 as int, n);
    number_sum::<G>(z0, z1);
    number_sum::<G>(z0 + z1, z2);
    number_sum::<G>(z0 + z1 + z2, z3);
    number_sum::<G>(z0 + z1 + z2 + z3, z4);
    number_sum::<G>(z0 + z1 + z2 + z3 + z4, z5);
}

/// Every step counts one step of its agent; the terms of air setup and win
/// probability are left to shaping.
pub proof fn law_steps_are_counted<F: Scalar, G: Scalar + From<F>, S: Fn(F) -> F>(
    s: AgentStep<F>,
    terms: Seq<G>,
    sqrt: S,
)
    requires
        terms.len() == N_TERMS,
    ensures
        ({
            let after = s.terms_after(terms, sqrt);
            &&& after[T_AGENT_STEPS as int] == plus(terms[T_AGENT_STEPS as int], num::<G>(1))
            &&& after[T_AIR_SETUP as int] == terms[T_AIR_SETUP as int]
            &&& after[T_WIN_PROB as int] == terms[T_WIN_PROB as int]
        }),
{
    let l = LedgerView { reward: num::<F>(0), terms };
    lemma_step_is_well_booked(s.prev, s.cur, s.car_idx, s.scored, s.cfg, sqrt);
    lemma_settled_term(l, s.postings(sqrt), T_AGENT_STEPS as int);
    lemma_settled_term(l, s.postings(sqrt), T_AIR_SETUP as int);
    lemma_settled_term(l, s.postings(sqrt), T_WIN_PROB as int);
    lemma_never_booked(s.postings(sqrt), T_AIR_SETUP as int);
    lemma_never_booked(s.postings(sqrt), T_WIN_PROB as int);
    lemma_left_alone(terms[T_AIR_SETUP as int], s.postings(sqrt), T_AIR_SETUP as int);
    lemma_left_alone(terms[T_WIN_PROB as int], s.postings(sqrt), T_WIN_PROB as int);
    let t = T_AGENT_STEPS as int;
    let x = terms[t];
    lemma_outer_parts::<F, G, S>(x, s, sqrt, t);
    let p0 = seq![Posting::<F>::Count { term: T_AGENT_STEPS }];
    let y = booked(x, p0, t);
    assert(p0.drop_last() =~= Seq::empty());
    reveal_with_fuel(booked, 2);
    assert(y == plus(x, num::<G>(1)));
    lemma_left_alone(y, boost_postings(s.was(), s.me(), s.cfg, sqrt), t);
    lemma_left_alone(y, s.aerial(sqrt), t);
}

proof fn lemma_never_booked<F>(ps: Seq<Posting<F>>, t: int)
    requires
        all_well_booked(ps),
        t == T_AIR_SETUP || t == T_WIN_PROB,
    ensures
        leaves_alone(ps, t),
{
    assert forall|i: int| 0 <= i < ps.len() implies term_of(#[trigger] ps[i]) != t by {
        assert(well_booked(ps[i]));
    }
}

/// What a step pays for boost, and what it tallies as collected, are all that is
/// booked under those two terms.
pub proof fn law_boost_terms<F: Scalar, G: Scalar + From<F>, S: Fn(F) -> F>(
    s: AgentStep<F>,
    terms: Seq<G>,
    sqrt: S,
)
    requires
        terms.len() == N_TERMS,
    ensures
        ({
            let after = s.terms_after(terms, sqrt);
            let ps = boost_postings(s.was(), s.me(), s.cfg, sqrt);
            &&& after[T_BOOST_PICKUP as int] == booked(
                terms[T_BOOST_PICKUP as int],
                ps,
                T_BOOST_PICKUP as int,
            )
            &&& after[T_BOOST_GAINED as int] == booked(
                terms[T_BOOST_GAINED as int],
                ps,
                T_BOOST_GAINED as int,
            )
        }),
{
    lemma_boost_term(s, terms, sqrt, T_BOOST_PICKUP as int);
    lemma_boost_term(s, terms, sqrt, T_BOOST_GAINED as int);
}

proof fn lemma_boost_term<F: Scalar, G: Scalar + From<F>, S: Fn(F) -> F>(
    s: AgentStep<F>,
    terms: Seq<G>,
    sqrt: S,
    t: int,
)
    requires
        terms.len() == N_TERMS,
        t == T_BOOST_PICKUP || t == T_BOOST_GAINED,
    ensures
        s.terms_after(terms, sqrt)[t] == booked(
            terms[t],
            boost_postings(s.was(), s.me(), s.cfg, sqrt),
            t,
        ),
{
    let l = LedgerView { reward: num::<F>(0), terms };
    lemma_step_is_well_booked(s.prev, s.cur, s.car_idx, s.scored, s.cfg, sqrt);
    lemma_settled_term(l, s.postings(sqrt), t);
    let x = terms[t];
    lemma_outer_parts::<F, G, S>(x, s, sqrt, t);
    lemma_left_alone(x, seq![Posting::<F>::Count { term: T_AGENT_STEPS }], t);
    let y = booked(x, boost_postings(s.was(), s.me(), s.cfg, sqrt), t);
    lemma_left_alone(y, s.aerial(sqrt), t);
}

/// What a step pays for a touch in the air is all that is booked under that term.
pub proof fn law_aerial_term<F: Scalar, G: Scalar + From<F>, S: Fn(F) -> F>(
    s: AgentStep<F>,
    terms: Seq<G>,
    sqrt: S,
)
    requires
        terms.len() == N_TERMS,
    ensures
        s.terms_after(terms, sqrt)[T_AERIAL_TOUCH as int] == booked(
            terms[T_AERIAL_TOUCH as int],
            s.aerial(sqrt),
            T_AERIAL_TOUCH as int,
        ),
{
    let t = T_AERIAL_TOUCH as int;
    let l = LedgerView { reward: num::<F>(0), terms };
    lemma_step_is_well_booked(s.prev, s.cur, s.car_idx, s.scored, s.cfg, sqrt);
    lemma_settled_term(l, s.postings(sqrt), t);
    let x = terms[t];
    lemma_outer_parts::<F, G, S>(x, s, sqrt, t);
    lemma_left_alone(x, seq![Posting::<F>::Count { term: T_AGENT_STEPS }], t);
    lemma_left_alone(x, boost_postings(s.was(), s.me(), s.cfg, sqrt), t);
}

} // verus!
