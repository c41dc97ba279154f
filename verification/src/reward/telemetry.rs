//! The telemetry of a step is a breakdown of its reward.

use crate::exact::{add_assoc, add_cancel, add_comm, add_zero, exact};
use crate::reward::config::RewardConfig;
use crate::reward::terms::{
    aerial_postings, boost_postings, cooled_down, goal_postings, law_telemetry_does_not_pay,
    motion_postings, paid_total, play_postings, settled, step_postings, touch_postings, touched, LedgerView, Posting, N_TERMS, T_AGENT_STEPS,
    T_BOOST_GAINED,
};
use crate::scalar::{num, plus, widened, Scalar};
use crate::sim::{GameState, Team};
use vstd::prelude::*;

verus! {

/// The terms that payments are booked under.
pub open spec fn paid_terms() -> Seq<int> {
    seq![0, 1, 2, 3, 4, 5, 6, 20, 23]
}

/// Whether payments are booked under a term.
pub open spec fn is_paid_term(t: int) -> bool {
    0 <= t <= 6 || t == 20 || t == 23
}

/// Whether events are counted under a term.
pub open spec fn is_event_term(t: int) -> bool {
    9 <= t <= 19 || t == 22 || t == 24 || t == 25
}

/// Payments are booked under paid terms, events under event terms, and the boost
/// that was collected under its own.
pub open spec fn well_booked<F>(p: Posting<F>) -> bool {
    match p {
        Posting::Pay { term, amount } => is_paid_term(term as int),
        Posting::Count { term } => is_event_term(term as int),
        Posting::Tally { term, amount } => term == T_BOOST_GAINED,
    }
}

/// A list of postings each of which is well booked.
pub open spec fn all_well_booked<F>(ps: Seq<Posting<F>>) -> bool {
    forall|i: int| 0 <= i < ps.len() ==> well_booked(#[trigger] ps[i])
}

proof fn lemma_booked_concat<F>(a: Seq<Posting<F>>, b: Seq<Posting<F>>)
    requires
        all_well_booked(a),
        all_well_booked(b),
    ensures
        all_well_booked(a + b),
{
    let c = a + b;
    assert forall|i: int| 0 <= i < c.len() implies well_booked(#[trigger] c[i]) by {
        if i < a.len() {
            assert(c[i] == a[i]);
        } else {
            assert(c[i] == b[i - a.len()]);
        }
    }
}

/// Every posting of a step is well booked.
pub proof fn lemma_step_is_well_booked<F: Scalar, S: Fn(F) -> F>(
    prev: GameState<F>,
    cur: GameState<F>,
    car_idx: int,
    scored: Option<Team>,
    cfg: RewardConfig<F>,
    sqrt: S,
)
    ensures
        all_well_booked(step_postings(prev, cur, car_idx, scored, cfg, sqrt)),
{
    let me = cur.cars@[car_idx].state;
    let was = prev.cars@[car_idx].state;
    let team = cur.cars@[car_idx].team;
    let hit = touched(was.ball_hit_info, me.ball_hit_info, prev.tick_count, cur.tick_count);
    let paid = cooled_down(was.ball_hit_info, me.ball_hit_info, cfg.touch_cooldown_ticks);
    let p0 = seq![Posting::<F>::Count { term: T_AGENT_STEPS }];
    let p1 = boost_postings(was, me, cfg, sqrt);
    let p2 = motion_postings(was, me, cfg);
    let p3 = goal_postings(scored, team, cfg);
    let p4 = touch_postings(hit, paid, me.is_on_ground, cur.ball.pos.z, cfg);
    let p5 = play_postings(hit, team, me, prev.ball, cur.ball, cfg, sqrt);
    let p6 = aerial_postings(hit, paid, team, me, prev.ball, cur.ball, cfg, sqrt);
    assert(all_well_booked(p0));
    assert(all_well_booked(p1));
    assert(all_well_booked(p2));
    assert(all_well_booked(p3));
    assert(all_well_booked(p4));
    assert(all_well_booked(p5));
    assert(all_well_booked(p6));
    lemma_booked_concat(p0, p1);
    lemma_booked_concat(p0 + p1, p2);
    lemma_booked_concat(p0 + p1 + p2, p3);
    lemma_booked_concat(p0 + p1 + p2 + p3, p4);
    lemma_booked_concat(p0 + p1 + p2 + p3 + p4, p5);
    lemma_booked_concat(p0 + p1 + p2 + p3 + p4 + p5, p6);
}

/// The sum of the first `n` terms that are listed.
pub open spec fn sum_at<G: Scalar>(terms: Seq<G>, listed: Seq<int>, n: int) -> G
    decreases n,
{
    if n <= 0 {
        num::<G>(0)
    } else {
        plus(sum_at(terms, listed, n - 1), terms[listed[n - 1]])
    }
}

/// What the telemetry says was paid.
pub open spec fn paid_sum<G: Scalar>(terms: Seq<G>) -> G {
    sum_at(terms, paid_terms(), paid_terms().len() as int)
}

/// Widening keeps sums.
pub open spec fn widening_adds<F: Scalar, G: Scalar + From<F>>() -> bool {
    forall|a: F, b: F| #[trigger]
        widened::<F, G>(plus(a, b)) == plus(widened::<F, G>(a), widened::<F, G>(b))
}

proof fn lemma_sum_unchanged<G: Scalar>(
    terms: Seq<G>,
    other: Seq<G>,
    listed: Seq<int>,
    n: int,
)
    requires
        n <= listed.len(),
        forall|k: int| 0 <= k < n ==> terms[#[trigger] listed[k]] == other[listed[k]],
    ensures
        sum_at(terms, listed, n) == sum_at(other, listed, n),
    decreases n,
{
    if n > 0 {
        lemma_sum_unchanged(terms, other, listed, n - 1);
        assert(terms[listed[n - 1]] == other[listed[n - 1]]);
    }
}

/// Adding to one listed term adds to the sum.
proof fn lemma_sum_grows<G: Scalar>(terms: Seq<G>, listed: Seq<int>, n: int, at: int, x: G)
    requires
        exact::<G>(),
        0 <= at < n <= listed.len(),
        forall|i: int, j: int|
            0 <= i < j < listed.len() ==> #[trigger] listed[i] != #[trigger] listed[j],
        forall|k: int| 0 <= k < listed.len() ==> 0 <= #[trigger] listed[k] < terms.len(),
    ensures
        sum_at(
            terms.update(listed[at], plus(terms[listed[at]], x)),
            listed,
            n,
        ) == plus(sum_at(terms, listed, n), x),
    decreases n,
{
    let t = listed[at];
    let new = terms.update(t, plus(terms[t], x));
    let before = sum_at(terms, listed, n - 1);
    if at == n - 1 {
        assert forall|k: int| 0 <= k < n - 1 implies new[#[trigger] listed[k]]
            == terms[listed[k]] by {
            assert(listed[k] != listed[at]);
        }
        lemma_sum_unchanged(new, terms, listed, n - 1);
        assert(new[t] == plus(terms[t], x));
        add_assoc(before, terms[t], x);
    } else {
        lemma_sum_grows(terms, listed, n - 1, at, x);
        let last = listed[n - 1];
        assert(listed[at] != listed[n - 1]);
        assert(new[last] == terms[last]);
        add_assoc(before, x, terms[last]);
        add_comm(x, terms[last]);
        add_assoc(before, terms[last], x);
    }
}

proof fn lemma_place_of_term(t: int) -> (k: int)
    requires
        is_paid_term(t),
    ensures
        0 <= k < paid_terms().len(),
        paid_terms()[k] == t,
{
    if t <= 6 {
        t
    } else if t == 20 {
        7
    } else {
        8
    }
}

proof fn lemma_settled_adds_up<F: Scalar, G: Scalar + From<F>>(
    l: LedgerView<F, G>,
    ps: Seq<Posting<F>>,
)
    requires
        exact::<G>(),
        widening_adds::<F, G>(),
        l.terms.len() == N_TERMS,
        paid_sum(l.terms) == widened::<F, G>(l.reward),
        all_well_booked(ps),
    ensures
        settled(l, ps).terms.len() == N_TERMS,
        paid_sum(settled(l, ps).terms) == widened::<F, G>(settled(l, ps).reward),
    decreases ps.len(),
{
    if ps.len() > 0 {
        let head = ps.drop_last();
        assert forall|i: int| 0 <= i < head.len() implies well_booked(#[trigger] head[i]) by {
            assert(head[i] == ps[i]);
        }
        lemma_settled_adds_up(l, head);
        let before = settled(l, head);
        let p = ps.last();
        assert(well_booked(p));
        let listed = paid_terms();
        let n = listed.len() as int;
        match p {
            Posting::Pay { term, amount } => {
                let k = lemma_place_of_term(term as int);
                lemma_sum_grows(before.terms, listed, n, k, widened::<F, G>(amount));
                assert(widened::<F, G>(plus(before.reward, amount)) == plus(
                    widened::<F, G>(before.reward),
                    widened::<F, G>(amount),
                ));
            },
            _ => {
                let after = settled(l, ps).terms;
                assert forall|k: int| 0 <= k < n implies before.terms[#[trigger] listed[k]]
                    == after[listed[k]] by {
                    assert(is_paid_term(listed[k]));
                }
                lemma_sum_unchanged(before.terms, after, listed, n);
            },
        }
    }
}

/// The telemetry is a breakdown of the reward: the paid terms of a step, booked
/// on an empty account, add up to what the step pays.
pub proof fn law_paid_terms_add_up<F: Scalar, G: Scalar + From<F>, S: Fn(F) -> F>(
    prev: GameState<F>,
    cur: GameState<F>,
    car_idx: int,
    scored: Option<Team>,
    cfg: RewardConfig<F>,
    sqrt: S,
    terms: Seq<G>,
)
    requires
        exact::<G>(),
        widening_adds::<F, G>(),
        terms.len() == N_TERMS,
        paid_sum(terms) == widened::<F, G>(num::<F>(0)),
    ensures
        ({
            let l = settled(
                LedgerView { reward: num::<F>(0), terms },
                step_postings(prev, cur, car_idx, scored, cfg, sqrt),
            );
            paid_sum(l.terms) == widened::<F, G>(l.reward)
        }),
{
    lemma_step_is_well_booked(prev, cur, car_idx, scored, cfg, sqrt);
    lemma_settled_adds_up(
        LedgerView { reward: num::<F>(0), terms },
        step_postings(prev, cur, car_idx, scored, cfg, sqrt),
    );
}

proof fn lemma_empty_sum<G: Scalar>(terms: Seq<G>, listed: Seq<int>, n: int)
    requires
        exact::<G>(),
        n <= listed.len(),
        forall|k: int| 0 <= k < n ==> terms[#[trigger] listed[k]] == num::<G>(0),
    ensures
        sum_at(terms, listed, n) == num::<G>(0),
    decreases n,
{
    if n > 0 {
        lemma_empty_sum(terms, listed, n - 1);
        assert(terms[listed[n - 1]] == num::<G>(0));
        add_zero(num::<G>(0));
    }
}

/// Booked on terms that are all zero, the paid terms of a step add up to the
/// reward of the step.
pub proof fn law_fresh_terms_add_up<F: Scalar, G: Scalar + From<F>, S: Fn(F) -> F>(
    prev: GameState<F>,
    cur: GameState<F>,
    car_idx: int,
    scored: Option<Team>,
    cfg: RewardConfig<F>,
    sqrt: S,
    terms: Seq<G>,
)
    requires
        exact::<F>(),
        exact::<G>(),
        widening_adds::<F, G>(),
        terms.len() == N_TERMS,
        forall|t: int| 0 <= t < N_TERMS ==> #[trigger] terms[t] == num::<G>(0),
    ensures
        ({
            let ps = step_postings(prev, cur, car_idx, scored, cfg, sqrt);
            paid_sum(settled(LedgerView { reward: num::<F>(0), terms }, ps).terms) == widened::<
                F,
                G,
            >(paid_total(num::<F>(0), ps))
        }),
{
    let zero = num::<F>(0);
    let w = widened::<F, G>(zero);
    add_zero(zero);
    assert(widened::<F, G>(plus(zero, zero)) == plus(w, w));
    add_zero(w);
    add_cancel(w, w, num::<G>(0));
    lemma_empty_sum(terms, paid_terms(), paid_terms().len() as int);
    law_paid_terms_add_up(prev, cur, car_idx, scored, cfg, sqrt, terms);
    law_telemetry_does_not_pay(
        LedgerView { reward: zero, terms },
        step_postings(prev, cur, car_idx, scored, cfg, sqrt),
    );
}

} // verus!
