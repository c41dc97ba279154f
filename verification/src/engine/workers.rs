//! What the engine makes of its workers' answers, and who may play for it.

use crate::engine::merge::end_to_end;
use crate::engine::multi::{
    all_final_obs, all_obs, all_rewards, all_terminated, all_truncated, bad_code, code_ok,
    first_error, law_workers_cover_all_agents, opponent_fault, opponent_ok, span_of, table_rows,
    term_sum, AssignmentError, MultiEngine, NetWeights, StepRows, WeightsError,
};
use crate::engine::plan::{agent_offset, learner_rows, lemma_offset_monotone};
use crate::engine::shares::{law_even_split, threads_for, weights_ok, worker_shares};
use crate::episode::{ActionTableKind, ObsMode};
use crate::exact::{add_comm, add_zero, exact, order_chain, order_facts, order_shift, sorted};
use crate::scalar::{gt, lt, num, plus, Scalar};
use crate::state_dict::lookup;
use vstd::prelude::*;

verus! {

/// A worker's answer goes behind those of the workers before it, part by part: its
/// observations behind observations, its rewards behind rewards, and so on.
pub proof fn law_answers_are_set_in_order<F>(outs: Seq<StepRows<F>>, next: StepRows<F>)
    ensures
        end_to_end(all_obs(Seq::<StepRows<F>>::empty())).len() == 0,
        end_to_end(all_obs(outs.push(next))) == end_to_end(all_obs(outs)) + next.obs@,
        end_to_end(all_rewards(Seq::<StepRows<F>>::empty())).len() == 0,
        end_to_end(all_rewards(outs.push(next))) == end_to_end(all_rewards(outs)) + next.rewards@,
        end_to_end(all_terminated(Seq::<StepRows<F>>::empty())).len() == 0,
        end_to_end(all_terminated(outs.push(next))) == end_to_end(all_terminated(outs))
            + next.terminated@,
        end_to_end(all_truncated(Seq::<StepRows<F>>::empty())).len() == 0,
        end_to_end(all_truncated(outs.push(next))) == end_to_end(all_truncated(outs))
            + next.truncated@,
        end_to_end(all_final_obs(Seq::<StepRows<F>>::empty())).len() == 0,
        end_to_end(all_final_obs(outs.push(next))) == end_to_end(all_final_obs(outs))
            + next.final_obs@,
{
    let all = outs.push(next);
    assert(all_obs(all).drop_last() =~= all_obs(outs));
    assert(all_rewards(all).drop_last() =~= all_rewards(outs));
    assert(all_terminated(all).drop_last() =~= all_terminated(outs));
    assert(all_truncated(all).drop_last() =~= all_truncated(outs));
    assert(all_final_obs(all).drop_last() =~= all_final_obs(outs));
}

proof fn lemma_error_from<E>(replies: Seq<Option<E>>, from: int, i: int)
    requires
        0 <= from <= i < replies.len(),
        replies[i] is Some,
        forall|j: int| from <= j < i ==> (#[trigger] replies[j]) is None,
    ensures
        first_error(replies, from) == replies[i],
    decreases i - from,
{
    if from < i {
        assert(replies[from] is None);
        lemma_error_from(replies, from + 1, i);
    }
}

proof fn lemma_no_error<E>(replies: Seq<Option<E>>, from: int)
    requires
        0 <= from,
        forall|j: int| from <= j < replies.len() ==> (#[trigger] replies[j]) is None,
    ensures
        first_error(replies, from) is None,
    decreases replies.len() - from,
{
    if from < replies.len() {
        assert(replies[from] is None);
        lemma_no_error(replies, from + 1);
    }
}

/// The error of the first worker that has one is the engine's; where no worker has
/// one, there is none.
pub proof fn law_first_error_counts<E>(replies: Seq<Option<E>>, i: int)
    ensures
        0 <= i < replies.len() && replies[i] is Some && (forall|j: int|
            0 <= j < i ==> (#[trigger] replies[j]) is None) ==> first_error(replies, 0)
            == replies[i],
        (forall|j: int| 0 <= j < replies.len() ==> (#[trigger] replies[j]) is None)
            ==> first_error(replies, 0) is None,
{
    if 0 <= i < replies.len() && replies[i] is Some && (forall|j: int|
        0 <= j < i ==> (#[trigger] replies[j]) is None) {
        lemma_error_from(replies, 0, i);
    }
    if forall|j: int| 0 <= j < replies.len() ==> (#[trigger] replies[j]) is None {
        lemma_no_error(replies, 0);
    }
}

/// What a worker counted of a term is added to what the workers before it counted of
/// the same term.
pub proof fn law_terms_are_added_up<G: Scalar>(parts: Seq<[G; 26]>, part: [G; 26], i: int)
    requires
        0 <= i < 26,
    ensures
        term_sum(Seq::<[G; 26]>::empty(), i, 0) == num::<G>(0),
        term_sum(parts.push(part), i, parts.push(part).len() as int) == plus(
            term_sum(parts, i, parts.len() as int),
            part@[i],
        ),
{
    lemma_term_prefix(parts.push(part), parts, i, parts.len() as int);
}

proof fn lemma_term_prefix<G: Scalar>(a: Seq<[G; 26]>, b: Seq<[G; 26]>, i: int, n: int)
    requires
        n <= a.len(),
        n <= b.len(),
        forall|k: int| 0 <= k < n ==> a[k] == b[k],
    ensures
        term_sum(a, i, n) == term_sum(b, i, n),
    decreases n,
{
    if n > 0 {
        lemma_term_prefix(a, b, i, n - 1);
    }
}

/// Who may be an opponent: a flat policy where agents see flat rows; where they see
/// entities, an entity policy whose action table, if it carries one of two dimensions,
/// has as many rows as the engine's. A bot may not. What is said of one that may not
/// tells which it is.
pub proof fn law_who_may_be_an_opponent<F>(
    mode: ObsMode,
    rows: usize,
    slot: usize,
    w: NetWeights<F>,
    e: WeightsError,
)
    ensures
        w is Foreign ==> !opponent_ok(mode, rows, w),
        w is V0 ==> (opponent_ok(mode, rows, w) <==> mode == ObsMode::V0),
        w is V1 && mode == ObsMode::V0 ==> !opponent_ok(mode, rows, w),
        w matches NetWeights::V1 { raw, heads } ==> {
            &&& mode == ObsMode::V1 && lookup(raw@, "action_table"@) is None ==> opponent_ok(
                mode,
                rows,
                w,
            )
            &&& mode == ObsMode::V1 ==> (lookup(raw@, "action_table"@) matches Some(a) ==> (
            opponent_ok(mode, rows, w) <==> a.shape@.len() == 2 ==> a.shape@[0] == rows))
        },
        opponent_fault(mode, rows, slot as int, w, e) && w is Foreign ==> e is Foreign,
        opponent_fault(mode, rows, slot as int, w, e) && w is V0 ==> e is V0GivenToV1,
        opponent_fault(mode, rows, slot as int, w, e) && w is V1 && mode == ObsMode::V0
            ==> e is V1GivenToV0,
        opponent_fault(mode, rows, slot as int, w, e) && w is V1 && mode == ObsMode::V1 ==> (
        e matches WeightsError::Table { slot: s, engine, dict } && s == slot && engine == rows
            && (w matches NetWeights::V1 { raw, heads } ==> (lookup(raw@, "action_table"@)
            matches Some(a) ==> dict == a.shape@[0]))),
{
}

/// A table has 90 rows for flat observations, and 92 or 104 for entities.
pub proof fn law_table_widths()
    ensures
        table_rows(ObsMode::V0, ActionTableKind::V1) == 90,
        table_rows(ObsMode::V0, ActionTableKind::V1Air) == 90,
        table_rows(ObsMode::V1, ActionTableKind::V1) == 92,
        table_rows(ObsMode::V1, ActionTableKind::V1Air) == 104,
{
}

/// There are no more workers than arenas and, where there is an arena, at least one.
/// Up to that, there are as many as were asked for; where none were asked for, two
/// processors are left free if there are more than two.
pub proof fn law_how_many_workers(asked: usize, available: Option<usize>, arenas: int)
    requires
        0 <= arenas,
    ensures
        ({
            let t = threads_for(asked, available, arenas);
            &&& 0 <= t <= arenas
            &&& arenas > 0 ==> t > 0
            &&& asked > 0 ==> t <= asked && (t < asked ==> t == arenas)
            &&& asked == 0 ==> (available matches Some(a) ==> {
                &&& a > 2 ==> t <= a - 2 && (t < a - 2 ==> t == arenas)
                &&& a <= 2 ==> t <= 1
            })
            &&& asked == 0 && available is None ==> t <= 4 && (t < 4 ==> t == arenas)
        }),
{
}

/// A worker's share of the arenas is the even share or one more; the workers with one
/// more come last, as many as are left over.
pub proof fn law_shares_are_even(n: int, threads: int, t: int)
    requires
        0 <= n <= usize::MAX,
        0 < threads,
        0 <= t < threads,
    ensures
        worker_shares(n, threads).len() == threads,
        t < threads - n % threads ==> worker_shares(n, threads)[t] == n / threads,
        t >= threads - n % threads ==> worker_shares(n, threads)[t] == n / threads + 1,
{
    law_even_split(n, threads, t);
}

/// Weights of team sizes are good if there are three, none is below zero and one is
/// above.
pub proof fn law_good_weights<F: Scalar>(w: Seq<F>)
    requires
        exact::<F>(),
        sorted::<F>(),
    ensures
        weights_ok(w) <==> {
            &&& w.len() == 3
            &&& !lt(w[0], num::<F>(0)) && !lt(w[1], num::<F>(0)) && !lt(w[2], num::<F>(0))
            &&& gt(w[0], num::<F>(0)) || gt(w[1], num::<F>(0)) || gt(w[2], num::<F>(0))
        },
{
    let zero = num::<F>(0);
    if w.len() == 3 && !lt(w[0], zero) && !lt(w[1], zero) && !lt(w[2], zero) {
        let (a, b, c) = (w[0], w[1], w[2]);
        let ab = plus(a, b);
        order_facts(a, zero);
        order_facts(b, zero);
        order_facts(c, zero);
        order_facts(zero, a);
        order_facts(zero, b);
        order_facts(zero, c);
        lemma_not_below(a, b);
        lemma_not_below(ab, c);
        order_facts(plus(ab, c), zero);
        order_facts(ab, zero);
    }
}

/// The sum of two numbers that are not below zero is not, and is above zero if one is.
proof fn lemma_not_below<F: Scalar>(a: F, b: F)
    requires
        exact::<F>(),
        sorted::<F>(),
        !lt(a, num::<F>(0)) && !lt(b, num::<F>(0)),
    ensures
        !lt(plus(a, b), num::<F>(0)),
        gt(plus(a, b), num::<F>(0)) <==> gt(a, num::<F>(0)) || gt(b, num::<F>(0)),
{
    let zero = num::<F>(0);
    let sum = plus(a, b);
    add_zero(b);
    add_comm(zero, b);
    order_shift(zero, a, b);
    order_facts(a, zero);
    order_facts(b, zero);
    order_facts(sum, zero);
    order_facts(zero, sum);
    order_facts(zero, b);
    order_chain(zero, b, sum);
}

/// Every agent gets its own action: what a worker is handed for car `c` of its arena `a`
/// is what was given for that car among all agents, and a worker is handed as many
/// actions as its arenas have cars.
pub proof fn law_every_agent_gets_its_action(
    e: MultiEngine,
    actions: Seq<i64>,
    w: int,
    a: int,
    c: int,
)
    requires
        e.valid(),
        actions.len() == e.num_agents,
        0 <= w < e.workers@.len(),
        e.workers@[w].first_arena <= a < e.workers@[w].first_arena + e.workers@[w].num_arenas,
        0 <= c < e.sizes@[a].0 + e.sizes@[a].1,
    ensures
        ({
            let first = e.workers@[w].first_arena as int;
            let next = first + e.workers@[w].num_arenas;
            let at = agent_offset(e.sizes@, a) + c;
            let mine = e.actions_of(actions, w);
            &&& mine.len() == agent_offset(e.sizes@, next) - agent_offset(e.sizes@, first)
            &&& 0 <= at - agent_offset(e.sizes@, first) < mine.len()
            &&& mine[at - agent_offset(e.sizes@, first)] == actions[at]
        }),
{
    let n = e.sizes@.len() as int;
    let threads = e.workers@.len() as int;
    let first = e.workers@[w].first_arena as int;
    let next = first + e.workers@[w].num_arenas;
    law_workers_cover_all_agents(e, w);
    law_even_split(n, threads, w);
    assert(e.workers@[w] == span_of(e.sizes@, threads, w));
    lemma_offset_monotone(e.sizes@, 0, first);
    lemma_offset_monotone(e.sizes@, first, a);
    lemma_offset_monotone(e.sizes@, a + 1, next);
    lemma_offset_monotone(e.sizes@, next, n);
}

/// An assignment is accepted if it has a code for every arena, all of them codes that
/// may be given, and there is a car to learn from: the answer is how many there are.
/// What is wrong is reported in that order.
pub proof fn law_assignments_that_pass(e: MultiEngine, asg: Seq<i32>, i: int)
    requires
        e.valid(),
        asg.len() <= usize::MAX,
    ensures
        e.assignment_judged(asg) matches Ok(n) ==> {
            &&& asg.len() == e.num_arenas
            &&& 0 <= i < asg.len() ==> code_ok(asg[i], e.opponent_slots, e.foreign_slots)
            &&& n == learner_rows(e.sizes@, asg, e.num_arenas as int).len() as usize
            &&& learner_rows(e.sizes@, asg, e.num_arenas as int).len() > 0
        },
        e.assignment_judged(asg) matches Err(AssignmentError::Length { expected, got }) ==> expected
            == e.num_arenas && got == asg.len() && got != expected,
        asg.len() != e.num_arenas <==> e.assignment_judged(asg) matches Err(
            AssignmentError::Length { .. },
        ),
        e.assignment_judged(asg) matches Err(AssignmentError::OutOfRange(k)) ==> asg.contains(k)
            && !code_ok(k, e.opponent_slots, e.foreign_slots),
        e.assignment_judged(asg) matches Err(AssignmentError::NoLearners) ==> learner_rows(
            e.sizes@,
            asg,
            e.num_arenas as int,
        ).len() == 0,
{
    lemma_bad_code(asg, e.opponent_slots, e.foreign_slots, 0, i);
}

proof fn lemma_bad_code(asg: Seq<i32>, opponents: usize, foreigners: usize, from: int, i: int)
    requires
        0 <= from,
    ensures
        match bad_code(asg, opponents, foreigners, from) {
            Some(k) => asg.contains(k) && !code_ok(k, opponents, foreigners),
            None => from <= i < asg.len() ==> code_ok(asg[i], opponents, foreigners),
        },
    decreases asg.len() - from,
{
    if from < asg.len() {
        if code_ok(asg[from], opponents, foreigners) {
            lemma_bad_code(asg, opponents, foreigners, from + 1, i);
        } else {
            assert(asg.contains(asg[from]));
        }
    }
}

} // verus!
