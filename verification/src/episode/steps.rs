//! What a step of an arena gives each agent, and what it does to the arena.
//!
//! Agents are known by the ids of their cars.

use crate::ballpred::BallSnap;
use crate::engine::collect::ENTS_WIDTH;
use crate::episode::arena::{
    after_end, after_reset, agents_present, all_flags_after, car_of, car_with, counted_terms,
    ents_rows, flags_after, flat_rows, mask_rows, next_after, next_seed, orders, placed, prev_rows,
    query_rows, raw_rewards, rewards_after, scorer, step_rewards, touch_after, AfterStep, ArenaView,
    EpisodeArena, Ring,
};
use crate::episode::{mean_of, sane_state, shared_rewards};
use crate::exact::{
    add_opposite, add_zero, exact, minus_is_plus, mul_one, mul_zero, opposite_facts, order_facts,
    sorted,
};
use crate::obs::obs_row;
use crate::obs_v1::{absent, all_features, entity_slots, query_row};
use crate::reset_pool::{orientation, CarSpawn};
use crate::reward::account::AgentStep;
use crate::reward::balance::lemma_team_total;
use crate::reward::terms::{paid_total, step_postings};
use crate::rows::{lemma_row_bounds, row};
use crate::sampler::running_sum;
use crate::scalar::{gt, minus, num, number, over, plus, same, times, Scalar};
use crate::shown::{
    law_entity_rows_show_the_cars, law_flat_rows_show_car_and_ball, law_queries_show_car_and_timers,
    shows, shows_car,
};
use crate::sim::{CarInfo, GameState, Team};
use vstd::prelude::*;

verus! {

/// Car `c` is the one with this id, the first if there are several.
pub open spec fn is_car<F>(cars: Seq<CarInfo<F>>, id: u32, c: int) -> bool {
    &&& 0 <= c < cars.len()
    &&& cars[c].id == id
    &&& forall|i: int| 0 <= i < c ==> (#[trigger] cars[i]).id != id
}

proof fn lemma_car_found<F>(cars: Seq<CarInfo<F>>, id: u32, from: int, c: int)
    requires
        is_car(cars, id, c),
        0 <= from <= c,
    ensures
        car_with(cars, id, from) == Some(c),
    decreases c - from,
{
    if from < c {
        assert(cars[from].id != id);
        lemma_car_found(cars, id, from + 1, c);
    }
}

proof fn lemma_agents_car<F>(ids: Seq<u32>, cars: Seq<CarInfo<F>>, a: int, c: int)
    requires
        is_car(cars, ids[a], c),
    ensures
        car_of(ids, cars, a) == c,
{
    lemma_car_found(cars, ids[a], 0, c);
}

/// Appending a row leaves the rows before it as they were.
proof fn lemma_row_appended<T>(before: Seq<T>, last: Seq<T>, n: int, width: int, r: int)
    requires
        0 <= r < n,
        0 <= width,
        before.len() == (n - 1) * width,
        last.len() == width,
    ensures
        (before + last).len() == n * width,
        row(before + last, r, width) == if r < n - 1 {
            row(before, r, width)
        } else {
            last
        },
{
    lemma_row_bounds(n - 1, n, width);
    lemma_row_bounds(r, n, width);
    if r < n - 1 {
        lemma_row_bounds(r, n - 1, width);
        assert(row(before + last, r, width) =~= row(before, r, width));
    } else {
        assert(row(before + last, r, width) =~= last);
    }
}

/// Rows that are appended one after the other stand one after the other.
proof fn lemma_rows_stack<T>(
    all: spec_fn(int) -> Seq<T>,
    each: spec_fn(int) -> Seq<T>,
    width: int,
    n: int,
    i: int,
)
    requires
        0 <= width,
        0 <= n,
        all(0).len() == 0,
        forall|k: int| 0 <= k < n ==> #[trigger] all(k + 1) == all(k) + each(k),
        forall|k: int| 0 <= k < n ==> (#[trigger] each(k)).len() == width,
    ensures
        all(n).len() == n * width,
        0 <= i < n ==> row(all(n), i, width) == each(i),
    decreases n,
{
    if n > 0 {
        lemma_rows_stack(all, each, width, n - 1, i);
        assert(all((n - 1) + 1) == all(n - 1) + each(n - 1));
        assert(each(n - 1).len() == width);
        if 0 <= i < n {
            lemma_row_appended(all(n - 1), each(n - 1), n, width, i);
        } else {
            lemma_row_appended(all(n - 1), each(n - 1), n, width, 0);
        }
    } else {
        assert(0 * width == 0);
    }
}

proof fn lemma_flat_row<F: Scalar>(a: EpisodeArena<F>, gs: GameState<F>, n: int, i: int)
    requires
        0 <= i < n <= a.car_ids@.len(),
        agents_present(a.car_ids@, gs.cars@),
    ensures
        row(flat_rows(a, gs, n), i, 94) == obs_row(gs, car_of(a.car_ids@, gs.cars@, i), a.norm),
{
    let all = |k: int| flat_rows(a, gs, k);
    let each = |k: int| obs_row(gs, car_of(a.car_ids@, gs.cars@, k), a.norm);
    assert forall|k: int| 0 <= k < n implies (#[trigger] each(k)).len() == 94 by {
        lemma_present_in_range(a.car_ids@, gs.cars@, k);
        law_flat_rows_show_car_and_ball(gs, car_of(a.car_ids@, gs.cars@, k), a.norm);
    }
    lemma_rows_stack(all, each, 94, n, i);
}

proof fn lemma_present_in_range<F>(ids: Seq<u32>, cars: Seq<CarInfo<F>>, a: int)
    requires
        agents_present(ids, cars),
        0 <= a < ids.len(),
    ensures
        is_car(cars, ids[a], car_of(ids, cars, a)),
{
    assert(car_with(cars, ids[a], 0) is Some);
    lemma_with_in_range(cars, ids[a], 0);
}

proof fn lemma_with_in_range<F>(cars: Seq<CarInfo<F>>, id: u32, from: int)
    requires
        car_with(cars, id, from) is Some,
    ensures
        from <= car_with(cars, id, from)->0 < cars.len(),
        0 <= from,
        cars[car_with(cars, id, from)->0].id == id,
        forall|i: int| from <= i < car_with(cars, id, from)->0 ==> (#[trigger] cars[i]).id != id,
    decreases cars.len() - from,
{
    if 0 <= from < cars.len() && cars[from].id != id {
        lemma_with_in_range(cars, id, from + 1);
    }
}

proof fn lemma_entity_row<F: Scalar>(
    a: EpisodeArena<F>,
    gs: GameState<F>,
    pred: [BallSnap<F>; 4],
    perm: Seq<usize>,
    n: int,
    i: int,
)
    requires
        0 <= i < n <= a.car_ids@.len(),
        agents_present(a.car_ids@, gs.cars@),
    ensures
        ({
            let c = car_of(a.car_ids@, gs.cars@, i);
            let slots = entity_slots(gs, c, pred, perm, a.norm);
            &&& row(ents_rows(a, gs, pred, perm, n), i, 442) == all_features(slots)
            &&& row(mask_rows(a, gs, pred, perm, n), i, 17) == absent(slots)
            &&& row(query_rows(a, gs, perm, n), i, 64) == query_row(gs, c, perm, a.norm)
        }),
{
    let slots = |k: int|
        entity_slots(gs, car_of(a.car_ids@, gs.cars@, k), pred, perm, a.norm);
    let ents = |k: int| all_features(slots(k));
    let mask = |k: int| absent(slots(k));
    let query = |k: int| query_row(gs, car_of(a.car_ids@, gs.cars@, k), perm, a.norm);
    assert forall|k: int| 0 <= k < n implies (#[trigger] ents(k)).len() == 442 by {
        lemma_agent_widths(a, gs, pred, perm, k);
    }
    assert forall|k: int| 0 <= k < n implies (#[trigger] mask(k)).len() == 17 by {
        lemma_agent_widths(a, gs, pred, perm, k);
    }
    assert forall|k: int| 0 <= k < n implies (#[trigger] query(k)).len() == 64 by {
        lemma_agent_widths(a, gs, pred, perm, k);
    }
    lemma_rows_stack(|k: int| ents_rows(a, gs, pred, perm, k), ents, 442, n, i);
    lemma_rows_stack(|k: int| mask_rows(a, gs, pred, perm, k), mask, 17, n, i);
    lemma_rows_stack(|k: int| query_rows(a, gs, perm, k), query, 64, n, i);
}

proof fn lemma_agent_widths<F: Scalar>(
    a: EpisodeArena<F>,
    gs: GameState<F>,
    pred: [BallSnap<F>; 4],
    perm: Seq<usize>,
    k: int,
)
    requires
        0 <= k < a.car_ids@.len(),
        agents_present(a.car_ids@, gs.cars@),
    ensures
        ({
            let c = car_of(a.car_ids@, gs.cars@, k);
            let slots = entity_slots(gs, c, pred, perm, a.norm);
            &&& all_features(slots).len() == 442
            &&& absent(slots).len() == 17
            &&& query_row(gs, c, perm, a.norm).len() == 64
        }),
{
    let c = car_of(a.car_ids@, gs.cars@, k);
    lemma_present_in_range(a.car_ids@, gs.cars@, k);
    law_entity_rows_show_the_cars(gs, c, pred, perm, a.norm, 0);
    law_queries_show_car_and_timers(gs, c, perm, a.norm, 0);
}

/// Every agent gets its own flat observation: its row is that of the car with its
/// id, and begins with that car's position as its own team sees it.
pub proof fn law_flat_rows_are_the_agents<F: Scalar>(
    a: EpisodeArena<F>,
    gs: GameState<F>,
    i: int,
    c: int,
)
    requires
        agents_present(a.car_ids@, gs.cars@),
        0 <= i < a.car_ids@.len(),
        is_car(gs.cars@, a.car_ids@[i], c),
    ensures
        ({
            let r = row(flat_rows(a, gs, a.car_ids@.len() as int), i, 94);
            let me = gs.cars@[c];
            &&& r == obs_row(gs, c, a.norm)
            &&& shows(r, 0, me.state.pos, me.team == Team::Orange, a.norm.pos_norm)
            &&& shows(r, 9, me.state.vel, me.team == Team::Orange, a.norm.vel_norm)
        }),
{
    lemma_agents_car(a.car_ids@, gs.cars@, i, c);
    lemma_flat_row(a, gs, a.car_ids@.len() as int, i);
    law_flat_rows_show_car_and_ball(gs, c, a.norm);
}

/// Every agent gets its own entity observation: its rows of entities, mask and
/// query are those of the car with its id, and its first entity and its query show
/// that car as its own team sees it.
pub proof fn law_entity_rows_are_the_agents<F: Scalar>(
    a: EpisodeArena<F>,
    gs: GameState<F>,
    pred: [BallSnap<F>; 4],
    perm: Seq<usize>,
    i: int,
    c: int,
)
    requires
        agents_present(a.car_ids@, gs.cars@),
        0 <= i < a.car_ids@.len(),
        is_car(gs.cars@, a.car_ids@[i], c),
    ensures
        ({
            let n = a.car_ids@.len() as int;
            let ents = row(ents_rows(a, gs, pred, perm, n), i, ENTS_WIDTH as int);
            let mask = row(mask_rows(a, gs, pred, perm, n), i, 17);
            let query = row(query_rows(a, gs, perm, n), i, 64);
            let slots = entity_slots(gs, c, pred, perm, a.norm);
            let me = gs.cars@[c];
            let o = me.team == Team::Orange;
            &&& ents == all_features(slots)
            &&& mask == absent(slots)
            &&& query == query_row(gs, c, perm, a.norm)
            &&& !mask[0]
            &&& shows_car(ents, 0, 0, me.state, o, a.norm)
            &&& shows_car(query, 0, 0, me.state, o, a.norm)
        }),
{
    lemma_agents_car(a.car_ids@, gs.cars@, i, c);
    lemma_entity_row(a, gs, pred, perm, a.car_ids@.len() as int, i);
    law_entity_rows_show_the_cars(gs, c, pred, perm, a.norm, 0);
    law_queries_show_car_and_timers(gs, c, perm, a.norm, 0);
}

/// Every agent gets its own recent actions, the latest first.
pub proof fn law_recent_actions_are_the_agents(rings: Seq<Ring>, n: int, i: int)
    requires
        0 <= i < n <= rings.len(),
    ensures
        row(prev_rows(rings, n), i, 5) == rings[i]@,
{
    lemma_rows_stack(|k: int| prev_rows(rings, k), |k: int| rings[k]@, 5, n, i);
}

/// What agent `i` earned in a step before anything was shared, where its car is
/// `c`: what the step's ledger pays.
pub open spec fn earned<F: Scalar, S: Fn(F) -> F>(
    a: EpisodeArena<F>,
    cur: GameState<F>,
    scored: Option<Team>,
    sqrt: S,
    c: int,
) -> F {
    paid_total(
        num::<F>(0),
        step_postings(a@.prev_state, cur, c, scored, a.reward_cfg, sqrt),
    )
}

/// The sum of the numbers from `from` up to but not including `to`.
pub open spec fn added<F: Scalar>(xs: Seq<F>, from: int, to: int) -> F
    decreases to - from,
{
    if to <= from {
        num::<F>(0)
    } else {
        plus(added(xs, from, to - 1), xs[to - 1])
    }
}

/// The mean of the numbers from `from` up to but not including `to`, 0 where there
/// are none.
pub open spec fn average<F: Scalar>(xs: Seq<F>, from: int, to: int) -> F {
    if to <= from {
        num::<F>(0)
    } else {
        over(added(xs, from, to), number::<F>(to - from))
    }
}

proof fn lemma_added<F: Scalar>(xs: Seq<F>, from: int, to: int, n: int)
    requires
        0 <= from <= to <= xs.len(),
        0 <= n <= to - from,
    ensures
        running_sum(xs.subrange(from, to), n) == added(xs, from, from + n),
    decreases n,
{
    if n > 0 {
        lemma_added(xs, from, to, n - 1);
    }
}

proof fn lemma_average<F: Scalar>(xs: Seq<F>, from: int, to: int)
    requires
        0 <= from <= to <= xs.len(),
    ensures
        mean_of(xs.subrange(from, to)) == average(xs, from, to),
{
    lemma_added(xs, from, to, to - from);
}

/// What every agent earned before anything was shared, by the ids of the cars.
pub open spec fn earnings<F: Scalar, S: Fn(F) -> F>(
    a: EpisodeArena<F>,
    cur: GameState<F>,
    scored: Option<Team>,
    sqrt: S,
    raw: Seq<F>,
) -> bool {
    &&& raw.len() == a.car_ids@.len()
    &&& forall|i: int, c: int|
        #![trigger raw[i], cur.cars@[c]]
        0 <= i < raw.len() && is_car(cur.cars@, a.car_ids@[i], c) ==> raw[i] == earned(
            a,
            cur,
            scored,
            sqrt,
            c,
        )
}

/// Every agent's reward is, where nothing is shared, what its own car earned;
/// otherwise `1 - team_spirit` of that, and `team_spirit` of its team's mean, less
/// `opp_spirit` of the other team's mean.
pub proof fn law_rewards_are_shared_by_the_spirits<F: Scalar, S: Fn(F) -> F>(
    a: EpisodeArena<F>,
    cur: GameState<F>,
    scored: Option<Team>,
    sqrt: S,
    raw: Seq<F>,
    i: int,
)
    requires
        agents_present(a.car_ids@, cur.cars@),
        earnings(a, cur, scored, sqrt, raw),
        0 <= i < raw.len(),
        a.blue_count <= raw.len(),
    ensures
        ({
            let cfg = a.reward_cfg;
            let blue = a.blue_count as int;
            let n = raw.len() as int;
            let zero = num::<F>(0);
            let own = if i < blue {
                average(raw, 0, blue)
            } else {
                average(raw, blue, n)
            };
            let other = if i < blue {
                average(raw, blue, n)
            } else {
                average(raw, 0, blue)
            };
            &&& step_rewards(a, cur, scored, sqrt).len() == n
            &&& step_rewards(a, cur, scored, sqrt)[i] == if same(cfg.team_spirit, zero) && same(
                cfg.opp_spirit,
                zero,
            ) {
                raw[i]
            } else {
                minus(
                    plus(
                        times(minus(num::<F>(1), cfg.team_spirit), raw[i]),
                        times(cfg.team_spirit, own),
                    ),
                    times(cfg.opp_spirit, other),
                )
            }
        }),
{
    lemma_raw_is_earned(a, cur, scored, sqrt, raw);
    let blue = a.blue_count as int;
    let n = raw.len() as int;
    assert(raw.take(blue) =~= raw.subrange(0, blue));
    assert(raw.skip(blue) =~= raw.subrange(blue, n));
    lemma_average(raw, 0, blue);
    lemma_average(raw, blue, n);
}

proof fn lemma_raw_is_earned<F: Scalar, S: Fn(F) -> F>(
    a: EpisodeArena<F>,
    cur: GameState<F>,
    scored: Option<Team>,
    sqrt: S,
    raw: Seq<F>,
)
    requires
        agents_present(a.car_ids@, cur.cars@),
        earnings(a, cur, scored, sqrt, raw),
    ensures
        raw_rewards(a, cur, scored, sqrt) == raw,
{
    let there = raw_rewards(a, cur, scored, sqrt);
    assert forall|i: int| 0 <= i < raw.len() implies there[i] == raw[i] by {
        lemma_present_in_range(a.car_ids@, cur.cars@, i);
        let c = car_of(a.car_ids@, cur.cars@, i);
        assert(cur.cars@[c].id == a.car_ids@[i]);
        assert(raw[i] == earned(a, cur, scored, sqrt, c));
    }
    assert(there =~= raw);
}

/// Where the opponents' mean does not count, sharing keeps what a team earned in
/// all; where the team's mean is all that counts, teammates get the same.
pub proof fn law_team_spirit_shares_within_the_team<F: Scalar, S: Fn(F) -> F>(
    a: EpisodeArena<F>,
    cur: GameState<F>,
    scored: Option<Team>,
    sqrt: S,
    raw: Seq<F>,
)
    requires
        exact::<F>(),
        sorted::<F>(),
        agents_present(a.car_ids@, cur.cars@),
        earnings(a, cur, scored, sqrt, raw),
        0 < a.blue_count < raw.len(),
        number::<F>(a.blue_count as int) != num::<F>(0),
        number::<F>(raw.len() - a.blue_count) != num::<F>(0),
        a.reward_cfg.opp_spirit == num::<F>(0),
    ensures
        ({
            let r = step_rewards(a, cur, scored, sqrt);
            let blue = a.blue_count as int;
            let n = raw.len() as int;
            &&& added(r, 0, blue) == added(raw, 0, blue)
            &&& added(r, blue, n) == added(raw, blue, n)
            &&& a.reward_cfg.team_spirit == num::<F>(1) ==> {
                &&& forall|i: int|
                    0 <= i < blue ==> #[trigger] r[i] == average(raw, 0, blue)
                &&& forall|i: int|
                    blue <= i < n ==> #[trigger] r[i] == average(raw, blue, n)
            }
        }),
{
    let r = step_rewards(a, cur, scored, sqrt);
    let cfg = a.reward_cfg;
    let (tau, opp) = (cfg.team_spirit, cfg.opp_spirit);
    let (zero, one) = (num::<F>(0), num::<F>(1));
    let blue = a.blue_count as int;
    let n = raw.len() as int;
    lemma_raw_is_earned(a, cur, scored, sqrt, raw);
    order_facts(tau, zero);
    order_facts(opp, zero);
    order_facts(one, zero);
    order_facts(zero, one);
    if !same(tau, zero) {
        assert(raw.take(blue) =~= raw.subrange(0, blue));
        assert(raw.skip(blue) =~= raw.subrange(blue, n));
        lemma_average(raw, 0, blue);
        lemma_average(raw, blue, n);
        let bm = average(raw, 0, blue);
        let om = average(raw, blue, n);
        let shared = shared_rewards(raw, blue, tau, opp);
        assert(r == shared);
        lemma_team_total(raw.subrange(0, blue), r.subrange(0, blue), om, tau, opp);
        lemma_team_total(raw.subrange(blue, n), r.subrange(blue, n), bm, tau, opp);
        lemma_added(raw, 0, blue, blue);
        lemma_added(raw, blue, n, n - blue);
        lemma_added(r, 0, blue, blue);
        lemma_added(r, blue, n, n - blue);
        mul_zero(times(om, number::<F>(blue)));
        mul_zero(times(bm, number::<F>(n - blue)));
        lemma_less_nothing(added(raw, 0, blue));
        lemma_less_nothing(added(raw, blue, n));
        if tau == one {
            assert forall|i: int| 0 <= i < blue implies #[trigger] r[i] == bm by {
                lemma_all_shared(raw[i], bm, om);
            }
            assert forall|i: int| blue <= i < n implies #[trigger] r[i] == om by {
                lemma_all_shared(raw[i], om, bm);
            }
        }
    }
}

proof fn lemma_less_nothing<F: Scalar>(x: F)
    requires
        exact::<F>(),
    ensures
        minus(x, num::<F>(0)) == x,
{
    minus_is_plus(x, num::<F>(0));
    opposite_facts(x);
    add_zero(x);
}

proof fn lemma_all_shared<F: Scalar>(r: F, own: F, other: F)
    requires
        exact::<F>(),
    ensures
        ({
            let one = num::<F>(1);
            minus(
                plus(times(minus(one, one), r), times(one, own)),
                times(num::<F>(0), other),
            ) == own
        }),
{
    let one = num::<F>(1);
    minus_is_plus(one, one);
    add_opposite(one);
    mul_zero(r);
    mul_one(own);
    add_zero(own);
    mul_zero(other);
    lemma_less_nothing(own);
}

/// After a sane step the last touch is the latest of the one before and of every
/// agent's valid contact up to the present, whatever the agent's team.
pub proof fn law_last_touch_is_the_latest<F: Scalar>(
    a: EpisodeArena<F>,
    cur: GameState<F>,
    ball_scored: bool,
)
    requires
        sane_state(cur),
        agents_present(a.car_ids@, cur.cars@),
    ensures
        ({
            let last = after_end(a, cur, ball_scored).last_touch_tick;
            let cars = cur.cars@;
            &&& a@.last_touch_tick <= last
            &&& forall|i: int, c: int|
                #![trigger a.car_ids@[i], cars[c]]
                0 <= i < a.car_ids@.len() && is_car(cars, a.car_ids@[i], c)
                    && cars[c].state.ball_hit_info.is_valid
                    && cars[c].state.ball_hit_info.tick_count_when_hit <= cur.tick_count
                    ==> cars[c].state.ball_hit_info.tick_count_when_hit <= last
            &&& last == a@.last_touch_tick || exists|i: int, c: int|
                #![trigger a.car_ids@[i], cars[c]]
                0 <= i < a.car_ids@.len() && is_car(cars, a.car_ids@[i], c)
                    && cars[c].state.ball_hit_info.is_valid
                    && cars[c].state.ball_hit_info.tick_count_when_hit <= cur.tick_count
                    && cars[c].state.ball_hit_info.tick_count_when_hit == last
        }),
{
    lemma_latest(a.car_ids@, cur, a@.last_touch_tick, a.car_ids@.len() as int);
}

proof fn lemma_latest<F>(ids: Seq<u32>, cur: GameState<F>, before: u64, n: int)
    requires
        agents_present(ids, cur.cars@),
        0 <= n <= ids.len(),
    ensures
        ({
            let last = touch_after(ids, cur, before, n);
            let cars = cur.cars@;
            &&& before <= last
            &&& forall|i: int, c: int|
                #![trigger ids[i], cars[c]]
                0 <= i < n && is_car(cars, ids[i], c) && cars[c].state.ball_hit_info.is_valid
                    && cars[c].state.ball_hit_info.tick_count_when_hit <= cur.tick_count
                    ==> cars[c].state.ball_hit_info.tick_count_when_hit <= last
            &&& last == before || exists|i: int, c: int|
                #![trigger ids[i], cars[c]]
                0 <= i < n && is_car(cars, ids[i], c) && cars[c].state.ball_hit_info.is_valid
                    && cars[c].state.ball_hit_info.tick_count_when_hit <= cur.tick_count
                    && cars[c].state.ball_hit_info.tick_count_when_hit == last
        }),
    decreases n,
{
    if n > 0 {
        lemma_latest(ids, cur, before, n - 1);
        let cars = cur.cars@;
        lemma_present_in_range(ids, cars, n - 1);
        let c = car_of(ids, cars, n - 1);
        let earlier = touch_after(ids, cur, before, n - 1);
        let last = touch_after(ids, cur, before, n);
        assert forall|i: int, d: int|
            #![trigger ids[i], cars[d]]
            0 <= i < n && is_car(cars, ids[i], d) && cars[d].state.ball_hit_info.is_valid
                && cars[d].state.ball_hit_info.tick_count_when_hit
                <= cur.tick_count implies cars[d].state.ball_hit_info.tick_count_when_hit
            <= last by {
            if i == n - 1 {
                lemma_agents_car(ids, cars, i, d);
            }
        }
        if last != earlier {
            assert(ids[n - 1] == cars[c].id);
            assert(is_car(cars, ids[n - 1], c));
        }
    }
}

/// How a sane step ends. A single episode comes to its end with every goal, and is
/// cut off where nobody touched the ball for 30 seconds or it has lasted five
/// minutes. A match comes to its end after five minutes, goals or not, and is cut
/// off where nobody touched the ball for 30 seconds. There are 120 ticks in a
/// second.
pub proof fn law_when_episodes_end<F: Scalar>(
    a: EpisodeArena<F>,
    cur: GameState<F>,
    ball_scored: bool,
)
    requires
        sane_state(cur),
    ensures
        ({
            let f = flags_after(a, cur, ball_scored);
            let last = after_end(a, cur, ball_scored).last_touch_tick;
            let quiet = cur.tick_count - last >= 30 * 120;
            if a.plays_matches() {
                let over = cur.tick_count - a@.match_start_tick >= 300 * 120;
                f.terminated == over && f.truncated == (!over && quiet)
            } else {
                let long = cur.tick_count - a@.episode_start_tick >= 300 * 120;
                f.terminated == ball_scored && f.truncated == (!ball_scored && (quiet || long))
            }
        }),
{
}

/// Goals in a match: the goal behind the orange end (the ball's second coordinate
/// positive) counts for blue, the other for orange, unless the match ends with it,
/// which clears the score. Without a match no score is kept.
pub proof fn law_goals_are_counted<F: Scalar>(
    a: EpisodeArena<F>,
    cur: GameState<F>,
    ball_scored: bool,
)
    requires
        sane_state(cur),
        a@.score_blue < u32::MAX,
        a@.score_orange < u32::MAX,
    ensures
        ({
            let f = flags_after(a, cur, ball_scored);
            let v = after_end(a, cur, ball_scored);
            let ended = f.terminated || f.truncated;
            let high = gt(cur.ball.pos.y, num::<F>(0));
            &&& scorer(cur, ball_scored) == if !ball_scored {
                None
            } else if high {
                Some(Team::Blue)
            } else {
                Some(Team::Orange)
            }
            &&& !a.plays_matches() ==> v.score_blue == a@.score_blue && v.score_orange
                == a@.score_orange && v.match_start_tick == a@.match_start_tick
            &&& a.plays_matches() && ended ==> v.score_blue == 0 && v.score_orange == 0
                && v.match_start_tick == cur.tick_count
            &&& a.plays_matches() && !ended ==> {
                &&& v.match_start_tick == a@.match_start_tick
                &&& v.score_blue == a@.score_blue + (if ball_scored && high {
                    1int
                } else {
                    0
                })
                &&& v.score_orange == a@.score_orange + (if ball_scored && !high {
                    1int
                } else {
                    0
                })
            }
        }),
{
}

/// The state that a step ended in is the one before the next step, unless a reset
/// follows. Nothing else of the arena changes in a step: not the seed, not the
/// generator, not the recent actions, not when the episode began.
pub proof fn law_steps_remember_the_state<F: Scalar>(
    a: EpisodeArena<F>,
    cur: GameState<F>,
    ball_scored: bool,
)
    requires
        sane_state(cur),
    ensures
        ({
            let f = flags_after(a, cur, ball_scored);
            let v = after_end(a, cur, ball_scored);
            let reset = f.terminated || f.truncated || (a.plays_matches() && ball_scored);
            &&& v.prev_state == if reset {
                a@.prev_state
            } else {
                cur
            }
            &&& v.seed == a@.seed
            &&& v.rng == a@.rng
            &&& v.rings == a@.rings
            &&& v.episode_start_tick == a@.episode_start_tick
            &&& v.blowup_count == a@.blowup_count
        }),
{
}

/// A reset begins a new episode at the present, forgets all recent actions and
/// takes another kickoff seed. Score and clock of a match go on.
pub proof fn law_resets_begin_anew<F>(v: ArenaView<F>, gs: GameState<F>, i: int, j: int)
    requires
        v.rings is Some,
        0 <= i < v.rings->0.len(),
        0 <= j < 5,
    ensures
        ({
            let w = after_reset(v, gs);
            &&& w.episode_start_tick == gs.tick_count
            &&& w.last_touch_tick == gs.tick_count
            &&& w.prev_state == gs
            &&& w.rings->0.len() == v.rings->0.len()
            &&& w.rings->0[i]@[j] == 0
            &&& w.seed != v.seed
            &&& w.rng == v.rng
            &&& w.score_blue == v.score_blue && w.score_orange == v.score_orange
            &&& w.match_start_tick == v.match_start_tick
            &&& w.blowup_count == v.blowup_count
        }),
{
    lemma_seed_moves(v.seed);
}

proof fn lemma_seed_moves(seed: u32)
    ensures
        next_seed(seed) != seed,
{
    let wide = seed * 747796405 + 2891336453;
    let q = wide / 0x1_0000_0000;
    assert(wide == q * 0x1_0000_0000 + wide % 0x1_0000_0000);
    if wide % 0x1_0000_0000 == seed {
        assert(2 * (q * 0x8000_0000 - seed * 373898202) == 2891336453);
    }
}

/// The telemetry of a step of an arena: the terms after agent `i` are those after
/// the agents before it, with what the step of the car with its id adds.
pub proof fn law_terms_are_counted_by_agent<F: Scalar, G: Scalar + From<F>, S: Fn(F) -> F>(
    a: EpisodeArena<F>,
    cur: GameState<F>,
    scored: Option<Team>,
    terms: Seq<G>,
    sqrt: S,
    i: int,
    c: int,
)
    requires
        0 <= i < a.car_ids@.len(),
        is_car(cur.cars@, a.car_ids@[i], c),
    ensures
        counted_terms(a, cur, scored, terms, sqrt, 0) == terms,
        ({
            let s = AgentStep {
                prev: a.prev_state,
                cur,
                car_idx: c,
                scored,
                cfg: a.reward_cfg,
            };
            counted_terms(a, cur, scored, terms, sqrt, i + 1) == s.terms_after(
                counted_terms(a, cur, scored, terms, sqrt, i),
                sqrt,
            )
        }),
{
    lemma_agents_car(a.car_ids@, cur.cars@, i, c);
}

/// A recorded car is put back where it was, as fast and as turned as it was, with its
/// boost counted in hundredths; what a vector shows as x, y and z are the first, second
/// and third number recorded.
pub proof fn law_recorded_cars_are_put_back<F: Scalar>(c: CarSpawn<F>)
    ensures
        placed(c).pos.x == c.pos@[0] && placed(c).pos.y == c.pos@[1] && placed(c).pos.z == c.pos@[2],
        placed(c).vel.x == c.vel@[0] && placed(c).vel.y == c.vel@[1] && placed(c).vel.z == c.vel@[2],
        placed(c).ang_vel.x == c.ang_vel@[0] && placed(c).ang_vel.y == c.ang_vel@[1]
            && placed(c).ang_vel.z == c.ang_vel@[2],
        placed(c).rot_mat == orientation(c.quat),
        placed(c).boost == times(c.boost, num::<F>(100)),
        placed(c).is_on_ground == c.on_ground,
{
}

/// An agent's order is for its own car. It is what its own action's row says: throttle,
/// steer, pitch, yaw and roll as they stand, then jump, boost and handbrake, down where
/// the row does not have zero.
pub proof fn law_agents_order_by_their_rows<F: Scalar>(
    ids: Seq<u32>,
    table: Seq<[F; 8]>,
    acts: Seq<i64>,
    a: int,
)
    requires
        0 <= a < acts.len() == ids.len(),
        0 <= acts[a] < table.len(),
    ensures
        orders(ids, table, acts).len() == ids.len(),
        ({
            let (id, k) = orders(ids, table, acts)[a];
            let row = table[acts[a] as int]@;
            &&& id == ids[a]
            &&& k.throttle == row[0]
            &&& k.steer == row[1]
            &&& k.pitch == row[2]
            &&& k.yaw == row[3]
            &&& k.roll == row[4]
            &&& k.jump <==> !same(row[5], num::<F>(0))
            &&& k.boost <==> !same(row[6], num::<F>(0))
            &&& k.handbrake <==> !same(row[7], num::<F>(0))
        }),
{
}

/// Where the physics broke down the arena is rebuilt, and every agent's episode is over
/// with no reward. Otherwise an episode that ended hands out its last state; a goal of a
/// match that goes on is followed by a kickoff; and every agent has the same flags.
pub proof fn law_what_follows_a_step<F: Scalar, S: Fn(F) -> F>(
    a: EpisodeArena<F>,
    cur: GameState<F>,
    ball_scored: bool,
    sqrt: S,
    i: int,
)
    requires
        0 <= i < a.car_ids@.len(),
    ensures
        ({
            let next = next_after(a, cur, ball_scored);
            let flags = all_flags_after(a, cur, ball_scored);
            let rewards = rewards_after(a, cur, ball_scored, sqrt);
            let f = flags_after(a, cur, ball_scored);
            &&& flags.len() == a.car_ids@.len()
            &&& !sane_state(cur) ==> next is Rebuild && flags[i].terminated
                && !flags[i].truncated && rewards.len() == a.car_ids@.len() && rewards[i]
                == num::<F>(0)
            &&& sane_state(cur) ==> {
                &&& flags[i].terminated == f.terminated && flags[i].truncated == f.truncated
                &&& rewards == step_rewards(a, cur, scorer(cur, ball_scored), sqrt)
                &&& !(next is Rebuild)
                &&& next is Ended <==> flags[i].terminated || flags[i].truncated
                &&& next matches AfterStep::Ended(s) ==> s == cur
                &&& next is Kickoff ==> a.plays_matches() && ball_scored
                &&& a.plays_matches() && ball_scored && !(next is Ended) ==> next is Kickoff
            }
        }),
{
}

} // verus!
