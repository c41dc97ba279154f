//! What bots see and do.

use crate::actions::law_tables_append_only;
use crate::argmax::argmax_of;
use crate::draws::squared_distance;
use crate::exact::{order_chain, order_facts, sorted};
use crate::foreign::{
    arena_of, carried_out, cars_reset, choice_made, has_choice, input_for, is_choice, last_choice,
    turn_ended, BotView, ForeignKind, ForeignPolicy, InputView, NetOutput,
};
use crate::obs_advanced::{
    adv_ball, adv_base, adv_pads, adv_player, adv_relative, adv_row, canon_order,
    law_nearest_is_opponent, location, nearest_opponent,
};
use crate::obs_necto::{
    advanced, entity_rows, law_players_are_all_cars, lemma_entity_rows, next_boost, next_demo,
    place_of, players_of, raw_entity, self_row, shown_boost, TimersView,
};
use crate::pads::{mirror_perm, nearest_among, nearest_index, PAD_COUNT};
use crate::scalar::{
    gt, larger, le, lt, minus, num, opposite, over, plus, same, times, Scalar,
};
use crate::shown::{blank, from_to, shows, tells};
use crate::sim::{BallState, BoostPad, CarInfo, CarState, GameState, Team, Vec3};
use crate::tables::law_rows_are_distinct;
use vstd::prelude::*;

verus! {

/// The 25 numbers from `at` on show a car and where the ball is and goes as seen
/// from it. Lengths are counted in 2300, turns in `pi`.
pub open spec fn shows_player<F: Scalar>(
    row: Seq<F>,
    at: int,
    s: CarState<F>,
    ball: BallState<F>,
    orange: bool,
    pi: F,
) -> bool {
    let k = over(num::<F>(1), num::<F>(2300));
    &&& shows(row, at, from_to(s.pos, ball.pos), orange, k)
    &&& shows(row, at + 3, from_to(s.vel, ball.vel), orange, k)
    &&& shows(row, at + 6, s.pos, orange, k)
    &&& shows(row, at + 9, s.rot_mat.forward, orange, num::<F>(1))
    &&& shows(row, at + 12, s.rot_mat.up, orange, num::<F>(1))
    &&& shows(row, at + 15, s.vel, orange, k)
    &&& shows(row, at + 18, s.ang_vel, orange, over(num::<F>(1), pi))
    &&& row[at + 21] == over(s.boost, num::<F>(100))
    &&& tells(row[at + 22], s.is_on_ground)
    &&& tells(row[at + 23], s.has_flip_or_jump)
    &&& tells(row[at + 24], s.is_demoed)
}

proof fn lemma_player<F: Scalar>(s: CarState<F>, b: BallState<F>, m: bool, pi: F)
    ensures
        adv_player(s, b, m, pi).len() == 25,
        shows_player(adv_player(s, b, m, pi), 0, s, b, m, pi),
{
}

proof fn lemma_player_moved<F: Scalar>(
    row: Seq<F>,
    at: int,
    f: Seq<F>,
    s: CarState<F>,
    b: BallState<F>,
    m: bool,
    pi: F,
)
    requires
        forall|j: int| 0 <= j < 25 ==> #[trigger] row[at + j] == f[j],
        shows_player(f, 0, s, b, m, pi),
    ensures
        shows_player(row, at, s, b, m, pi),
{
    assert(row[at + 0] == f[0] && row[at + 1] == f[1] && row[at + 2] == f[2]);
    assert(row[at + 3] == f[3] && row[at + 4] == f[4] && row[at + 5] == f[5]);
    assert(row[at + 6] == f[6] && row[at + 7] == f[7] && row[at + 8] == f[8]);
    assert(row[at + 9] == f[9] && row[at + 10] == f[10] && row[at + 11] == f[11]);
    assert(row[at + 12] == f[12] && row[at + 13] == f[13] && row[at + 14] == f[14]);
    assert(row[at + 15] == f[15] && row[at + 16] == f[16] && row[at + 17] == f[17]);
    assert(row[at + 18] == f[18] && row[at + 19] == f[19] && row[at + 20] == f[20]);
    assert(row[at + 21] == f[21] && row[at + 22] == f[22] && row[at + 23] == f[23]);
    assert(row[at + 24] == f[24]);
}

/// The first 76 numbers of a bot's row: the ball, the bot's last choice, which pads
/// can be picked up (orange lists them from the other end), and the car itself.
pub proof fn law_bot_rows_show_ball_pads_and_car<F: Scalar>(
    state: GameState<F>,
    car_idx: int,
    prev: Seq<F>,
    canon: Seq<usize>,
    pi: F,
    j: int,
)
    requires
        prev.len() == 8,
        0 <= j < 34,
    ensures
        ({
            let r = adv_base(state, car_idx, prev, canon, pi);
            let me = state.cars@[car_idx];
            let o = me.team == Team::Orange;
            let k = over(num::<F>(1), num::<F>(2300));
            let pad = state.pads@[canon[if o {
                33 - j
            } else {
                j
            }] as int];
            &&& r.len() == 76
            &&& shows(r, 0, state.ball.pos, o, k)
            &&& shows(r, 3, state.ball.vel, o, k)
            &&& shows(r, 6, state.ball.ang_vel, o, over(num::<F>(1), pi))
            &&& r.subrange(9, 17) == prev
            &&& tells(r[17 + j], pad.is_active)
            &&& shows_player(r, 51, me.state, state.ball, o, pi)
        }),
{
    let r = adv_base(state, car_idx, prev, canon, pi);
    let me = state.cars@[car_idx];
    let o = me.team == Team::Orange;
    let a = adv_ball(state.ball, o, pi);
    let p = adv_pads(state.pads@, canon, o);
    let q = adv_player(me.state, state.ball, o, pi);
    lemma_player(me.state, state.ball, o, pi);
    assert(a.len() == 9);
    assert forall|i: int| 0 <= i < 9 implies r[i] == a[i] by {}
    assert(r.subrange(9, 17) =~= prev);
    assert(r[17 + j] == p[j]);
    assert forall|i: int| 0 <= i < 25 implies #[trigger] r[51 + i] == q[i] by {}
    lemma_player_moved(r, 51, q, me.state, state.ball, o, pi);
}

/// The last 31 numbers of a bot's row: another car, and where it is and goes as seen
/// from the bot's own.
pub proof fn law_bot_rows_show_the_other_car<F: Scalar>(
    state: GameState<F>,
    car_idx: int,
    other: int,
    prev: Seq<F>,
    canon: Seq<usize>,
    pi: F,
)
    requires
        prev.len() == 8,
    ensures
        ({
            let r = adv_row(state, car_idx, other, prev, canon, pi);
            let me = state.cars@[car_idx];
            let c = state.cars@[other].state;
            let o = me.team == Team::Orange;
            let k = over(num::<F>(1), num::<F>(2300));
            let gap = |a: F, b: F|
                times(
                    if o {
                        minus(opposite(b), opposite(a))
                    } else {
                        minus(b, a)
                    },
                    k,
                );
            &&& r.len() == 107
            &&& r.take(76) == adv_base(state, car_idx, prev, canon, pi)
            &&& shows_player(r, 76, c, state.ball, o, pi)
            &&& r[101] == gap(me.state.pos.x, c.pos.x)
            &&& r[102] == gap(me.state.pos.y, c.pos.y)
            &&& r[103] == times(minus(c.pos.z, me.state.pos.z), k)
            &&& r[104] == gap(me.state.vel.x, c.vel.x)
            &&& r[105] == gap(me.state.vel.y, c.vel.y)
            &&& r[106] == times(minus(c.vel.z, me.state.vel.z), k)
        }),
{
    let r = adv_row(state, car_idx, other, prev, canon, pi);
    let me = state.cars@[car_idx];
    let c = state.cars@[other].state;
    let o = me.team == Team::Orange;
    law_bot_rows_show_ball_pads_and_car(state, car_idx, prev, canon, pi, 0);
    let base = adv_base(state, car_idx, prev, canon, pi);
    let q = adv_player(c, state.ball, o, pi);
    let d = adv_relative(c, me.state, o);
    lemma_player(c, state.ball, o, pi);
    lemma_relative(c, me.state, o);
    assert(r == base + (q + d));
    lemma_three_parts(base, q, d);
    lemma_player_moved(r, 76, q, c, state.ball, o, pi);
}

proof fn lemma_three_parts<T>(a: Seq<T>, b: Seq<T>, c: Seq<T>)
    requires
        a.len() == 76,
        b.len() == 25,
        c.len() == 6,
    ensures
        ({
            let r = a + (b + c);
            &&& r.len() == 107
            &&& r.take(76) == a
            &&& forall|i: int| 0 <= i < 25 ==> #[trigger] r[76 + i] == b[i]
            &&& r[101] == c[0] && r[102] == c[1] && r[103] == c[2]
            &&& r[104] == c[3] && r[105] == c[4] && r[106] == c[5]
        }),
{
    let r = a + (b + c);
    assert(r.take(76) =~= a);
}

proof fn lemma_relative<F: Scalar>(c: CarState<F>, s: CarState<F>, o: bool)
    ensures
        ({
            let d = adv_relative(c, s, o);
            let k = over(num::<F>(1), num::<F>(2300));
            let gap = |a: F, b: F|
                times(
                    if o {
                        minus(opposite(b), opposite(a))
                    } else {
                        minus(b, a)
                    },
                    k,
                );
            &&& d.len() == 6
            &&& d[0] == gap(s.pos.x, c.pos.x)
            &&& d[1] == gap(s.pos.y, c.pos.y)
            &&& d[2] == times(minus(c.pos.z, s.pos.z), k)
            &&& d[3] == gap(s.vel.x, c.vel.x)
            &&& d[4] == gap(s.vel.y, c.vel.y)
            &&& d[5] == times(minus(c.vel.z, s.vel.z), k)
        }),
{
}

/// The opponent that a bot looks at is of the other team, and no opponent is nearer
/// to the ball.
pub proof fn law_bots_look_at_the_nearest_opponent<F: Scalar>(
    cars: Seq<CarInfo<F>>,
    car_idx: int,
    ball: Vec3<F>,
    n: int,
    j: int,
)
    requires
        sorted::<F>(),
        0 <= j < n <= cars.len(),
        0 <= car_idx < cars.len(),
        cars[j].team != cars[car_idx].team,
    ensures
        nearest_opponent(cars, car_idx, ball, n) matches Some(i) && 0 <= i < n && cars[i].team
            != cars[car_idx].team && !lt(
            squared_distance(cars[j].state.pos, ball),
            squared_distance(cars[i].state.pos, ball),
        ),
    decreases n,
{
    let d = |k: int| squared_distance(cars[k].state.pos, ball);
    order_facts(d(j), d(j));
    if n - 1 == car_idx || cars[n - 1].team == cars[car_idx].team {
        law_bots_look_at_the_nearest_opponent(cars, car_idx, ball, n - 1, j);
    } else {
        let before = nearest_opponent(cars, car_idx, ball, n - 1);
        if j < n - 1 {
            law_bots_look_at_the_nearest_opponent(cars, car_idx, ball, n - 1, j);
        } else if before is Some {
            law_nearest_is_opponent(cars, car_idx, ball, n - 1);
        }
        if before is Some {
            let i = before->0;
            order_facts(d(n - 1), d(i));
            order_facts(d(i), d(i));
            order_facts(d(j), d(i));
            order_facts(d(i), d(j));
            order_facts(d(j), d(n - 1));
            order_facts(d(n - 1), d(n - 1));
            order_chain(d(j), d(n - 1), d(i));
        }
    }
}

/// The squared distance of a pad from a place on the field.
pub open spec fn pad_gap<F: Scalar>(p: BoostPad<F>, x: F, y: F) -> F {
    let (dx, dy) = (minus(p.position.x, x), minus(p.position.y, y));
    plus(times(dx, dx), times(dy, dy))
}

/// The pad that is found for a place: no pad is nearer to it.
pub proof fn law_nearest_pads<F: Scalar>(
    pads: Seq<BoostPad<F>>,
    x: F,
    y: F,
    n: int,
    fallback: int,
    j: int,
)
    requires
        sorted::<F>(),
        0 <= j < n <= pads.len(),
    ensures
        ({
            let i = nearest_index(pads, x, y, n, fallback);
            0 <= i < n && !lt(pad_gap(pads[j], x, y), pad_gap(pads[i], x, y))
        }),
{
    lemma_nearest(pads, x, y, n, j);
}

proof fn lemma_nearest<F: Scalar>(pads: Seq<BoostPad<F>>, x: F, y: F, n: int, j: int)
    requires
        sorted::<F>(),
        0 <= j < n <= pads.len(),
    ensures
        nearest_among(pads, x, y, n) matches Some((i, d)) && 0 <= i < n && d == pad_gap(
            pads[i],
            x,
            y,
        ) && !lt(pad_gap(pads[j], x, y), d),
    decreases n,
{
    let g = |k: int| pad_gap(pads[k], x, y);
    let e = g(n - 1);
    order_facts(minus(e, e), minus(e, e));
    order_facts(g(j), g(j));
    order_facts(e, e);
    if n > 1 {
        lemma_nearest(
            pads,
            x,
            y,
            n - 1,
            if j < n - 1 {
                j
            } else {
                0
            },
        );
        let (i, d) = nearest_among(pads, x, y, n - 1)->0;
        order_facts(e, d);
        order_facts(d, d);
        order_facts(g(j), d);
        order_facts(d, g(j));
        order_facts(g(j), e);
        order_chain(g(j), e, d);
    }
}

/// Every pad is paired with the pad nearest to where it is seen from the other
/// team's side, and every listed pad with the arena's pad nearest to its place.
pub proof fn law_pads_are_paired_by_place<F: Scalar>(pads: Seq<BoostPad<F>>, i: int, j: int)
    requires
        sorted::<F>(),
        0 <= i < 34,
        0 <= j < pads.len() <= PAD_COUNT,
    ensures
        i < pads.len() ==> ({
            let x = opposite(pads[i].position.x);
            let y = opposite(pads[i].position.y);
            let p = pads[mirror_perm(pads)[i] as int];
            mirror_perm(pads)[i] < pads.len() && !lt(pad_gap(pads[j], x, y), pad_gap(p, x, y))
        }),
        ({
            let x = num::<F>(location(i)@[0] as int);
            let y = num::<F>(location(i)@[1] as int);
            let p = pads[canon_order(pads)[i] as int];
            canon_order(pads)[i] < pads.len() && !lt(pad_gap(pads[j], x, y), pad_gap(p, x, y))
        }),
{
    let n = pads.len() as int;
    if i < n {
        law_nearest_pads(
            pads,
            opposite(pads[i].position.x),
            opposite(pads[i].position.y),
            n,
            i,
            j,
        );
    }
    law_nearest_pads(
        pads,
        num::<F>(location(i)@[0] as int),
        num::<F>(location(i)@[1] as int),
        n,
        0,
        j,
    );
}

/// Bots that look at one other car are given what they chose last and the opponent
/// nearest to the ball; where there is none they rest.
pub proof fn law_inputs_of_bots<F: Scalar>(
    v: BotView<F>,
    key: u64,
    state: GameState<F>,
    car_idx: usize,
    canon: Seq<usize>,
    pi: F,
)
    requires
        v.kind == ForeignKind::Immortal || v.kind == ForeignKind::Element,
        last_choice(v, key).len() == 8,
    ensures
        ({
            let n = state.cars@.len() as int;
            let near = nearest_opponent(state.cars@, car_idx as int, state.ball.pos, n);
            match input_for(v, key, state, car_idx, canon, pi) {
                Some(InputView::Advanced(row)) => {
                    &&& near is Some
                    &&& row == adv_row(
                        state,
                        car_idx as int,
                        near->0,
                        last_choice(v, key),
                        canon,
                        pi,
                    )
                    &&& row.subrange(9, 17) == last_choice(v, key)
                },
                Some(_) => false,
                None => near is None,
            }
        }),
        v.prev.contains_key(key) ==> last_choice(v, key) == v.prev[key]@,
        !v.prev.contains_key(key) ==> forall|i: int|
            0 <= i < 8 ==> #[trigger] last_choice(v, key)[i] == num::<F>(0),
{
    let n = state.cars@.len() as int;
    let near = nearest_opponent(state.cars@, car_idx as int, state.ball.pos, n);
    if near is Some {
        let prev = last_choice(v, key);
        law_bot_rows_show_ball_pads_and_car(state, car_idx as int, prev, canon, pi, 0);
        law_bot_rows_show_the_other_car(state, car_idx as int, near->0, prev, canon, pi);
        let row = adv_row(state, car_idx as int, near->0, prev, canon, pi);
        let base = adv_base(state, car_idx as int, prev, canon, pi);
        assert(row.subrange(9, 17) =~= base.subrange(9, 17));
    }
}

/// What a bot does with an answer that stands for a choice: it carries the choice
/// out, but does not steer while it jumps where it is a bot that jumps straight, and
/// it remembers the choice as it was made. Where a decision lasts longer than one,
/// what it carries out is held for the rest.
pub proof fn law_choices_are_carried_out<F: Scalar>(
    v: BotView<F>,
    key: u64,
    out: Option<NetOutput<F>>,
    c: [F; 8],
    after: BotView<F>,
)
    requires
        turn_ended(v, key, out, c, after),
    ensures
        has_choice(v, out) ==> exists|raw: [F; 8]| #[trigger]
            is_choice(v, out->0, raw) && {
                let straight = (v.kind == ForeignKind::Immortal || v.kind == ForeignKind::Element)
                    && gt(raw@[5], num::<F>(0));
                &&& forall|i: int| 0 <= i < 8 && i != 3 ==> #[trigger] c@[i] == raw@[i]
                &&& c@[3] == if straight {
                    num::<F>(0)
                } else {
                    raw@[3]
                }
                &&& after.prev.contains_key(key) && after.prev[key] == raw
                &&& v.period > 1 ==> after.hold.contains_key(key) && after.hold[key] == (
                    (v.period - 1) as u32,
                    c,
                )
            },
        !has_choice(v, out) ==> (forall|i: int| 0 <= i < 8 ==> #[trigger] c@[i] == num::<F>(0))
            && after == v,
        forall|k: u64|
            k != key ==> #[trigger] after.prev.contains_key(k) == v.prev.contains_key(k) && (
            v.prev.contains_key(k) ==> after.prev[k] == v.prev[k]),
        after.kind == v.kind && after.period == v.period && after.timers == v.timers,
{
    if has_choice(v, out) {
        let raw = choose|raw: [F; 8]| #[trigger]
            is_choice(v, out->0, raw) && c@ == carried_out(v.kind, raw) && after == choice_made(
                v,
                key,
                raw,
                c,
            );
        assert(is_choice(v, out->0, raw));
    }
}

/// What answers stand for: the row of the bot's table with the greatest logit, the
/// controls that the heads give, or controls as they are. Every kind of bot takes
/// one kind of answer.
pub proof fn law_what_answers_stand_for<F: Scalar>(
    v: BotView<F>,
    out: NetOutput<F>,
    raw: [F; 8],
)
    requires
        is_choice(v, out, raw),
    ensures
        match out {
            NetOutput::Logits(l) => {
                &&& v.kind == ForeignKind::Immortal || v.kind == ForeignKind::Nexto
                &&& raw == v.table[argmax_of(l@)]
            },
            NetOutput::Heads(h) => {
                &&& v.kind == ForeignKind::Element
                &&& forall|i: int|
                    0 <= i < 5 ==> #[trigger] raw@[i] == num::<F>(
                        argmax_of(seq![h.cat@[3 * i], h.cat@[3 * i + 1], h.cat@[3 * i + 2]]) - 1,
                    )
                &&& forall|i: int|
                    5 <= i < 8 ==> #[trigger] raw@[i] == num::<F>(
                        argmax_of(seq![h.ber@[2 * i - 10], h.ber@[2 * i - 9]]),
                    )
            },
            NetOutput::Controls(c) => v.kind == ForeignKind::Necto && raw == c,
        },
{
    if let NetOutput::Heads(h) = out {
        assert forall|i: int| 0 <= i < 5 implies #[trigger] raw@[i] == num::<F>(
            argmax_of(seq![h.cat@[3 * i], h.cat@[3 * i + 1], h.cat@[3 * i + 2]]) - 1,
        ) by {
            assert(h.cat@.subrange(3 * i, 3 * i + 3) =~= seq![
                h.cat@[3 * i],
                h.cat@[3 * i + 1],
                h.cat@[3 * i + 2],
            ]);
        }
        assert forall|i: int| 5 <= i < 8 implies #[trigger] raw@[i] == num::<F>(
            argmax_of(seq![h.ber@[2 * i - 10], h.ber@[2 * i - 9]]),
        ) by {
            assert(h.ber@.subrange(2 * (i - 5), 2 * (i - 5) + 2) =~= seq![
                h.ber@[2 * i - 10],
                h.ber@[2 * i - 9],
            ]);
        }
    }
}

/// Resetting a list of cars forgets what was chosen and held for each of them and
/// the timers of their arenas, and nothing of any other car.
pub proof fn law_reset_cars_are_forgotten<F>(v: BotView<F>, keys: Seq<u64>, n: int, key: u64)
    requires
        0 <= n <= keys.len(),
    ensures
        ({
            let after = cars_reset(v, keys, n);
            let named = exists|i: int| 0 <= i < n && #[trigger] keys[i] == key;
            &&& named ==> !after.prev.contains_key(key) && !after.hold.contains_key(key)
                && !after.timers.contains_key(arena_of(key))
            &&& !named ==> after.prev.contains_key(key) == v.prev.contains_key(key)
                && after.hold.contains_key(key) == v.hold.contains_key(key) && (
            v.prev.contains_key(key) ==> after.prev[key] == v.prev[key]) && (v.hold.contains_key(
                key,
            ) ==> after.hold[key] == v.hold[key])
            &&& after.kind == v.kind && after.table == v.table && after.period == v.period
        }),
    decreases n,
{
    if n > 0 {
        law_reset_cars_are_forgotten(v, keys, n - 1, key);
        if keys[n - 1] == key {
            assert(0 <= n - 1 < n && keys[n - 1] == key);
        }
        if exists|i: int| 0 <= i < n && #[trigger] keys[i] == key {
            let i = choose|i: int| 0 <= i < n && #[trigger] keys[i] == key;
            if i < n - 1 {
                assert(0 <= i < n - 1 && keys[i] == key);
            }
        }
        if exists|i: int| 0 <= i < n - 1 && #[trigger] keys[i] == key {
            let i = choose|i: int| 0 <= i < n - 1 && #[trigger] keys[i] == key;
            assert(0 <= i < n && keys[i] == key);
        }
    }
}

/// What a pad's timer shows: nothing for a pad that is empty; a pad that can be
/// picked up starts at 1, or at 0.4 where it is small, and runs down by 8 in 1200 per
/// frame, not below zero.
pub proof fn law_pad_timers<F: Scalar>(t: F, active: bool, big: bool)
    ensures
        ({
            let (zero, one) = (num::<F>(0), num::<F>(1));
            let start = plus(
                over(num::<F>(4), num::<F>(10)),
                times(
                    over(num::<F>(6), num::<F>(10)),
                    if big {
                        one
                    } else {
                        zero
                    },
                ),
            );
            let left = minus(t, over(num::<F>(8), num::<F>(1200)));
            &&& !active ==> shown_boost(t, active, big) == times(t, zero)
            &&& active && same(t, zero) ==> shown_boost(t, active, big) == times(start, one)
            &&& active && !same(t, zero) ==> shown_boost(t, active, big) == times(t, one)
            &&& next_boost(t) == if lt(left, zero) {
                zero
            } else {
                left
            }
        }),
{
}

/// A demolition timer starts at 3 and runs down by 8 in 120 per frame to zero, from
/// where it starts anew.
pub proof fn law_demolition_timers<F: Scalar>(t: F)
    ensures
        le(t, num::<F>(0)) ==> next_demo(t) == num::<F>(3),
        !le(t, num::<F>(0)) ==> next_demo(t) == larger(
            minus(t, over(num::<F>(8), num::<F>(120))),
            num::<F>(0),
        ),
{
}

/// Timers one frame on, pad by pad and car by car.
pub proof fn law_timers_run_pad_by_pad<F: Scalar>(
    t: TimersView<F>,
    tick: u64,
    pads: Seq<BoostPad<F>>,
    canon: Seq<usize>,
    n: int,
    j: int,
    i: int,
)
    requires
        0 <= j < 34,
        0 <= i < n,
    ensures
        ({
            let u = advanced(t, tick, pads, canon, n);
            let active = pads[canon[j] as int].is_active;
            &&& u.last_tick == Some(tick)
            &&& u.boost_emit.len() == 34
            &&& u.boost_emit[j] == shown_boost(t.boost[j], active, location(j)@[2] > 72)
            &&& u.boost[j] == next_boost(u.boost_emit[j])
            &&& u.demo[i] == next_demo(
                if i < t.demo.len() {
                    t.demo[i]
                } else {
                    num::<F>(0)
                },
            )
            &&& u.demo_emit[i] == u.demo[i]
        }),
{
}

/// What an entity of the list is before it is looked at: the ball, a car with its
/// demolition timer, or a pad with its own.
pub proof fn law_listed_entities<F: Scalar>(state: GameState<F>, t: TimersView<F>, e: int)
    requires
        0 <= e < state.cars@.len() + 35,
        state.cars@.len() <= usize::MAX,
    ensures
        ({
            let r = raw_entity(state, t, e);
            let n = state.cars@.len() as int;
            let zero = num::<F>(0);
            &&& r.len() == 24
            &&& r[0] == zero
            &&& e == 0 ==> {
                let b = state.ball;
                &&& blank(r, 1, 3) && r[3] == num::<F>(1) && r[4] == zero
                &&& r.subrange(5, 8) == seq![b.pos.x, b.pos.y, b.pos.z]
                &&& r.subrange(8, 11) == seq![b.vel.x, b.vel.y, b.vel.z]
                &&& blank(r, 11, 17)
                &&& r.subrange(17, 20) == seq![b.ang_vel.x, b.ang_vel.y, b.ang_vel.z]
                &&& blank(r, 20, 24)
            }
            &&& 1 <= e <= n ==> {
                let c = state.cars@[players_of(state.cars@)[e - 1] as int];
                let s = c.state;
                &&& tells(r[1], c.team == Team::Blue) && tells(r[2], c.team != Team::Blue)
                &&& blank(r, 3, 5)
                &&& r.subrange(5, 8) == seq![s.pos.x, s.pos.y, s.pos.z]
                &&& r.subrange(8, 11) == seq![s.vel.x, s.vel.y, s.vel.z]
                &&& r.subrange(11, 14) == seq![
                    s.rot_mat.forward.x,
                    s.rot_mat.forward.y,
                    s.rot_mat.forward.z,
                ]
                &&& r.subrange(14, 17) == seq![s.rot_mat.up.x, s.rot_mat.up.y, s.rot_mat.up.z]
                &&& r.subrange(17, 20) == seq![s.ang_vel.x, s.ang_vel.y, s.ang_vel.z]
                &&& r[20] == over(s.boost, num::<F>(100))
                &&& r[21] == over(t.demo_emit[e - 1], num::<F>(10))
                &&& tells(r[22], s.is_on_ground) && tells(r[23], s.has_flip_or_jump)
            }
            &&& n < e ==> {
                let j = e - 1 - n;
                let l = location(j)@;
                &&& blank(r, 1, 4) && r[4] == num::<F>(1)
                &&& r.subrange(5, 8) == seq![
                    num::<F>(l[0] as int),
                    num::<F>(l[1] as int),
                    num::<F>(l[2] as int),
                ]
                &&& blank(r, 8, 20)
                &&& r[20] == plus(
                    over(num::<F>(12), num::<F>(100)),
                    times(
                        over(num::<F>(88), num::<F>(100)),
                        if l[2] > 72 {
                            num::<F>(1)
                        } else {
                            zero
                        },
                    ),
                )
                &&& r[21] == t.boost_emit[j]
                &&& blank(r, 22, 24)
            }
        }),
{
    let r = raw_entity(state, t, e);
    let n = state.cars@.len() as int;
    if e == 0 {
        let b = state.ball;
        assert(r.subrange(5, 8) =~= seq![b.pos.x, b.pos.y, b.pos.z]);
        assert(r.subrange(8, 11) =~= seq![b.vel.x, b.vel.y, b.vel.z]);
        assert(r.subrange(17, 20) =~= seq![b.ang_vel.x, b.ang_vel.y, b.ang_vel.z]);
    } else if e <= n {
        let c = state.cars@[players_of(state.cars@)[e - 1] as int];
        let s = c.state;
        assert(r.subrange(5, 8) =~= seq![s.pos.x, s.pos.y, s.pos.z]);
        assert(r.subrange(8, 11) =~= seq![s.vel.x, s.vel.y, s.vel.z]);
        assert(r.subrange(11, 14) =~= seq![
            s.rot_mat.forward.x,
            s.rot_mat.forward.y,
            s.rot_mat.forward.z,
        ]);
        assert(r.subrange(14, 17) =~= seq![s.rot_mat.up.x, s.rot_mat.up.y, s.rot_mat.up.z]);
        assert(r.subrange(17, 20) =~= seq![s.ang_vel.x, s.ang_vel.y, s.ang_vel.z]);
    } else {
        let l = location(e - 1 - n)@;
        assert(r.subrange(5, 8) =~= seq![
            num::<F>(l[0] as int),
            num::<F>(l[1] as int),
            num::<F>(l[2] as int),
        ]);
    }
}

/// How a number of a listed entity is seen: counted in its unit (2300 for positions
/// and velocities, 5.5 for spins), for orange with the teams swapped and with the
/// first two coordinates of every vector turned; the bot's own entity is marked.
/// Positions and velocities are less those of the bot's own entity.
pub proof fn law_listed_entities_are_seen<F: Scalar>(
    state: GameState<F>,
    car_idx: usize,
    t: TimersView<F>,
    e: int,
    c: int,
)
    requires
        0 <= e < state.cars@.len() + 35,
        0 <= c < 24,
        car_idx < state.cars@.len() <= usize::MAX,
    ensures
        ({
            let rows = entity_rows(state, car_idx, t, state.cars@.len() as int + 35);
            let own = 1 + place_of(players_of(state.cars@), car_idx);
            let orange = state.cars@[car_idx as int].team == Team::Orange;
            let seen = |k: int| number_seen(raw_entity(state, t, k), c, k == own, orange);
            &&& players_of(state.cars@)[own - 1] == car_idx
            &&& rows[24 * e + c] == if 5 <= c <= 10 {
                minus(seen(e), seen(own))
            } else {
                seen(e)
            }
            &&& self_row(state, car_idx, t)[c] == seen(own)
        }),
{
    law_players_are_all_cars(state.cars@, car_idx);
    lemma_entity_rows(state, car_idx, t, state.cars@.len() as int + 35, e, c);
}

/// Number `c` of an entity as it is seen.
pub open spec fn number_seen<F: Scalar>(raw: Seq<F>, c: int, own: bool, orange: bool) -> F {
    let from = if orange && c == 1 {
        2
    } else if orange && c == 2 {
        1
    } else {
        c
    };
    let unit = if 5 <= from <= 10 {
        num::<F>(2300)
    } else if 17 <= from <= 19 {
        over(num::<F>(55), num::<F>(10))
    } else {
        num::<F>(1)
    };
    let x = if from == 0 && own {
        num::<F>(1)
    } else {
        over(raw[from], unit)
    };
    let turned = c == 5 || c == 6 || c == 8 || c == 9 || c == 11 || c == 12 || c == 14 || c == 15
        || c == 17 || c == 18;
    if !orange {
        x
    } else if turned {
        times(x, num::<F>(-1))
    } else {
        times(x, num::<F>(1))
    }
}

/// Four bots have a name, each one of its own, and no other name is a bot's.
pub proof fn law_bots_have_names(s: Seq<char>)
    ensures
        ForeignKind::named("immortal"@) == Some(ForeignKind::Immortal),
        ForeignKind::named("nexto"@) == Some(ForeignKind::Nexto),
        ForeignKind::named("necto"@) == Some(ForeignKind::Necto),
        ForeignKind::named("element"@) == Some(ForeignKind::Element),
        ForeignKind::named(s) is Some ==> s == "immortal"@ || s == "nexto"@ || s == "necto"@ || s
            == "element"@,
{
    reveal_strlit("immortal");
    reveal_strlit("nexto");
    reveal_strlit("necto");
    reveal_strlit("element");
    assert("immortal"@[0] == 'i' && "element"@[0] == 'e');
    assert("nexto"@[0] == 'n' && "nexto"@[2] == 'x');
    assert("necto"@[0] == 'n' && "necto"@[2] == 'c');
}

/// A fresh bot decides every time and drives whole teams. It remembers nothing. Where it
/// picks rows, it has a table: Immortal one of 126 rows, the attention bots one of 90.
pub proof fn law_fresh_bots<F: Scalar>(v: BotView<F>, kind: ForeignKind, key: u64)
    requires
        ForeignPolicy::<F>::fresh(v, kind),
    ensures
        v.kind == kind,
        v.period == 1,
        v.cars == u32::MAX,
        !v.hold.dom().contains(key),
        !v.prev.dom().contains(key),
        !v.timers.dom().contains(key),
        kind == ForeignKind::Immortal ==> v.table.len() == 126,
        kind == ForeignKind::Element ==> v.table.len() == 0,
        kind == ForeignKind::Nexto || kind == ForeignKind::Necto ==> v.table.len() == 90,
{
    law_tables_append_only();
    law_rows_are_distinct();
}

} // verus!
