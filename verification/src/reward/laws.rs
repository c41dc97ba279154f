//! What holds of every ledger.

use crate::reward::config::RewardConfig;
use crate::reward::terms::{
    aerial_postings, air_touch_postings, boost_postings, cooled_down, goal_postings, height_bucket,
    motion_postings, play_postings, step_postings, touch_postings, touched, Posting,
    T_AERIAL_TOUCH, T_AGENT_STEPS, T_AIRBORNE_TOUCH_EVENTS, T_AIR_HANG, T_AIR_TOUCH_Z0,
    T_AIR_TOUCH_Z5, T_BOOST_PICKUP, T_OFFENSIVE_POTENTIAL, T_TOUCH, T_TOUCH_ACCEL, T_TOUCH_EVENTS,
    T_VEL_BALL_TO_GOAL,
};
use crate::scalar::{num, same, Scalar};
use crate::sim::{BallHitInfo, GameState, Team};
use vstd::prelude::*;

verus! {

/// How many events of the terms `lo` to `hi` a ledger counts.
pub open spec fn events<F>(ps: Seq<Posting<F>>, lo: int, hi: int) -> int
    decreases ps.len(),
{
    if ps.len() == 0 {
        0
    } else {
        events(ps.drop_last(), lo, hi) + match ps.last() {
            Posting::Count { term } => if lo <= term <= hi {
                1int
            } else {
                0
            },
            _ => 0,
        }
    }
}

proof fn lemma_events_concat<F>(a: Seq<Posting<F>>, b: Seq<Posting<F>>, lo: int, hi: int)
    ensures
        events(a + b, lo, hi) == events(a, lo, hi) + events(b, lo, hi),
    decreases b.len(),
{
    if b.len() == 0 {
        assert(a + b =~= a);
    } else {
        assert((a + b).drop_last() =~= a + b.drop_last());
        lemma_events_concat(a, b.drop_last(), lo, hi);
    }
}

/// A ledger that counts no event of the terms `lo` to `hi` posts none.
proof fn lemma_no_events<F>(ps: Seq<Posting<F>>, lo: int, hi: int)
    requires
        forall|i: int|
            0 <= i < ps.len() ==> match #[trigger] ps[i] {
                Posting::Count { term } => !(lo <= term <= hi),
                _ => true,
            },
    ensures
        events(ps, lo, hi) == 0,
    decreases ps.len(),
{
    if ps.len() > 0 {
        assert forall|i: int| 0 <= i < ps.drop_last().len() implies match #[trigger] ps.drop_last()[i] {
            Posting::Count { term } => !(lo <= term <= hi),
            _ => true,
        } by {
            assert(ps.drop_last()[i] == ps[i]);
        }
        lemma_no_events(ps.drop_last(), lo, hi);
    }
}

proof fn lemma_air_touch_events<F: Scalar>(ball_z: F, cfg: RewardConfig<F>)
    ensures
        events(
            air_touch_postings(ball_z, cfg),
            T_TOUCH_EVENTS as int,
            T_TOUCH_EVENTS as int,
        ) == 0,
        events(
            air_touch_postings(ball_z, cfg),
            T_AIRBORNE_TOUCH_EVENTS as int,
            T_AIRBORNE_TOUCH_EVENTS as int,
        ) == 1,
        events(air_touch_postings(ball_z, cfg), T_AIR_TOUCH_Z0 as int, T_AIR_TOUCH_Z5 as int) == 1,
        events(
            air_touch_postings(ball_z, cfg),
            T_AIR_TOUCH_Z0 + height_bucket(ball_z),
            T_AIR_TOUCH_Z0 + height_bucket(ball_z),
        ) == 1,
{
    let a = Posting::<F>::Count { term: T_AIRBORNE_TOUCH_EVENTS };
    let b = Posting::<F>::Count { term: (T_AIR_TOUCH_Z0 + height_bucket(ball_z)) as usize };
    let ps = air_touch_postings(ball_z, cfg);
    reveal_with_fuel(events, 4);
    assert(seq![a].drop_last() =~= seq![]);
    assert(seq![a, b].drop_last() =~= seq![a]);
    if ps.len() == 3 {
        assert(ps.drop_last() =~= seq![a, b]);
    } else {
        assert(ps =~= seq![a, b]);
    }
}

/// Every touch made in the air falls into exactly one height bucket, that of the
/// ball's height: a step's ledger counts as many bucket events as touches in the
/// air, at most one, and no more of those than touches.
pub proof fn law_buckets_partition_air_touches<F: Scalar, S: Fn(F) -> F>(
    prev: GameState<F>,
    cur: GameState<F>,
    car_idx: int,
    scored: Option<Team>,
    cfg: RewardConfig<F>,
    sqrt: S,
)
    ensures
        ({
            let ps = step_postings(prev, cur, car_idx, scored, cfg, sqrt);
            let me = cur.cars@[car_idx].state;
            let was = prev.cars@[car_idx].state;
            let hit = touched(
                was.ball_hit_info,
                me.ball_hit_info,
                prev.tick_count,
                cur.tick_count,
            );
            let buckets = events(ps, T_AIR_TOUCH_Z0 as int, T_AIR_TOUCH_Z5 as int);
            let airborne = events(
                ps,
                T_AIRBORNE_TOUCH_EVENTS as int,
                T_AIRBORNE_TOUCH_EVENTS as int,
            );
            let b = T_AIR_TOUCH_Z0 + height_bucket(cur.ball.pos.z);
            &&& buckets == airborne
            &&& events(ps, b, b) == airborne
            &&& airborne == if hit && !me.is_on_ground {
                1int
            } else {
                0
            }
            &&& events(ps, T_TOUCH_EVENTS as int, T_TOUCH_EVENTS as int) == if hit {
                1int
            } else {
                0
            }
        }),
{
    let me = cur.cars@[car_idx].state;
    let was = prev.cars@[car_idx].state;
    let team = cur.cars@[car_idx].team;
    let hit = touched(was.ball_hit_info, me.ball_hit_info, prev.tick_count, cur.tick_count);
    let paid = cooled_down(was.ball_hit_info, me.ball_hit_info, cfg.touch_cooldown_ticks);
    lemma_events_of_step(
        prev,
        cur,
        car_idx,
        scored,
        cfg,
        sqrt,
        T_AIR_TOUCH_Z0 as int,
        T_AIR_TOUCH_Z5 as int,
    );
    lemma_events_of_step(
        prev,
        cur,
        car_idx,
        scored,
        cfg,
        sqrt,
        T_AIRBORNE_TOUCH_EVENTS as int,
        T_AIRBORNE_TOUCH_EVENTS as int,
    );
    lemma_events_of_step(
        prev,
        cur,
        car_idx,
        scored,
        cfg,
        sqrt,
        T_TOUCH_EVENTS as int,
        T_TOUCH_EVENTS as int,
    );
    let b = T_AIR_TOUCH_Z0 + height_bucket(cur.ball.pos.z);
    lemma_events_of_step(prev, cur, car_idx, scored, cfg, sqrt, b, b);
    lemma_touch_events(hit, paid, me.is_on_ground, cur.ball.pos.z, cfg);
}

proof fn lemma_touch_events<F: Scalar>(
    hit: bool,
    paid: bool,
    on_ground: bool,
    ball_z: F,
    cfg: RewardConfig<F>,
)
    ensures
        ({
            let ps = touch_postings(hit, paid, on_ground, ball_z, cfg);
            let n = if hit && !on_ground {
                1int
            } else {
                0
            };
            let b = T_AIR_TOUCH_Z0 + height_bucket(ball_z);
            &&& events(ps, T_AIR_TOUCH_Z0 as int, T_AIR_TOUCH_Z5 as int) == n
            &&& events(ps, b, b) == n
            &&& events(ps, T_AIRBORNE_TOUCH_EVENTS as int, T_AIRBORNE_TOUCH_EVENTS as int) == n
            &&& events(ps, T_TOUCH_EVENTS as int, T_TOUCH_EVENTS as int) == if hit {
                1int
            } else {
                0
            }
        }),
{
    if hit {
        let first = seq![Posting::<F>::Count { term: T_TOUCH_EVENTS }];
        let air = if on_ground {
            seq![]
        } else {
            air_touch_postings(ball_z, cfg)
        };
        let last = if paid {
            seq![Posting::Pay { term: T_TOUCH, amount: cfg.touch }]
        } else {
            seq![]
        };
        lemma_air_touch_events(ball_z, cfg);
        let (lo, hi) = (T_AIR_TOUCH_Z0 as int, T_AIR_TOUCH_Z5 as int);
        let ab = T_AIRBORNE_TOUCH_EVENTS as int;
        lemma_events_concat(first, air, lo, hi);
        lemma_events_concat(first + air, last, lo, hi);
        lemma_events_concat(first, air, ab, ab);
        lemma_events_concat(first + air, last, ab, ab);
        let b = T_AIR_TOUCH_Z0 + height_bucket(ball_z);
        lemma_events_concat(first, air, b, b);
        lemma_events_concat(first + air, last, b, b);
        lemma_no_events(first, b, b);
        lemma_no_events(last, b, b);
        assert(events(Seq::<Posting<F>>::empty(), b, b) == 0);
        let te = T_TOUCH_EVENTS as int;
        lemma_events_concat(first, air, te, te);
        lemma_events_concat(first + air, last, te, te);
        lemma_no_events(last, te, te);
        reveal_with_fuel(events, 2);
        assert(first.drop_last() =~= Seq::empty());
        assert(events(first, te, te) == 1);
        assert(events(Seq::<Posting<F>>::empty(), te, te) == 0);
        lemma_no_events(first, lo, hi);
        lemma_no_events(last, lo, hi);
        lemma_no_events(first, ab, ab);
        lemma_no_events(last, ab, ab);
        assert(events(Seq::<Posting<F>>::empty(), lo, hi) == 0);
    }
}

/// Touches, those in the air and their height buckets are counted by touches
/// alone.
proof fn lemma_events_of_step<F: Scalar, S: Fn(F) -> F>(
    prev: GameState<F>,
    cur: GameState<F>,
    car_idx: int,
    scored: Option<Team>,
    cfg: RewardConfig<F>,
    sqrt: S,
    lo: int,
    hi: int,
)
    requires
        T_TOUCH_EVENTS <= lo <= hi <= T_AIRBORNE_TOUCH_EVENTS || T_AIR_TOUCH_Z0 <= lo <= hi
            <= T_AIR_TOUCH_Z5,
    ensures
        ({
            let me = cur.cars@[car_idx].state;
            let was = prev.cars@[car_idx].state;
            let hit = touched(
                was.ball_hit_info,
                me.ball_hit_info,
                prev.tick_count,
                cur.tick_count,
            );
            let paid = cooled_down(was.ball_hit_info, me.ball_hit_info, cfg.touch_cooldown_ticks);
            events(step_postings(prev, cur, car_idx, scored, cfg, sqrt), lo, hi) == events(
                touch_postings(hit, paid, me.is_on_ground, cur.ball.pos.z, cfg),
                lo,
                hi,
            )
        }),
{
    let me = cur.cars@[car_idx].state;
    let was = prev.cars@[car_idx].state;
    let team = cur.cars@[car_idx].team;
    let hit = touched(was.ball_hit_info, me.ball_hit_info, prev.tick_count, cur.tick_count);
    let paid = cooled_down(was.ball_hit_info, me.ball_hit_info, cfg.touch_cooldown_ticks);
    let p0 = seq![Posting::<F>::Count { term: T_AGENT_STEPS }];
    let p1 = boost_postings(was, me, cfg, sqrt);
    let p2 = motion_postings(was, me, cfg);
    let p3 = goal_postings(scored, team, cfg);
    let p4 = touch_postings(hit, paid, me.is_on_ground, cur.ball.pos.z, cfg);
    let p5 = play_postings(hit, team, me, prev.ball, cur.ball, cfg, sqrt);
    let p6 = aerial_postings(hit, paid, team, me, prev.ball, cur.ball, cfg, sqrt);
    lemma_events_concat(p0, p1, lo, hi);
    lemma_events_concat(p0 + p1, p2, lo, hi);
    lemma_events_concat(p0 + p1 + p2, p3, lo, hi);
    lemma_events_concat(p0 + p1 + p2 + p3, p4, lo, hi);
    lemma_events_concat(p0 + p1 + p2 + p3 + p4, p5, lo, hi);
    lemma_events_concat(p0 + p1 + p2 + p3 + p4 + p5, p6, lo, hi);
    lemma_no_events(p0, lo, hi);
    lemma_no_events(p1, lo, hi);
    lemma_no_events(p2, lo, hi);
    lemma_no_events(p3, lo, hi);
    lemma_no_events(p5, lo, hi);
    lemma_no_events(p6, lo, hi);
}

/// Contacts that follow each other at these ticks.
pub open spec fn contact(tick: u64) -> BallHitInfo {
    BallHitInfo { is_valid: true, tick_count_when_hit: tick }
}

/// The cooldown spaces paid touches: of a run of contacts, any two that are paid
/// lie at least the cooldown apart, however many contacts there are in between.
pub proof fn law_cooldown_spaces_paid_touches(ticks: Seq<u64>, cooldown: u32, i: int, j: int)
    requires
        forall|a: int, b: int| 0 <= a < b < ticks.len() ==> #[trigger] ticks[a] < #[trigger] ticks[b],
        0 < i < j < ticks.len(),
        cooldown > 0,
        cooled_down(contact(ticks[i - 1]), contact(ticks[i]), cooldown),
        cooled_down(contact(ticks[j - 1]), contact(ticks[j]), cooldown),
    ensures
        ticks[j] - ticks[i] >= cooldown,
{
    assert(ticks[j - 1] < ticks[j]);
    if i < j - 1 {
        assert(ticks[i] < ticks[j - 1]);
    }
}

/// A car's first contact is always paid.
pub proof fn law_first_contact_is_paid(before: BallHitInfo, now: BallHitInfo, cooldown: u32)
    requires
        !before.is_valid,
    ensures
        cooled_down(before, now, cooldown),
{
}

/// The weight of a term that can be turned off.
pub open spec fn switch_of<F: Scalar>(cfg: RewardConfig<F>, term: int) -> Option<F> {
    if term == T_BOOST_PICKUP {
        Some(cfg.boost_pickup)
    } else if term == T_AIR_HANG {
        Some(cfg.air_hang)
    } else if term == T_TOUCH_ACCEL {
        Some(cfg.touch_accel)
    } else if term == T_VEL_BALL_TO_GOAL {
        Some(cfg.vel_ball_to_goal)
    } else if term == T_OFFENSIVE_POTENTIAL {
        Some(cfg.offensive_potential)
    } else if term == T_AERIAL_TOUCH {
        Some(cfg.aerial_touch)
    } else {
        None
    }
}

/// Nothing is paid by a term whose weight is zero.
pub open spec fn pays_only_what_is_on<F: Scalar>(ps: Seq<Posting<F>>, cfg: RewardConfig<F>) -> bool {
    forall|i: int|
        0 <= i < ps.len() ==> match #[trigger] ps[i] {
            Posting::Pay { term, amount } => match switch_of(cfg, term as int) {
                Some(w) => !same(w, num::<F>(0)),
                None => true,
            },
            _ => true,
        }
}

proof fn lemma_pays_concat<F: Scalar>(
    a: Seq<Posting<F>>,
    b: Seq<Posting<F>>,
    cfg: RewardConfig<F>,
)
    requires
        pays_only_what_is_on(a, cfg),
        pays_only_what_is_on(b, cfg),
    ensures
        pays_only_what_is_on(a + b, cfg),
{
    let c = a + b;
    assert forall|i: int| 0 <= i < c.len() implies match #[trigger] c[i] {
        Posting::Pay { term, amount } => match switch_of(cfg, term as int) {
            Some(w) => !same(w, num::<F>(0)),
            None => true,
        },
        _ => true,
    } by {
        if i < a.len() {
            assert(c[i] == a[i]);
        } else {
            assert(c[i] == b[i - a.len()]);
        }
    }
}

/// A term whose weight is zero pays nothing in any step: with all of them off
/// only goals, touches and speed towards the ball are paid.
pub proof fn law_terms_turned_off_pay_nothing<F: Scalar, S: Fn(F) -> F>(
    prev: GameState<F>,
    cur: GameState<F>,
    car_idx: int,
    scored: Option<Team>,
    cfg: RewardConfig<F>,
    sqrt: S,
)
    ensures
        pays_only_what_is_on(step_postings(prev, cur, car_idx, scored, cfg, sqrt), cfg),
{
    let me = cur.cars@[car_idx].state;
    let was = prev.cars@[car_idx].state;
    let team = cur.cars@[car_idx].team;
    let hit = touched(was.ball_hit_info, me.ball_hit_info, prev.tick_count, cur.tick_count);
    let paid = cooled_down(was.ball_hit_info, me.ball_hit_info, cfg.touch_cooldown_ticks);
    let p0 = seq![Posting::<F>::Count { term: T_AGENT_STEPS }];
    let p1 = boost_postings(was, me, cfg, sqrt);
    let p2 = motion_postings(was, me, cfg);
    let p3 = goal_postings(scored, team, cfg);
    let p4 = touch_postings(hit, paid, me.is_on_ground, cur.ball.pos.z, cfg);
    let p5 = play_postings(hit, team, me, prev.ball, cur.ball, cfg, sqrt);
    let p6 = aerial_postings(hit, paid, team, me, prev.ball, cur.ball, cfg, sqrt);
    assert(pays_only_what_is_on(p0, cfg));
    assert(pays_only_what_is_on(p1, cfg));
    assert(pays_only_what_is_on(p2, cfg));
    assert(pays_only_what_is_on(p3, cfg));
    assert(pays_only_what_is_on(p4, cfg));
    assert(pays_only_what_is_on(p5, cfg));
    assert(pays_only_what_is_on(p6, cfg));
    lemma_pays_concat(p0, p1, cfg);
    lemma_pays_concat(p0 + p1, p2, cfg);
    lemma_pays_concat(p0 + p1 + p2, p3, cfg);
    lemma_pays_concat(p0 + p1 + p2 + p3, p4, cfg);
    lemma_pays_concat(p0 + p1 + p2 + p3 + p4, p5, cfg);
    lemma_pays_concat(p0 + p1 + p2 + p3 + p4 + p5, p6, cfg);
}

} // verus!
