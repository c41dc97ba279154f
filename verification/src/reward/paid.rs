//! What a step adds to each telemetry term, in terms of the states before and
//! after it and of the weights.

use crate::reward::account::{
    booked, leaves_alone, lemma_booked_concat, lemma_booked_parts, lemma_left_alone,
    lemma_settled_term, term_of, AgentStep,
};
use crate::reward::config::RewardConfig;
use crate::reward::payments::{
    law_aerial_term_grows_by_the_amount, law_boost_terms_grow_by_the_climb,
};
use crate::reward::shaping::car_air_potential;
use crate::reward::telemetry::lemma_step_is_well_booked;
use crate::reward::terms::{
    air_touch_postings, airtime_postings, approach_postings, boost_postings, flat_length,
    flip_postings, goal_postings, hang_postings, height_bucket, impact_postings, length,
    motion_postings, offense_postings, play_postings, pressure_postings, touch_postings, LedgerView,
    Posting,
    N_TERMS, T_AERIAL_TOUCH, T_AERIAL_TOUCH_EVENTS, T_AGENT_STEPS, T_AIRBORNE_TOUCH_EVENTS,
    T_AIR_DECISIONS, T_AIR_HANG, T_AIR_HANG_EVENTS, T_AIR_TOUCH_Z0, T_AIR_TOUCH_Z5, T_BOOST_GAINED,
    T_BOOST_PICKUP, T_FLIP_EVENTS, T_GOAL, T_GOAL_EVENTS, T_OFFENSIVE_POTENTIAL, T_TOUCH,
    T_TOUCH_ACCEL, T_TOUCH_EVENTS, T_VEL_BALL_TO_GOAL, T_VEL_TO_BALL,
};
use crate::scalar::{
    clamped, ge, gt, larger, le, lt, minus, num, opposite, over, plus, same, times, value_of,
    widened, Scalar,
};
use crate::shown::from_to;
use crate::sim::{BallState, CarState, GameState, Team, Vec3};
use vstd::prelude::*;

verus! {

/// The term holds `amount` more where `due`, and is as it was otherwise.
pub open spec fn adds<F: Scalar, G: Scalar + From<F>>(
    before: Seq<G>,
    after: Seq<G>,
    t: usize,
    due: bool,
    amount: F,
) -> bool {
    after[t as int] == if due {
        plus(before[t as int], widened::<F, G>(amount))
    } else {
        before[t as int]
    }
}

/// The term holds one more where `due`, and is as it was otherwise.
pub open spec fn counts<G: Scalar>(before: Seq<G>, after: Seq<G>, t: usize, due: bool) -> bool {
    after[t as int] == if due {
        plus(before[t as int], num::<G>(1))
    } else {
        before[t as int]
    }
}

proof fn lemma_boost_alone<F: Scalar, S: Fn(F) -> F>(
    was: CarState<F>,
    me: CarState<F>,
    cfg: RewardConfig<F>,
    sqrt: S,
    t: int,
)
    requires
        t != T_BOOST_GAINED && t != T_BOOST_PICKUP,
    ensures
        leaves_alone(boost_postings(was, me, cfg, sqrt), t),
{
}

proof fn lemma_motion_left<F: Scalar>(
    was: CarState<F>,
    me: CarState<F>,
    cfg: RewardConfig<F>,
    t: int,
)
    requires
        t < T_FLIP_EVENTS,
    ensures
        leaves_alone(motion_postings(was, me, cfg), t),
{
}

proof fn lemma_goal_alone<F: Scalar>(
    scored: Option<Team>,
    mine: Team,
    cfg: RewardConfig<F>,
    t: int,
)
    requires
        t != T_GOAL && t != T_GOAL_EVENTS,
    ensures
        leaves_alone(goal_postings(scored, mine, cfg), t),
{
}

proof fn lemma_touch_left<F: Scalar>(
    hit: bool,
    paid: bool,
    on_ground: bool,
    z: F,
    cfg: RewardConfig<F>,
    t: int,
)
    requires
        t != T_TOUCH && t != T_TOUCH_EVENTS && t != T_AIRBORNE_TOUCH_EVENTS && t
            != T_AERIAL_TOUCH_EVENTS && !(T_AIR_TOUCH_Z0 <= t <= T_AIR_TOUCH_Z5),
    ensures
        leaves_alone(touch_postings(hit, paid, on_ground, z, cfg), t),
{
}

proof fn lemma_play_left<F: Scalar, S: Fn(F) -> F>(
    hit: bool,
    team: Team,
    me: CarState<F>,
    before: BallState<F>,
    now: BallState<F>,
    cfg: RewardConfig<F>,
    sqrt: S,
    t: int,
)
    requires
        t < T_VEL_TO_BALL || t > T_OFFENSIVE_POTENTIAL,
    ensures
        leaves_alone(play_postings(hit, team, me, before, now, cfg, sqrt), t),
{
}

proof fn lemma_aerial_alone<F: Scalar, S: Fn(F) -> F>(s: AgentStep<F>, sqrt: S, t: int)
    requires
        t != T_AERIAL_TOUCH,
    ensures
        leaves_alone(s.aerial(sqrt), t),
{
}

/// What a step books under a term that `part` of it alone books under: 2 its
/// motion, 3 goals, 4 touches, 5 play.
proof fn lemma_part_books<F: Scalar, G: Scalar + From<F>, S: Fn(F) -> F>(
    s: AgentStep<F>,
    terms: Seq<G>,
    sqrt: S,
    t: int,
    part: int,
)
    requires
        terms.len() == N_TERMS,
        0 <= t < N_TERMS,
        part == 2 ==> t >= T_FLIP_EVENTS,
        part == 3 ==> t == T_GOAL || t == T_GOAL_EVENTS,
        part == 4 ==> t == T_TOUCH || t == T_TOUCH_EVENTS || t == T_AIRBORNE_TOUCH_EVENTS || t
            == T_AERIAL_TOUCH_EVENTS || T_AIR_TOUCH_Z0 <= t <= T_AIR_TOUCH_Z5,
        part == 5 ==> T_VEL_TO_BALL <= t <= T_OFFENSIVE_POTENTIAL,
        2 <= part <= 5,
    ensures
        ({
            let ps = if part == 2 {
                motion_postings(s.was(), s.me(), s.cfg)
            } else if part == 3 {
                goal_postings(s.scored, s.team(), s.cfg)
            } else if part == 4 {
                touch_postings(s.hit(), s.paid(), s.me().is_on_ground, s.cur.ball.pos.z, s.cfg)
            } else {
                play_postings(
                    s.hit(),
                    s.team(),
                    s.me(),
                    s.prev.ball,
                    s.cur.ball,
                    s.cfg,
                    sqrt,
                )
            };
            s.terms_after(terms, sqrt)[t] == booked(terms[t], ps, t)
        }),
{
    let l = LedgerView { reward: num::<F>(0), terms };
    lemma_step_is_well_booked(s.prev, s.cur, s.car_idx, s.scored, s.cfg, sqrt);
    lemma_settled_term(l, s.postings(sqrt), t);
    let x = terms[t];
    lemma_booked_parts::<F, G, S>(x, s, sqrt, t);
    let (me, was) = (s.me(), s.was());
    let p0 = seq![Posting::<F>::Count { term: T_AGENT_STEPS }];
    let p1 = boost_postings(was, me, s.cfg, sqrt);
    let p2 = motion_postings(was, me, s.cfg);
    let p3 = goal_postings(s.scored, s.team(), s.cfg);
    let p4 = touch_postings(s.hit(), s.paid(), me.is_on_ground, s.cur.ball.pos.z, s.cfg);
    let p5 = play_postings(s.hit(), s.team(), me, s.prev.ball, s.cur.ball, s.cfg, sqrt);
    let p6 = s.aerial(sqrt);
    lemma_left_alone(x, p0, t);
    lemma_boost_alone(was, me, s.cfg, sqrt, t);
    lemma_left_alone(x, p1, t);
    if part != 2 {
        lemma_motion_left(was, me, s.cfg, t);
        lemma_left_alone(x, p2, t);
    }
    let x2 = booked(x, p2, t);
    if part != 3 {
        lemma_goal_alone(s.scored, s.team(), s.cfg, t);
        lemma_left_alone(x2, p3, t);
    }
    let x3 = booked(x2, p3, t);
    if part != 4 {
        lemma_touch_left(s.hit(), s.paid(), me.is_on_ground, s.cur.ball.pos.z, s.cfg, t);
        lemma_left_alone(x3, p4, t);
    }
    let x4 = booked(x3, p4, t);
    if part != 5 {
        lemma_play_left(s.hit(), s.team(), me, s.prev.ball, s.cur.ball, s.cfg, sqrt, t);
        lemma_left_alone(x4, p5, t);
    }
    let x5 = booked(x4, p5, t);
    lemma_aerial_alone(s, sqrt, t);
    lemma_left_alone(x5, p6, t);
}

/// A goal pays the team that scored the weight of a goal, and costs the other team
/// as much, less the bias towards attack.
pub proof fn law_goals_pay<F: Scalar, G: Scalar + From<F>, S: Fn(F) -> F>(
    s: AgentStep<F>,
    terms: Seq<G>,
    sqrt: S,
)
    requires
        terms.len() == N_TERMS,
    ensures
        ({
            let after = s.terms_after(terms, sqrt);
            let mine = s.cur.cars@[s.car_idx].team;
            let lost = times(
                opposite(s.cfg.goal),
                minus(num::<F>(1), s.cfg.aggression_bias),
            );
            &&& s.scored == Some(mine) ==> adds(terms, after, T_GOAL, true, s.cfg.goal)
            &&& s.scored == Some(mine.opponent()) ==> adds(terms, after, T_GOAL, true, lost)
            &&& s.scored is None ==> adds(terms, after, T_GOAL, false, lost)
            &&& counts(terms, after, T_GOAL_EVENTS, s.scored is Some)
        }),
{
    lemma_part_books(s, terms, sqrt, T_GOAL as int, 3);
    lemma_part_books(s, terms, sqrt, T_GOAL_EVENTS as int, 3);
    let ps = goal_postings(s.scored, s.team(), s.cfg);
    reveal_with_fuel(booked, 3);
    if s.scored is Some {
        assert(ps.drop_last() =~= seq![ps[0]]);
        assert(seq![ps[0]].drop_last() =~= Seq::empty());
    }
}

/// The car touched the ball in the step: its latest contact is valid, is another
/// than before, and lies after the step began and not after it ended.
pub open spec fn touched_now<F: Scalar>(s: AgentStep<F>) -> bool {
    let now = s.cur.cars@[s.car_idx].state.ball_hit_info;
    let before = s.prev.cars@[s.car_idx].state.ball_hit_info;
    &&& now.is_valid
    &&& now.tick_count_when_hit != before.tick_count_when_hit
    &&& s.prev.tick_count < now.tick_count_when_hit
    &&& now.tick_count_when_hit <= s.cur.tick_count
}

/// A touch is paid where there is no cooldown or no contact before it, where the
/// cooldown has passed since then, and where the clock has restarted.
pub open spec fn payable<F: Scalar>(s: AgentStep<F>) -> bool {
    let now = s.cur.cars@[s.car_idx].state.ball_hit_info;
    let before = s.prev.cars@[s.car_idx].state.ball_hit_info;
    ||| s.cfg.touch_cooldown_ticks == 0
    ||| !before.is_valid
    ||| now.tick_count_when_hit < before.tick_count_when_hit
    ||| before.tick_count_when_hit + s.cfg.touch_cooldown_ticks <= now.tick_count_when_hit
}

/// The bucket of a ball's height: below 150, then up to 300, 500, 800 and 1200, and
/// from 1200 on.
pub open spec fn in_bucket<F: Scalar>(z: F, b: int) -> bool {
    let at_least = |h: int| ge(z, num::<F>(h));
    if b == 0 {
        !at_least(150)
    } else if b == 1 {
        at_least(150) && !at_least(300)
    } else if b == 2 {
        at_least(300) && !at_least(500)
    } else if b == 3 {
        at_least(500) && !at_least(800)
    } else if b == 4 {
        at_least(800) && !at_least(1200)
    } else {
        at_least(1200)
    }
}

/// The heights that a ball is at or above are all those up to some height.
pub open spec fn heights_ordered<F: Scalar>(z: F) -> bool {
    &&& ge(z, num::<F>(1200)) ==> ge(z, num::<F>(800))
    &&& ge(z, num::<F>(800)) ==> ge(z, num::<F>(500))
    &&& ge(z, num::<F>(500)) ==> ge(z, num::<F>(300))
    &&& ge(z, num::<F>(300)) ==> ge(z, num::<F>(150))
}

/// Touches: each is counted, and paid where it is payable. One made in the air is
/// also counted as such and in the bucket of the ball's height, and as an aerial
/// where the aerial ramp is set and the ball is above the height to measure from.
pub proof fn law_touches_are_counted_and_paid<F: Scalar, G: Scalar + From<F>, S: Fn(F) -> F>(
    s: AgentStep<F>,
    terms: Seq<G>,
    sqrt: S,
    b: usize,
)
    requires
        terms.len() == N_TERMS,
        b < 6,
        heights_ordered(s.cur.ball.pos.z),
    ensures
        ({
            let after = s.terms_after(terms, sqrt);
            let hit = touched_now(s);
            let flying = hit && !s.cur.cars@[s.car_idx].state.is_on_ground;
            let z = s.cur.ball.pos.z;
            let from = if gt(s.cfg.aerial_meas_z_lo, num::<F>(0)) {
                s.cfg.aerial_meas_z_lo
            } else {
                s.cfg.aerial_z_lo
            };
            let aerial = flying && gt(s.cfg.aerial_z_hi, s.cfg.aerial_z_lo) && gt(z, from);
            &&& counts(terms, after, T_TOUCH_EVENTS, hit)
            &&& adds(terms, after, T_TOUCH, hit && payable(s), s.cfg.touch)
            &&& counts(terms, after, T_AIRBORNE_TOUCH_EVENTS, flying)
            &&& counts(terms, after, T_AERIAL_TOUCH_EVENTS, aerial)
            &&& counts(
                terms,
                after,
                (T_AIR_TOUCH_Z0 + b) as usize,
                flying && in_bucket(z, b as int),
            )
        }),
{
    let z = s.cur.ball.pos.z;
    let ground = s.me().is_on_ground;
    lemma_part_books(s, terms, sqrt, T_TOUCH_EVENTS as int, 4);
    lemma_part_books(s, terms, sqrt, T_TOUCH as int, 4);
    lemma_part_books(s, terms, sqrt, T_AIRBORNE_TOUCH_EVENTS as int, 4);
    lemma_part_books(s, terms, sqrt, T_AERIAL_TOUCH_EVENTS as int, 4);
    lemma_part_books(s, terms, sqrt, T_AIR_TOUCH_Z0 + b, 4);
    lemma_touch_booked(
        terms[T_TOUCH_EVENTS as int],
        s.hit(),
        s.paid(),
        ground,
        z,
        s.cfg,
        T_TOUCH_EVENTS as int,
    );
    lemma_touch_booked(
        terms[T_TOUCH as int],
        s.hit(),
        s.paid(),
        ground,
        z,
        s.cfg,
        T_TOUCH as int,
    );
    lemma_touch_booked(
        terms[T_AIRBORNE_TOUCH_EVENTS as int],
        s.hit(),
        s.paid(),
        ground,
        z,
        s.cfg,
        T_AIRBORNE_TOUCH_EVENTS as int,
    );
    lemma_touch_booked(
        terms[T_AERIAL_TOUCH_EVENTS as int],
        s.hit(),
        s.paid(),
        ground,
        z,
        s.cfg,
        T_AERIAL_TOUCH_EVENTS as int,
    );
    lemma_touch_booked(
        terms[T_AIR_TOUCH_Z0 + b],
        s.hit(),
        s.paid(),
        ground,
        z,
        s.cfg,
        T_AIR_TOUCH_Z0 + b,
    );
}

/// What a touch books under one of its terms.
proof fn lemma_touch_booked<F: Scalar, G: Scalar + From<F>>(
    x: G,
    hit: bool,
    paid: bool,
    on_ground: bool,
    z: F,
    cfg: RewardConfig<F>,
    t: int,
)
    ensures
        ({
            let y = booked(x, touch_postings(hit, paid, on_ground, z, cfg), t);
            let one = plus(x, num::<G>(1));
            let flying = hit && !on_ground;
            &&& t == T_TOUCH_EVENTS ==> y == if hit {
                one
            } else {
                x
            }
            &&& t == T_TOUCH ==> y == if hit && paid {
                plus(x, widened::<F, G>(cfg.touch))
            } else {
                x
            }
            &&& t == T_AIRBORNE_TOUCH_EVENTS ==> y == if flying {
                one
            } else {
                x
            }
            &&& t == T_AERIAL_TOUCH_EVENTS ==> y == if flying && gt(
                cfg.aerial_z_hi,
                cfg.aerial_z_lo,
            ) && gt(z, cfg.measured_from()) {
                one
            } else {
                x
            }
            &&& T_AIR_TOUCH_Z0 <= t <= T_AIR_TOUCH_Z5 ==> y == if flying && t == T_AIR_TOUCH_Z0
                + height_bucket(z) {
                one
            } else {
                x
            }
        }),
{
    let first = seq![Posting::<F>::Count { term: T_TOUCH_EVENTS }];
    let air = if on_ground {
        seq![]
    } else {
        air_touch_postings(z, cfg)
    };
    let pay = if paid {
        seq![Posting::Pay { term: T_TOUCH, amount: cfg.touch }]
    } else {
        seq![]
    };
    if hit {
        assert(touch_postings(hit, paid, on_ground, z, cfg) == first + air + pay);
        lemma_booked_concat(x, first, air, t);
        lemma_booked_concat(x, first + air, pay, t);
        lemma_one_booked(x, first[0], t);
        let y = booked(x, first, t);
        assert(first =~= seq![first[0]]);
        if !on_ground {
            lemma_air_booked(y, z, cfg, t);
        }
        let w = booked(y, air, t);
        if paid {
            lemma_one_booked(w, pay[0], t);
            assert(pay =~= seq![pay[0]]);
        }
    }
}

proof fn lemma_one_booked<F: Scalar, G: Scalar + From<F>>(x: G, p: Posting<F>, t: int)
    ensures
        booked(x, seq![p], t) == if term_of(p) == t {
            match p {
                Posting::Pay { term, amount } => plus(x, widened::<F, G>(amount)),
                Posting::Count { term } => plus(x, num::<G>(1)),
                Posting::Tally { term, amount } => plus(x, widened::<F, G>(amount)),
            }
        } else {
            x
        },
{
    assert(seq![p].drop_last() =~= Seq::<Posting<F>>::empty());
    reveal_with_fuel(booked, 2);
}

proof fn lemma_air_booked<F: Scalar, G: Scalar + From<F>>(
    x: G,
    z: F,
    cfg: RewardConfig<F>,
    t: int,
)
    ensures
        ({
            let one = plus(x, num::<G>(1));
            booked(x, air_touch_postings(z, cfg), t) == if t == T_AIRBORNE_TOUCH_EVENTS || t
                == T_AIR_TOUCH_Z0 + height_bucket(z) {
                one
            } else if t == T_AERIAL_TOUCH_EVENTS && gt(cfg.aerial_z_hi, cfg.aerial_z_lo) && gt(
                z,
                cfg.measured_from(),
            ) {
                one
            } else {
                x
            }
        }),
{
    let ps = air_touch_postings(z, cfg);
    let (a, b) = (ps[0], ps[1]);
    assert(seq![a, b].drop_last() =~= seq![a]);
    lemma_one_booked(x, a, t);
    if ps.len() == 3 {
        assert(ps.drop_last() =~= seq![a, b]);
    } else {
        assert(ps =~= seq![a, b]);
    }
    reveal_with_fuel(booked, 3);
}

/// Motion: the start of a flip and each step in the air are counted; so is the
/// moment at which the time since the last jump reaches 1.2 seconds in the air,
/// which is paid too.
pub proof fn law_motion_is_counted<F: Scalar, G: Scalar + From<F>, S: Fn(F) -> F>(
    s: AgentStep<F>,
    terms: Seq<G>,
    sqrt: S,
)
    requires
        terms.len() == N_TERMS,
    ensures
        ({
            let after = s.terms_after(terms, sqrt);
            let me = s.cur.cars@[s.car_idx].state;
            let was = s.prev.cars@[s.car_idx].state;
            let long = over(num::<F>(12), num::<F>(10));
            let hang = !me.is_on_ground && lt(was.air_time_since_jump, long) && ge(
                me.air_time_since_jump,
                long,
            );
            &&& counts(terms, after, T_FLIP_EVENTS, me.has_flipped && !was.has_flipped)
            &&& counts(terms, after, T_AIR_DECISIONS, !me.is_on_ground && !me.is_demoed)
            &&& counts(terms, after, T_AIR_HANG_EVENTS, hang)
            &&& adds(
                terms,
                after,
                T_AIR_HANG,
                hang && !same(s.cfg.air_hang, num::<F>(0)),
                s.cfg.air_hang,
            )
        }),
{
    lemma_part_books(s, terms, sqrt, T_FLIP_EVENTS as int, 2);
    lemma_part_books(s, terms, sqrt, T_AIR_DECISIONS as int, 2);
    lemma_part_books(s, terms, sqrt, T_AIR_HANG_EVENTS as int, 2);
    lemma_part_books(s, terms, sqrt, T_AIR_HANG as int, 2);
    lemma_motion_booked(terms[T_FLIP_EVENTS as int], s.was(), s.me(), s.cfg, T_FLIP_EVENTS as int);
    lemma_motion_booked(
        terms[T_AIR_DECISIONS as int],
        s.was(),
        s.me(),
        s.cfg,
        T_AIR_DECISIONS as int,
    );
    lemma_motion_booked(
        terms[T_AIR_HANG_EVENTS as int],
        s.was(),
        s.me(),
        s.cfg,
        T_AIR_HANG_EVENTS as int,
    );
    lemma_motion_booked(terms[T_AIR_HANG as int], s.was(), s.me(), s.cfg, T_AIR_HANG as int);
}

proof fn lemma_motion_booked<F: Scalar, G: Scalar + From<F>>(
    x: G,
    was: CarState<F>,
    me: CarState<F>,
    cfg: RewardConfig<F>,
    t: int,
)
    ensures
        ({
            let y = booked(x, motion_postings(was, me, cfg), t);
            let one = plus(x, num::<G>(1));
            let long = over(num::<F>(12), num::<F>(10));
            let hang = !me.is_on_ground && lt(was.air_time_since_jump, long) && ge(
                me.air_time_since_jump,
                long,
            );
            &&& t == T_FLIP_EVENTS ==> y == if me.has_flipped && !was.has_flipped {
                one
            } else {
                x
            }
            &&& t == T_AIR_DECISIONS ==> y == if !me.is_on_ground && !me.is_demoed {
                one
            } else {
                x
            }
            &&& t == T_AIR_HANG_EVENTS ==> y == if hang {
                one
            } else {
                x
            }
            &&& t == T_AIR_HANG ==> y == if hang && !same(cfg.air_hang, num::<F>(0)) {
                plus(x, widened::<F, G>(cfg.air_hang))
            } else {
                x
            }
        }),
{
    let a = flip_postings(was, me);
    let b = airtime_postings(me);
    let c = hang_postings(was, me, cfg);
    lemma_booked_concat(x, a, b, t);
    lemma_booked_concat(x, a + b, c, t);
    let y = booked(x, a, t);
    if a.len() > 0 {
        lemma_one_booked(x, a[0], t);
        assert(a =~= seq![a[0]]);
    }
    let z = booked(y, b, t);
    if b.len() > 0 {
        lemma_one_booked(y, b[0], t);
        assert(b =~= seq![b[0]]);
    }
    if c.len() > 0 {
        lemma_one_booked(z, c[0], t);
        if c.len() == 1 {
            assert(c =~= seq![c[0]]);
        } else {
            assert(c.drop_last() =~= seq![c[0]]);
        }
        reveal_with_fuel(booked, 2);
    }
}

/// Play, term by term. Paid are the car's speed towards the ball, as a share of
/// 2300 from 0 to 1; the change of the ball's velocity at a touch, likewise; the
/// ball's speed along the field towards the opponent's goal, as a share of 6000
/// from -1 to 1; and the root of the first share times how well car, ball and goal
/// are in line.
pub proof fn law_play_pays<F: Scalar, G: Scalar + From<F>, S: Fn(F) -> F>(
    s: AgentStep<F>,
    terms: Seq<G>,
    sqrt: S,
)
    requires
        terms.len() == N_TERMS,
    ensures
        ({
            let after = s.terms_after(terms, sqrt);
            let me = s.cur.cars@[s.car_idx].state;
            let ball = s.cur.ball;
            let (zero, one) = (num::<F>(0), num::<F>(1));
            let far = if s.cur.cars@[s.car_idx].team == Team::Blue {
                num::<F>(5120)
            } else {
                num::<F>(-5120)
            };
            let d = from_to(me.pos, ball.pos);
            let speed = over(dot3(me.vel, d), length(d, sqrt));
            let near = clamped(over(speed, num::<F>(2300)), zero, one);
            let dv = from_to(s.prev.ball.vel, ball.vel);
            let kick = clamped(over(value_of(sqrt, dot3(dv, dv)), num::<F>(2300)), zero, one);
            let gx = minus(zero, ball.pos.x);
            let gy = minus(far, ball.pos.y);
            let shot = over(
                plus(times(ball.vel.x, gx), times(ball.vel.y, gy)),
                flat_length(gx, gy, sqrt),
            );
            let line = clamped(
                over(
                    plus(times(d.x, gx), times(d.y, gy)),
                    times(flat_length(d.x, d.y, sqrt), flat_length(gx, gy, sqrt)),
                ),
                zero,
                one,
            );
            &&& adds(terms, after, T_VEL_TO_BALL, true, times(s.cfg.vel_to_ball, near))
            &&& adds(
                terms,
                after,
                T_TOUCH_ACCEL,
                touched_now(s) && !same(s.cfg.touch_accel, zero),
                times(s.cfg.touch_accel, kick),
            )
            &&& adds(
                terms,
                after,
                T_VEL_BALL_TO_GOAL,
                !same(s.cfg.vel_ball_to_goal, zero),
                times(
                    s.cfg.vel_ball_to_goal,
                    clamped(over(shot, num::<F>(6000)), num::<F>(-1), one),
                ),
            )
            &&& adds(
                terms,
                after,
                T_OFFENSIVE_POTENTIAL,
                !same(s.cfg.offensive_potential, zero),
                times(s.cfg.offensive_potential, value_of(sqrt, times(near, line))),
            )
        }),
{
    lemma_part_books(s, terms, sqrt, T_VEL_TO_BALL as int, 5);
    lemma_part_books(s, terms, sqrt, T_TOUCH_ACCEL as int, 5);
    lemma_part_books(s, terms, sqrt, T_VEL_BALL_TO_GOAL as int, 5);
    lemma_part_books(s, terms, sqrt, T_OFFENSIVE_POTENTIAL as int, 5);
    lemma_play_booked(terms[T_VEL_TO_BALL as int], s, sqrt, T_VEL_TO_BALL as int);
    lemma_play_booked(terms[T_TOUCH_ACCEL as int], s, sqrt, T_TOUCH_ACCEL as int);
    lemma_play_booked(terms[T_VEL_BALL_TO_GOAL as int], s, sqrt, T_VEL_BALL_TO_GOAL as int);
    lemma_play_booked(terms[T_OFFENSIVE_POTENTIAL as int], s, sqrt, T_OFFENSIVE_POTENTIAL as int);
}

/// The sum of the products of the coordinates.
pub open spec fn dot3<F: Scalar>(a: Vec3<F>, b: Vec3<F>) -> F {
    plus(plus(times(a.x, b.x), times(a.y, b.y)), times(a.z, b.z))
}

proof fn lemma_play_booked<F: Scalar, G: Scalar + From<F>, S: Fn(F) -> F>(
    x: G,
    s: AgentStep<F>,
    sqrt: S,
    t: int,
)
    requires
        T_VEL_TO_BALL <= t <= T_OFFENSIVE_POTENTIAL,
    ensures
        ({
            let a = approach_postings(s.me(), s.cur.ball, s.cfg, sqrt);
            let b = impact_postings(
                s.hit(),
                s.prev.ball,
                s.cur.ball,
                s.cfg,
                sqrt,
            );
            let c = pressure_postings(s.team(), s.cur.ball, s.cfg, sqrt);
            let d = offense_postings(
                s.team(),
                s.me(),
                s.cur.ball,
                s.cfg,
                sqrt,
            );
            let ps = if t == T_VEL_TO_BALL {
                a
            } else if t == T_TOUCH_ACCEL {
                b
            } else if t == T_VEL_BALL_TO_GOAL {
                c
            } else {
                d
            };
            booked(
                x,
                play_postings(
                    s.hit(),
                    s.team(),
                    s.me(),
                    s.prev.ball,
                    s.cur.ball,
                    s.cfg,
                    sqrt,
                ),
                t,
            ) == if ps.len() == 0 {
                x
            } else {
                plus(x, widened::<F, G>(ps[0]->Pay_amount))
            }
        }),
{
    let a = approach_postings(s.me(), s.cur.ball, s.cfg, sqrt);
    let b = impact_postings(s.hit(), s.prev.ball, s.cur.ball, s.cfg, sqrt);
    let c = pressure_postings(s.team(), s.cur.ball, s.cfg, sqrt);
    let d = offense_postings(s.team(), s.me(), s.cur.ball, s.cfg, sqrt);
    lemma_booked_concat(x, a, b, t);
    lemma_booked_concat(x, a + b, c, t);
    lemma_booked_concat(x, a + b + c, d, t);
    lemma_one_booked(x, a[0], t);
    assert(a =~= seq![a[0]]);
    let y = booked(x, a, t);
    if b.len() > 0 {
        lemma_one_booked(y, b[0], t);
        assert(b =~= seq![b[0]]);
    }
    let z = booked(y, b, t);
    if c.len() > 0 {
        lemma_one_booked(z, c[0], t);
        assert(c =~= seq![c[0]]);
    }
    let w = booked(z, c, t);
    if d.len() > 0 {
        lemma_one_booked(w, d[0], t);
        assert(d =~= seq![d[0]]);
    }
}

/// A touch in the air pays by how high the ball is on the way from the lower to the
/// upper height of the ramp, by its impulse towards the opponent's end (up the field
/// for blue, down for orange) as a share of 2300 from -1 to 1, and by how far the
/// impulse points away from the car, from 0 to 1.
pub proof fn law_aerial_touches_pay<F: Scalar, G: Scalar + From<F>, S: Fn(F) -> F>(
    s: AgentStep<F>,
    terms: Seq<G>,
    sqrt: S,
)
    requires
        terms.len() == N_TERMS,
    ensures
        ({
            let me = s.cur.cars@[s.car_idx].state;
            let ball = s.cur.ball;
            let (zero, one) = (num::<F>(0), num::<F>(1));
            let rise = clamped(
                over(
                    minus(ball.pos.z, s.cfg.aerial_z_lo),
                    minus(s.cfg.aerial_z_hi, s.cfg.aerial_z_lo),
                ),
                zero,
                one,
            );
            let dv = from_to(s.prev.ball.vel, ball.vel);
            let d = from_to(me.pos, ball.pos);
            let side = if s.cur.cars@[s.car_idx].team == Team::Blue {
                one
            } else {
                num::<F>(-1)
            };
            let forward = clamped(
                over(times(side, dv.y), num::<F>(2300)),
                num::<F>(-1),
                one,
            );
            let away = clamped(
                over(over(dot3(dv, d), length(dv, sqrt)), length(d, sqrt)),
                zero,
                one,
            );
            adds(
                terms,
                s.terms_after(terms, sqrt),
                T_AERIAL_TOUCH,
                touched_now(s) && payable(s) && !me.is_on_ground && !same(
                    s.cfg.aerial_touch,
                    zero,
                ),
                times(times(times(s.cfg.aerial_touch, rise), forward), away),
            )
        }),
{
    law_aerial_term_grows_by_the_amount(s, terms, sqrt);
}

/// What a step adds to the terms of boost: what was collected, and what it is worth
/// by the roots of the tank before and after it. A car that was demolished collects
/// nothing.
pub proof fn law_boost_pays<F: Scalar, G: Scalar + From<F>, S: Fn(F) -> F>(
    s: AgentStep<F>,
    terms: Seq<G>,
    sqrt: S,
)
    requires
        terms.len() == N_TERMS,
    ensures
        ({
            let after = s.terms_after(terms, sqrt);
            let me = s.cur.cars@[s.car_idx].state;
            let was = s.prev.cars@[s.car_idx].state;
            let zero = num::<F>(0);
            let gained = minus(me.boost, was.boost);
            let worth = over(
                minus(
                    value_of(sqrt, larger(me.boost, zero)),
                    value_of(sqrt, larger(was.boost, zero)),
                ),
                num::<F>(10),
            );
            let collects = !was.is_demoed && gt(gained, zero);
            &&& adds(terms, after, T_BOOST_GAINED, collects, gained)
            &&& adds(
                terms,
                after,
                T_BOOST_PICKUP,
                collects && !same(s.cfg.boost_pickup, zero) && gt(worth, zero),
                times(s.cfg.boost_pickup, worth),
            )
        }),
{
    law_boost_terms_grow_by_the_climb(s, terms, sqrt);
}

/// What the rules ask of the weights. Those of the aerial terms bind only where one
/// of them is on, those of the win probability only where it is on.
pub proof fn law_accepted_weights_keep_the_rules<F: Scalar>(cfg: RewardConfig<F>)
    ensures
        ({
            let zero = num::<F>(0);
            let radius = over(num::<F>(9315), num::<F>(100));
            let setup_set = !same(cfg.air_setup_z_lo, zero) || !same(cfg.air_setup_z_hi, zero);
            let aerial_on = !same(cfg.aerial_touch, zero) || !same(cfg.air_setup, zero);
            let aerial_ok = gt(cfg.aerial_z_hi, cfg.aerial_z_lo) && !lt(cfg.aerial_z_lo, radius)
                && (same(cfg.aerial_meas_z_lo, zero) || !lt(cfg.aerial_meas_z_lo, radius)) && (
            setup_set ==> gt(cfg.air_setup_z_hi, cfg.air_setup_z_lo) && !lt(
                cfg.air_setup_z_lo,
                radius,
            )) && (same(cfg.air_setup, zero) || gt(cfg.win_prob_gamma, zero));
            let win_on = !same(cfg.win_prob_weight, zero);
            let win_ok = !le(cfg.win_prob_k_base, zero) && ge(cfg.win_prob_t_floor, zero) && lt(
                cfg.win_prob_t_floor,
                num::<F>(1),
            ) && !le(cfg.win_prob_t_floor, zero);
            &&& cfg.fault() is None <==> (aerial_on ==> aerial_ok) && (win_on ==> win_ok)
            &&& cfg.aerial_fault() is None <==> (aerial_on ==> aerial_ok)
        }),
{
}

/// The setup potential: zero on the ground; in the air how high the ball is on its
/// ramp, times how near the car is, from 1 at the ball to 0 at a distance of 2500.
/// The setup ramp counts where it is set, and the payout ramp where it is not.
pub proof fn law_setup_potential<F: Scalar, S: Fn(F) -> F>(
    gs: GameState<F>,
    car_idx: int,
    cfg: RewardConfig<F>,
    sqrt: S,
)
    ensures
        ({
            let me = gs.cars@[car_idx].state;
            let (zero, one) = (num::<F>(0), num::<F>(1));
            let own = gt(cfg.air_setup_z_hi, cfg.air_setup_z_lo);
            let lo = if own {
                cfg.air_setup_z_lo
            } else {
                cfg.aerial_z_lo
            };
            let hi = if own {
                cfg.air_setup_z_hi
            } else {
                cfg.aerial_z_hi
            };
            let d = from_to(me.pos, gs.ball.pos);
            let rise = clamped(over(minus(gs.ball.pos.z, lo), minus(hi, lo)), zero, one);
            let near = clamped(
                minus(one, over(value_of(sqrt, dot3(d, d)), num::<F>(2500))),
                zero,
                one,
            );
            car_air_potential(gs, car_idx, cfg, sqrt) == if me.is_on_ground {
                zero
            } else {
                times(rise, near)
            }
        }),
{
}

} // verus!
