//! The payments of one step.
//!
//! The reward of a step is a ledger: a list of postings, each of which pays an
//! amount, counts an event or tallies a quantity. Paid amounts add up to the
//! reward in the order of the list; every posting is also added to its
//! telemetry term.

use crate::reward::config::RewardConfig;
use crate::reward::shaping::{between, dot, inner, vec_between};
use crate::reward::telemetry::{all_well_booked, lemma_step_is_well_booked, well_booked};
use crate::scalar::{
    apply, clamp, clamped, frac, functional, ge, gt, larger, lt, max_of, minus, negate, num,
    opposite, over, plus, ratio, same, times, total, value_of, whole, widen, widened, widens,
    Scalar,
};
use crate::sim::{BallHitInfo, BallState, CarState, GameState, Team, Vec3};
use vstd::prelude::*;

verus! {

/// Number of telemetry terms.
pub const N_TERMS: usize = 26;

pub const T_GOAL: usize = 0;

pub const T_TOUCH: usize = 1;

pub const T_VEL_TO_BALL: usize = 2;

pub const T_TOUCH_ACCEL: usize = 3;

pub const T_VEL_BALL_TO_GOAL: usize = 4;

pub const T_OFFENSIVE_POTENTIAL: usize = 5;

pub const T_AERIAL_TOUCH: usize = 6;

pub const T_AIR_SETUP: usize = 7;

pub const T_WIN_PROB: usize = 8;

pub const T_TOUCH_EVENTS: usize = 9;

pub const T_AIRBORNE_TOUCH_EVENTS: usize = 10;

pub const T_GOAL_EVENTS: usize = 11;

pub const T_AGENT_STEPS: usize = 12;

pub const T_AERIAL_TOUCH_EVENTS: usize = 13;

pub const T_AIR_TOUCH_Z0: usize = 14;

pub const T_AIR_TOUCH_Z1: usize = 15;

pub const T_AIR_TOUCH_Z2: usize = 16;

pub const T_AIR_TOUCH_Z3: usize = 17;

pub const T_AIR_TOUCH_Z4: usize = 18;

pub const T_AIR_TOUCH_Z5: usize = 19;

pub const T_BOOST_PICKUP: usize = 20;

pub const T_BOOST_GAINED: usize = 21;

pub const T_FLIP_EVENTS: usize = 22;

pub const T_AIR_HANG: usize = 23;

pub const T_AIR_HANG_EVENTS: usize = 24;

pub const T_AIR_DECISIONS: usize = 25;

/// Names of the telemetry terms.
pub const TERM_NAMES: [&'static str; 26] = [
    "goal",
    "touch",
    "vel_to_ball",
    "touch_accel",
    "vel_ball_to_goal",
    "offensive_potential",
    "aerial_touch",
    "air_setup",
    "win_prob",
    "touch_events",
    "airborne_touch_events",
    "goal_events",
    "agent_steps",
    "gated_aerial_touch_events",
    "air_touch_z_lt150",
    "air_touch_z_150_300",
    "air_touch_z_300_500",
    "air_touch_z_500_800",
    "air_touch_z_800_1200",
    "air_touch_z_ge1200",
    "boost_pickup",
    "boost_gained",
    "flip_events",
    "air_hang",
    "air_hang_events",
    "air_decisions",
];

/// Seconds after a jump from which a car counts as hanging in the air.
pub open spec fn hang_threshold<F: Scalar>() -> F {
    frac::<F>(12, 10)
}

/// Seconds after a jump from which a car counts as hanging in the air.
pub fn air_hang_t<F: Scalar>() -> (r: F)
    requires
        total::<F>(),
    ensures
        r == hang_threshold::<F>(),
{
    ratio(12, 10)
}

/// One entry of the ledger of a step.
pub enum Posting<F> {
    /// Pays an amount.
    Pay { term: usize, amount: F },
    /// Counts an event.
    Count { term: usize },
    /// Records a quantity that is not paid.
    Tally { term: usize, amount: F },
}

/// Reward and telemetry.
pub struct LedgerView<F, G> {
    pub reward: F,
    pub terms: Seq<G>,
}

/// Reward and telemetry after one posting.
pub open spec fn posted<F: Scalar, G: Scalar + From<F>>(
    l: LedgerView<F, G>,
    p: Posting<F>,
) -> LedgerView<F, G> {
    match p {
        Posting::Pay { term, amount } => LedgerView {
            reward: plus(l.reward, amount),
            terms: l.terms.update(
                term as int,
                plus(l.terms[term as int], widened::<F, G>(amount)),
            ),
        },
        Posting::Count { term } => LedgerView {
            reward: l.reward,
            terms: l.terms.update(term as int, plus(l.terms[term as int], num::<G>(1))),
        },
        Posting::Tally { term, amount } => LedgerView {
            reward: l.reward,
            terms: l.terms.update(
                term as int,
                plus(l.terms[term as int], widened::<F, G>(amount)),
            ),
        },
    }
}

/// Reward and telemetry after a list of postings.
pub open spec fn settled<F: Scalar, G: Scalar + From<F>>(
    l: LedgerView<F, G>,
    ps: Seq<Posting<F>>,
) -> LedgerView<F, G>
    decreases ps.len(),
{
    if ps.len() == 0 {
        l
    } else {
        posted(settled(l, ps.drop_last()), ps.last())
    }
}

/// One millionth: the least length that anything is divided by.
pub open spec fn tiny<F: Scalar>() -> F {
    over(num::<F>(1), times(num::<F>(1000), num::<F>(1000)))
}

fn make_tiny<F: Scalar>() -> (r: F)
    requires
        total::<F>(),
    ensures
        r == tiny::<F>(),
{
    let k: F = whole(1000);
    let one: F = whole(1);
    one / (k * k)
}

/// `x` as a share of `full`, from 0 to 1.
pub open spec fn share<F: Scalar>(x: F, full: int) -> F {
    clamped(over(x, num::<F>(full)), num::<F>(0), num::<F>(1))
}

/// `x` as a share of `full`, from -1 to 1.
pub open spec fn signed_share<F: Scalar>(x: F, full: int) -> F {
    clamped(over(x, num::<F>(full)), num::<F>(-1), num::<F>(1))
}

/// What boost is worth that was raised from `was` to `now`: the change of its
/// square root, from 0 to 1. A negative reading counts as an empty tank.
pub open spec fn climb<F: Scalar, S: Fn(F) -> F>(was: F, now: F, sqrt: S) -> F {
    let zero = num::<F>(0);
    over(
        minus(value_of(sqrt, larger(now, zero)), value_of(sqrt, larger(was, zero))),
        num::<F>(10),
    )
}

/// Boost collected. A car that was demolished collects nothing: it is given
/// boost when it comes back.
pub open spec fn boost_postings<F: Scalar, S: Fn(F) -> F>(
    was: CarState<F>,
    me: CarState<F>,
    cfg: RewardConfig<F>,
    sqrt: S,
) -> Seq<Posting<F>> {
    let gained = minus(me.boost, was.boost);
    let zero = num::<F>(0);
    let g = climb(was.boost, me.boost, sqrt);
    if was.is_demoed || !gt(gained, zero) {
        seq![]
    } else if same(cfg.boost_pickup, zero) || !gt(g, zero) {
        seq![Posting::Tally { term: T_BOOST_GAINED, amount: gained }]
    } else {
        seq![
            Posting::Tally { term: T_BOOST_GAINED, amount: gained },
            Posting::Pay { term: T_BOOST_PICKUP, amount: times(cfg.boost_pickup, g) },
        ]
    }
}

/// The start of a flip.
pub open spec fn flip_postings<F: Scalar>(was: CarState<F>, me: CarState<F>) -> Seq<Posting<F>> {
    if me.has_flipped && !was.has_flipped {
        seq![Posting::Count { term: T_FLIP_EVENTS }]
    } else {
        seq![]
    }
}

/// A step spent in the air.
pub open spec fn airtime_postings<F: Scalar>(me: CarState<F>) -> Seq<Posting<F>> {
    if !me.is_on_ground && !me.is_demoed {
        seq![Posting::Count { term: T_AIR_DECISIONS }]
    } else {
        seq![]
    }
}

/// The moment at which the time since the last jump passes the threshold.
pub open spec fn hang_postings<F: Scalar>(
    was: CarState<F>,
    me: CarState<F>,
    cfg: RewardConfig<F>,
) -> Seq<Posting<F>> {
    if !me.is_on_ground && lt(was.air_time_since_jump, hang_threshold::<F>()) && ge(
        me.air_time_since_jump,
        hang_threshold::<F>(),
    ) {
        if same(cfg.air_hang, num::<F>(0)) {
            seq![Posting::Count { term: T_AIR_HANG_EVENTS }]
        } else {
            seq![
                Posting::Count { term: T_AIR_HANG_EVENTS },
                Posting::Pay { term: T_AIR_HANG, amount: cfg.air_hang },
            ]
        }
    } else {
        seq![]
    }
}

/// What a goal of `team` pays a car of team `mine`.
pub open spec fn goal_amount<F: Scalar>(team: Team, mine: Team, cfg: RewardConfig<F>) -> F {
    if team == mine {
        cfg.goal
    } else {
        times(opposite(cfg.goal), minus(num::<F>(1), cfg.aggression_bias))
    }
}

/// A goal.
pub open spec fn goal_postings<F: Scalar>(
    scored: Option<Team>,
    mine: Team,
    cfg: RewardConfig<F>,
) -> Seq<Posting<F>> {
    match scored {
        Some(team) => seq![
            Posting::Pay { term: T_GOAL, amount: goal_amount(team, mine, cfg) },
            Posting::Count { term: T_GOAL_EVENTS },
        ],
        None => seq![],
    }
}

/// Whether the latest contact is new and lies within the step's ticks.
pub open spec fn touched(
    before: BallHitInfo,
    now: BallHitInfo,
    prev_tick: u64,
    cur_tick: u64,
) -> bool {
    &&& now.is_valid
    &&& now.tick_count_when_hit != before.tick_count_when_hit
    &&& prev_tick < now.tick_count_when_hit <= cur_tick
}

/// Whether a contact is far enough from the one before to be paid. Without a
/// cooldown, without an earlier contact and after the tick count restarted it
/// always is.
pub open spec fn cooled_down(before: BallHitInfo, now: BallHitInfo, cooldown: u32) -> bool {
    ||| cooldown == 0
    ||| !before.is_valid
    ||| now.tick_count_when_hit < before.tick_count_when_hit
    ||| now.tick_count_when_hit - before.tick_count_when_hit >= cooldown
}

/// How many of the height edges a ball at height `z` is at or above.
pub open spec fn height_bucket<F: Scalar>(z: F) -> int {
    (if ge(z, num::<F>(150)) {
        1int
    } else {
        0
    }) + (if ge(z, num::<F>(300)) {
        1int
    } else {
        0
    }) + (if ge(z, num::<F>(500)) {
        1int
    } else {
        0
    }) + (if ge(z, num::<F>(800)) {
        1int
    } else {
        0
    }) + (if ge(z, num::<F>(1200)) {
        1int
    } else {
        0
    })
}

/// Counters of a touch made in the air: the touch, its height, and whether it is
/// high enough to be an aerial.
pub open spec fn air_touch_postings<F: Scalar>(ball_z: F, cfg: RewardConfig<F>) -> Seq<Posting<F>> {
    let counted = seq![
        Posting::<F>::Count { term: T_AIRBORNE_TOUCH_EVENTS },
        Posting::<F>::Count { term: (T_AIR_TOUCH_Z0 + height_bucket(ball_z)) as usize },
    ];
    if gt(cfg.aerial_z_hi, cfg.aerial_z_lo) && gt(ball_z, cfg.measured_from()) {
        counted.push(Posting::Count { term: T_AERIAL_TOUCH_EVENTS })
    } else {
        counted
    }
}

/// A touch.
pub open spec fn touch_postings<F: Scalar>(
    hit: bool,
    paid: bool,
    on_ground: bool,
    ball_z: F,
    cfg: RewardConfig<F>,
) -> Seq<Posting<F>> {
    if !hit {
        seq![]
    } else {
        seq![Posting::<F>::Count { term: T_TOUCH_EVENTS }] + (if on_ground {
            seq![]
        } else {
            air_touch_postings(ball_z, cfg)
        }) + (if paid {
            seq![Posting::Pay { term: T_TOUCH, amount: cfg.touch }]
        } else {
            seq![]
        })
    }
}

/// Length of a vector, at least `tiny`.
pub open spec fn length<F: Scalar, S: Fn(F) -> F>(v: Vec3<F>, sqrt: S) -> F {
    larger(value_of(sqrt, inner(v, v)), tiny())
}

/// Length of a vector in the plane, at least `tiny`.
pub open spec fn flat_length<F: Scalar, S: Fn(F) -> F>(x: F, y: F, sqrt: S) -> F {
    larger(value_of(sqrt, plus(times(x, x), times(y, y))), tiny())
}

/// Speed of a car towards the ball.
pub open spec fn approach<F: Scalar, S: Fn(F) -> F>(
    me: CarState<F>,
    ball: BallState<F>,
    sqrt: S,
) -> F {
    let d = vec_between(me.pos, ball.pos);
    over(inner(me.vel, d), length(d, sqrt))
}

/// Where the opponent's goal stands on the y axis.
pub open spec fn target_y<F: Scalar>(team: Team) -> F {
    match team {
        Team::Blue => num::<F>(5120),
        Team::Orange => num::<F>(-5120),
    }
}

/// Payment for speed towards the ball.
pub open spec fn approach_postings<F: Scalar, S: Fn(F) -> F>(
    me: CarState<F>,
    ball: BallState<F>,
    cfg: RewardConfig<F>,
    sqrt: S,
) -> Seq<Posting<F>> {
    seq![
        Posting::Pay {
            term: T_VEL_TO_BALL,
            amount: times(cfg.vel_to_ball, share(approach(me, ball, sqrt), 2300)),
        },
    ]
}

/// Payment for the impact of a touch.
pub open spec fn impact_postings<F: Scalar, S: Fn(F) -> F>(
    hit: bool,
    before: BallState<F>,
    now: BallState<F>,
    cfg: RewardConfig<F>,
    sqrt: S,
) -> Seq<Posting<F>> {
    let dv = vec_between(before.vel, now.vel);
    if same(cfg.touch_accel, num::<F>(0)) || !hit {
        seq![]
    } else {
        seq![
            Posting::Pay {
                term: T_TOUCH_ACCEL,
                amount: times(cfg.touch_accel, share(value_of(sqrt, inner(dv, dv)), 2300)),
            },
        ]
    }
}

/// Payment for ball speed towards the opponent's goal.
pub open spec fn pressure_postings<F: Scalar, S: Fn(F) -> F>(
    team: Team,
    ball: BallState<F>,
    cfg: RewardConfig<F>,
    sqrt: S,
) -> Seq<Posting<F>> {
    let gx = minus(num::<F>(0), ball.pos.x);
    let gy = minus(target_y::<F>(team), ball.pos.y);
    let toward = over(
        plus(times(ball.vel.x, gx), times(ball.vel.y, gy)),
        flat_length(gx, gy, sqrt),
    );
    if same(cfg.vel_ball_to_goal, num::<F>(0)) {
        seq![]
    } else {
        seq![
            Posting::Pay {
                term: T_VEL_BALL_TO_GOAL,
                amount: times(cfg.vel_ball_to_goal, signed_share(toward, 6000)),
            },
        ]
    }
}

/// Payment for speed towards a ball that lies before the opponent's goal.
pub open spec fn offense_postings<F: Scalar, S: Fn(F) -> F>(
    team: Team,
    me: CarState<F>,
    ball: BallState<F>,
    cfg: RewardConfig<F>,
    sqrt: S,
) -> Seq<Posting<F>> {
    let gx = minus(num::<F>(0), ball.pos.x);
    let gy = minus(target_y::<F>(team), ball.pos.y);
    let cx = minus(ball.pos.x, me.pos.x);
    let cy = minus(ball.pos.y, me.pos.y);
    let align = clamped(
        over(
            plus(times(cx, gx), times(cy, gy)),
            times(flat_length(cx, cy, sqrt), flat_length(gx, gy, sqrt)),
        ),
        num::<F>(0),
        num::<F>(1),
    );
    if same(cfg.offensive_potential, num::<F>(0)) {
        seq![]
    } else {
        seq![
            Posting::Pay {
                term: T_OFFENSIVE_POTENTIAL,
                amount: times(
                    cfg.offensive_potential,
                    value_of(sqrt, times(share(approach(me, ball, sqrt), 2300), align)),
                ),
            },
        ]
    }
}

/// How far an impulse points towards the opponent's end, from -1 to 1.
pub open spec fn forward_share<F: Scalar>(team: Team, dv: Vec3<F>) -> F {
    let side = match team {
        Team::Blue => num::<F>(1),
        Team::Orange => num::<F>(-1),
    };
    signed_share(times(side, dv.y), 2300)
}

/// How far an impulse points along an offset, from 0 to 1.
pub open spec fn aim<F: Scalar, S: Fn(F) -> F>(dv: Vec3<F>, d: Vec3<F>, sqrt: S) -> F {
    clamped(
        over(over(inner(dv, d), length(dv, sqrt)), length(d, sqrt)),
        num::<F>(0),
        num::<F>(1),
    )
}

/// What a touch in the air pays that gave the ball, at height `z` and offset `d`
/// from the car, the impulse `dv`.
pub open spec fn aerial_amount<F: Scalar, S: Fn(F) -> F>(
    team: Team,
    dv: Vec3<F>,
    d: Vec3<F>,
    z: F,
    cfg: RewardConfig<F>,
    sqrt: S,
) -> F {
    times(
        times(times(cfg.aerial_touch, cfg.height_ramp_at(z)), forward_share(team, dv)),
        aim(dv, d, sqrt),
    )
}

/// Payment for a touch in the air: by the ball's height, by the impulse towards
/// the opponent's end, and by how far the impulse points away from the car.
pub open spec fn aerial_postings<F: Scalar, S: Fn(F) -> F>(
    hit: bool,
    paid: bool,
    team: Team,
    me: CarState<F>,
    before: BallState<F>,
    now: BallState<F>,
    cfg: RewardConfig<F>,
    sqrt: S,
) -> Seq<Posting<F>> {
    if same(cfg.aerial_touch, num::<F>(0)) || !hit || me.is_on_ground || !paid {
        seq![]
    } else {
        seq![
            Posting::Pay {
                term: T_AERIAL_TOUCH,
                amount: aerial_amount(
                    team,
                    vec_between(before.vel, now.vel),
                    vec_between(me.pos, now.pos),
                    now.pos.z,
                    cfg,
                    sqrt,
                ),
            },
        ]
    }
}

/// What a car does on its own: flips, time in the air, hanging.
pub open spec fn motion_postings<F: Scalar>(
    was: CarState<F>,
    me: CarState<F>,
    cfg: RewardConfig<F>,
) -> Seq<Posting<F>> {
    flip_postings(was, me) + airtime_postings(me) + hang_postings(was, me, cfg)
}

/// Payments for where ball and car go.
pub open spec fn play_postings<F: Scalar, S: Fn(F) -> F>(
    hit: bool,
    team: Team,
    me: CarState<F>,
    before: BallState<F>,
    now: BallState<F>,
    cfg: RewardConfig<F>,
    sqrt: S,
) -> Seq<Posting<F>> {
    approach_postings(me, now, cfg, sqrt) + impact_postings(hit, before, now, cfg, sqrt)
        + pressure_postings(team, now, cfg, sqrt) + offense_postings(team, me, now, cfg, sqrt)
}

/// The ledger of one agent's step.
pub open spec fn step_postings<F: Scalar, S: Fn(F) -> F>(
    prev: GameState<F>,
    cur: GameState<F>,
    car_idx: int,
    scored: Option<Team>,
    cfg: RewardConfig<F>,
    sqrt: S,
) -> Seq<Posting<F>> {
    let me = cur.cars@[car_idx].state;
    let was = prev.cars@[car_idx].state;
    let team = cur.cars@[car_idx].team;
    let hit = touched(was.ball_hit_info, me.ball_hit_info, prev.tick_count, cur.tick_count);
    let paid = cooled_down(was.ball_hit_info, me.ball_hit_info, cfg.touch_cooldown_ticks);
    seq![Posting::<F>::Count { term: T_AGENT_STEPS }] + boost_postings(was, me, cfg, sqrt)
        + motion_postings(was, me, cfg) + goal_postings(scored, team, cfg) + touch_postings(
        hit,
        paid,
        me.is_on_ground,
        cur.ball.pos.z,
        cfg,
    ) + play_postings(hit, team, me, prev.ball, cur.ball, cfg, sqrt) + aerial_postings(
        hit,
        paid,
        team,
        me,
        prev.ball,
        cur.ball,
        cfg,
        sqrt,
    )
}

/// `start` and the paid amounts of a ledger, added up in order.
pub open spec fn paid_total<F: Scalar>(start: F, ps: Seq<Posting<F>>) -> F
    decreases ps.len(),
{
    if ps.len() == 0 {
        start
    } else {
        let before = paid_total(start, ps.drop_last());
        match ps.last() {
            Posting::Pay { term, amount } => plus(before, amount),
            _ => before,
        }
    }
}

/// The reward is the sum of the paid amounts, whatever the telemetry: with and
/// without telemetry the same is paid.
pub proof fn law_telemetry_does_not_pay<F: Scalar, G: Scalar + From<F>>(
    l: LedgerView<F, G>,
    ps: Seq<Posting<F>>,
)
    ensures
        settled(l, ps).reward == paid_total(l.reward, ps),
    decreases ps.len(),
{
    if ps.len() > 0 {
        law_telemetry_does_not_pay(l, ps.drop_last());
    }
}

fn post_boost<F: Scalar, S: Fn(F) -> F>(
    ps: &mut Vec<Posting<F>>,
    was: &CarState<F>,
    me: &CarState<F>,
    cfg: &RewardConfig<F>,
    sqrt: &S,
)
    requires
        total::<F>(),
        functional(*sqrt),
    ensures
        final(ps)@ =~= old(ps)@ + boost_postings(*was, *me, *cfg, *sqrt),
{
    if was.is_demoed {
        return ;
    }
    let zero: F = whole(0);
    let gained: F = me.boost - was.boost;
    if gained > zero {
        ps.push(Posting::Tally { term: T_BOOST_GAINED, amount: gained });
        if cfg.boost_pickup != zero {
            let ten: F = whole(10);
            let g: F = (apply(sqrt, max_of(me.boost, zero)) - apply(sqrt, max_of(was.boost, zero)))
                / ten;
            if g > zero {
                ps.push(Posting::Pay { term: T_BOOST_PICKUP, amount: cfg.boost_pickup * g });
            }
        }
    }
}

fn post_motion<F: Scalar>(
    ps: &mut Vec<Posting<F>>,
    was: &CarState<F>,
    me: &CarState<F>,
    cfg: &RewardConfig<F>,
)
    requires
        total::<F>(),
    ensures
        final(ps)@ =~= old(ps)@ + motion_postings(*was, *me, *cfg),
{
    if me.has_flipped && !was.has_flipped {
        ps.push(Posting::Count { term: T_FLIP_EVENTS });
    }
    if !me.is_on_ground && !me.is_demoed {
        ps.push(Posting::Count { term: T_AIR_DECISIONS });
    }
    let t: F = air_hang_t();
    if !me.is_on_ground && was.air_time_since_jump < t && me.air_time_since_jump >= t {
        ps.push(Posting::Count { term: T_AIR_HANG_EVENTS });
        let zero: F = whole(0);
        if cfg.air_hang != zero {
            ps.push(Posting::Pay { term: T_AIR_HANG, amount: cfg.air_hang });
        }
    }
}

fn post_goal<F: Scalar>(
    ps: &mut Vec<Posting<F>>,
    scored: Option<Team>,
    mine: Team,
    cfg: &RewardConfig<F>,
)
    requires
        total::<F>(),
    ensures
        final(ps)@ =~= old(ps)@ + goal_postings(scored, mine, *cfg),
{
    if let Some(team) = scored {
        let g: F = if team == mine {
            cfg.goal
        } else {
            let one: F = whole(1);
            negate(cfg.goal) * (one - cfg.aggression_bias)
        };
        ps.push(Posting::Pay { term: T_GOAL, amount: g });
        ps.push(Posting::Count { term: T_GOAL_EVENTS });
    }
}

/// How many of the height edges a ball at height `z` is at or above.
fn bucket_of<F: Scalar>(z: F) -> (b: usize)
    requires
        total::<F>(),
    ensures
        b == height_bucket(z),
{
    let e0: F = whole(150);
    let e1: F = whole(300);
    let e2: F = whole(500);
    let e3: F = whole(800);
    let e4: F = whole(1200);
    let mut b: usize = 0;
    if z >= e0 {
        b = b + 1;
    }
    if z >= e1 {
        b = b + 1;
    }
    if z >= e2 {
        b = b + 1;
    }
    if z >= e3 {
        b = b + 1;
    }
    if z >= e4 {
        b = b + 1;
    }
    b
}

fn post_touch<F: Scalar>(
    ps: &mut Vec<Posting<F>>,
    hit: bool,
    paid: bool,
    on_ground: bool,
    ball_z: F,
    cfg: &RewardConfig<F>,
)
    requires
        total::<F>(),
    ensures
        final(ps)@ =~= old(ps)@ + touch_postings(hit, paid, on_ground, ball_z, *cfg),
{
    if !hit {
        return ;
    }
    ps.push(Posting::Count { term: T_TOUCH_EVENTS });
    if !on_ground {
        ps.push(Posting::Count { term: T_AIRBORNE_TOUCH_EVENTS });
        ps.push(Posting::Count { term: T_AIR_TOUCH_Z0 + bucket_of(ball_z) });
        if cfg.aerial_z_hi > cfg.aerial_z_lo && ball_z > cfg.meas_z_lo() {
            ps.push(Posting::Count { term: T_AERIAL_TOUCH_EVENTS });
        }
    }
    if paid {
        ps.push(Posting::Pay { term: T_TOUCH, amount: cfg.touch });
    }
}

fn length_of<F: Scalar, S: Fn(F) -> F>(v: Vec3<F>, sqrt: &S) -> (r: F)
    requires
        total::<F>(),
        functional(*sqrt),
    ensures
        r == length(v, *sqrt),
{
    max_of(apply(sqrt, dot(v, v)), make_tiny())
}

fn flat_length_of<F: Scalar, S: Fn(F) -> F>(x: F, y: F, sqrt: &S) -> (r: F)
    requires
        total::<F>(),
        functional(*sqrt),
    ensures
        r == flat_length(x, y, *sqrt),
{
    max_of(apply(sqrt, x * x + y * y), make_tiny())
}

fn share_of<F: Scalar>(x: F, full: i16) -> (r: F)
    requires
        total::<F>(),
    ensures
        r == share(x, full as int),
{
    let n: F = whole(full);
    clamp(x / n, whole(0), whole(1))
}

fn signed_share_of<F: Scalar>(x: F, full: i16) -> (r: F)
    requires
        total::<F>(),
    ensures
        r == signed_share(x, full as int),
{
    let n: F = whole(full);
    clamp(x / n, whole(-1), whole(1))
}

fn target<F: Scalar>(team: Team) -> (r: F)
    requires
        total::<F>(),
    ensures
        r == target_y::<F>(team),
{
    match team {
        Team::Blue => whole(5120),
        Team::Orange => whole(-5120),
    }
}

fn post_play<F: Scalar, S: Fn(F) -> F>(
    ps: &mut Vec<Posting<F>>,
    hit: bool,
    team: Team,
    me: &CarState<F>,
    before: &BallState<F>,
    now: &BallState<F>,
    cfg: &RewardConfig<F>,
    sqrt: &S,
)
    requires
        total::<F>(),
        functional(*sqrt),
    ensures
        final(ps)@ =~= old(ps)@ + play_postings(hit, team, *me, *before, *now, *cfg, *sqrt),
{
    let zero: F = whole(0);
    let to_ball: Vec3<F> = between(me.pos, now.pos);
    let proj: F = dot(me.vel, to_ball) / length_of(to_ball, sqrt);
    ps.push(
        Posting::Pay { term: T_VEL_TO_BALL, amount: cfg.vel_to_ball * share_of(proj, 2300) },
    );
    if cfg.touch_accel != zero && hit {
        let dv: Vec3<F> = between(before.vel, now.vel);
        let amount: F = cfg.touch_accel * share_of(apply(sqrt, dot(dv, dv)), 2300);
        ps.push(Posting::Pay { term: T_TOUCH_ACCEL, amount });
    }
    let gx: F = zero - now.pos.x;
    let gy: F = target::<F>(team) - now.pos.y;
    if cfg.vel_ball_to_goal != zero {
        let toward: F = (now.vel.x * gx + now.vel.y * gy) / flat_length_of(gx, gy, sqrt);
        let amount: F = cfg.vel_ball_to_goal * signed_share_of(toward, 6000);
        ps.push(Posting::Pay { term: T_VEL_BALL_TO_GOAL, amount });
    }
    if cfg.offensive_potential != zero {
        let cx: F = now.pos.x - me.pos.x;
        let cy: F = now.pos.y - me.pos.y;
        let align: F = clamp(
            (cx * gx + cy * gy) / (flat_length_of(cx, cy, sqrt) * flat_length_of(gx, gy, sqrt)),
            zero,
            whole(1),
        );
        let amount: F = cfg.offensive_potential * apply(sqrt, share_of(proj, 2300) * align);
        ps.push(Posting::Pay { term: T_OFFENSIVE_POTENTIAL, amount });
    }
}

fn post_aerial<F: Scalar, S: Fn(F) -> F>(
    ps: &mut Vec<Posting<F>>,
    hit: bool,
    paid: bool,
    team: Team,
    me: &CarState<F>,
    before: &BallState<F>,
    now: &BallState<F>,
    cfg: &RewardConfig<F>,
    sqrt: &S,
)
    requires
        total::<F>(),
        functional(*sqrt),
    ensures
        final(ps)@ =~= old(ps)@ + aerial_postings(
            hit,
            paid,
            team,
            *me,
            *before,
            *now,
            *cfg,
            *sqrt,
        ),
{
    let zero: F = whole(0);
    if cfg.aerial_touch != zero && hit && !me.is_on_ground && paid {
        let h: F = cfg.height_ramp(now.pos.z);
        let dv: Vec3<F> = between(before.vel, now.vel);
        let d: Vec3<F> = between(me.pos, now.pos);
        let side: F = match team {
            Team::Blue => whole(1),
            Team::Orange => whole(-1),
        };
        let fwd: F = signed_share_of(side * dv.y, 2300);
        let mine: F = clamp(dot(dv, d) / length_of(dv, sqrt) / length_of(d, sqrt), zero, whole(1));
        let amount: F = cfg.aerial_touch * h * fwd * mine;
        ps.push(Posting::Pay { term: T_AERIAL_TOUCH, amount });
    }
}

/// The ledger of one agent for the step from `prev` to `cur`.
fn postings_of<F: Scalar, S: Fn(F) -> F>(
    prev: &GameState<F>,
    cur: &GameState<F>,
    car_idx: usize,
    scored: Option<Team>,
    cfg: &RewardConfig<F>,
    sqrt: &S,
) -> (ps: Vec<Posting<F>>)
    requires
        total::<F>(),
        functional(*sqrt),
        car_idx < prev.cars@.len(),
        car_idx < cur.cars@.len(),
    ensures
        ps@ == step_postings(*prev, *cur, car_idx as int, scored, *cfg, *sqrt),
{
    let me = &cur.cars[car_idx].state;
    let was = &prev.cars[car_idx].state;
    let team: Team = cur.cars[car_idx].team;
    let now = me.ball_hit_info;
    let before = was.ball_hit_info;
    let hit: bool = now.is_valid && now.tick_count_when_hit != before.tick_count_when_hit
        && now.tick_count_when_hit > prev.tick_count && now.tick_count_when_hit <= cur.tick_count;
    let paid: bool = cfg.touch_cooldown_ticks == 0 || !before.is_valid || now.tick_count_when_hit
        < before.tick_count_when_hit || now.tick_count_when_hit - before.tick_count_when_hit
        >= cfg.touch_cooldown_ticks as u64;
    let mut ps: Vec<Posting<F>> = Vec::new();
    ps.push(Posting::Count { term: T_AGENT_STEPS });
    assert(ps@ =~= seq![Posting::<F>::Count { term: T_AGENT_STEPS }]);
    post_boost(&mut ps, was, me, cfg, sqrt);
    post_motion(&mut ps, was, me, cfg);
    post_goal(&mut ps, scored, team, cfg);
    post_touch(&mut ps, hit, paid, me.is_on_ground, cur.ball.pos.z, cfg);
    post_play(&mut ps, hit, team, me, &prev.ball, &cur.ball, cfg, sqrt);
    post_aerial(&mut ps, hit, paid, team, me, &prev.ball, &cur.ball, cfg, sqrt);
    ps
}

/// The reward of one agent for the step from `prev` to `cur`, with every
/// posting added to its telemetry term.
pub fn compute_terms<F: Scalar, G: Scalar + From<F>, S: Fn(F) -> F>(
    prev: &GameState<F>,
    cur: &GameState<F>,
    car_idx: usize,
    scored: Option<Team>,
    cfg: &RewardConfig<F>,
    terms: &mut [G; 26],
    sqrt: &S,
) -> (r: F)
    requires
        total::<F>(),
        total::<G>(),
        widens::<F, G>(),
        functional(*sqrt),
        car_idx < prev.cars@.len(),
        car_idx < cur.cars@.len(),
    ensures
        (LedgerView { reward: r, terms: final(terms)@ }) == settled(
            LedgerView { reward: num::<F>(0), terms: old(terms)@ },
            step_postings(*prev, *cur, car_idx as int, scored, *cfg, *sqrt),
        ),
{
    let ps: Vec<Posting<F>> = postings_of(prev, cur, car_idx, scored, cfg, sqrt);
    proof {
        lemma_step_is_well_booked(*prev, *cur, car_idx as int, scored, *cfg, *sqrt);
    }
    let ghost start = LedgerView { reward: num::<F>(0), terms: terms@ };
    let mut reward: F = whole(0);
    let mut i: usize = 0;
    assert(ps@.take(0) =~= seq![]);
    while i < ps.len()
        invariant
            i <= ps@.len(),
            total::<F>(),
            total::<G>(),
            widens::<F, G>(),
            all_well_booked(ps@),
            (LedgerView { reward, terms: terms@ }) == settled(start, ps@.take(i as int)),
        decreases ps.len() - i,
    {
        assert(ps@.take(i + 1).drop_last() =~= ps@.take(i as int));
        assert(well_booked(ps@[i as int]));
        match &ps[i] {
            Posting::Pay { term, amount } => {
                reward = reward + *amount;
                terms[*term] = terms[*term] + widen::<F, G>(*amount);
            },
            Posting::Count { term } => {
                let one: G = whole(1);
                terms[*term] = terms[*term] + one;
            },
            Posting::Tally { term, amount } => {
                terms[*term] = terms[*term] + widen::<F, G>(*amount);
            },
        }
        i = i + 1;
    }
    assert(ps@.take(i as int) =~= ps@);
    reward
}

/// The reward of one agent for the step from `prev` to `cur`.
pub fn compute<F: Scalar, S: Fn(F) -> F>(
    prev: &GameState<F>,
    cur: &GameState<F>,
    car_idx: usize,
    scored: Option<Team>,
    cfg: &RewardConfig<F>,
    sqrt: &S,
) -> (r: F)
    requires
        total::<F>(),
        functional(*sqrt),
        car_idx < prev.cars@.len(),
        car_idx < cur.cars@.len(),
    ensures
        r == paid_total(
            num::<F>(0),
            step_postings(*prev, *cur, car_idx as int, scored, *cfg, *sqrt),
        ),
{
    let ps: Vec<Posting<F>> = postings_of(prev, cur, car_idx, scored, cfg, sqrt);
    let ghost zero = num::<F>(0);
    let mut reward: F = whole(0);
    let mut i: usize = 0;
    assert(ps@.take(0) =~= seq![]);
    while i < ps.len()
        invariant
            i <= ps@.len(),
            total::<F>(),
            reward == paid_total(zero, ps@.take(i as int)),
        decreases ps.len() - i,
    {
        assert(ps@.take(i + 1).drop_last() =~= ps@.take(i as int));
        if let Posting::Pay { term: _, amount } = &ps[i] {
            reward = reward + *amount;
        }
        i = i + 1;
    }
    assert(ps@.take(i as int) =~= ps@);
    reward
}

} // verus!
