//! Observations of bots that attend to a list of entities.
//!
//! The entities are the ball, the cars by id, and the pads. Each has 24
//! features; a query row repeats the car's own features and adds its previous
//! action. Pads and cars carry timers that run on from frame to frame.

use crate::exact::{add_opposite, exact, minus_is_plus, mul_one};
use crate::obs::{boost_fraction, boost_share};
use crate::obs_advanced::{boost_location, canon_fits, location};
use crate::order::{is_order, law_order, order_by_key, ordered_by_key};
use crate::scalar::{
    bit, flag, frac, larger, le, lt, max_of, minus, num, over, plus, ratio, same, times, total,
    whole, Scalar,
};
use crate::sim::{BallState, BoostPad, CarInfo, GameState, Team};
use vstd::prelude::*;

verus! {

/// Features of an entity.
pub const NECTO_KV: usize = 24;

/// Width of the query row.
pub const NECTO_Q: usize = 32;

/// Pads in the list of entities.
pub const NECTO_PADS: usize = 34;

/// Number of entities with `n_players` cars.
pub fn n_entities(n_players: usize) -> (n: usize)
    requires
        n_players + 35 <= usize::MAX,
    ensures
        n == 1 + n_players + NECTO_PADS,
{
    1 + n_players + NECTO_PADS
}

/// What a column is divided by.
pub open spec fn column_norm<F: Scalar>(c: int) -> F {
    if 5 <= c <= 10 {
        num::<F>(2300)
    } else if 17 <= c <= 19 {
        frac::<F>(55, 10)
    } else {
        num::<F>(1)
    }
}

/// The sign of a column for an orange observer.
pub open spec fn column_sign<F: Scalar>(c: int) -> F {
    if 5 <= c < 20 && (c - 5) % 3 != 2 {
        num::<F>(-1)
    } else {
        num::<F>(1)
    }
}

/// Whether listed pad `j` is a big one.
pub open spec fn is_big_pad(j: int) -> bool {
    location(j)[2] > 72
}

/// Timers of an arena.
pub struct TimersView<F> {
    /// Respawn timer of each listed pad.
    pub boost: Seq<F>,
    /// Demolition timer of each car by id.
    pub demo: Seq<F>,
    /// The pad timers that the latest frame shows.
    pub boost_emit: Seq<F>,
    /// The demolition timers that the latest frame shows.
    pub demo_emit: Seq<F>,
    /// The latest frame.
    pub last_tick: Option<u64>,
}

/// Timers of an arena. They run on once per frame, however many cars look.
pub struct NectoTimers<F> {
    boost: Vec<F>,
    demo: Vec<F>,
    boost_emit: Vec<F>,
    demo_emit: Vec<F>,
    last_tick: Option<u64>,
}

impl<F> View for NectoTimers<F> {
    type V = TimersView<F>;

    closed spec fn view(&self) -> TimersView<F> {
        TimersView {
            boost: self.boost@,
            demo: self.demo@,
            boost_emit: self.boost_emit@,
            demo_emit: self.demo_emit@,
            last_tick: self.last_tick,
        }
    }
}

/// `n` zeros.
pub open spec fn zero_timers<F: Scalar>(n: int) -> Seq<F> {
    Seq::new(n as nat, |i: int| num::<F>(0))
}

/// A demolition timer one frame on: it counts down to zero and starts anew.
pub open spec fn next_demo<F: Scalar>(t: F) -> F {
    if le(t, num::<F>(0)) {
        num::<F>(3)
    } else {
        larger(minus(t, frac::<F>(8, 120)), num::<F>(0))
    }
}

/// What a pad timer shows: a pad that can be picked up starts its timer, any
/// other has none.
pub open spec fn shown_boost<F: Scalar>(t: F, active: bool, big: bool) -> F {
    let started = if active && same(t, num::<F>(0)) {
        plus(frac::<F>(4, 10), times(frac::<F>(6, 10), bit::<F>(big)))
    } else {
        t
    };
    times(started, bit::<F>(active))
}

/// A pad timer one frame after it showed `t`.
pub open spec fn next_boost<F: Scalar>(t: F) -> F {
    let left = minus(t, frac::<F>(8, 1200));
    if lt(left, num::<F>(0)) {
        num::<F>(0)
    } else {
        left
    }
}

/// The first `n` demolition timers one frame on; timers that were missing start
/// from zero, further ones stay.
pub open spec fn next_demos<F: Scalar>(demo: Seq<F>, n: int) -> Seq<F> {
    Seq::new(
        if demo.len() < n {
            n as nat
        } else {
            demo.len()
        },
        |i: int|
            if i < n {
                next_demo(
                    if i < demo.len() {
                        demo[i]
                    } else {
                        num::<F>(0)
                    },
                )
            } else {
                demo[i]
            },
    )
}

/// What the first `n` demolition timers show; further ones show what they did.
pub open spec fn shown_demos<F: Scalar>(demo: Seq<F>, emit: Seq<F>, n: int) -> Seq<F> {
    Seq::new(
        if emit.len() < n {
            n as nat
        } else {
            emit.len()
        },
        |i: int|
            if i < n {
                next_demos(demo, n)[i]
            } else {
                emit[i]
            },
    )
}

/// The timers after a frame with `n` cars.
pub open spec fn advanced<F: Scalar>(
    t: TimersView<F>,
    tick: u64,
    pads: Seq<BoostPad<F>>,
    canon: Seq<usize>,
    n: int,
) -> TimersView<F> {
    let emit = Seq::new(
        NECTO_PADS as nat,
        |j: int| shown_boost(t.boost[j], pads[canon[j] as int].is_active, is_big_pad(j)),
    );
    TimersView {
        boost: emit.map_values(|x: F| next_boost(x)),
        demo: next_demos(t.demo, n),
        boost_emit: emit,
        demo_emit: shown_demos(t.demo, t.demo_emit, n),
        last_tick: Some(tick),
    }
}

/// The timers after a look at frame `tick`: they run on only at the first look.
pub open spec fn after_look<F: Scalar>(
    t: TimersView<F>,
    tick: u64,
    pads: Seq<BoostPad<F>>,
    canon: Seq<usize>,
    n: int,
) -> TimersView<F> {
    if t.last_tick == Some(tick) {
        t
    } else {
        advanced(t, tick, pads, canon, n)
    }
}

/// There is a timer for every pad.
pub open spec fn timers_fit<F>(t: TimersView<F>) -> bool {
    t.boost.len() == NECTO_PADS && t.boost_emit.len() == NECTO_PADS
}

impl<F: Scalar> NectoTimers<F> {
    /// Timers of an arena with `n_players` cars before the first frame.
    pub fn new(n_players: usize) -> (t: Self)
        requires
            total::<F>(),
        ensures
            t@ == (TimersView {
                boost: zero_timers::<F>(NECTO_PADS as int),
                demo: zero_timers::<F>(n_players as int),
                boost_emit: zero_timers::<F>(NECTO_PADS as int),
                demo_emit: zero_timers::<F>(n_players as int),
                last_tick: None,
            }),
            timers_fit(t@),
    {
        NectoTimers {
            boost: make_zeros(NECTO_PADS),
            demo: make_zeros(n_players),
            boost_emit: make_zeros(NECTO_PADS),
            demo_emit: make_zeros(n_players),
            last_tick: None,
        }
    }

    fn advance_demos(&mut self, n: usize)
        requires
            total::<F>(),
        ensures
            final(self).demo@ == next_demos(old(self).demo@, n as int),
            final(self).demo_emit@ == shown_demos(
                old(self).demo@,
                old(self).demo_emit@,
                n as int,
            ),
            final(self).boost == old(self).boost,
            final(self).boost_emit == old(self).boost_emit,
            final(self).last_tick == old(self).last_tick,
    {
        let ghost demo = self.demo@;
        let ghost emit = self.demo_emit@;
        let ghost padded = demo + zero_timers::<F>(n - demo.len());
        grow(&mut self.demo, n);
        grow(&mut self.demo_emit, n);
        let ghost grown = self.demo@;
        let mut i: usize = 0;
        while i < n
            invariant
                i <= n,
                total::<F>(),
                self.demo@.len() == grown.len(),
                self.demo@.len() >= n,
                self.demo_emit@.len() >= n,
                self.demo_emit@.len() == shown_demos(demo, emit, n as int).len(),
                grown.len() == next_demos(demo, n as int).len(),
                forall|j: int|
                    0 <= j < grown.len() ==> #[trigger] grown[j] == (if j < demo.len() {
                        demo[j]
                    } else {
                        num::<F>(0)
                    }),
                forall|j: int|
                    0 <= j < grown.len() ==> #[trigger] self.demo@[j] == (if j < i {
                        next_demo(grown[j])
                    } else {
                        grown[j]
                    }),
                forall|j: int|
                    0 <= j < self.demo_emit@.len() ==> (if j < i {
                        #[trigger] self.demo_emit@[j] == next_demo(grown[j])
                    } else {
                        j < emit.len() ==> self.demo_emit@[j] == emit[j]
                    }),
                self.boost == old(self).boost,
                self.boost_emit == old(self).boost_emit,
                self.last_tick == old(self).last_tick,
            decreases n - i,
        {
            let zero: F = whole(0);
            let t: F = self.demo[i];
            let next: F = if t <= zero {
                whole(3)
            } else {
                max_of(t - ratio(8, 120), zero)
            };
            assert(t == grown[i as int]);
            self.demo[i] = next;
            self.demo_emit[i] = next;
            i = i + 1;
        }
        assert(self.demo@ =~= next_demos(demo, n as int));
        assert(self.demo_emit@ =~= shown_demos(demo, emit, n as int));
    }

    /// Runs the timers on by one frame with `n` cars.
    fn advance(&mut self, tick: u64, pads: &Vec<BoostPad<F>>, canon: &Vec<usize>, n: usize)
        requires
            total::<F>(),
            timers_fit(old(self)@),
            canon_fits(pads@, canon@),
        ensures
            final(self)@ == advanced(old(self)@, tick, pads@, canon@, n as int),
            timers_fit(final(self)@),
    {
        let ghost start = self@;
        let ghost done = advanced(start, tick, pads@, canon@, n as int);
        self.advance_demos(n);
        let mut j: usize = 0;
        while j < NECTO_PADS
            invariant
                j <= NECTO_PADS,
                total::<F>(),
                canon_fits(pads@, canon@),
                timers_fit(start),
                done == advanced(start, tick, pads@, canon@, n as int),
                self.demo@ == done.demo,
                self.demo_emit@ == done.demo_emit,
                self.boost@.len() == NECTO_PADS,
                self.boost_emit@.len() == NECTO_PADS,
                forall|i: int|
                    0 <= i < NECTO_PADS ==> #[trigger] self.boost@[i] == (if i < j {
                        done.boost[i]
                    } else {
                        start.boost[i]
                    }),
                forall|i: int|
                    0 <= i < j ==> #[trigger] self.boost_emit@[i] == done.boost_emit[i],
            decreases NECTO_PADS - j,
        {
            assert(canon@[j as int] < pads@.len());
            let active: bool = pads[canon[j]].is_active;
            let big: bool = boost_location(j)[2] > 72;
            let zero: F = whole(0);
            let mut t: F = self.boost[j];
            if active && t == zero {
                t = ratio::<F>(4, 10) + ratio::<F>(6, 10) * flag::<F>(big);
            }
            let shown: F = t * flag::<F>(active);
            self.boost_emit[j] = shown;
            let left: F = shown - ratio(8, 1200);
            self.boost[j] = if left < zero {
                zero
            } else {
                left
            };
            j = j + 1;
        }
        self.last_tick = Some(tick);
        assert(self.boost@ =~= done.boost);
        assert(self.boost_emit@ =~= done.boost_emit);
    }

    /// Looks at a frame: the timers run on at the first look.
    fn look(&mut self, tick: u64, pads: &Vec<BoostPad<F>>, canon: &Vec<usize>, n: usize)
        requires
            total::<F>(),
            timers_fit(old(self)@),
            canon_fits(pads@, canon@),
        ensures
            final(self)@ == after_look(old(self)@, tick, pads@, canon@, n as int),
            timers_fit(final(self)@),
    {
        let seen: bool = match self.last_tick {
            Some(t) => t == tick,
            None => false,
        };
        if !seen {
            self.advance(tick, pads, canon, n);
        }
    }
}

fn make_zeros<F: Scalar>(n: usize) -> (v: Vec<F>)
    requires
        total::<F>(),
    ensures
        v@ == zero_timers::<F>(n as int),
{
    let mut v: Vec<F> = Vec::new();
    let mut i: usize = 0;
    while i < n
        invariant
            i <= n,
            total::<F>(),
            v@ =~= zero_timers::<F>(i as int),
        decreases n - i,
    {
        v.push(whole(0));
        i = i + 1;
    }
    v
}

/// Adds zeros until there are `n` timers.
fn grow<F: Scalar>(v: &mut Vec<F>, n: usize)
    requires
        total::<F>(),
    ensures
        final(v)@.len() == if old(v)@.len() < n {
            n as nat
        } else {
            old(v)@.len()
        },
        forall|i: int|
            0 <= i < final(v)@.len() ==> #[trigger] final(v)@[i] == (if i < old(v)@.len() {
                old(v)@[i]
            } else {
                num::<F>(0)
            }),
{
    let ghost start = v@;
    while v.len() < n
        invariant
            total::<F>(),
            v@.len() >= start.len(),
            v@.len() <= n || v@.len() == start.len(),
            forall|i: int|
                0 <= i < v@.len() ==> #[trigger] v@[i] == (if i < start.len() {
                    start[i]
                } else {
                    num::<F>(0)
                }),
        decreases n - v.len(),
    {
        v.push(whole(0));
    }
}

/// All cars of a frame see the same timers: after the first look further looks
/// at the same frame change nothing.
pub proof fn law_timers_run_once_per_frame<F: Scalar>(
    t: TimersView<F>,
    tick: u64,
    pads: Seq<BoostPad<F>>,
    canon: Seq<usize>,
    n: int,
)
    ensures
        ({
            let once = after_look(t, tick, pads, canon, n);
            after_look(once, tick, pads, canon, n) == once
        }),
{
}

/// The cars by id.
pub open spec fn id_keys<F>(cars: Seq<CarInfo<F>>) -> Seq<Option<u64>> {
    Seq::new(cars.len(), |i: int| Some(cars[i].id as u64))
}

/// The cars by id.
pub open spec fn players_of<F>(cars: Seq<CarInfo<F>>) -> Seq<usize> {
    ordered_by_key(id_keys(cars), cars.len() as int)
}

/// Raw features of the ball.
pub open spec fn raw_ball<F: Scalar>(b: BallState<F>) -> Seq<F> {
    let z = num::<F>(0);
    seq![
        z, z, z, num::<F>(1), z,
        b.pos.x, b.pos.y, b.pos.z,
        b.vel.x, b.vel.y, b.vel.z,
        z, z, z, z, z, z,
        b.ang_vel.x, b.ang_vel.y, b.ang_vel.z,
        z, z, z, z,
    ]
}

/// Raw features of a car whose demolition timer shows `demo`. Teams are told
/// from blue's point of view.
pub open spec fn raw_player<F: Scalar>(c: CarInfo<F>, demo: F) -> Seq<F> {
    let z = num::<F>(0);
    let s = c.state;
    seq![
        z, bit::<F>(c.team == Team::Blue), bit::<F>(c.team != Team::Blue), z, z,
        s.pos.x, s.pos.y, s.pos.z,
        s.vel.x, s.vel.y, s.vel.z,
        s.rot_mat.forward.x, s.rot_mat.forward.y, s.rot_mat.forward.z,
        s.rot_mat.up.x, s.rot_mat.up.y, s.rot_mat.up.z,
        s.ang_vel.x, s.ang_vel.y, s.ang_vel.z,
        boost_share(s),
        over(demo, num::<F>(10)),
        bit::<F>(s.is_on_ground),
        bit::<F>(s.has_flip_or_jump),
    ]
}

/// Raw features of listed pad `j` whose timer shows `timer`.
pub open spec fn raw_pad<F: Scalar>(j: int, timer: F) -> Seq<F> {
    let z = num::<F>(0);
    let l = location(j);
    seq![
        z, z, z, z, num::<F>(1),
        num::<F>(l[0] as int), num::<F>(l[1] as int), num::<F>(l[2] as int),
        z, z, z, z, z, z, z, z, z, z, z, z,
        plus(frac::<F>(12, 100), times(frac::<F>(88, 100), bit::<F>(is_big_pad(j)))),
        timer,
        z, z,
    ]
}

/// Raw features of entity `e`: the ball, the cars by id, the pads.
pub open spec fn raw_entity<F: Scalar>(state: GameState<F>, t: TimersView<F>, e: int) -> Seq<F> {
    let n = state.cars@.len() as int;
    if e == 0 {
        raw_ball(state.ball)
    } else if e <= n {
        raw_player(state.cars@[players_of(state.cars@)[e - 1] as int], t.demo_emit[e - 1])
    } else {
        raw_pad(e - 1 - n, t.boost_emit[e - 1 - n])
    }
}

/// Column that a column is read from by an orange observer, for whom the teams
/// change places.
pub open spec fn swapped(c: int) -> int {
    if c == 1 {
        2
    } else if c == 2 {
        1
    } else {
        c
    }
}

/// Features of an entity as seen by the observer.
pub open spec fn seen_row<F: Scalar>(raw: Seq<F>, is_self: bool, orange: bool) -> Seq<F> {
    let unit = Seq::new(
        24,
        |c: int|
            if c == 0 && is_self {
                num::<F>(1)
            } else {
                over(raw[c], column_norm::<F>(c))
            },
    );
    if orange {
        Seq::new(24, |c: int| times(unit[swapped(c)], column_sign::<F>(c)))
    } else {
        unit
    }
}

/// Features with position and velocity taken relative to the observer's.
pub open spec fn relative_row<F: Scalar>(row: Seq<F>, me: Seq<F>) -> Seq<F> {
    Seq::new(
        24,
        |c: int|
            if 5 <= c <= 10 {
                minus(row[c], me[c])
            } else {
                row[c]
            },
    )
}

/// Position of a car in the order by id.
pub open spec fn place_of(order: Seq<usize>, car_idx: usize) -> int {
    choose|k: int| 0 <= k < order.len() && order[k] == car_idx
}

/// The observer's own features.
pub open spec fn self_row<F: Scalar>(state: GameState<F>, car_idx: usize, t: TimersView<F>) -> Seq<
    F,
> {
    seen_row(
        raw_entity(state, t, 1 + place_of(players_of(state.cars@), car_idx)),
        true,
        state.cars@[car_idx as int].team == Team::Orange,
    )
}

/// The features of the first `e` entities, one after the other.
pub open spec fn entity_rows<F: Scalar>(
    state: GameState<F>,
    car_idx: usize,
    t: TimersView<F>,
    e: int,
) -> Seq<F>
    decreases e,
{
    if e <= 0 {
        Seq::empty()
    } else {
        entity_rows(state, car_idx, t, e - 1) + relative_row(
            seen_row(
                raw_entity(state, t, e - 1),
                e - 1 == 1 + place_of(players_of(state.cars@), car_idx),
                state.cars@[car_idx as int].team == Team::Orange,
            ),
            self_row(state, car_idx, t),
        )
    }
}

/// An observation of a list of entities; none of them is padding.
pub struct NectoObs<F> {
    pub q: Vec<F>,
    pub kv: Vec<F>,
    pub mask: Vec<bool>,
}

fn make_ball<F: Scalar>(b: &BallState<F>) -> (r: Vec<F>)
    requires
        total::<F>(),
    ensures
        r@ == raw_ball(*b),
{
    let z: F = whole(0);
    let one: F = whole(1);
    let r: Vec<F> = vec![
        z, z, z, one, z,
        b.pos.x, b.pos.y, b.pos.z,
        b.vel.x, b.vel.y, b.vel.z,
        z, z, z, z, z, z,
        b.ang_vel.x, b.ang_vel.y, b.ang_vel.z,
        z, z, z, z,
    ];
    assert(r@ =~= raw_ball(*b));
    r
}

fn make_player<F: Scalar>(c: &CarInfo<F>, demo: F) -> (r: Vec<F>)
    requires
        total::<F>(),
    ensures
        r@ == raw_player(*c, demo),
{
    let z: F = whole(0);
    let s = &c.state;
    let ten: F = whole(10);
    let r: Vec<F> = vec![
        z, flag(c.team == Team::Blue), flag(c.team != Team::Blue), z, z,
        s.pos.x, s.pos.y, s.pos.z,
        s.vel.x, s.vel.y, s.vel.z,
        s.rot_mat.forward.x, s.rot_mat.forward.y, s.rot_mat.forward.z,
        s.rot_mat.up.x, s.rot_mat.up.y, s.rot_mat.up.z,
        s.ang_vel.x, s.ang_vel.y, s.ang_vel.z,
        boost_fraction(s),
        demo / ten,
        flag(s.is_on_ground),
        flag(s.has_flip_or_jump),
    ];
    assert(r@ =~= raw_player(*c, demo));
    r
}

fn make_pad<F: Scalar>(j: usize, timer: F) -> (r: Vec<F>)
    requires
        total::<F>(),
        j < NECTO_PADS,
    ensures
        r@ == raw_pad(j as int, timer),
{
    let z: F = whole(0);
    let l: [i16; 3] = boost_location(j);
    let big: bool = l[2] > 72;
    let worth: F = ratio::<F>(12, 100) + ratio::<F>(88, 100) * flag::<F>(big);
    let r: Vec<F> = vec![
        z, z, z, z, whole(1),
        whole(l[0]), whole(l[1]), whole(l[2]),
        z, z, z, z, z, z, z, z, z, z, z, z,
        worth,
        timer,
        z, z,
    ];
    assert(r@ =~= raw_pad(j as int, timer));
    r
}

fn norm_at<F: Scalar>(c: usize) -> (r: F)
    requires
        total::<F>(),
    ensures
        r == column_norm::<F>(c as int),
{
    if 5 <= c && c <= 10 {
        whole(2300)
    } else if 17 <= c && c <= 19 {
        ratio(55, 10)
    } else {
        whole(1)
    }
}

fn invert_at<F: Scalar>(c: usize) -> (r: F)
    requires
        total::<F>(),
    ensures
        r == column_sign::<F>(c as int),
{
    if 5 <= c && c < 20 && (c - 5) % 3 != 2 {
        whole(-1)
    } else {
        whole(1)
    }
}

fn see<F: Scalar>(raw: &Vec<F>, is_self: bool, orange: bool) -> (row: Vec<F>)
    requires
        total::<F>(),
        raw@.len() == 24,
    ensures
        row@ == seen_row(raw@, is_self, orange),
        row@.len() == 24,
{
    let ghost unit = seen_row(raw@, is_self, false);
    let mut row: Vec<F> = Vec::new();
    let mut c: usize = 0;
    while c < 24
        invariant
            c <= 24,
            total::<F>(),
            raw@.len() == 24,
            unit == seen_row(raw@, is_self, false),
            row@ =~= seen_row(raw@, is_self, orange).take(c as int),
        decreases 24 - c,
    {
        let from: usize = if orange && c == 1 {
            2
        } else if orange && c == 2 {
            1
        } else {
            c
        };
        let x: F = if from == 0 && is_self {
            whole(1)
        } else {
            raw[from] / norm_at(from)
        };
        assert(x == unit[from as int]);
        if orange {
            row.push(x * invert_at(c));
        } else {
            row.push(x);
        }
        c = c + 1;
    }
    assert(row@ =~= seen_row(raw@, is_self, orange));
    row
}

fn push_relative<F: Scalar>(kv: &mut Vec<F>, row: &Vec<F>, me: &Vec<F>)
    requires
        total::<F>(),
        row@.len() == 24,
        me@.len() == 24,
    ensures
        final(kv)@ == old(kv)@ + relative_row(row@, me@),
{
    let ghost z = kv@;
    let mut c: usize = 0;
    while c < 24
        invariant
            c <= 24,
            total::<F>(),
            row@.len() == 24,
            me@.len() == 24,
            kv@ =~= z + relative_row(row@, me@).take(c as int),
        decreases 24 - c,
    {
        if 5 <= c && c <= 10 {
            kv.push(row[c] - me[c]);
        } else {
            kv.push(row[c]);
        }
        c = c + 1;
    }
    assert(relative_row(row@, me@).take(c as int) =~= relative_row(row@, me@));
}

/// The timers show something for every car and pad.
pub open spec fn timers_show<F>(t: TimersView<F>, n: int) -> bool {
    t.demo_emit.len() >= n && t.boost_emit.len() == NECTO_PADS
}

fn make_entity<F: Scalar>(
    state: &GameState<F>,
    order: &Vec<usize>,
    timers: &NectoTimers<F>,
    e: usize,
) -> (raw: Vec<F>)
    requires
        total::<F>(),
        order@ == players_of(state.cars@),
        order@.len() == state.cars@.len(),
        forall|k: int| 0 <= k < order@.len() ==> #[trigger] order@[k] < state.cars@.len(),
        timers_show(timers@, state.cars@.len() as int),
        e < 1 + state.cars@.len() + NECTO_PADS,
    ensures
        raw@ == raw_entity(*state, timers@, e as int),
        raw@.len() == 24,
{
    let n: usize = state.cars.len();
    if e == 0 {
        make_ball(&state.ball)
    } else if e <= n {
        assert(order@[e - 1] < state.cars@.len());
        make_player(&state.cars[order[e - 1]], timers.demo_emit[e - 1])
    } else {
        make_pad(e - 1 - n, timers.boost_emit[e - 1 - n])
    }
}

fn order_players<F>(cars: &Vec<CarInfo<F>>) -> (order: Vec<usize>)
    ensures
        order@ == players_of(cars@),
        is_order(id_keys(cars@), order@, cars@.len() as int),
        order@.len() <= cars@.len(),
{
    let mut keys: Vec<Option<u64>> = Vec::new();
    let mut i: usize = 0;
    while i < cars.len()
        invariant
            i <= cars@.len(),
            keys@ =~= id_keys(cars@).take(i as int),
        decreases cars.len() - i,
    {
        keys.push(Some(cars[i].id as u64));
        i = i + 1;
    }
    assert(keys@ =~= id_keys(cars@));
    order_by_key(&keys)
}

/// Every car is in the order by id, and it has one place there.
pub proof fn law_players_are_all_cars<F>(cars: Seq<CarInfo<F>>, car_idx: usize)
    requires
        car_idx < cars.len() <= usize::MAX,
    ensures
        players_of(cars).len() == cars.len(),
        0 <= place_of(players_of(cars), car_idx) < cars.len(),
        players_of(cars)[place_of(players_of(cars), car_idx)] == car_idx,
        forall|k: int| 0 <= k < cars.len() ==> #[trigger] players_of(cars)[k] < cars.len(),
{
    let keys = id_keys(cars);
    let order = players_of(cars);
    law_order(keys, cars.len() as int);
    lemma_players_len(cars, cars.len() as int);
    assert(keys[car_idx as int] is Some);
    assert(order.contains(car_idx));
}

proof fn lemma_players_len<F>(cars: Seq<CarInfo<F>>, n: int)
    requires
        0 <= n <= cars.len(),
    ensures
        ordered_by_key(id_keys(cars), n).len() == n,
    decreases n,
{
    if n > 0 {
        lemma_players_len(cars, n - 1);
        crate::order::lemma_inserted_len(
            id_keys(cars),
            ordered_by_key(id_keys(cars), n - 1),
            (n - 1) as usize,
        );
    }
}

/// The place of a car in the order by id.
fn find_place(order: &Vec<usize>, car_idx: usize) -> (k: usize)
    requires
        exists|k: int| 0 <= k < order@.len() && order@[k] == car_idx,
        forall|a: int, b: int| 0 <= a < b < order@.len() ==> order@[a] != order@[b],
    ensures
        k == place_of(order@, car_idx),
        k < order@.len(),
{
    let mut k: usize = 0;
    while k < order.len()
        invariant
            k <= order@.len(),
            exists|k: int| 0 <= k < order@.len() && order@[k] == car_idx,
            forall|a: int, b: int| 0 <= a < b < order@.len() ==> order@[a] != order@[b],
            forall|j: int| 0 <= j < k ==> order@[j] != car_idx,
        decreases order.len() - k,
    {
        if order[k] == car_idx {
            let ghost p = place_of(order@, car_idx);
            assert(0 <= p < order@.len() && order@[p] == car_idx);
            return k;
        }
        k = k + 1;
    }
    0
}

/// The observation of `state.cars[car_idx]`, whose previous action was
/// `prev_action`. The timers run on if this is the first look at the frame.
pub fn build_necto_obs<F: Scalar>(
    state: &GameState<F>,
    car_idx: usize,
    prev_action: &[F; 8],
    timers: &mut NectoTimers<F>,
    canon: &Vec<usize>,
) -> (obs: NectoObs<F>)
    requires
        total::<F>(),
        car_idx < state.cars@.len(),
        state.cars@.len() + 35 <= usize::MAX,
        canon_fits(state.pads@, canon@),
        timers_fit(old(timers)@),
        old(timers)@.last_tick == Some(state.tick_count) ==> timers_show(
            old(timers)@,
            state.cars@.len() as int,
        ),
    ensures
        final(timers)@ == after_look(
            old(timers)@,
            state.tick_count,
            state.pads@,
            canon@,
            state.cars@.len() as int,
        ),
        obs.kv@ == entity_rows(
            *state,
            car_idx,
            final(timers)@,
            1 + state.cars@.len() + NECTO_PADS,
        ),
        obs.q@ == self_row(*state, car_idx, final(timers)@) + prev_action@,
        obs.mask@ == Seq::new((1 + state.cars@.len() + NECTO_PADS) as nat, |i: int| false),
        timers_fit(final(timers)@),
{
    let n: usize = state.cars.len();
    let order: Vec<usize> = order_players(&state.cars);
    proof {
        law_players_are_all_cars(state.cars@, car_idx);
        assert forall|a: int, b: int| 0 <= a < b < order@.len() implies order@[a] != order@[b] by {
            assert(crate::order::comes_before(id_keys(state.cars@), order@[a], order@[b]));
        }
    }
    timers.look(state.tick_count, &state.pads, canon, n);
    let place: usize = find_place(&order, car_idx);
    let orange: bool = state.cars[car_idx].team == Team::Orange;
    let me: Vec<F> = see(&make_entity(state, &order, timers, 1 + place), true, orange);
    let total_entities: usize = n_entities(n);
    let mut kv: Vec<F> = Vec::new();
    let mut mask: Vec<bool> = Vec::new();
    let mut e: usize = 0;
    while e < total_entities
        invariant
            e <= total_entities,
            total_entities == 1 + n + NECTO_PADS,
            n == state.cars@.len(),
            total::<F>(),
            car_idx < n,
            order@ == players_of(state.cars@),
            order@.len() == n,
            forall|k: int| 0 <= k < order@.len() ==> #[trigger] order@[k] < state.cars@.len(),
            timers_show(timers@, n as int),
            place == place_of(order@, car_idx),
            place < n,
            orange == (state.cars@[car_idx as int].team == Team::Orange),
            me@ == self_row(*state, car_idx, timers@),
            me@.len() == 24,
            kv@ == entity_rows(*state, car_idx, timers@, e as int),
            mask@ =~= Seq::new(e as nat, |i: int| false),
        decreases total_entities - e,
    {
        let raw: Vec<F> = make_entity(state, &order, timers, e);
        let row: Vec<F> = see(&raw, e == 1 + place, orange);
        push_relative(&mut kv, &row, &me);
        mask.push(false);
        e = e + 1;
    }
    let mut q: Vec<F> = me;
    let ghost own = q@;
    let mut k: usize = 0;
    while k < 8
        invariant
            k <= 8,
            q@ =~= own + prev_action@.take(k as int),
        decreases 8 - k,
    {
        q.push(prev_action[k]);
        k = k + 1;
    }
    assert(prev_action@.take(k as int) =~= prev_action@);
    NectoObs { q, kv, mask }
}

/// Entity `e` takes the `e`-th run of 24 numbers.
pub proof fn lemma_entity_rows<F: Scalar>(
    state: GameState<F>,
    car_idx: usize,
    t: TimersView<F>,
    n: int,
    e: int,
    c: int,
)
    requires
        0 <= e < n,
        0 <= c < 24,
    ensures
        entity_rows(state, car_idx, t, n).len() == 24 * n,
        entity_rows(state, car_idx, t, n)[24 * e + c] == relative_row(
            seen_row(
                raw_entity(state, t, e),
                e == 1 + place_of(players_of(state.cars@), car_idx),
                state.cars@[car_idx as int].team == Team::Orange,
            ),
            self_row(state, car_idx, t),
        )[c],
    decreases n,
{
    if n > 1 {
        lemma_entity_rows(
            state,
            car_idx,
            t,
            n - 1,
            if e < n - 1 {
                e
            } else {
                0
            },
            c,
        );
    } else {
        assert(entity_rows(state, car_idx, t, 0) =~= Seq::empty());
    }
}

/// The observer is the origin: in its own row, which is marked as its own,
/// position and velocity are zero.
pub proof fn law_own_row_is_the_origin<F: Scalar>(
    state: GameState<F>,
    car_idx: usize,
    t: TimersView<F>,
    c: int,
)
    requires
        exact::<F>(),
        car_idx < state.cars@.len() <= usize::MAX,
        5 <= c <= 10,
    ensures
        ({
            let e = 1 + place_of(players_of(state.cars@), car_idx);
            let rows = entity_rows(state, car_idx, t, state.cars@.len() as int + 35);
            &&& 1 <= e <= state.cars@.len()
            &&& players_of(state.cars@)[e - 1] == car_idx
            &&& rows[24 * e] == num::<F>(1)
            &&& rows[24 * e + c] == num::<F>(0)
        }),
{
    law_players_are_all_cars(state.cars@, car_idx);
    let e = 1 + place_of(players_of(state.cars@), car_idx);
    let n = state.cars@.len() as int + 35;
    lemma_entity_rows(state, car_idx, t, n, e, c);
    lemma_entity_rows(state, car_idx, t, n, e, 0);
    let me = self_row(state, car_idx, t);
    minus_is_plus(me[c], me[c]);
    add_opposite(me[c]);
    mul_one(num::<F>(1));
}

} // verus!
