//! Recorded states that episodes can start from.
//!
//! The pool is read line by line from a file that nobody has checked. Lines that
//! are too long or do not parse are counted and passed over, states that make
//! no sense are counted by the first rule they break, and of the rest a sample
//! of bounded size is kept that does not depend on anything but the file.

use crate::sampler::{pcg_next, pcg_output, pcg_seeded, Pcg32};
use crate::scalar::{
    abs, absolute, apply, finite, functional, gt, is_finite, lt, minus, num, plus, same, times,
    total, value_of, whole, Scalar,
};
use crate::sim::{RotMat, Vec3};
use vstd::prelude::*;

verus! {

/// Recorded state of the ball.
#[derive(Debug)]
pub struct BallSpawn<F> {
    pub pos: [F; 3],
    pub vel: [F; 3],
    pub ang_vel: [F; 3],
}

impl<F: Copy> Clone for BallSpawn<F> {
    fn clone(&self) -> (r: Self)
        ensures
            r == *self,
    {
        *self
    }
}

impl<F: Copy> Copy for BallSpawn<F> {

}

/// Recorded state of a car.
#[derive(Debug)]
pub struct CarSpawn<F> {
    pub pos: [F; 3],
    pub vel: [F; 3],
    pub ang_vel: [F; 3],
    /// Orientation as `[x, y, z, w]`.
    pub quat: [F; 4],
    /// Boost from 0 to 1.
    pub boost: F,
    /// 0 for blue, 1 for orange.
    pub team: u8,
    pub on_ground: bool,
}

impl<F: Copy> Clone for CarSpawn<F> {
    fn clone(&self) -> (r: Self)
        ensures
            r == *self,
    {
        *self
    }
}

impl<F: Copy> Copy for CarSpawn<F> {

}

/// Recorded state of a duel.
#[derive(Debug)]
pub struct ResetState<F> {
    pub ball: BallSpawn<F>,
    pub cars: [CarSpawn<F>; 2],
}

impl<F: Copy> Clone for ResetState<F> {
    fn clone(&self) -> (r: Self)
        ensures
            r == *self,
    {
        *self
    }
}

impl<F: Copy> Copy for ResetState<F> {

}

/// Why a state is dropped.
#[derive(Debug, Clone, Copy, PartialEq, Eq, Structural)]
pub enum Reject {
    /// The ball is at the origin, or a body is below the floor.
    OriginBall,
    /// The ball is so near a goal that it could be in before anyone acts.
    BallPastGoal,
    /// A car does not move at all.
    FrozenCar,
    /// The cars overlap.
    CarsOverlap,
    /// A car stands still high up.
    GroundedFrozenHigh,
    /// Something is infinite or undefined.
    NonFinite,
    /// The cars are not blue before orange.
    TeamOrder,
    /// Something moves faster than it can.
    Implausible,
}

/// How many lines came to what end.
#[derive(Debug, Clone, Copy, PartialEq, Eq, Structural)]
pub struct RejectCounts {
    pub origin_ball: usize,
    pub ball_past_goal: usize,
    pub frozen_car: usize,
    pub cars_overlap: usize,
    pub grounded_frozen_high: usize,
    pub nonfinite: usize,
    pub team_order: usize,
    pub implausible: usize,
    /// Lines that are too long or do not parse.
    pub malformed: usize,
    /// Lines in all.
    pub read: usize,
}

/// Ball position along the field from which a state is dropped.
pub const GOAL_LINE_Y: i16 = 4800;

/// Twice the ball position along the field at which a goal counts.
pub const BALL_SCORE_Y_TWICE: i16 = 10431;

/// Fastest spin of a car that is accepted.
pub const MAX_CAR_ANG_SPEED: i16 = 6;

/// Fastest car that is accepted.
pub const MAX_CAR_SPEED: i16 = 2400;

/// Fastest ball that is accepted.
pub const MAX_BALL_SPEED: i16 = 6100;

/// Least distance between two cars.
pub const MIN_CAR_SEPARATION: i16 = 100;

/// Height above which a car does not stand still.
pub const GROUNDED_HIGH_Z: i16 = 50;

/// Ticks of one step that the distance from the goal allows for.
pub const TICK_SKIP_FOR_BAND: i16 = 8;

/// A ball at the edge of the accepted band that flies at the greatest accepted
/// speed does not reach the goal within one step.
pub proof fn law_band_covers_one_step()
    ensures
        2 * GOAL_LINE_Y * 120 + 2 * MAX_BALL_SPEED * TICK_SKIP_FOR_BAND < BALL_SCORE_Y_TWICE * 120,
{
}

impl RejectCounts {
    /// No lines yet.
    pub fn new() -> (c: RejectCounts)
        ensures
            c == no_lines(),
    {
        RejectCounts {
            origin_ball: 0,
            ball_past_goal: 0,
            frozen_car: 0,
            cars_overlap: 0,
            grounded_frozen_high: 0,
            nonfinite: 0,
            team_order: 0,
            implausible: 0,
            malformed: 0,
            read: 0,
        }
    }

    /// How many lines were dropped for reason `r`.
    pub open spec fn of(self, r: Reject) -> usize {
        match r {
            Reject::OriginBall => self.origin_ball,
            Reject::BallPastGoal => self.ball_past_goal,
            Reject::FrozenCar => self.frozen_car,
            Reject::CarsOverlap => self.cars_overlap,
            Reject::GroundedFrozenHigh => self.grounded_frozen_high,
            Reject::NonFinite => self.nonfinite,
            Reject::TeamOrder => self.team_order,
            Reject::Implausible => self.implausible,
        }
    }

    /// How many lines gave a state that was dropped.
    pub open spec fn dropped(self) -> int {
        self.origin_ball + self.ball_past_goal + self.frozen_car + self.cars_overlap
            + self.grounded_frozen_high + self.nonfinite + self.team_order + self.implausible
    }

    /// One more line dropped for reason `r`.
    pub open spec fn bumped(self, r: Reject) -> RejectCounts {
        match r {
            Reject::OriginBall => RejectCounts {
                origin_ball: (self.origin_ball + 1) as usize,
                ..self
            },
            Reject::BallPastGoal => RejectCounts {
                ball_past_goal: (self.ball_past_goal + 1) as usize,
                ..self
            },
            Reject::FrozenCar => RejectCounts {
                frozen_car: (self.frozen_car + 1) as usize,
                ..self
            },
            Reject::CarsOverlap => RejectCounts {
                cars_overlap: (self.cars_overlap + 1) as usize,
                ..self
            },
            Reject::GroundedFrozenHigh => RejectCounts {
                grounded_frozen_high: (self.grounded_frozen_high + 1) as usize,
                ..self
            },
            Reject::NonFinite => RejectCounts { nonfinite: (self.nonfinite + 1) as usize, ..self },
            Reject::TeamOrder => RejectCounts {
                team_order: (self.team_order + 1) as usize,
                ..self
            },
            Reject::Implausible => RejectCounts {
                implausible: (self.implausible + 1) as usize,
                ..self
            },
        }
    }

    /// Counts one more line dropped for reason `r`.
    pub fn bump(&mut self, r: Reject)
        requires
            old(self).of(r) < usize::MAX,
        ensures
            *final(self) == old(self).bumped(r),
    {
        match r {
            Reject::OriginBall => {
                self.origin_ball = self.origin_ball + 1;
            },
            Reject::BallPastGoal => {
                self.ball_past_goal = self.ball_past_goal + 1;
            },
            Reject::FrozenCar => {
                self.frozen_car = self.frozen_car + 1;
            },
            Reject::CarsOverlap => {
                self.cars_overlap = self.cars_overlap + 1;
            },
            Reject::GroundedFrozenHigh => {
                self.grounded_frozen_high = self.grounded_frozen_high + 1;
            },
            Reject::NonFinite => {
                self.nonfinite = self.nonfinite + 1;
            },
            Reject::TeamOrder => {
                self.team_order = self.team_order + 1;
            },
            Reject::Implausible => {
                self.implausible = self.implausible + 1;
            },
        }
    }
}

/// No lines.
pub open spec fn no_lines() -> RejectCounts {
    RejectCounts {
        origin_ball: 0,
        ball_past_goal: 0,
        frozen_car: 0,
        cars_overlap: 0,
        grounded_frozen_high: 0,
        nonfinite: 0,
        team_order: 0,
        implausible: 0,
        malformed: 0,
        read: 0,
    }
}

/// All three numbers are zero.
pub open spec fn zero3<F: Scalar>(v: [F; 3]) -> bool {
    same(v[0], num::<F>(0)) && same(v[1], num::<F>(0)) && same(v[2], num::<F>(0))
}

/// All three numbers are finite.
pub open spec fn finite3<F: Scalar>(v: [F; 3]) -> bool {
    finite(v[0]) && finite(v[1]) && finite(v[2])
}

/// Length of a vector.
pub open spec fn magnitude<F: Scalar, S: Fn(F) -> F>(v: [F; 3], sqrt: S) -> F {
    value_of(sqrt, plus(plus(times(v[0], v[0]), times(v[1], v[1])), times(v[2], v[2])))
}

/// Square of the distance between two points.
pub open spec fn distance2<F: Scalar>(a: [F; 3], b: [F; 3]) -> F {
    let d = (minus(a[0], b[0]), minus(a[1], b[1]), minus(a[2], b[2]));
    plus(plus(times(d.0, d.0), times(d.1, d.1)), times(d.2, d.2))
}

/// A car below the floor.
pub open spec fn buried<F: Scalar>(c: CarSpawn<F>) -> bool {
    lt(c.pos[2], num::<F>(0))
}

/// A car that does not move at all.
pub open spec fn frozen<F: Scalar>(c: CarSpawn<F>) -> bool {
    zero3(c.vel) && zero3(c.ang_vel)
}

/// A car that stands still high up.
pub open spec fn stuck_high<F: Scalar>(c: CarSpawn<F>) -> bool {
    c.on_ground && gt(c.pos[2], num::<F>(GROUNDED_HIGH_Z as int)) && zero3(c.vel)
}

/// A car all of whose numbers are finite.
pub open spec fn car_finite<F: Scalar>(c: CarSpawn<F>) -> bool {
    &&& finite3(c.pos)
    &&& finite3(c.vel)
    &&& finite3(c.ang_vel)
    &&& finite(c.quat[0]) && finite(c.quat[1]) && finite(c.quat[2]) && finite(c.quat[3])
    &&& finite(c.boost)
}

/// A car that moves faster than it can.
pub open spec fn too_fast<F: Scalar, S: Fn(F) -> F>(c: CarSpawn<F>, sqrt: S) -> bool {
    gt(magnitude(c.ang_vel, sqrt), num::<F>(MAX_CAR_ANG_SPEED as int)) || gt(
        magnitude(c.vel, sqrt),
        num::<F>(MAX_CAR_SPEED as int),
    )
}

/// The first rule that a state breaks, if any.
pub open spec fn reject_reason<F: Scalar, S: Fn(F) -> F>(
    st: ResetState<F>,
    sqrt: S,
) -> Option<Reject> {
    let a = st.cars[0];
    let b = st.cars[1];
    let gap = num::<F>(MIN_CAR_SEPARATION as int);
    if zero3(st.ball.pos) || lt(st.ball.pos[2], num::<F>(0)) || buried(a) || buried(b) {
        Some(Reject::OriginBall)
    } else if gt(absolute(st.ball.pos[1]), num::<F>(GOAL_LINE_Y as int)) {
        Some(Reject::BallPastGoal)
    } else if frozen(a) || frozen(b) {
        Some(Reject::FrozenCar)
    } else if lt(distance2(a.pos, b.pos), times(gap, gap)) {
        Some(Reject::CarsOverlap)
    } else if stuck_high(a) || stuck_high(b) {
        Some(Reject::GroundedFrozenHigh)
    } else if !(finite3(st.ball.pos) && finite3(st.ball.vel) && finite3(st.ball.ang_vel))
        || !car_finite(a) || !car_finite(b) {
        Some(Reject::NonFinite)
    } else if !(a.team == 0 && b.team == 1) {
        Some(Reject::TeamOrder)
    } else if too_fast(a, sqrt) || too_fast(b, sqrt) || gt(
        magnitude(st.ball.vel, sqrt),
        num::<F>(MAX_BALL_SPEED as int),
    ) {
        Some(Reject::Implausible)
    } else {
        None
    }
}

fn is_zero3<F: Scalar>(v: &[F; 3]) -> (r: bool)
    requires
        total::<F>(),
    ensures
        r == zero3(*v),
{
    let zero: F = whole(0);
    v[0] == zero && v[1] == zero && v[2] == zero
}

fn is_finite3<F: Scalar>(v: &[F; 3]) -> (r: bool)
    requires
        total::<F>(),
    ensures
        r == finite3(*v),
{
    is_finite(v[0]) && is_finite(v[1]) && is_finite(v[2])
}

fn mag<F: Scalar, S: Fn(F) -> F>(v: &[F; 3], sqrt: &S) -> (r: F)
    requires
        total::<F>(),
        functional(*sqrt),
    ensures
        r == magnitude(*v, *sqrt),
{
    apply(sqrt, v[0] * v[0] + v[1] * v[1] + v[2] * v[2])
}

fn is_buried<F: Scalar>(c: &CarSpawn<F>) -> (r: bool)
    requires
        total::<F>(),
    ensures
        r == buried(*c),
{
    let zero: F = whole(0);
    c.pos[2] < zero
}

fn is_stuck_high<F: Scalar>(c: &CarSpawn<F>) -> (r: bool)
    requires
        total::<F>(),
    ensures
        r == stuck_high(*c),
{
    let high: F = whole(GROUNDED_HIGH_Z);
    c.on_ground && c.pos[2] > high && is_zero3(&c.vel)
}

fn is_car_finite<F: Scalar>(c: &CarSpawn<F>) -> (r: bool)
    requires
        total::<F>(),
    ensures
        r == car_finite(*c),
{
    is_finite3(&c.pos) && is_finite3(&c.vel) && is_finite3(&c.ang_vel) && is_finite(c.quat[0])
        && is_finite(c.quat[1]) && is_finite(c.quat[2]) && is_finite(c.quat[3]) && is_finite(
        c.boost,
    )
}

fn is_too_fast<F: Scalar, S: Fn(F) -> F>(c: &CarSpawn<F>, sqrt: &S) -> (r: bool)
    requires
        total::<F>(),
        functional(*sqrt),
    ensures
        r == too_fast(*c, *sqrt),
{
    let spin: F = whole(MAX_CAR_ANG_SPEED);
    let speed: F = whole(MAX_CAR_SPEED);
    mag(&c.ang_vel, sqrt) > spin || mag(&c.vel, sqrt) > speed
}

/// Accepts a state that breaks no rule; otherwise names the first it breaks.
pub fn accept<F: Scalar, S: Fn(F) -> F>(st: &ResetState<F>, sqrt: &S) -> (r: Result<(), Reject>)
    requires
        total::<F>(),
        functional(*sqrt),
    ensures
        r == match reject_reason(*st, *sqrt) {
            None => Ok::<(), Reject>(()),
            Some(e) => Err(e),
        },
{
    let zero: F = whole(0);
    let a = &st.cars[0];
    let b = &st.cars[1];
    if is_zero3(&st.ball.pos) || st.ball.pos[2] < zero || is_buried(a) || is_buried(b) {
        return Err(Reject::OriginBall);
    }
    let line: F = whole(GOAL_LINE_Y);
    if abs(st.ball.pos[1]) > line {
        return Err(Reject::BallPastGoal);
    }
    if (is_zero3(&a.vel) && is_zero3(&a.ang_vel)) || (is_zero3(&b.vel) && is_zero3(&b.ang_vel)) {
        return Err(Reject::FrozenCar);
    }
    let dx: F = a.pos[0] - b.pos[0];
    let dy: F = a.pos[1] - b.pos[1];
    let dz: F = a.pos[2] - b.pos[2];
    let gap: F = whole(MIN_CAR_SEPARATION);
    if dx * dx + dy * dy + dz * dz < gap * gap {
        return Err(Reject::CarsOverlap);
    }
    if is_stuck_high(a) || is_stuck_high(b) {
        return Err(Reject::GroundedFrozenHigh);
    }
    if !(is_finite3(&st.ball.pos) && is_finite3(&st.ball.vel) && is_finite3(&st.ball.ang_vel)) {
        return Err(Reject::NonFinite);
    }
    if !is_car_finite(a) || !is_car_finite(b) {
        return Err(Reject::NonFinite);
    }
    if !(a.team == 0 && b.team == 1) {
        return Err(Reject::TeamOrder);
    }
    let ball: F = whole(MAX_BALL_SPEED);
    if is_too_fast(a, sqrt) || is_too_fast(b, sqrt) || mag(&st.ball.vel, sqrt) > ball {
        return Err(Reject::Implausible);
    }
    Ok(())
}

/// Whether a state breaks no rule.
pub fn is_acceptable<F: Scalar, S: Fn(F) -> F>(st: &ResetState<F>, sqrt: &S) -> (r: bool)
    requires
        total::<F>(),
        functional(*sqrt),
    ensures
        r == reject_reason(*st, *sqrt) is None,
{
    accept(st, sqrt).is_ok()
}

/// Seed of the sample, the same for every file.
pub const RESERVOIR_SEED: u64 = 0x5245_5345_5400_0001;

/// Most bytes of a line that are read at once.
pub const MAX_LINE_BYTES: usize = 65536;

/// Byte that ends a line.
pub const NEWLINE: u8 = 10;

/// What to do with a piece of the file.
#[derive(Debug, Clone, Copy, PartialEq, Eq, Structural)]
pub enum Chunk {
    /// The file is at its end.
    Stop,
    /// The piece belongs to a line that is too long; go on to the next piece.
    Skip,
    /// The piece is a line; parse it and hand in what came out.
    Parse,
}

/// Whether a piece ends its line.
pub open spec fn ends_line(raw: Seq<u8>) -> bool {
    raw.len() > 0 && raw.last() == NEWLINE
}

/// What the loader holds.
pub struct LoaderView<F> {
    pub kept: Seq<ResetState<F>>,
    pub counts: RejectCounts,
    /// How many states were accepted.
    pub accepted: usize,
    /// Inside a line that is too long.
    pub skipping: bool,
    /// The generator that picks which state leaves the sample.
    pub rng: (u64, u64),
    /// Most states that are kept; 0 for no limit.
    pub max_states: usize,
}

/// Reads a pool piece by piece.
pub struct PoolLoader<F> {
    kept: Vec<ResetState<F>>,
    counts: RejectCounts,
    accepted: usize,
    skipping: bool,
    rng: Pcg32,
    max_states: usize,
}

impl<F> View for PoolLoader<F> {
    type V = LoaderView<F>;

    closed spec fn view(&self) -> LoaderView<F> {
        LoaderView {
            kept: self.kept@,
            counts: self.counts,
            accepted: self.accepted,
            skipping: self.skipping,
            rng: self.rng@,
            max_states: self.max_states,
        }
    }
}

/// A loader before the first piece.
pub open spec fn fresh_loader<F>(max_states: usize) -> LoaderView<F> {
    LoaderView {
        kept: Seq::empty(),
        counts: no_lines(),
        accepted: 0,
        skipping: false,
        rng: pcg_seeded(RESERVOIR_SEED),
        max_states,
    }
}

/// What to do with a piece. A piece is what is read up to the end of the line,
/// the end of the file or the greatest length, whichever comes first.
pub open spec fn chunk_of<F>(l: LoaderView<F>, raw: Seq<u8>) -> Chunk {
    if raw.len() == 0 {
        Chunk::Stop
    } else if l.skipping || (raw.len() == MAX_LINE_BYTES && !ends_line(raw)) {
        Chunk::Skip
    } else {
        Chunk::Parse
    }
}

/// The loader after a piece: a line is counted at its first piece, and counted
/// as malformed if that piece does not end it.
pub open spec fn after_chunk<F>(l: LoaderView<F>, raw: Seq<u8>) -> LoaderView<F> {
    if raw.len() == 0 {
        l
    } else if l.skipping {
        LoaderView { skipping: !ends_line(raw), ..l }
    } else {
        let read = RejectCounts { read: (l.counts.read + 1) as usize, ..l.counts };
        if raw.len() == MAX_LINE_BYTES && !ends_line(raw) {
            LoaderView {
                skipping: true,
                counts: RejectCounts { malformed: (read.malformed + 1) as usize, ..read },
                ..l
            }
        } else {
            LoaderView { counts: read, ..l }
        }
    }
}

/// The loader after an accepted state: the state is kept while there is room;
/// after that it takes the place of a state drawn at random, or none.
pub open spec fn after_accept<F>(l: LoaderView<F>, st: ResetState<F>) -> LoaderView<F> {
    let accepted = (l.accepted + 1) as usize;
    if l.max_states == 0 || l.kept.len() < l.max_states {
        LoaderView { kept: l.kept.push(st), accepted, ..l }
    } else {
        let j = pcg_output(l.rng) as int % accepted as int;
        LoaderView {
            kept: if j < l.max_states {
                l.kept.update(j, st)
            } else {
                l.kept
            },
            accepted,
            rng: pcg_next(l.rng),
            ..l
        }
    }
}

/// The loader after a line was parsed to `st`, `None` if it did not parse.
pub open spec fn after_line<F: Scalar, S: Fn(F) -> F>(
    l: LoaderView<F>,
    st: Option<ResetState<F>>,
    sqrt: S,
) -> LoaderView<F> {
    match st {
        None => LoaderView {
            counts: RejectCounts { malformed: (l.counts.malformed + 1) as usize, ..l.counts },
            ..l
        },
        Some(s) => match reject_reason(s, sqrt) {
            Some(e) => LoaderView { counts: l.counts.bumped(e), ..l },
            None => after_accept(l, s),
        },
    }
}

impl<F> LoaderView<F> {
    /// Every line that was read and judged came to exactly one end.
    pub open spec fn balanced(self) -> bool {
        self.counts.read == self.counts.malformed + self.counts.dropped() + self.accepted
    }

    /// One line was read and is not judged yet.
    pub open spec fn awaiting(self) -> bool {
        self.counts.read == self.counts.malformed + self.counts.dropped() + self.accepted + 1
    }

    /// The sample is full or holds all accepted states.
    pub open spec fn sized(self) -> bool {
        self.kept.len() == if self.max_states == 0 || self.accepted < self.max_states {
            self.accepted
        } else {
            self.max_states
        }
    }
}

impl<F: Scalar> PoolLoader<F> {
    /// A loader that keeps at most `max_states` states, all of them if 0.
    pub fn new(max_states: usize) -> (l: Self)
        ensures
            l@ == fresh_loader::<F>(max_states),
            l@.balanced(),
            l@.sized(),
    {
        PoolLoader {
            kept: Vec::new(),
            counts: RejectCounts::new(),
            accepted: 0,
            skipping: false,
            rng: Pcg32::new(RESERVOIR_SEED),
            max_states,
        }
    }

    /// Takes the next piece of the file and says what to do with it.
    pub fn chunk(&mut self, raw: &Vec<u8>) -> (c: Chunk)
        requires
            old(self)@.balanced(),
            old(self)@.sized(),
            old(self)@.counts.read < usize::MAX,
        ensures
            c == chunk_of(old(self)@, raw@),
            final(self)@ == after_chunk(old(self)@, raw@),
            final(self)@.sized(),
            c == Chunk::Parse ==> final(self)@.awaiting(),
            c != Chunk::Parse ==> final(self)@.balanced(),
    {
        if raw.len() == 0 {
            return Chunk::Stop;
        }
        let ends: bool = raw[raw.len() - 1] == NEWLINE;
        if self.skipping {
            self.skipping = !ends;
            return Chunk::Skip;
        }
        self.counts.read = self.counts.read + 1;
        if raw.len() == MAX_LINE_BYTES && !ends {
            self.counts.malformed = self.counts.malformed + 1;
            self.skipping = true;
            return Chunk::Skip;
        }
        Chunk::Parse
    }

    /// Takes what a line was parsed to.
    pub fn line<S: Fn(F) -> F>(&mut self, st: Option<ResetState<F>>, sqrt: &S)
        requires
            total::<F>(),
            functional(*sqrt),
            old(self)@.awaiting(),
            old(self)@.sized(),
        ensures
            final(self)@ == after_line(old(self)@, st, *sqrt),
            final(self)@.balanced(),
            final(self)@.sized(),
    {
        match st {
            None => {
                self.counts.malformed = self.counts.malformed + 1;
            },
            Some(s) => match accept(&s, sqrt) {
                Err(e) => {
                    self.counts.bump(e);
                },
                Ok(_) => {
                    if self.max_states == 0 || self.kept.len() < self.max_states {
                        self.kept.push(s);
                    } else {
                        let j: usize = self.rng.next_u32() as usize % (self.accepted + 1);
                        if j < self.max_states {
                            self.kept[j] = s;
                        }
                    }
                    self.accepted = self.accepted + 1;
                },
            },
        }
    }

    /// The states that were kept and the count of lines.
    pub fn finish(self) -> (r: (Vec<ResetState<F>>, RejectCounts))
        ensures
            r.0@ == self@.kept,
            r.1 == self@.counts,
    {
        (self.kept, self.counts)
    }
}

/// The loader after a run of parsed lines.
pub open spec fn after_lines<F: Scalar, S: Fn(F) -> F>(
    l: LoaderView<F>,
    lines: Seq<Option<ResetState<F>>>,
    sqrt: S,
) -> LoaderView<F>
    decreases lines.len(),
{
    if lines.len() == 0 {
        l
    } else {
        let before = after_lines(l, lines.drop_last(), sqrt);
        let read = LoaderView {
            counts: RejectCounts {
                read: (before.counts.read + 1) as usize,
                ..before.counts
            },
            ..before
        };
        after_line(read, lines.last(), sqrt)
    }
}

/// The states of a run of parsed lines that break no rule, in order.
pub open spec fn acceptable<F: Scalar, S: Fn(F) -> F>(
    lines: Seq<Option<ResetState<F>>>,
    sqrt: S,
) -> Seq<ResetState<F>>
    decreases lines.len(),
{
    if lines.len() == 0 {
        Seq::empty()
    } else {
        let before = acceptable(lines.drop_last(), sqrt);
        match lines.last() {
            Some(s) => if reject_reason(s, sqrt) is None {
                before.push(s)
            } else {
                before
            },
            None => before,
        }
    }
}

/// Where the sample is not full, it is all acceptable states in the order of the
/// file, and no random number was drawn.
pub proof fn law_small_pools_are_kept_whole<F: Scalar, S: Fn(F) -> F>(
    max_states: usize,
    lines: Seq<Option<ResetState<F>>>,
    sqrt: S,
)
    requires
        max_states == 0 || acceptable(lines, sqrt).len() <= max_states,
        lines.len() < usize::MAX,
    ensures
        ({
            let l = after_lines(fresh_loader::<F>(max_states), lines, sqrt);
            &&& l.kept == acceptable(lines, sqrt)
            &&& l.rng == pcg_seeded(RESERVOIR_SEED)
            &&& l.accepted == acceptable(lines, sqrt).len()
            &&& l.max_states == max_states
        }),
    decreases lines.len(),
{
    if lines.len() > 0 {
        lemma_acceptable_len(lines, sqrt);
        law_small_pools_are_kept_whole(max_states, lines.drop_last(), sqrt);
    }
}

proof fn lemma_acceptable_len<F: Scalar, S: Fn(F) -> F>(
    lines: Seq<Option<ResetState<F>>>,
    sqrt: S,
)
    ensures
        acceptable(lines, sqrt).len() <= lines.len(),
    decreases lines.len(),
{
    if lines.len() > 0 {
        lemma_acceptable_len(lines.drop_last(), sqrt);
    }
}

/// The sample holds only acceptable states of the file, as many as there are up
/// to the limit.
pub proof fn law_sample_is_of_the_file<F: Scalar, S: Fn(F) -> F>(
    max_states: usize,
    lines: Seq<Option<ResetState<F>>>,
    sqrt: S,
)
    requires
        lines.len() < usize::MAX,
    ensures
        ({
            let l = after_lines(fresh_loader::<F>(max_states), lines, sqrt);
            &&& l.accepted == acceptable(lines, sqrt).len()
            &&& l.max_states == max_states
            &&& l.sized()
            &&& forall|i: int|
                0 <= i < l.kept.len() ==> acceptable(lines, sqrt).contains(#[trigger] l.kept[i])
        }),
    decreases lines.len(),
{
    if lines.len() > 0 {
        lemma_acceptable_len(lines, sqrt);
        law_sample_is_of_the_file(max_states, lines.drop_last(), sqrt);
        let head = lines.drop_last();
        let before = after_lines(fresh_loader::<F>(max_states), head, sqrt);
        let l = after_lines(fresh_loader::<F>(max_states), lines, sqrt);
        let old_ones = acceptable(head, sqrt);
        let all = acceptable(lines, sqrt);
        assert forall|s: ResetState<F>| old_ones.contains(s) implies #[trigger] all.contains(s) by {
            let k = choose|k: int| 0 <= k < old_ones.len() && old_ones[k] == s;
            assert(all[k] == s);
        }
        if all.len() > old_ones.len() {
            assert(all[old_ones.len() as int] == lines.last()->0);
            assert(all.contains(lines.last()->0));
        }
        assert forall|i: int| 0 <= i < l.kept.len() implies all.contains(#[trigger] l.kept[i]) by {
            if i < before.kept.len() && l.kept[i] == before.kept[i] {
                assert(old_ones.contains(before.kept[i]));
            }
        }
    }
}

/// A vector rotated by a unit quaternion `[x, y, z, w]`.
pub open spec fn rotated<F: Scalar>(q: [F; 4], v: (F, F, F)) -> Vec3<F> {
    let two = num::<F>(2);
    let t = (
        times(two, minus(times(q[1], v.2), times(q[2], v.1))),
        times(two, minus(times(q[2], v.0), times(q[0], v.2))),
        times(two, minus(times(q[0], v.1), times(q[1], v.0))),
    );
    let c = (
        minus(times(q[1], t.2), times(q[2], t.1)),
        minus(times(q[2], t.0), times(q[0], t.2)),
        minus(times(q[0], t.1), times(q[1], t.0)),
    );
    Vec3 {
        x: plus(plus(v.0, times(q[3], t.0)), c.0),
        y: plus(plus(v.1, times(q[3], t.1)), c.1),
        z: plus(plus(v.2, times(q[3], t.2)), c.2),
    }
}

/// A vector rotated by a unit quaternion `[x, y, z, w]`.
pub fn rotate_vector<F: Scalar>(q: &[F; 4], v: (F, F, F)) -> (r: Vec3<F>)
    requires
        total::<F>(),
    ensures
        r == rotated(*q, v),
{
    let two: F = whole(2);
    let tx: F = two * (q[1] * v.2 - q[2] * v.1);
    let ty: F = two * (q[2] * v.0 - q[0] * v.2);
    let tz: F = two * (q[0] * v.1 - q[1] * v.0);
    let cx: F = q[1] * tz - q[2] * ty;
    let cy: F = q[2] * tx - q[0] * tz;
    let cz: F = q[0] * ty - q[1] * tx;
    Vec3 { x: v.0 + q[3] * tx + cx, y: v.1 + q[3] * ty + cy, z: v.2 + q[3] * tz + cz }
}

/// The orientation that a unit quaternion `[x, y, z, w]` stands for: where it
/// takes the three axes.
pub fn quat_to_rotmat<F: Scalar>(q: &[F; 4]) -> (m: RotMat<F>)
    requires
        total::<F>(),
    ensures
        m == orientation(*q),
{
    let zero: F = whole(0);
    let one: F = whole(1);
    RotMat {
        forward: rotate_vector(q, (one, zero, zero)),
        right: rotate_vector(q, (zero, one, zero)),
        up: rotate_vector(q, (zero, zero, one)),
    }
}

/// The orientation that a unit quaternion stands for.
pub open spec fn orientation<F: Scalar>(q: [F; 4]) -> RotMat<F> {
    let zero = num::<F>(0);
    let one = num::<F>(1);
    RotMat {
        forward: rotated(q, (one, zero, zero)),
        right: rotated(q, (zero, one, zero)),
        up: rotated(q, (zero, zero, one)),
    }
}

} // verus!
