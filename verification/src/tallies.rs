//! What becomes of the lines of a pool, line by line.

use crate::reset_pool::{
    after_accept, after_chunk, after_line, chunk_of, fresh_loader, reject_reason, Chunk,
    LoaderView, Reject, RejectCounts, ResetState,
};
use crate::sampler::{pcg_next, pcg_output};
use crate::scalar::Scalar;
use vstd::prelude::*;

verus! {

/// Two counts agree but for the lines dropped for one reason.
pub open spec fn agree_but_for(a: RejectCounts, b: RejectCounts, r: Reject) -> bool {
    &&& a.read == b.read
    &&& a.malformed == b.malformed
    &&& r != Reject::OriginBall ==> a.origin_ball == b.origin_ball
    &&& r != Reject::BallPastGoal ==> a.ball_past_goal == b.ball_past_goal
    &&& r != Reject::FrozenCar ==> a.frozen_car == b.frozen_car
    &&& r != Reject::CarsOverlap ==> a.cars_overlap == b.cars_overlap
    &&& r != Reject::GroundedFrozenHigh ==> a.grounded_frozen_high == b.grounded_frozen_high
    &&& r != Reject::NonFinite ==> a.nonfinite == b.nonfinite
    &&& r != Reject::TeamOrder ==> a.team_order == b.team_order
    &&& r != Reject::Implausible ==> a.implausible == b.implausible
}

/// A dropped line is counted once, under its own reason; nothing else is. All reasons
/// together are the lines that were dropped.
pub proof fn law_reasons_are_counted_apart(c: RejectCounts, r: Reject)
    requires
        c.of(r) < usize::MAX,
    ensures
        agree_but_for(c, c.bumped(r), r),
        c.bumped(r).of(r) == c.of(r) + 1,
        c.bumped(r).dropped() == c.dropped() + 1,
        r == Reject::OriginBall ==> c.bumped(r).origin_ball == c.origin_ball + 1,
        r == Reject::BallPastGoal ==> c.bumped(r).ball_past_goal == c.ball_past_goal + 1,
        r == Reject::FrozenCar ==> c.bumped(r).frozen_car == c.frozen_car + 1,
        r == Reject::CarsOverlap ==> c.bumped(r).cars_overlap == c.cars_overlap + 1,
        r == Reject::GroundedFrozenHigh ==> c.bumped(r).grounded_frozen_high
            == c.grounded_frozen_high + 1,
        r == Reject::NonFinite ==> c.bumped(r).nonfinite == c.nonfinite + 1,
        r == Reject::TeamOrder ==> c.bumped(r).team_order == c.team_order + 1,
        r == Reject::Implausible ==> c.bumped(r).implausible == c.implausible + 1,
{
}

/// A line that does not parse counts as malformed, a state that is dropped counts
/// under its reason, and any other is accepted; what else the loader holds stays.
pub proof fn law_every_line_comes_to_one_end<F: Scalar, S: Fn(F) -> F>(
    l: LoaderView<F>,
    st: Option<ResetState<F>>,
    sqrt: S,
)
    requires
        l.counts.malformed < usize::MAX,
        l.accepted < usize::MAX,
        forall|r: Reject| #[trigger] l.counts.of(r) < usize::MAX,
    ensures
        ({
            let after = after_line(l, st, sqrt);
            &&& after.counts.read == l.counts.read
            &&& after.max_states == l.max_states
            &&& after.skipping == l.skipping
            &&& st is None ==> after.counts.malformed == l.counts.malformed + 1
                && after.counts.dropped() == l.counts.dropped() && after.accepted == l.accepted
                && after.kept == l.kept && after.rng == l.rng
            &&& st matches Some(s) ==> (reject_reason(s, sqrt) matches Some(r) ==> {
                &&& agree_but_for(l.counts, after.counts, r)
                &&& after.counts.of(r) == l.counts.of(r) + 1
                &&& after.accepted == l.accepted
                &&& after.kept == l.kept
                &&& after.rng == l.rng
            })
            &&& st matches Some(s) ==> (reject_reason(s, sqrt) is None ==> {
                &&& after.counts == l.counts
                &&& after.accepted == l.accepted + 1
            })
            &&& l.awaiting() ==> after.balanced()
        }),
{
    if let Some(s) = st {
        if let Some(r) = reject_reason(s, sqrt) {
            assert(l.counts.of(r) < usize::MAX);
            law_reasons_are_counted_apart(l.counts, r);
        }
    }
}

/// While there is room a state is kept behind the others. After that one number is
/// drawn: among as many as were accepted it picks a place, and where the sample has
/// that place, the new state takes it.
pub proof fn law_accepted_states_are_sampled<F>(l: LoaderView<F>, st: ResetState<F>, i: int)
    requires
        l.accepted < usize::MAX,
        l.sized(),
    ensures
        ({
            let after = after_accept(l, st);
            let drawn = pcg_output(l.rng) as int % (l.accepted + 1);
            &&& after.accepted == l.accepted + 1
            &&& after.sized()
            &&& after.counts == l.counts
            &&& l.max_states == 0 || l.accepted < l.max_states ==> after.kept == l.kept.push(st)
                && after.rng == l.rng
            &&& 0 < l.max_states <= l.accepted ==> {
                &&& after.rng == pcg_next(l.rng)
                &&& drawn < l.max_states ==> after.kept[drawn] == st
                &&& 0 <= i < l.kept.len() && i != drawn ==> after.kept[i] == l.kept[i]
            }
        }),
{
}

/// A line is read when its first piece comes. A piece of the greatest length that does
/// not end its line makes the line malformed, and the rest of it is passed over up to
/// where it ends; other pieces are parsed.
pub proof fn law_pieces_are_counted<F>(l: LoaderView<F>, raw: Seq<u8>)
    requires
        l.counts.read < usize::MAX,
        l.counts.malformed < usize::MAX,
    ensures
        ({
            let after = after_chunk(l, raw);
            let ended = raw.len() > 0 && raw[raw.len() - 1] == 10u8;
            let cut = raw.len() == 65536 && !ended;
            &&& after.kept == l.kept && after.accepted == l.accepted && after.rng == l.rng
                && after.max_states == l.max_states
            &&& after.counts.dropped() == l.counts.dropped()
            &&& raw.len() == 0 ==> chunk_of(l, raw) == Chunk::Stop && after == l
            &&& raw.len() > 0 && l.skipping ==> chunk_of(l, raw) == Chunk::Skip && after.counts
                == l.counts && after.skipping == !ended
            &&& raw.len() > 0 && !l.skipping ==> after.counts.read == l.counts.read + 1
            &&& raw.len() > 0 && !l.skipping && cut ==> chunk_of(l, raw) == Chunk::Skip
                && after.skipping && after.counts.malformed == l.counts.malformed + 1
            &&& raw.len() > 0 && !l.skipping && !cut ==> chunk_of(l, raw) == Chunk::Parse
                && !after.skipping && after.counts.malformed == l.counts.malformed
            &&& l.balanced() && chunk_of(l, raw) == Chunk::Parse ==> after.awaiting()
            &&& l.balanced() && chunk_of(l, raw) != Chunk::Parse ==> after.balanced()
        }),
{
}

/// A loader begins with nothing read and nothing kept.
pub proof fn law_loaders_begin_empty<F>(max_states: usize)
    ensures
        ({
            let l = fresh_loader::<F>(max_states);
            &&& l.kept.len() == 0
            &&& l.accepted == 0
            &&& l.counts.read == 0
            &&& l.counts.malformed == 0
            &&& l.counts.dropped() == 0
            &&& !l.skipping
            &&& l.max_states == max_states
            &&& l.balanced() && l.sized()
        }),
{
}

} // verus!
