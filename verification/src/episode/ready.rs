//! An arena can go on: every step and every reset leaves it ready for the next.

use crate::actions::{base_table, law_tables_append_only};
use crate::episode::arena::{
    after_end, after_reset, agents_present, can_end, clocks_ok, flags_after, is_fresh,
    lemma_touch_bounds, rings_pushed, same_setup, scorer, table_for, ArenaView, EpisodeArena,
};
use crate::episode::{sane_state, ActionTableKind, ObsMode};
use crate::scalar::Scalar;
use crate::sim::GameState;
use vstd::prelude::*;

verus! {

/// There is a ring for every agent, where rings are kept.
pub open spec fn rings_sized<F>(a: EpisodeArena<F>) -> bool {
    match a@.rings {
        Some(r) => r.len() == a.car_ids@.len(),
        None => true,
    }
}

/// The arena stands at `tick`, and its counters have room for `room` more steps.
pub open spec fn ready<F: Scalar>(a: EpisodeArena<F>, tick: u64, room: int) -> bool {
    &&& a.blue_count <= a.car_ids@.len()
    &&& rings_sized(a)
    &&& clocks_ok(a, tick)
    &&& a.plays_matches() ==> a@.score_blue + room <= u32::MAX
    &&& a.plays_matches() ==> a@.score_orange + room <= u32::MAX
    &&& a@.blowup_count + room <= u64::MAX
}

/// The state is one of this arena: it has the agents' cars, and as many cars as the
/// state before.
pub open spec fn belongs<F>(a: EpisodeArena<F>, s: GameState<F>) -> bool {
    &&& agents_present(a.car_ids@, s.cars@)
    &&& s.cars@.len() == a@.prev_state.cars@.len()
}

/// A step of an arena at `tick` came to state `cur`: where the physics did not
/// break down, the state is one of the arena and the clock has not fallen.
pub open spec fn came_to<F: Scalar>(a: EpisodeArena<F>, tick: u64, cur: GameState<F>) -> bool {
    sane_state(cur) ==> belongs(a, cur) && tick <= cur.tick_count
}

/// What beginning a step with these actions makes of an arena.
pub open spec fn begun<F>(a: EpisodeArena<F>, b: EpisodeArena<F>, acts: Seq<i64>) -> bool {
    &&& same_setup(b, a)
    &&& b@ == (ArenaView { rings: b@.rings, ..a@ })
    &&& match a@.rings {
        Some(r) => b@.rings is Some && rings_pushed(r, acts, b@.rings->0),
        None => b@.rings is None,
    }
}

/// What ending a step in state `cur` makes of an arena.
pub open spec fn ended_in<F: Scalar>(
    a: EpisodeArena<F>,
    b: EpisodeArena<F>,
    cur: GameState<F>,
    ball_scored: bool,
) -> bool {
    same_setup(b, a) && b@ == after_end(a, cur, ball_scored)
}

/// What a reset that ends in state `gs` makes of an arena. Whatever was drawn for
/// it came from the arena's generator.
pub open spec fn was_reset<F>(a: EpisodeArena<F>, b: EpisodeArena<F>, gs: GameState<F>) -> bool {
    &&& same_setup(b, a)
    &&& b@ == after_reset(ArenaView { rng: b@.rng, ..a@ }, gs)
}

/// Whether a reset follows the step.
pub open spec fn reset_follows<F: Scalar>(
    a: EpisodeArena<F>,
    cur: GameState<F>,
    ball_scored: bool,
) -> bool {
    let f = flags_after(a, cur, ball_scored);
    ||| !sane_state(cur)
    ||| f.terminated || f.truncated
    ||| a.plays_matches() && scorer(cur, ball_scored) is Some
}

/// A fresh arena is ready at the tick of its state.
pub proof fn law_fresh_arenas_are_ready<F: Scalar>(
    a: EpisodeArena<F>,
    ids: Seq<u32>,
    blue: usize,
    seed: u32,
    mode: ObsMode,
    state: GameState<F>,
    room: int,
)
    requires
        is_fresh(a, ids, blue, seed, mode, state),
        blue <= ids.len(),
        room <= u32::MAX,
    ensures
        ready(a, state.tick_count, room),
        a@.rings is Some <==> mode == ObsMode::V1,
        agents_present(ids, state.cars@) ==> belongs(a, state),
{
}

/// An arena that is ready can begin a step and end it in any state that it comes
/// to.
pub proof fn law_ready_arenas_can_step<F: Scalar>(
    a: EpisodeArena<F>,
    b: EpisodeArena<F>,
    tick: u64,
    room: int,
    acts: Seq<i64>,
    cur: GameState<F>,
)
    requires
        ready(a, tick, room),
        0 < room,
        acts.len() == a.car_ids@.len(),
        begun(a, b, acts),
        came_to(a, tick, cur),
    ensures
        a@.rings matches Some(r) ==> r.len() == acts.len(),
        ready(b, tick, room),
        b.blue_count <= b.car_ids@.len(),
        can_end(b, cur),
        came_to(b, tick, cur),
{
}

/// A step after which no reset follows leaves the arena ready at the tick of its
/// state, which belongs to it.
pub proof fn law_steps_leave_arenas_ready<F: Scalar>(
    a: EpisodeArena<F>,
    b: EpisodeArena<F>,
    tick: u64,
    room: int,
    cur: GameState<F>,
    ball_scored: bool,
)
    requires
        ready(a, tick, room),
        0 < room,
        came_to(a, tick, cur),
        ended_in(a, b, cur, ball_scored),
        !reset_follows(a, cur, ball_scored),
    ensures
        ready(b, cur.tick_count, room - 1),
        belongs(b, cur),
        b@.prev_state == cur,
        b@.rings == a@.rings,
{
    lemma_touch_bounds(a.car_ids@, cur, a@.last_touch_tick, a.car_ids@.len() as int);
}

/// A reset after a step leaves the arena ready at the tick of the state that it
/// ends in. After a breakdown that is a rebuilt arena's, whose clock may stand
/// anywhere; otherwise the clock has not fallen.
pub proof fn law_resets_leave_arenas_ready<F: Scalar>(
    a: EpisodeArena<F>,
    b: EpisodeArena<F>,
    c: EpisodeArena<F>,
    tick: u64,
    room: int,
    cur: GameState<F>,
    ball_scored: bool,
    gs: GameState<F>,
)
    requires
        ready(a, tick, room),
        0 < room,
        came_to(a, tick, cur),
        ended_in(a, b, cur, ball_scored),
        was_reset(b, c, gs),
        belongs(a, gs),
        sane_state(cur) ==> cur.tick_count <= gs.tick_count,
    ensures
        ready(c, gs.tick_count, room - 1),
        belongs(c, gs),
        c@.prev_state == gs,
        c@.rings is Some <==> a@.rings is Some,
{
}

/// In a match that the breakdown of the physics cut off, the next one begins
/// without goals and with a full clock.
pub proof fn law_breakdowns_restart_matches<F: Scalar>(
    a: EpisodeArena<F>,
    b: EpisodeArena<F>,
    cur: GameState<F>,
    ball_scored: bool,
)
    requires
        a.plays_matches(),
        !sane_state(cur),
        ended_in(a, b, cur, ball_scored),
    ensures
        b@.score_blue == 0,
        b@.score_orange == 0,
        b@.match_start_tick == 0,
{
}

/// A breakdown of the physics is counted. Outside a match it leaves the score and
/// everything else as it was.
pub proof fn law_breakdowns_are_counted<F: Scalar>(
    a: EpisodeArena<F>,
    b: EpisodeArena<F>,
    cur: GameState<F>,
    ball_scored: bool,
)
    requires
        !sane_state(cur),
        ended_in(a, b, cur, ball_scored),
        a@.blowup_count < u64::MAX,
    ensures
        b@.blowup_count == a@.blowup_count + 1,
        b@.seed == a@.seed,
        b@.rng == a@.rng,
        b@.prev_state == a@.prev_state,
        b@.rings == a@.rings,
        b@.episode_start_tick == a@.episode_start_tick,
        b@.last_touch_tick == a@.last_touch_tick,
        !a.plays_matches() ==> b@.score_blue == a@.score_blue && b@.score_orange
            == a@.score_orange && b@.match_start_tick == a@.match_start_tick,
{
}

/// Agents that see flat rows choose among 90 actions, agents that see entities among
/// 92, or 104 where the table has the aerials.
pub proof fn law_tables_of_the_modes(kind: ActionTableKind)
    ensures
        table_for(ObsMode::V0, kind) == base_table(),
        table_for(ObsMode::V0, kind).len() == 90,
        table_for(ObsMode::V1, ActionTableKind::V1).len() == 92,
        table_for(ObsMode::V1, ActionTableKind::V1Air).len() == 104,
{
    law_tables_append_only();
}

} // verus!
