//! Who drives which car during a rollout.
//!
//! The agents of a worker are numbered arena by arena, blue cars before orange
//! ones. An assignment gives each arena an opponent code:
//!
//! - `-1`: self-play, every car is driven by the learner and learned from;
//! - `k >= 0`: the orange cars are driven by native opponent slot `k`;
//! - `k <= -2`: the first orange cars are driven by foreign bot slot `-k - 2`;
//!   the learner's policy plays the remaining orange cars without learning from
//!   them.

use vstd::prelude::*;

verus! {

/// Cars of each team in an arena, `(blue, orange)`.
pub type TeamSizes = (usize, usize);

/// What drives one car.
pub enum Driver {
    /// The learner's policy; the car's experience is recorded.
    Learner,
    /// The learner's policy; the car's experience is discarded.
    Mirror,
    /// The native opponent in this slot.
    Opponent(int),
    /// The foreign bot in this slot.
    Bot(int),
}

/// The foreign slot that an opponent code `k <= -2` names.
pub open spec fn foreign_slot_of(k: i32) -> int {
    -k - 2
}

/// The foreign slot that an opponent code names.
pub fn foreign_slot(k: i32) -> (slot: usize)
    requires
        k <= -2,
    ensures
        slot == foreign_slot_of(k),
{
    -(k + 2) as usize
}

/// Number of agents in the first `n` arenas, which is the index of the first
/// agent of arena `n`.
pub open spec fn agent_offset(sizes: Seq<TeamSizes>, n: int) -> int
    decreases n,
{
    if n <= 0 {
        0
    } else {
        agent_offset(sizes, n - 1) + sizes[n - 1].0 + sizes[n - 1].1
    }
}

/// Number of agents in all arenas.
pub open spec fn agent_count(sizes: Seq<TeamSizes>) -> int {
    agent_offset(sizes, sizes.len() as int)
}

/// How many of `orange` cars the bot in `slot` drives: as many as it was set up
/// for, all of them where the slot is not set up.
pub open spec fn bot_cars_in(bot_cars: Seq<u32>, slot: int, orange: usize) -> int {
    if 0 <= slot < bot_cars.len() && bot_cars[slot] < orange {
        bot_cars[slot] as int
    } else {
        orange as int
    }
}

/// What drives car `i` (blue before orange) of an arena of the given sizes.
pub open spec fn driver(size: TeamSizes, k: i32, bot_cars: Seq<u32>, i: int) -> Driver {
    if k == -1 || i < size.0 {
        Driver::Learner
    } else if k >= 0 {
        Driver::Opponent(k as int)
    } else if i < size.0 + bot_cars_in(bot_cars, foreign_slot_of(k), size.1) {
        Driver::Bot(foreign_slot_of(k))
    } else {
        Driver::Mirror
    }
}

/// The indices from `from` up to but not including `to`.
pub open spec fn span(from: int, to: int) -> Seq<usize> {
    Seq::new(
        if from < to {
            (to - from) as nat
        } else {
            0
        },
        |i: int| (from + i) as usize,
    )
}

/// How many cars of an arena are learned from.
pub open spec fn learner_cars(size: TeamSizes, k: i32) -> int {
    if k == -1 {
        size.0 + size.1
    } else {
        size.0 as int
    }
}

/// The agents of the first `n` arenas whose experience is recorded, in order.
pub open spec fn learner_rows(sizes: Seq<TeamSizes>, asg: Seq<i32>, n: int) -> Seq<usize>
    decreases n,
{
    if n <= 0 {
        Seq::empty()
    } else {
        let off = agent_offset(sizes, n - 1);
        learner_rows(sizes, asg, n - 1) + span(off, off + learner_cars(sizes[n - 1], asg[n - 1]))
    }
}

/// The agents of one arena, starting at agent `off`, that the learner's policy plays.
pub open spec fn forward_span(size: TeamSizes, k: i32, bot_cars: Seq<u32>, off: int) -> Seq<usize> {
    if k <= -2 {
        span(off, off + size.0) + span(
            off + size.0 + bot_cars_in(bot_cars, foreign_slot_of(k), size.1),
            off + size.0 + size.1,
        )
    } else {
        span(off, off + learner_cars(size, k))
    }
}

/// The agents of the first `n` arenas that the learner's policy plays, in order.
pub open spec fn forward_rows(
    sizes: Seq<TeamSizes>,
    asg: Seq<i32>,
    bot_cars: Seq<u32>,
    n: int,
) -> Seq<usize>
    decreases n,
{
    if n <= 0 {
        Seq::empty()
    } else {
        forward_rows(sizes, asg, bot_cars, n - 1) + forward_span(
            sizes[n - 1],
            asg[n - 1],
            bot_cars,
            agent_offset(sizes, n - 1),
        )
    }
}

/// The agents of the first `n` arenas that native opponent `slot` plays, in order.
pub open spec fn opponent_rows(
    sizes: Seq<TeamSizes>,
    asg: Seq<i32>,
    slot: int,
    n: int,
) -> Seq<usize>
    decreases n,
{
    if n <= 0 {
        Seq::empty()
    } else {
        let off = agent_offset(sizes, n - 1);
        let size = sizes[n - 1];
        let before = opponent_rows(sizes, asg, slot, n - 1);
        if asg[n - 1] == slot {
            before + span(off + size.0, off + size.0 + size.1)
        } else {
            before
        }
    }
}

/// The team size label of an arena: its larger team.
pub open spec fn team_label(size: TeamSizes) -> i8 {
    (if size.0 > size.1 {
        size.0
    } else {
        size.1
    }) as i8
}

/// The team size label of each learner row of the first `n` arenas.
pub open spec fn team_labels(sizes: Seq<TeamSizes>, asg: Seq<i32>, n: int) -> Seq<i8>
    decreases n,
{
    if n <= 0 {
        Seq::empty()
    } else {
        team_labels(sizes, asg, n - 1) + Seq::new(
            learner_cars(sizes[n - 1], asg[n - 1]) as nat,
            |i: int| team_label(sizes[n - 1]),
        )
    }
}

/// The arenas among the first `n` with a foreign bot: arena, slot, first agent.
pub open spec fn bot_arenas(sizes: Seq<TeamSizes>, asg: Seq<i32>, n: int) -> Seq<
    (usize, usize, usize),
>
    decreases n,
{
    if n <= 0 {
        Seq::empty()
    } else if asg[n - 1] <= -2 {
        bot_arenas(sizes, asg, n - 1).push(
            (
                (n - 1) as usize,
                foreign_slot_of(asg[n - 1]) as usize,
                agent_offset(sizes, n - 1) as usize,
            ),
        )
    } else {
        bot_arenas(sizes, asg, n - 1)
    }
}

/// The arena of each agent of the first `n` arenas.
pub open spec fn arena_of_agents(sizes: Seq<TeamSizes>, n: int) -> Seq<usize>
    decreases n,
{
    if n <= 0 {
        Seq::empty()
    } else {
        arena_of_agents(sizes, n - 1) + Seq::new(
            (sizes[n - 1].0 + sizes[n - 1].1) as nat,
            |i: int| (n - 1) as usize,
        )
    }
}

/// The agent offset does not fall from one arena to the next.
pub proof fn lemma_offset_monotone(sizes: Seq<TeamSizes>, m: int, n: int)
    requires
        0 <= m <= n,
    ensures
        0 <= agent_offset(sizes, m) <= agent_offset(sizes, n),
    decreases n,
{
    if m < n {
        lemma_offset_monotone(sizes, m, n - 1);
    } else if 0 < m {
        lemma_offset_monotone(sizes, m - 1, n - 1);
    }
}

/// Strictly ascending and below `bound`.
pub open spec fn ascending(s: Seq<usize>, bound: int) -> bool {
    &&& forall|i: int, j: int| 0 <= i < j < s.len() ==> #[trigger] s[i] < #[trigger] s[j]
    &&& forall|i: int| 0 <= i < s.len() ==> #[trigger] s[i] < bound
}

proof fn lemma_append_span(s: Seq<usize>, bound: int, from: int, to: int)
    requires
        ascending(s, bound),
        0 <= bound <= from <= to <= usize::MAX,
    ensures
        ascending(s + span(from, to), to),
{
    let t = s + span(from, to);
    assert forall|i: int| 0 <= i < t.len() implies #[trigger] t[i] < to && (i < s.len()
        ==> t[i] < bound) && (i >= s.len() ==> t[i] == from + (i - s.len())) by {
        if i < s.len() {
            assert(t[i] == s[i]);
        }
    }
    assert forall|i: int, j: int| 0 <= i < j < t.len() implies #[trigger] t[i] < #[trigger] t[j] by {
        if j < s.len() {
            assert(t[i] == s[i] && t[j] == s[j]);
        }
    }
}

/// The recorded agents come in ascending order, none twice.
pub proof fn law_learner_rows_ascend(sizes: Seq<TeamSizes>, asg: Seq<i32>, n: int)
    requires
        0 <= n <= sizes.len(),
        agent_offset(sizes, n) <= usize::MAX,
    ensures
        ascending(learner_rows(sizes, asg, n), agent_offset(sizes, n)),
    decreases n,
{
    if n > 0 {
        law_learner_rows_ascend(sizes, asg, n - 1);
        let off = agent_offset(sizes, n - 1);
        lemma_offset_monotone(sizes, n - 1, n);
        lemma_append_span(
            learner_rows(sizes, asg, n - 1),
            off,
            off,
            off + learner_cars(sizes[n - 1], asg[n - 1]),
        );
    }
}

/// The agents that the learner's policy plays come in ascending order, none twice.
pub proof fn law_forward_rows_ascend(
    sizes: Seq<TeamSizes>,
    asg: Seq<i32>,
    bot_cars: Seq<u32>,
    n: int,
)
    requires
        0 <= n <= sizes.len(),
        agent_offset(sizes, n) <= usize::MAX,
    ensures
        ascending(forward_rows(sizes, asg, bot_cars, n), agent_offset(sizes, n)),
    decreases n,
{
    if n > 0 {
        law_forward_rows_ascend(sizes, asg, bot_cars, n - 1);
        let off = agent_offset(sizes, n - 1);
        let size = sizes[n - 1];
        let k = asg[n - 1];
        let before = forward_rows(sizes, asg, bot_cars, n - 1);
        lemma_offset_monotone(sizes, n - 1, n);
        if k <= -2 {
            let bots = bot_cars_in(bot_cars, foreign_slot_of(k), size.1);
            lemma_append_span(before, off, off, off + size.0);
            lemma_append_span(
                before + span(off, off + size.0),
                off + size.0,
                off + size.0 + bots,
                off + size.0 + size.1,
            );
            assert(forward_rows(sizes, asg, bot_cars, n) =~= before + span(off, off + size.0)
                + span(off + size.0 + bots, off + size.0 + size.1));
        } else {
            lemma_append_span(before, off, off, off + learner_cars(size, k));
        }
    }
}

proof fn lemma_span_contains(from: int, to: int, x: usize)
    requires
        0 <= from,
        to <= usize::MAX,
    ensures
        span(from, to).contains(x) <==> from <= x < to,
{
    if from <= x < to {
        assert(span(from, to)[x - from] == x);
    }
}

proof fn lemma_concat_contains(s: Seq<usize>, t: Seq<usize>, x: usize)
    ensures
        (s + t).contains(x) <==> s.contains(x) || t.contains(x),
{
    let u = s + t;
    if s.contains(x) {
        let i = choose|i: int| 0 <= i < s.len() && s[i] == x;
        assert(u[i] == x);
    }
    if t.contains(x) {
        let i = choose|i: int| 0 <= i < t.len() && t[i] == x;
        assert(u[s.len() + i] == x);
    }
    if u.contains(x) {
        let i = choose|i: int| 0 <= i < u.len() && u[i] == x;
        if i < s.len() {
            assert(s[i] == x);
        } else {
            assert(t[i - s.len()] == x);
        }
    }
}

/// Every row list holds only agents of the arenas it was built from.
proof fn lemma_rows_below(sizes: Seq<TeamSizes>, asg: Seq<i32>, bot_cars: Seq<u32>, n: int, x: usize)
    requires
        0 <= n <= sizes.len(),
        agent_offset(sizes, n) <= usize::MAX,
        x >= agent_offset(sizes, n),
    ensures
        !learner_rows(sizes, asg, n).contains(x),
        !forward_rows(sizes, asg, bot_cars, n).contains(x),
        forall|slot: int| !(#[trigger] opponent_rows(sizes, asg, slot, n)).contains(x),
    decreases n,
{
    law_learner_rows_ascend(sizes, asg, n);
    law_forward_rows_ascend(sizes, asg, bot_cars, n);
    assert forall|slot: int| !(#[trigger] opponent_rows(sizes, asg, slot, n)).contains(x) by {
        lemma_opponent_rows_below(sizes, asg, slot, n, x);
    }
}

proof fn lemma_opponent_rows_below(
    sizes: Seq<TeamSizes>,
    asg: Seq<i32>,
    slot: int,
    n: int,
    x: usize,
)
    requires
        0 <= n <= sizes.len(),
        agent_offset(sizes, n) <= usize::MAX,
        x >= agent_offset(sizes, n),
    ensures
        !opponent_rows(sizes, asg, slot, n).contains(x),
    decreases n,
{
    if n > 0 {
        let off = agent_offset(sizes, n - 1);
        let size = sizes[n - 1];
        lemma_offset_monotone(sizes, n - 1, n);
        lemma_opponent_rows_below(sizes, asg, slot, n - 1, x);
        let more = span(off + size.0, off + size.0 + size.1);
        lemma_span_contains(off + size.0, off + size.0 + size.1, x);
        lemma_concat_contains(opponent_rows(sizes, asg, slot, n - 1), more, x);
    }
}

/// Each car has exactly one driver, and the row lists are the cars by driver:
/// recorded rows are the learner's cars, forwarded rows are those and the
/// mirrors, and each native opponent's rows are the cars it drives.
pub proof fn law_rows_are_drivers(
    sizes: Seq<TeamSizes>,
    asg: Seq<i32>,
    bot_cars: Seq<u32>,
    n: int,
    li: int,
    i: int,
)
    requires
        0 <= li < n <= sizes.len(),
        agent_offset(sizes, n) <= usize::MAX,
        0 <= i < sizes[li].0 + sizes[li].1,
    ensures
        ({
            let a = (agent_offset(sizes, li) + i) as usize;
            let d = driver(sizes[li], asg[li], bot_cars, i);
            &&& learner_rows(sizes, asg, n).contains(a) <==> d is Learner
            &&& forward_rows(sizes, asg, bot_cars, n).contains(a) <==> d is Learner || d is Mirror
            &&& forall|slot: int|
                slot >= 0 ==> ((#[trigger] opponent_rows(sizes, asg, slot, n)).contains(a) <==> d
                    == Driver::Opponent(slot))
        }),
    decreases n,
{
    let a = (agent_offset(sizes, li) + i) as usize;
    let d = driver(sizes[li], asg[li], bot_cars, i);
    let off = agent_offset(sizes, n - 1);
    let size = sizes[n - 1];
    let k = asg[n - 1];
    lemma_offset_monotone(sizes, li, n - 1);
    lemma_offset_monotone(sizes, li + 1, n);
    lemma_offset_monotone(sizes, n - 1, n);
    let bots = bot_cars_in(bot_cars, foreign_slot_of(k), size.1);
    lemma_span_contains(off, off + learner_cars(size, k), a);
    lemma_span_contains(off, off + size.0, a);
    lemma_span_contains(off + size.0 + bots, off + size.0 + size.1, a);
    lemma_span_contains(off + size.0, off + size.0 + size.1, a);
    lemma_concat_contains(
        learner_rows(sizes, asg, n - 1),
        span(off, off + learner_cars(size, k)),
        a,
    );
    lemma_concat_contains(
        span(off, off + size.0),
        span(off + size.0 + bots, off + size.0 + size.1),
        a,
    );
    lemma_concat_contains(
        forward_rows(sizes, asg, bot_cars, n - 1),
        forward_span(size, k, bot_cars, off),
        a,
    );
    if li < n - 1 {
        law_rows_are_drivers(sizes, asg, bot_cars, n - 1, li, i);
        lemma_offset_monotone(sizes, li + 1, n - 1);
        assert(a < off);
    } else {
        lemma_rows_below(sizes, asg, bot_cars, n - 1, a);
    }
    assert forall|slot: int| slot >= 0 implies ((#[trigger] opponent_rows(
        sizes,
        asg,
        slot,
        n,
    )).contains(a) <==> d == Driver::Opponent(slot)) by {
        let before = opponent_rows(sizes, asg, slot, n - 1);
        lemma_concat_contains(before, span(off + size.0, off + size.0 + size.1), a);
        if li == n - 1 {
            lemma_opponent_rows_below(sizes, asg, slot, n - 1, a);
        }
    }
}

/// With self-play everywhere the recorded rows are all agents in order.
pub proof fn law_self_play_rows(sizes: Seq<TeamSizes>, asg: Seq<i32>, bot_cars: Seq<u32>, n: int)
    requires
        0 <= n <= sizes.len(),
        agent_offset(sizes, n) <= usize::MAX,
        forall|i: int| 0 <= i < n ==> #[trigger] asg[i] == -1,
    ensures
        learner_rows(sizes, asg, n) == span(0, agent_offset(sizes, n)),
        forward_rows(sizes, asg, bot_cars, n) == span(0, agent_offset(sizes, n)),
    decreases n,
{
    if n > 0 {
        lemma_offset_monotone(sizes, n - 1, n);
        lemma_offset_monotone(sizes, 0, n - 1);
        law_self_play_rows(sizes, asg, bot_cars, n - 1);
        assert(asg[n - 1] == -1);
        assert(learner_rows(sizes, asg, n) =~= span(0, agent_offset(sizes, n)));
        assert(forward_rows(sizes, asg, bot_cars, n) =~= span(0, agent_offset(sizes, n)));
    } else {
        assert(span(0, 0) =~= Seq::empty());
    }
}

/// Where every foreign bot drives its whole team there are no mirrors: the
/// forwarded rows are the recorded rows, in the same order.
pub proof fn law_full_bot_teams_forward_learners(
    sizes: Seq<TeamSizes>,
    asg: Seq<i32>,
    bot_cars: Seq<u32>,
    n: int,
)
    requires
        0 <= n <= sizes.len(),
        forall|i: int|
            0 <= i < n && #[trigger] asg[i] <= -2 ==> bot_cars_in(
                bot_cars,
                foreign_slot_of(asg[i]),
                sizes[i].1,
            ) == sizes[i].1,
    ensures
        forward_rows(sizes, asg, bot_cars, n) == learner_rows(sizes, asg, n),
    decreases n,
{
    if n > 0 {
        law_full_bot_teams_forward_learners(sizes, asg, bot_cars, n - 1);
        let off = agent_offset(sizes, n - 1);
        let size = sizes[n - 1];
        let k = asg[n - 1];
        if k <= -2 {
            assert(forward_span(size, k, bot_cars, off) =~= span(off, off + size.0));
        }
    }
}

/// Each recorded row has one label, and it is the team size of the arena that
/// the row's agent plays in.
pub proof fn law_labels_match_rows(sizes: Seq<TeamSizes>, asg: Seq<i32>, n: int)
    requires
        0 <= n <= sizes.len(),
        agent_offset(sizes, n) <= usize::MAX,
    ensures
        team_labels(sizes, asg, n).len() == learner_rows(sizes, asg, n).len(),
        forall|c: int, li: int|
            #![trigger learner_rows(sizes, asg, n)[c], sizes[li]]
            0 <= c < learner_rows(sizes, asg, n).len() && 0 <= li < n && agent_offset(sizes, li)
                <= learner_rows(sizes, asg, n)[c] < agent_offset(sizes, li + 1) ==> team_labels(
                sizes,
                asg,
                n,
            )[c] == team_label(sizes[li]),
    decreases n,
{
    if n > 0 {
        lemma_offset_monotone(sizes, n - 1, n);
        law_labels_match_rows(sizes, asg, n - 1);
        law_learner_rows_ascend(sizes, asg, n - 1);
        let before = learner_rows(sizes, asg, n - 1);
        let rows = learner_rows(sizes, asg, n);
        let labels = team_labels(sizes, asg, n);
        assert forall|c: int, li: int|
            #![trigger rows[c], sizes[li]]
            0 <= c < rows.len() && 0 <= li < n && agent_offset(sizes, li) <= rows[c]
                < agent_offset(sizes, li + 1) implies labels[c] == team_label(sizes[li]) by {
            if c < before.len() {
                assert(rows[c] == before[c]);
                assert(before[c] < agent_offset(sizes, n - 1));
                if li == n - 1 {
                    assert(false);
                }
                assert(labels[c] == team_labels(sizes, asg, n - 1)[c]);
            } else {
                assert(rows[c] >= agent_offset(sizes, n - 1));
                if li < n - 1 {
                    lemma_offset_monotone(sizes, li + 1, n - 1);
                }
            }
        }
    }
}

/// All of `s`, each `by` higher.
pub open spec fn shifted(s: Seq<usize>, by: int) -> Seq<usize> {
    Seq::new(s.len(), |i: int| (s[i] + by) as usize)
}

/// Splitting the arenas into two runs splits the agents and the recorded rows:
/// those of the second run follow those of the first, numbered on from there.
pub proof fn law_rows_concatenate(sizes: Seq<TeamSizes>, asg: Seq<i32>, m: int, n: int)
    requires
        0 <= m <= n <= sizes.len(),
        asg.len() == sizes.len(),
        agent_offset(sizes, n) <= usize::MAX,
    ensures
        agent_offset(sizes, n) == agent_offset(sizes, m) + agent_offset(sizes.skip(m), n - m),
        learner_rows(sizes, asg, n) == learner_rows(sizes, asg, m) + shifted(
            learner_rows(sizes.skip(m), asg.skip(m), n - m),
            agent_offset(sizes, m),
        ),
        team_labels(sizes, asg, n) == team_labels(sizes, asg, m) + team_labels(
            sizes.skip(m),
            asg.skip(m),
            n - m,
        ),
    decreases n - m,
{
    let off = agent_offset(sizes, m);
    if m < n {
        lemma_offset_monotone(sizes, n - 1, n);
        law_rows_concatenate(sizes, asg, m, n - 1);
        assert(sizes.skip(m)[n - m - 1] == sizes[n - 1]);
        assert(asg.skip(m)[n - m - 1] == asg[n - 1]);
        lemma_offset_monotone(sizes, 0, m);
        lemma_offset_monotone(sizes.skip(m), 0, n - m - 1);
        law_learner_rows_ascend(sizes.skip(m), asg.skip(m), n - m - 1);
        assert(learner_rows(sizes, asg, n) =~= learner_rows(sizes, asg, m) + shifted(
            learner_rows(sizes.skip(m), asg.skip(m), n - m),
            off,
        ));
        assert(team_labels(sizes, asg, n) =~= team_labels(sizes, asg, m) + team_labels(
            sizes.skip(m),
            asg.skip(m),
            n - m,
        ));
    } else {
        assert(learner_rows(sizes, asg, n) =~= learner_rows(sizes, asg, m) + shifted(
            Seq::empty(),
            off,
        ));
        assert(team_labels(sizes, asg, n) =~= team_labels(sizes, asg, m) + Seq::empty());
    }
}

/// The arena of each agent.
pub fn agent_arenas(sizes: &Vec<TeamSizes>) -> (r: Vec<usize>)
    requires
        agent_count(sizes@) <= usize::MAX,
    ensures
        r@ == arena_of_agents(sizes@, sizes@.len() as int),
        r@.len() == agent_count(sizes@),
        forall|a: int| 0 <= a < r@.len() ==> #[trigger] r@[a] < sizes@.len(),
{
    let mut r: Vec<usize> = Vec::new();
    let mut li: usize = 0;
    while li < sizes.len()
        invariant
            li <= sizes@.len(),
            agent_count(sizes@) <= usize::MAX,
            r@ == arena_of_agents(sizes@, li as int),
            r@.len() == agent_offset(sizes@, li as int),
            forall|a: int| 0 <= a < r@.len() ==> #[trigger] r@[a] < li,
        decreases sizes.len() - li,
    {
        proof {
            lemma_offset_monotone(sizes@, 0, li as int);
            lemma_offset_monotone(sizes@, li + 1, sizes@.len() as int);
        }
        let (b, o) = sizes[li];
        let n: usize = b + o;
        let ghost before = r@;
        let mut i: usize = 0;
        while i < n
            invariant
                i <= n,
                r@ =~= before + Seq::new(i as nat, |j: int| li),
            decreases n - i,
        {
            r.push(li);
            i = i + 1;
        }
        li = li + 1;
    }
    r
}

/// Index maps of one worker's rollout.
pub struct RolloutPlan {
    /// Agents whose experience is recorded.
    pub learner_idx: Vec<usize>,
    /// Agents that the learner's policy plays.
    pub fwd_idx: Vec<usize>,
    /// Agents of each native opponent slot.
    pub opp_idx: Vec<Vec<usize>>,
    /// Recorded row of each agent.
    pub learner_col: Vec<Option<usize>>,
    /// Team size of each recorded row.
    pub learner_team_size: Vec<i8>,
    /// Arena, slot and first agent of each arena with a foreign bot.
    pub foreign_arenas: Vec<(usize, usize, usize)>,
    /// Number of agents.
    pub agents: usize,
}

/// Appends the indices from `from` up to but not including `to`.
fn push_span(v: &mut Vec<usize>, from: usize, to: usize)
    ensures
        final(v)@ == old(v)@ + span(from as int, to as int),
{
    let ghost start = v@;
    let mut i: usize = from;
    while i < to
        invariant
            from <= i,
            from <= to ==> i <= to,
            from > to ==> i == from,
            v@ =~= start + span(from as int, i as int),
        decreases to - i,
    {
        v.push(i);
        i = i + 1;
    }
    assert(v@ =~= start + span(from as int, to as int));
}

/// How many of `orange` cars the bot in `slot` drives.
pub fn bot_cars_in_arena(bot_cars: &Vec<u32>, slot: usize, orange: usize) -> (n: usize)
    ensures
        n == bot_cars_in(bot_cars@, slot as int, orange),
{
    if slot < bot_cars.len() && (bot_cars[slot] as usize) < orange {
        bot_cars[slot] as usize
    } else {
        orange
    }
}

/// The team size label of an arena.
#[verifier::truncate]
fn label_of(b: usize, o: usize) -> (l: i8)
    ensures
        l == team_label((b, o)),
{
    if b > o {
        b as i8
    } else {
        o as i8
    }
}

/// Appends `n` copies of a label.
fn push_label(v: &mut Vec<i8>, label: i8, n: usize)
    ensures
        final(v)@ == old(v)@ + Seq::new(n as nat, |i: int| label),
{
    let ghost start = v@;
    let mut i: usize = 0;
    while i < n
        invariant
            i <= n,
            v@ =~= start + Seq::new(i as nat, |j: int| label),
        decreases n - i,
    {
        v.push(label);
        i = i + 1;
    }
}

impl RolloutPlan {
    /// The plan is the one that `sizes` and `asg` determine.
    pub open spec fn follows(
        &self,
        sizes: Seq<TeamSizes>,
        asg: Seq<i32>,
        opponents: nat,
        bot_cars: Seq<u32>,
    ) -> bool {
        let n = sizes.len() as int;
        &&& self.agents == agent_count(sizes)
        &&& self.learner_idx@ == learner_rows(sizes, asg, n)
        &&& self.fwd_idx@ == forward_rows(sizes, asg, bot_cars, n)
        &&& self.opp_idx@.len() == opponents
        &&& forall|s: int|
            0 <= s < opponents ==> (#[trigger] self.opp_idx@[s])@ == opponent_rows(
                sizes,
                asg,
                s,
                n,
            )
        &&& self.learner_team_size@ == team_labels(sizes, asg, n)
        &&& self.foreign_arenas@ == bot_arenas(sizes, asg, n)
        &&& self.columns_invert_rows()
    }

    /// Builds the index maps of the given arenas.
    pub fn new(
        sizes: &Vec<TeamSizes>,
        assignment: &Vec<i32>,
        opponents: usize,
        bot_cars: &Vec<u32>,
    ) -> (plan: RolloutPlan)
        requires
            assignment@.len() == sizes@.len(),
            agent_count(sizes@) <= usize::MAX,
            forall|i: int| 0 <= i < assignment@.len() ==> #[trigger] assignment@[i] < opponents,
        ensures
            plan.follows(sizes@, assignment@, opponents as nat, bot_cars@),
    {
        let mut learner_idx: Vec<usize> = Vec::new();
        let mut fwd_idx: Vec<usize> = Vec::new();
        let mut learner_team_size: Vec<i8> = Vec::new();
        let mut foreign_arenas: Vec<(usize, usize, usize)> = Vec::new();
        let mut opp_idx: Vec<Vec<usize>> = Vec::new();
        let mut s: usize = 0;
        while s < opponents
            invariant
                s <= opponents,
                opp_idx@.len() == s,
                forall|j: int| 0 <= j < s ==> (#[trigger] opp_idx@[j])@ == Seq::<usize>::empty(),
            decreases opponents - s,
        {
            opp_idx.push(Vec::new());
            s = s + 1;
        }
        let mut a_off: usize = 0;
        let mut li: usize = 0;
        while li < sizes.len()
            invariant
                li <= sizes@.len(),
                assignment@.len() == sizes@.len(),
                agent_count(sizes@) <= usize::MAX,
                forall|i: int|
                    0 <= i < assignment@.len() ==> #[trigger] assignment@[i] < opponents,
                a_off == agent_offset(sizes@, li as int),
                learner_idx@ == learner_rows(sizes@, assignment@, li as int),
                fwd_idx@ == forward_rows(sizes@, assignment@, bot_cars@, li as int),
                opp_idx@.len() == opponents,
                forall|j: int|
                    0 <= j < opponents ==> (#[trigger] opp_idx@[j])@ == opponent_rows(
                        sizes@,
                        assignment@,
                        j,
                        li as int,
                    ),
                learner_team_size@ == team_labels(sizes@, assignment@, li as int),
                foreign_arenas@ == bot_arenas(sizes@, assignment@, li as int),
            decreases sizes.len() - li,
        {
            let (b, o) = sizes[li];
            let k: i32 = assignment[li];
            proof {
                lemma_offset_monotone(sizes@, li as int, li + 1);
                lemma_offset_monotone(sizes@, li + 1, sizes@.len() as int);
            }
            let label: i8 = label_of(b, o);
            let learned: usize = if k == -1 {
                b + o
            } else {
                b
            };
            push_span(&mut learner_idx, a_off, a_off + learned);
            push_label(&mut learner_team_size, label, learned);
            push_span(&mut fwd_idx, a_off, a_off + learned);
            if k <= -2 {
                let fslot: usize = foreign_slot(k);
                let fcars: usize = bot_cars_in_arena(bot_cars, fslot, o);
                push_span(&mut fwd_idx, a_off + b + fcars, a_off + b + o);
                foreign_arenas.push((li, fslot, a_off));
                assert(fwd_idx@ =~= forward_rows(sizes@, assignment@, bot_cars@, li + 1));
            } else if k >= 0 {
                push_span(&mut opp_idx[k as usize], a_off + b, a_off + b + o);
            }
            a_off = a_off + b + o;
            li = li + 1;
        }
        let mut learner_col: Vec<Option<usize>> = Vec::new();
        let mut a: usize = 0;
        while a < a_off
            invariant
                a <= a_off,
                learner_col@.len() == a,
                forall|i: int| 0 <= i < a ==> #[trigger] learner_col@[i] == None::<usize>,
            decreases a_off - a,
        {
            learner_col.push(None);
            a = a + 1;
        }
        proof {
            law_learner_rows_ascend(sizes@, assignment@, sizes@.len() as int);
        }
        let mut col: usize = 0;
        while col < learner_idx.len()
            invariant
                col <= learner_idx@.len(),
                ascending(learner_idx@, a_off as int),
                learner_col@.len() == a_off,
                forall|c: int|
                    0 <= c < col ==> learner_col@[#[trigger] learner_idx@[c] as int] == Some(
                        c as usize,
                    ),
                forall|i: int|
                    0 <= i < a_off ==> match #[trigger] learner_col@[i] {
                        Some(c) => c < col && learner_idx@[c as int] == i,
                        None => true,
                    },
            decreases learner_idx.len() - col,
        {
            let a: usize = learner_idx[col];
            assert(forall|c: int| 0 <= c < col ==> #[trigger] learner_idx@[c] < a);
            learner_col[a] = Some(col);
            col = col + 1;
        }
        RolloutPlan {
            learner_idx,
            fwd_idx,
            opp_idx,
            learner_col,
            learner_team_size,
            foreign_arenas,
            agents: a_off,
        }
    }

    /// `learner_col` is the inverse of `learner_idx`.
    pub open spec fn columns_invert_rows(&self) -> bool {
        &&& self.learner_col@.len() == self.agents
        &&& forall|c: int|
            0 <= c < self.learner_idx@.len() ==> #[trigger] self.learner_idx@[c] < self.agents
                && self.learner_col@[self.learner_idx@[c] as int] == Some(c as usize)
        &&& forall|a: int|
            0 <= a < self.agents ==> match #[trigger] self.learner_col@[a] {
                Some(c) => c < self.learner_idx@.len() && self.learner_idx@[c as int] == a,
                None => !self.learner_idx@.contains(a as usize),
            }
    }
}

impl RolloutPlan {
    /// The foreign slot and first agent of arena `li`, where a bot plays.
    pub fn bot_in(&self, li: usize) -> (r: Option<(usize, usize)>)
        ensures
            r == bot_entry(self.foreign_arenas@, li, 0),
    {
        let mut i: usize = 0;
        while i < self.foreign_arenas.len()
            invariant
                i <= self.foreign_arenas@.len(),
                bot_entry(self.foreign_arenas@, li, 0) == bot_entry(
                    self.foreign_arenas@,
                    li,
                    i as int,
                ),
            decreases self.foreign_arenas.len() - i,
        {
            let (l, slot, first) = self.foreign_arenas[i];
            if l == li {
                return Some((slot, first));
            }
            i = i + 1;
        }
        None
    }
}

/// The first entry from `from` on that is of arena `li`.
pub open spec fn bot_entry(
    entries: Seq<(usize, usize, usize)>,
    li: usize,
    from: int,
) -> Option<(usize, usize)>
    decreases entries.len() - from,
{
    if from < 0 || from >= entries.len() {
        None
    } else if entries[from].0 == li {
        Some((entries[from].1, entries[from].2))
    } else {
        bot_entry(entries, li, from + 1)
    }
}

/// An arena has a bot exactly where its opponent code says so, and it is the bot
/// that the code names.
pub proof fn law_bots_play_where_assigned(
    sizes: Seq<TeamSizes>,
    asg: Seq<i32>,
    n: int,
    li: usize,
)
    requires
        0 <= n <= sizes.len(),
        n <= asg.len(),
        sizes.len() <= usize::MAX,
        li < n,
    ensures
        bot_entry(bot_arenas(sizes, asg, n), li, 0) == if asg[li as int] <= -2 {
            Some(
                (
                    foreign_slot_of(asg[li as int]) as usize,
                    agent_offset(sizes, li as int) as usize,
                ),
            )
        } else {
            None
        },
    decreases n,
{
    lemma_bot_arenas_below(sizes, asg, n - 1);
    let before = bot_arenas(sizes, asg, n - 1);
    if asg[n - 1] <= -2 {
        let e = (
            (n - 1) as usize,
            foreign_slot_of(asg[n - 1]) as usize,
            agent_offset(sizes, n - 1) as usize,
        );
        lemma_bot_entry_push(before, e, li, 0);
    }
    if li < n - 1 {
        law_bots_play_where_assigned(sizes, asg, n - 1, li);
    } else {
        lemma_no_bot_entry(before, li, 0);
    }
}

proof fn lemma_bot_arenas_below(sizes: Seq<TeamSizes>, asg: Seq<i32>, n: int)
    requires
        0 <= n <= usize::MAX,
    ensures
        forall|i: int|
            0 <= i < bot_arenas(sizes, asg, n).len() ==> (#[trigger] bot_arenas(
                sizes,
                asg,
                n,
            )[i]).0 < n,
    decreases n,
{
    if n > 0 {
        lemma_bot_arenas_below(sizes, asg, n - 1);
        let before = bot_arenas(sizes, asg, n - 1);
        assert forall|i: int| 0 <= i < bot_arenas(sizes, asg, n).len() implies (
        #[trigger] bot_arenas(sizes, asg, n)[i]).0 < n by {
            if i < before.len() {
                assert(bot_arenas(sizes, asg, n)[i] == before[i]);
            }
        }
    }
}

proof fn lemma_bot_entry_push(
    entries: Seq<(usize, usize, usize)>,
    e: (usize, usize, usize),
    li: usize,
    from: int,
)
    requires
        0 <= from <= entries.len(),
    ensures
        bot_entry(entries.push(e), li, from) == match bot_entry(entries, li, from) {
            Some(r) => Some(r),
            None => if e.0 == li {
                Some((e.1, e.2))
            } else {
                None
            },
        },
    decreases entries.len() - from,
{
    if from < entries.len() {
        assert(entries.push(e)[from] == entries[from]);
        lemma_bot_entry_push(entries, e, li, from + 1);
    } else {
        reveal_with_fuel(bot_entry, 2);
    }
}

proof fn lemma_no_bot_entry(entries: Seq<(usize, usize, usize)>, li: usize, from: int)
    requires
        0 <= from,
        forall|i: int| 0 <= i < entries.len() ==> (#[trigger] entries[i]).0 < li,
    ensures
        bot_entry(entries, li, from) is None,
    decreases entries.len() - from,
{
    if from < entries.len() {
        lemma_no_bot_entry(entries, li, from + 1);
    }
}

} // verus!
