//! Who plays where, how arenas are shared out, and what weights are read, in terms
//! of what the engine is given.

use crate::engine::multi::{bad_action, bad_code};
use crate::engine::plan::{
    agent_offset, driver, forward_rows, law_rows_are_drivers, learner_rows, opponent_rows,
    team_label, Driver, TeamSizes,
};
use crate::engine::shares::{
    allocated, base_count, exact_share, final_count, floor_from, rank, remainder,
};
use crate::engine::weights::{
    bias_key, broken_link, expected_key, layer_in, layer_prefix, policy_in, trunk_in,
    unexpected_key, weight_key,
};
use crate::exact::{order_chain, order_facts, sorted};
use crate::policy::{first_mismatch, LayerName, LayerView, PolicyView};
use crate::scalar::{le, lt, number, over, plus, times, Scalar};
use crate::state_dict::{decimal, numbers_named, position, NamedArray};
use vstd::prelude::*;

verus! {

/// The agents of an arena stand after those of the arenas before it, blue before
/// orange.
pub proof fn law_agents_stand_in_order(sizes: Seq<TeamSizes>, li: int)
    requires
        0 <= li < sizes.len(),
    ensures
        agent_offset(sizes, 0) == 0,
        agent_offset(sizes, li + 1) == agent_offset(sizes, li) + sizes[li].0 + sizes[li].1,
{
}

/// Who plays a car, by the code of its arena. Code -1 is self-play: the learner
/// plays and records all cars. Any other code records the blue cars only. A code
/// from 0 on gives the orange cars to the opponent in that slot. A code `k` from -2
/// down gives the first orange cars to the bot in slot `-k - 2`, as many as it
/// drives, and the others to the learner's policy, unrecorded.
pub proof fn law_who_plays_a_car(
    sizes: Seq<TeamSizes>,
    asg: Seq<i32>,
    bot_cars: Seq<u32>,
    li: int,
    i: int,
    slot: int,
)
    requires
        0 <= li < sizes.len(),
        agent_offset(sizes, sizes.len() as int) <= usize::MAX,
        0 <= i < sizes[li].0 + sizes[li].1,
        0 <= slot,
    ensures
        ({
            let n = sizes.len() as int;
            let a = (agent_offset(sizes, li) + i) as usize;
            let k = asg[li];
            let blue = i < sizes[li].0;
            let orange = sizes[li].1;
            let bot = -(k as int) - 2;
            let driven = if 0 <= bot < bot_cars.len() && bot_cars[bot] < orange {
                bot_cars[bot] as int
            } else {
                orange as int
            };
            &&& learner_rows(sizes, asg, n).contains(a) <==> k == -1 || blue
            &&& forward_rows(sizes, asg, bot_cars, n).contains(a) <==> k == -1 || blue || (k <= -2
                && i >= sizes[li].0 + driven)
            &&& opponent_rows(sizes, asg, slot, n).contains(a) <==> !blue && k == slot
        }),
{
    law_rows_are_drivers(sizes, asg, bot_cars, sizes.len() as int, li, i);
    let a = (agent_offset(sizes, li) + i) as usize;
    let d = driver(sizes[li], asg[li], bot_cars, i);
    let rows = opponent_rows(sizes, asg, slot, sizes.len() as int);
    assert(rows.contains(a) <==> d == Driver::Opponent(slot));
}

/// The label of an arena is the size of its larger team.
pub proof fn law_labels_are_the_larger_team(size: TeamSizes)
    requires
        size.0 <= 127,
        size.1 <= 127,
    ensures
        team_label(size) == if size.0 >= size.1 {
            size.0 as int
        } else {
            size.1 as int
        },
{
}

/// An assignment passes exactly where every code is -1, names a native opponent that
/// is set up, or names a bot that is; the code that is reported otherwise is the
/// first that does not.
pub proof fn law_codes_that_pass(asg: Seq<i32>, opponents: usize, foreigners: usize, from: int)
    requires
        0 <= from <= asg.len(),
    ensures
        ({
            let ok = |k: i32|
                k == -1 || 0 <= k < opponents || (k <= -2 && -(k as int) - 2 < foreigners);
            match bad_code(asg, opponents, foreigners, from) {
                None => forall|i: int| from <= i < asg.len() ==> ok(#[trigger] asg[i]),
                Some(k) => exists|i: int|
                    from <= i < asg.len() && #[trigger] asg[i] == k && !ok(k) && forall|j: int|
                        from <= j < i ==> ok(#[trigger] asg[j]),
            }
        }),
    decreases asg.len() - from,
{
    if from < asg.len() {
        law_codes_that_pass(asg, opponents, foreigners, from + 1);
        let ok = |k: i32|
            k == -1 || 0 <= k < opponents || (k <= -2 && -(k as int) - 2 < foreigners);
        if !ok(asg[from]) {
            assert(asg[from] == bad_code(asg, opponents, foreigners, from)->0);
        } else if let Some(k) = bad_code(asg, opponents, foreigners, from + 1) {
            let i = choose|i: int|
                from + 1 <= i < asg.len() && #[trigger] asg[i] == k && !ok(k) && forall|j: int|
                    from + 1 <= j < i ==> ok(#[trigger] asg[j]);
            assert(asg[i] == k);
            assert forall|j: int| from <= j < i implies ok(#[trigger] asg[j]) by {}
        }
    }
}

/// Actions pass exactly where every one names a row of the table; the one that is
/// reported otherwise is the first that does not.
pub proof fn law_actions_that_pass(acts: Seq<i64>, rows: usize, from: int)
    requires
        0 <= from <= acts.len(),
    ensures
        match bad_action(acts, rows, from) {
            None => forall|i: int| from <= i < acts.len() ==> 0 <= #[trigger] acts[i] < rows,
            Some(x) => exists|i: int|
                from <= i < acts.len() && #[trigger] acts[i] == x && !(0 <= x < rows) && forall|
                    j: int,
                |
                    from <= j < i ==> 0 <= #[trigger] acts[j] < rows,
        },
    decreases acts.len() - from,
{
    if from < acts.len() {
        law_actions_that_pass(acts, rows, from + 1);
        if !(0 <= acts[from] < rows) {
            assert(acts[from] == bad_action(acts, rows, from)->0);
        } else if let Some(x) = bad_action(acts, rows, from + 1) {
            let i = choose|i: int|
                from + 1 <= i < acts.len() && #[trigger] acts[i] == x && !(0 <= x < rows)
                    && forall|j: int| from + 1 <= j < i ==> 0 <= #[trigger] acts[j] < rows;
            assert(acts[i] == x);
            assert forall|j: int| from <= j < i implies 0 <= #[trigger] acts[j] < rows by {}
        }
    }
}

proof fn lemma_floor<F: Scalar>(e: F, c: int, n: int)
    requires
        0 <= c <= n,
    ensures
        ({
            let f = floor_from(e, c, n);
            &&& c <= f <= n
            &&& f > c ==> le(number::<F>(f), e)
            &&& f < n ==> !le(number::<F>(f + 1), e)
        }),
    decreases n - c,
{
    if c < n && le(number::<F>(c + 1), e) {
        lemma_floor(e, c + 1, n);
    }
}

/// Every team size gets the whole part of its share of the arenas, and one more
/// where it is among the first of those that wait for the arenas left over. Its
/// share is its weight over the sum of the weights, times the number of arenas.
pub proof fn law_team_sizes_get_their_share<F: Scalar>(n: int, w: [F; 3], i: int)
    requires
        0 <= n,
        0 <= i < 3,
    ensures
        ({
            let sum = plus(plus(w@[0], w@[1]), w@[2]);
            let share = times(over(w@[i], sum), number::<F>(n));
            let whole = base_count(n, w, i);
            &&& 0 <= whole <= n
            &&& whole > 0 ==> le(number::<F>(whole), share)
            &&& whole < n ==> !le(number::<F>(whole + 1), share)
            &&& final_count(n, w, i) == whole + if rank(n, w, i) < n - base_count(n, w, 0)
                - base_count(n, w, 1) - base_count(n, w, 2) {
                1int
            } else {
                0
            }
        }),
{
    lemma_floor(exact_share(n, w, i), 0, n);
}

/// Of two team sizes, the one that waits further behind has no larger remainder.
pub proof fn law_larger_remainders_come_first<F: Scalar>(n: int, w: [F; 3], i: int, j: int)
    requires
        sorted::<F>(),
        0 <= i < 3,
        0 <= j < 3,
        rank(n, w, i) < rank(n, w, j),
    ensures
        !lt(remainder(n, w, i), remainder(n, w, j)),
{
    let (a, b, c) = (remainder(n, w, 0), remainder(n, w, 1), remainder(n, w, 2));
    order_facts(a, b);
    order_facts(b, a);
    order_facts(a, c);
    order_facts(c, a);
    order_facts(b, c);
    order_facts(c, b);
    order_chain(a, b, c);
    order_chain(a, c, b);
    order_chain(b, a, c);
    order_chain(b, c, a);
    order_chain(c, a, b);
    order_chain(c, b, a);
}

/// The arenas of every team size stand together: first the ones, then the twos, then
/// the threes, as many as each gets.
pub proof fn law_team_sizes_stand_together<F: Scalar>(n: int, w: [F; 3], k: int)
    requires
        0 <= n,
        0 <= k < allocated(n, w).len(),
    ensures
        ({
            let ones = final_count(n, w, 0);
            let twos = final_count(n, w, 1);
            &&& allocated(n, w).len() == ones + twos + final_count(n, w, 2)
            &&& allocated(n, w)[k] == if k < ones {
                1int
            } else if k < ones + twos {
                2
            } else {
                3
            }
        }),
{
    lemma_floor(exact_share(n, w, 0), 0, n);
    lemma_floor(exact_share(n, w, 1), 0, n);
    lemma_floor(exact_share(n, w, 2), 0, n);
}

/// Array `i` is the first of that name.
pub open spec fn first_named<F>(dict: Seq<NamedArray<F>>, name: Seq<char>, i: int) -> bool {
    &&& 0 <= i < dict.len()
    &&& dict[i].name@ == name
    &&& forall|j: int| 0 <= j < i ==> (#[trigger] dict[j]).name@ != name
}

proof fn lemma_found<F>(dict: Seq<NamedArray<F>>, name: Seq<char>, from: int)
    requires
        0 <= from,
        forall|j: int| 0 <= j < from && j < dict.len() ==> (#[trigger] dict[j]).name@ != name,
    ensures
        position(dict, name, from) matches Some(i) ==> first_named(dict, name, i),
    decreases dict.len() - from,
{
    if from < dict.len() && dict[from].name@ != name {
        lemma_found(dict, name, from + 1);
    }
}

/// The arrays `name.weight` and `name.bias` hold this layer.
pub open spec fn holds_layer<F>(
    dict: Seq<NamedArray<F>>,
    name: Seq<char>,
    l: LayerView<F>,
) -> bool {
    exists|i: int, j: int|
        #![trigger dict[i], dict[j]]
        first_named(dict, name + ".weight"@, i) && first_named(dict, name + ".bias"@, j)
            && dict[i].shape@ == seq![l.out_dim, l.in_dim] && dict[j].shape@ == seq![l.out_dim]
            && l.w == dict[i].data@ && l.b == dict[j].data@
}

proof fn lemma_layer_held<F>(dict: Seq<NamedArray<F>>, layer: LayerName)
    requires
        layer_in(dict, layer) is Ok,
    ensures
        holds_layer(dict, layer_prefix(layer), layer_in(dict, layer)->Ok_0),
{
    let l = layer_in(dict, layer)->Ok_0;
    lemma_found(dict, weight_key(layer), 0);
    lemma_found(dict, bias_key(layer), 0);
    let i = position(dict, weight_key(layer), 0)->0;
    let j = position(dict, bias_key(layer), 0)->0;
    assert(dict[i].shape@ =~= seq![l.out_dim, l.in_dim]);
    assert(dict[j].shape@ =~= seq![l.out_dim]);
    assert(first_named(dict, layer_prefix(layer) + ".weight"@, i));
    assert(first_named(dict, layer_prefix(layer) + ".bias"@, j));
}

proof fn lemma_trunk_held<F>(dict: Seq<NamedArray<F>>, m: int, k: int)
    requires
        0 <= m <= usize::MAX / 2,
        trunk_in(dict, m) is Ok,
    ensures
        trunk_in(dict, m)->Ok_0.len() == m,
        0 <= k < m ==> holds_layer(
            dict,
            "trunk."@ + decimal((2 * k) as nat),
            trunk_in(dict, m)->Ok_0[k],
        ),
    decreases m,
{
    if m > 0 {
        lemma_trunk_held(dict, m - 1, k);
        lemma_layer_held(dict, LayerName::Trunk((2 * (m - 1)) as usize));
    }
}

proof fn lemma_links<F>(trunk: Seq<LayerView<F>>, from: int, k: int)
    requires
        1 <= from <= k < trunk.len(),
        broken_link(trunk, from) is None,
    ensures
        trunk[k].in_dim == trunk[k - 1].out_dim,
    decreases k - from,
{
    if from < k {
        lemma_links(trunk, from + 1, k);
    }
}

proof fn lemma_no_strays<F>(dict: Seq<NamedArray<F>>, m: int, from: int, k: int)
    requires
        0 <= from <= k < dict.len(),
        unexpected_key(dict, m, from) is None,
    ensures
        expected_key(dict[k].name@, m),
    decreases k - from,
{
    if from < k {
        lemma_no_strays(dict, m, from + 1, k);
    }
}

/// A flat policy that is read has the trunk layers 0, 2, 4, .. and the two heads as
/// the arrays of those names hold them. The trunk takes 94 numbers, each of its
/// layers takes what the one before gives, and both heads take what the last gives;
/// the policy head gives 90 numbers and the value head one.
pub proof fn law_policies_are_read_by_name<F>(dict: Seq<NamedArray<F>>, k: int)
    requires
        policy_in(dict) is Ok,
        dict.len() <= usize::MAX / 2,
    ensures
        ({
            let p = policy_in(dict)->Ok_0;
            let last = p.trunk.len() - 1;
            &&& p.trunk.len() > 0
            &&& 0 <= k <= last ==> holds_layer(
                dict,
                "trunk."@ + decimal((2 * k) as nat),
                p.trunk[k],
            )
            &&& holds_layer(dict, "policy_head"@, p.policy)
            &&& holds_layer(dict, "value_head"@, p.value)
            &&& p.trunk[0].in_dim == 94
            &&& 1 <= k <= last ==> p.trunk[k].in_dim == p.trunk[k - 1].out_dim
            &&& p.policy.in_dim == p.trunk[last].out_dim
            &&& p.value.in_dim == p.trunk[last].out_dim
            &&& p.policy.out_dim == 90
            &&& p.value.out_dim == 1
        }),
{
    let ids = numbers_named(dict, "trunk."@, ".weight"@, dict.len() as int);
    lemma_fewer(dict, "trunk."@, ".weight"@, dict.len() as int);
    let m = ids.len() as int;
    lemma_trunk_held(dict, m, k);
    lemma_layer_held(dict, LayerName::PolicyHead);
    lemma_layer_held(dict, LayerName::ValueHead);
    let p = policy_in(dict)->Ok_0;
    if 1 <= k < m {
        lemma_links(p.trunk, 1, k);
    }
}

proof fn lemma_fewer<F>(dict: Seq<NamedArray<F>>, prefix: Seq<char>, suffix: Seq<char>, n: int)
    requires
        0 <= n,
    ensures
        numbers_named(dict, prefix, suffix, n).len() <= n,
    decreases n,
{
    if n > 0 {
        lemma_fewer(dict, prefix, suffix, n - 1);
    }
}

/// No array of a flat policy that is read is passed over: each is the weight or the
/// bias of a trunk layer or of a head.
pub proof fn law_policies_have_no_other_arrays<F>(dict: Seq<NamedArray<F>>, i: int)
    requires
        policy_in(dict) is Ok,
        0 <= i < dict.len() <= usize::MAX / 2,
    ensures
        ({
            let name = dict[i].name@;
            let named = |p: Seq<char>| name == p + ".weight"@ || name == p + ".bias"@;
            ||| named("policy_head"@)
            ||| named("value_head"@)
            ||| exists|k: int|
                0 <= k < policy_in(dict)->Ok_0.trunk.len() && named(
                    "trunk."@ + #[trigger] decimal((2 * k) as nat),
                )
        }),
{
    let ids = numbers_named(dict, "trunk."@, ".weight"@, dict.len() as int);
    lemma_fewer(dict, "trunk."@, ".weight"@, dict.len() as int);
    let m = ids.len() as int;
    lemma_trunk_held(dict, m, 0);
    lemma_no_strays(dict, m, 0, i);
    let name = dict[i].name@;
    let named = |p: Seq<char>| name == p + ".weight"@ || name == p + ".bias"@;
    if !named("policy_head"@) && !named("value_head"@) {
        let k = choose|k: int|
            0 <= k < m && (name == #[trigger] weight_key(LayerName::Trunk((2 * k) as usize))
                || name == bias_key(LayerName::Trunk((2 * k) as usize)));
        assert(named("trunk."@ + decimal((2 * k) as nat)));
    }
}

/// Weights of a flat policy pass exactly where every layer, trunk and heads, has as
/// many weights as its dimensions say and one bias per number it gives.
pub proof fn law_filled_policies_pass<F>(p: PolicyView<F>)
    ensures
        first_mismatch(p.layers(), p.layers().len() as int) is None <==> {
            let full = |l: LayerView<F>|
                l.w.len() == l.out_dim * l.in_dim && l.b.len() == l.out_dim;
            &&& forall|i: int| 0 <= i < p.trunk.len() ==> full(#[trigger] p.trunk[i])
            &&& full(p.policy)
            &&& full(p.value)
        },
{
    let all = p.layers();
    let n = all.len() as int;
    lemma_mismatches(all, n);
    assert(all[n - 2] == p.policy);
    assert(all[n - 1] == p.value);
    if first_mismatch(all, n) is None {
        assert forall|i: int| 0 <= i < p.trunk.len() implies (#[trigger] p.trunk[i]).w.len()
            == p.trunk[i].out_dim * p.trunk[i].in_dim && p.trunk[i].b.len()
            == p.trunk[i].out_dim by {
            assert(all[i] == p.trunk[i]);
        }
    } else {
        let i = choose|i: int| 0 <= i < n && !(#[trigger] all[i]).filled();
        if i < p.trunk.len() {
            assert(all[i] == p.trunk[i]);
        }
    }
}

proof fn lemma_mismatches<F>(layers: Seq<LayerView<F>>, n: int)
    requires
        0 <= n <= layers.len(),
    ensures
        first_mismatch(layers, n) is None <==> forall|i: int|
            0 <= i < n ==> (#[trigger] layers[i]).filled(),
    decreases n,
{
    if n > 0 {
        lemma_mismatches(layers, n - 1);
    }
}

} // verus!
