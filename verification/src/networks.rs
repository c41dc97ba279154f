//! Which arrays make up a network, by name and shape.

use crate::element::{element_layer, element_steps, hidden_layers};
use crate::engine::roles::first_named;
use crate::foreign::{immortal_net, ForeignMlp};
use crate::layout::{
    element_count, first_fault, linear_steps, norm_steps, step, step_fault, FaultKind, FaultView,
    Rule, StepView,
};
use crate::nexto::{
    block_count, block_prefix, has_block, nexto_block, nexto_blocks, nexto_rest, packed_steps,
    row_layer, rows_of, table_layers, width_after, NEXTO_ACTIONS,
};
use crate::policy_v1::{
    attention_steps, block_steps, blocks_steps, entity_in, front_steps, layer_steps, rest_steps,
    shape_of, ACT_EMB,
};
use crate::state_dict::{
    all_digits, between, decimal, digits_value, lookup, name_index, numbers_named, position,
    NamedArray,
};
use vstd::prelude::*;

verus! {

/// The array of this name is a matrix of `rows` rows of `cols` numbers, all there.
pub open spec fn has_matrix<F>(
    dict: Seq<NamedArray<F>>,
    name: Seq<char>,
    rows: usize,
    cols: usize,
) -> bool {
    exists|i: int|
        #[trigger] first_named(dict, name, i) && dict[i].shape@ == seq![rows, cols]
            && dict[i].data@.len() == rows * cols
}

/// The array of this name holds `n` numbers.
pub open spec fn has_numbers<F>(dict: Seq<NamedArray<F>>, name: Seq<char>, n: usize) -> bool {
    exists|i: int| #[trigger] first_named(dict, name, i) && dict[i].data@.len() == n
}

/// A layer from `cols` numbers to `rows`: a matrix of weights and as many biases as
/// it gives numbers.
pub open spec fn has_layer<F>(
    dict: Seq<NamedArray<F>>,
    name: Seq<char>,
    rows: usize,
    cols: usize,
) -> bool {
    has_matrix(dict, name + ".weight"@, rows, cols) && has_numbers(dict, name + ".bias"@, rows)
}

proof fn lemma_first<F>(dict: Seq<NamedArray<F>>, name: Seq<char>, from: int)
    requires
        0 <= from,
        forall|j: int| 0 <= j < from && j < dict.len() ==> (#[trigger] dict[j]).name@ != name,
    ensures
        match position(dict, name, from) {
            Some(i) => first_named(dict, name, i),
            None => forall|i: int| !#[trigger] first_named(dict, name, i),
        },
    decreases dict.len() - from,
{
    if from < dict.len() && dict[from].name@ != name {
        lemma_first(dict, name, from + 1);
    }
}

/// A name finds the first array that has it, and nothing where none has it.
pub proof fn law_names_find_the_first<F>(dict: Seq<NamedArray<F>>, name: Seq<char>, i: int)
    ensures
        first_named(dict, name, i) ==> lookup(dict, name) == Some(dict[i]),
        lookup(dict, name) is None <==> forall|j: int|
            0 <= j < dict.len() ==> (#[trigger] dict[j]).name@ != name,
{
    lemma_first(dict, name, 0);
    if let Some(k) = position(dict, name, 0) {
        assert(first_named(dict, name, k));
        if first_named(dict, name, i) {
            assert(!(i < k));
            assert(!(k < i));
        }
        assert(dict[k].name@ == name);
    } else {
        lemma_none(dict, name, 0);
    }
}

proof fn lemma_none<F>(dict: Seq<NamedArray<F>>, name: Seq<char>, from: int)
    requires
        0 <= from,
        position(dict, name, from) is None,
    ensures
        forall|j: int| from <= j < dict.len() ==> (#[trigger] dict[j]).name@ != name,
    decreases dict.len() - from,
{
    if from < dict.len() {
        lemma_none(dict, name, from + 1);
    }
}

/// A shape holds the product of its dimensions.
pub proof fn law_shapes_hold_their_product(shape: Seq<usize>, rows: usize, cols: usize)
    ensures
        element_count(Seq::empty(), 0) == 1,
        element_count(seq![rows], 1) == rows,
        element_count(seq![rows, cols], 2) == rows * cols,
        shape.len() > 0 ==> element_count(shape, shape.len() as int) == element_count(
            shape.drop_last(),
            shape.len() - 1,
        ) * shape.last(),
{
    reveal_with_fuel(element_count, 3);
    assert(seq![rows, cols][0] == rows && seq![rows, cols][1] == cols);
    if shape.len() > 0 {
        lemma_count_prefix(shape, shape.drop_last(), shape.len() - 1);
    }
}

proof fn lemma_count_prefix(a: Seq<usize>, b: Seq<usize>, n: int)
    requires
        n <= a.len(),
        n <= b.len(),
        forall|i: int| 0 <= i < n ==> a[i] == b[i],
    ensures
        element_count(a, n) == element_count(b, n),
    decreases n,
{
    if n > 0 {
        lemma_count_prefix(a, b, n - 1);
    }
}

/// Every requirement from `from` on holds.
spec fn all_hold<F>(dict: Seq<NamedArray<F>>, steps: Seq<StepView>, from: int) -> bool {
    forall|i: int| from <= i < steps.len() ==> step_fault(dict, #[trigger] steps[i]) is None
}

proof fn lemma_all_hold<F>(dict: Seq<NamedArray<F>>, steps: Seq<StepView>, from: int)
    requires
        0 <= from,
    ensures
        first_fault(dict, steps, from) is None <==> all_hold(dict, steps, from),
    decreases steps.len() - from,
{
    if from < steps.len() {
        lemma_all_hold(dict, steps, from + 1);
        if step_fault(dict, steps[from]) is None && all_hold(dict, steps, from + 1) {
            assert forall|i: int| from <= i < steps.len() implies step_fault(
                dict,
                #[trigger] steps[i],
            ) is None by {
                if i > from {
                }
            }
        }
    }
}

/// What is reported is the first requirement that fails: it fails that way, and those
/// before it hold.
pub proof fn law_first_failure_is_reported<F>(
    dict: Seq<NamedArray<F>>,
    steps: Seq<StepView>,
    from: int,
) -> (at: int)
    requires
        0 <= from,
        first_fault(dict, steps, from) is Some,
    ensures
        from <= at < steps.len(),
        first_fault(dict, steps, from) == Some(
            FaultView { kind: step_fault(dict, steps[at])->0, key: steps[at].key },
        ),
        step_fault(dict, steps[at]) is Some,
        forall|i: int| from <= i < at ==> step_fault(dict, #[trigger] steps[i]) is None,
    decreases steps.len() - from,
{
    if step_fault(dict, steps[from]) is Some {
        from
    } else {
        let at = law_first_failure_is_reported(dict, steps, from + 1);
        assert forall|i: int| from <= i < at implies step_fault(dict, #[trigger] steps[i]) is None by {
            if i > from {
            }
        }
        at
    }
}

/// A requirement on an array that is not there fails for that; one on the model width
/// fails where the width does not divide into the heads.
pub proof fn law_missing_arrays_are_reported<F>(dict: Seq<NamedArray<F>>, step: StepView)
    ensures
        step.rule != Rule::Divides ==> (step_fault(dict, step) == Some(FaultKind::Missing)
            <==> forall|j: int|
            0 <= j < dict.len() ==> (#[trigger] dict[j]).name@ != step.key),
        step.rule == Rule::Divides && step.m > 0 ==> (step_fault(dict, step) is None <==> step.n
            as int % step.m as int == 0),
        step.rule == Rule::Divides && step_fault(dict, step) is Some ==> step_fault(dict, step)
            == Some(FaultKind::Heads),
{
    law_names_find_the_first(dict, step.key, 0);
}

proof fn lemma_both_hold<F>(dict: Seq<NamedArray<F>>, s: Seq<StepView>, t: Seq<StepView>)
    ensures
        all_hold(dict, s + t, 0) <==> all_hold(dict, s, 0) && all_hold(dict, t, 0),
{
    if all_hold(dict, s + t, 0) {
        assert forall|i: int| 0 <= i < s.len() implies step_fault(dict, #[trigger] s[i]) is None by {
            assert((s + t)[i] == s[i]);
        }
        assert forall|i: int| 0 <= i < t.len() implies step_fault(dict, #[trigger] t[i]) is None by {
            assert((s + t)[s.len() + i] == t[i]);
        }
    }
}

proof fn lemma_mlp_layer<F>(dict: Seq<NamedArray<F>>, net: ForeignMlp, li: int)
    requires
        0 <= li <= net.n_hidden,
    ensures
        all_hold(dict, net.layer_steps(li), 0) <==> has_layer(
            dict,
            "net."@ + decimal((2 * li) as nat),
            net.layer_out(li),
            net.layer_in(li),
        ),
{
    let p = "net."@ + decimal((2 * li) as nat);
    let (o, n) = (net.layer_out(li), net.layer_in(li));
    let steps = net.layer_steps(li);
    let (w, b) = (p + ".weight"@, p + ".bias"@);
    lemma_first(dict, w, 0);
    lemma_first(dict, b, 0);
    law_shapes_hold_their_product(seq![o, n], o, n);
    assert(steps[0].key == w && steps[1].key == b && steps[2].key == w && steps[3].key == w
        && steps[4].key == b);
    if all_hold(dict, steps, 0) {
        assert(step_fault(dict, steps[2]) is None);
        assert(step_fault(dict, steps[3]) is None);
        assert(step_fault(dict, steps[4]) is None);
        let i = position(dict, w, 0)->0;
        let j = position(dict, b, 0)->0;
        assert(first_named(dict, w, i));
        assert(first_named(dict, b, j));
    }
    if has_layer(dict, p, o, n) {
        let i = choose|i: int|
            #[trigger] first_named(dict, w, i) && dict[i].shape@ == seq![o, n]
                && dict[i].data@.len() == o * n;
        let j = choose|j: int| #[trigger] first_named(dict, b, j) && dict[j].data@.len() == o;
        law_names_find_the_first(dict, w, i);
        law_names_find_the_first(dict, b, j);
    }
}

proof fn lemma_mlp_layers<F>(dict: Seq<NamedArray<F>>, net: ForeignMlp, n: int)
    requires
        0 <= n <= net.n_hidden + 1,
    ensures
        all_hold(dict, net.layers_steps(n), 0) <==> forall|li: int|
            0 <= li < n ==> has_layer(
                dict,
                "net."@ + #[trigger] decimal((2 * li) as nat),
                net.layer_out(li),
                net.layer_in(li),
            ),
    decreases n,
{
    if n > 0 {
        lemma_mlp_layers(dict, net, n - 1);
        lemma_both_hold(dict, net.layers_steps(n - 1), net.layer_steps(n - 1));
        lemma_mlp_layer(dict, net, n - 1);
        let last = decimal((2 * (n - 1)) as nat);
    }
}

/// A network of linear layers is accepted if and only if the arrays `net.0`, `net.2`,
/// .. are there: the first layer takes the input, the last gives the output, and
/// between any two stand the hidden numbers.
pub proof fn law_accepted_layers<F>(dict: Seq<NamedArray<F>>, net: ForeignMlp)
    ensures
        first_fault(dict, net.steps(), 0) is None <==> forall|li: int|
            0 <= li <= net.n_hidden ==> has_layer(
                dict,
                "net."@ + #[trigger] decimal((2 * li) as nat),
                if li < net.n_hidden {
                    net.hidden
                } else {
                    net.out_dim
                },
                if li > 0 {
                    net.hidden
                } else {
                    net.in_dim
                },
            ),
{
    lemma_all_hold(dict, net.steps(), 0);
    lemma_mlp_layers(dict, net, net.n_hidden + 1);
}

/// Immortal's network takes 107 numbers through six hidden layers of 512 and gives a
/// logit for each of 126 actions.
pub proof fn law_immortal_dimensions()
    ensures
        immortal_net().in_dim == 107,
        immortal_net().hidden == 512,
        immortal_net().n_hidden == 6,
        immortal_net().out_dim == 126,
{
}

/// The array of this name is a matrix, all its numbers there.
pub open spec fn has_weights<F>(dict: Seq<NamedArray<F>>, name: Seq<char>) -> bool {
    exists|i: int|
        #[trigger] first_named(dict, name, i) && dict[i].shape@.len() == 2 && dict[i].data@.len()
            == dict[i].shape@[0] * dict[i].shape@[1]
}

/// The array of this name holds as many numbers as its first dimension says.
pub open spec fn has_column<F>(dict: Seq<NamedArray<F>>, name: Seq<char>) -> bool {
    exists|i: int|
        #[trigger] first_named(dict, name, i) && dict[i].shape@.len() >= 1 && dict[i].data@.len()
            == dict[i].shape@[0]
}

/// The first dimension of the array of this name is `n`.
pub open spec fn has_rows<F>(dict: Seq<NamedArray<F>>, name: Seq<char>, n: usize) -> bool {
    exists|i: int|
        #[trigger] first_named(dict, name, i) && dict[i].shape@.len() >= 1 && dict[i].shape@[0]
            == n
}

/// The second dimension of the array of this name is `n`.
pub open spec fn has_cols<F>(dict: Seq<NamedArray<F>>, name: Seq<char>, n: usize) -> bool {
    exists|i: int|
        #[trigger] first_named(dict, name, i) && dict[i].shape@.len() >= 2 && dict[i].shape@[1]
            == n
}

/// The data of the array of this name fill its shape.
pub open spec fn has_filled<F>(dict: Seq<NamedArray<F>>, name: Seq<char>) -> bool {
    exists|i: int|
        #[trigger] first_named(dict, name, i) && dict[i].data@.len() == element_count(
            dict[i].shape@,
            dict[i].shape@.len() as int,
        )
}

/// What each requirement asks of the array it is on.
pub proof fn law_what_requirements_ask<F>(dict: Seq<NamedArray<F>>, s: StepView)
    ensures
        s.rule == Rule::Rows ==> (step_fault(dict, s) is None <==> has_rows(dict, s.key, s.n)),
        s.rule == Rule::Cols ==> (step_fault(dict, s) is None <==> has_cols(dict, s.key, s.n)),
        s.rule == Rule::Column ==> (step_fault(dict, s) is None <==> has_column(dict, s.key)),
        s.rule == Rule::Length ==> (step_fault(dict, s) is None <==> has_numbers(
            dict,
            s.key,
            s.n,
        )),
        s.rule == Rule::Tensor ==> (step_fault(dict, s) is None <==> has_filled(dict, s.key)),
        s.rule == Rule::Tall ==> (step_fault(dict, s) is None <==> exists|n: usize|
            n >= s.n && #[trigger] has_rows(dict, s.key, n)),
        s.rule == Rule::Vector ==> (step_fault(dict, s) is None <==> exists|i: int|
            #[trigger] first_named(dict, s.key, i) && dict[i].shape@.len() == 1),
        s.rule == Rule::Matrix ==> (step_fault(dict, s) is None <==> exists|i: int|
            #[trigger] first_named(dict, s.key, i) && dict[i].shape@.len() == 2),
        s.rule == Rule::Wide ==> (step_fault(dict, s) is None <==> exists|i: int|
            #[trigger] first_named(dict, s.key, i) && dict[i].shape@.len() >= 2),
        s.rule == Rule::Present ==> (step_fault(dict, s) is None <==> exists|i: int| #[trigger]
            first_named(dict, s.key, i)),
{
    lemma_first(dict, s.key, 0);
    if let Some(i) = position(dict, s.key, 0) {
        let a = dict[i];
        assert forall|j: int| #[trigger] first_named(dict, s.key, j) implies j == i by {
            assert(!(i < j));
            assert(!(j < i));
        }
        assert(lookup(dict, s.key) == Some(a));
        if s.rule == Rule::Tall && a.shape@.len() >= 1 && a.shape@[0] >= s.n {
            assert(has_rows(dict, s.key, a.shape@[0]));
        }
    } else {
        assert(lookup(dict, s.key) is None);
    }
}

proof fn lemma_element_layer<F>(dict: Seq<NamedArray<F>>, name: Seq<char>)
    ensures
        all_hold(dict, element_layer(name), 0) <==> has_weights(dict, name + ".weight"@)
            && has_column(dict, name + ".bias"@),
{
    let steps = element_layer(name);
    let (w, b) = (name + ".weight"@, name + ".bias"@);
    lemma_first(dict, w, 0);
    lemma_first(dict, b, 0);
    assert(steps[0].key == w && steps[1].key == b && steps[2].key == w && steps[3].key == w
        && steps[4].key == b);
    law_what_requirements_ask(dict, steps[0]);
    law_what_requirements_ask(dict, steps[1]);
    law_what_requirements_ask(dict, steps[2]);
    law_what_requirements_ask(dict, steps[3]);
    law_what_requirements_ask(dict, steps[4]);
    assert forall|i: int| #[trigger] first_named(dict, w, i) && dict[i].shape@.len() == 2 implies
        element_count(dict[i].shape@, 2) == dict[i].shape@[0] * dict[i].shape@[1] by {
        let shape = dict[i].shape@;
        law_shapes_hold_their_product(shape, shape[0], shape[1]);
        assert(shape =~= seq![shape[0], shape[1]]);
    }
    if all_hold(dict, steps, 0) {
        assert(step_fault(dict, steps[2]) is None);
        assert(step_fault(dict, steps[3]) is None);
        assert(step_fault(dict, steps[4]) is None);
        let i = choose|i: int| #[trigger] first_named(dict, w, i) && dict[i].shape@.len() == 2;
        law_names_find_the_first(dict, w, i);
        assert(first_named(dict, w, i));
    }
    if has_weights(dict, w) && has_column(dict, b) {
        let i = choose|i: int|
            #[trigger] first_named(dict, w, i) && dict[i].shape@.len() == 2 && dict[i].data@.len()
                == dict[i].shape@[0] * dict[i].shape@[1];
        assert(first_named(dict, w, i));
        let j = choose|j: int|
            #[trigger] first_named(dict, b, j) && dict[j].shape@.len() >= 1 && dict[j].data@.len()
                == dict[j].shape@[0];
        assert(first_named(dict, b, j));
    }
}

proof fn lemma_hidden_layers<F>(dict: Seq<NamedArray<F>>, n: int)
    requires
        0 <= n,
    ensures
        all_hold(dict, hidden_layers(n), 0) <==> forall|k: nat|
            1 <= k <= n ==> has_weights(dict, "fc"@ + #[trigger] decimal(k) + ".weight"@)
                && has_column(dict, "fc"@ + decimal(k) + ".bias"@),
    decreases n,
{
    if n > 0 {
        lemma_hidden_layers(dict, n - 1);
        lemma_both_hold(dict, hidden_layers(n - 1), element_layer("fc"@ + decimal(n as nat)));
        lemma_element_layer(dict, "fc"@ + decimal(n as nat));
    }
}

proof fn lemma_one_holds<F>(dict: Seq<NamedArray<F>>, s: StepView)
    ensures
        all_hold(dict, seq![s], 0) <==> step_fault(dict, s) is None,
{
    assert(seq![s][0] == s);
}

/// Element is accepted if and only if its five hidden layers and two heads are there:
/// the weights matrices, the first as wide as the row that the bot is given, with
/// three logits for each of five choices and two for each of three.
pub proof fn law_accepted_heads<F>(dict: Seq<NamedArray<F>>, obs_size: usize)
    ensures
        first_fault(dict, element_steps(obs_size), 0) is None <==> {
            &&& forall|k: nat|
                1 <= k <= 5 ==> has_weights(dict, "fc"@ + #[trigger] decimal(k) + ".weight"@)
                    && has_column(dict, "fc"@ + decimal(k) + ".bias"@)
            &&& has_cols(dict, "fc1"@ + ".weight"@, obs_size)
            &&& has_weights(dict, "cat_heads"@ + ".weight"@)
            &&& has_column(dict, "cat_heads"@ + ".bias"@)
            &&& has_weights(dict, "ber_heads"@ + ".weight"@)
            &&& has_column(dict, "ber_heads"@ + ".bias"@)
            &&& has_rows(dict, "cat_heads"@ + ".weight"@, 15)
            &&& has_rows(dict, "ber_heads"@ + ".weight"@, 6)
        },
{
    let wide = step(Rule::Cols, "fc1"@, ".weight"@, obs_size, 0);
    let threes = step(Rule::Rows, "cat_heads"@, ".weight"@, 15, 0);
    let twos = step(Rule::Rows, "ber_heads"@, ".weight"@, 6, 0);
    let (cat, ber) = (element_layer("cat_heads"@), element_layer("ber_heads"@));
    let a = hidden_layers(5);
    lemma_all_hold(dict, element_steps(obs_size), 0);
    lemma_hidden_layers(dict, 5);
    lemma_both_hold(dict, a, seq![wide]);
    lemma_both_hold(dict, a + seq![wide], cat);
    lemma_both_hold(dict, a + seq![wide] + cat, ber);
    lemma_both_hold(dict, a + seq![wide] + cat + ber, seq![threes, twos]);
    lemma_both_hold(dict, seq![threes], seq![twos]);
    assert(seq![threes, twos] =~= seq![threes] + seq![twos]);
    lemma_one_holds(dict, wide);
    lemma_one_holds(dict, threes);
    lemma_one_holds(dict, twos);
    lemma_element_layer(dict, "cat_heads"@);
    lemma_element_layer(dict, "ber_heads"@);
    law_what_requirements_ask(dict, wide);
    law_what_requirements_ask(dict, threes);
    law_what_requirements_ask(dict, twos);
}

/// A normalization layer: weights and biases, all their numbers there.
pub open spec fn has_norm<F>(dict: Seq<NamedArray<F>>, name: Seq<char>) -> bool {
    has_filled(dict, name + ".weight"@) && has_filled(dict, name + ".bias"@)
}

/// A linear layer: a matrix of weights, and biases, all their numbers there.
pub open spec fn has_linear<F>(dict: Seq<NamedArray<F>>, name: Seq<char>) -> bool {
    has_weights(dict, name + ".weight"@) && has_filled(dict, name + ".bias"@)
}

proof fn lemma_norm<F>(dict: Seq<NamedArray<F>>, name: Seq<char>)
    ensures
        all_hold(dict, norm_steps(name), 0) <==> has_norm(dict, name),
{
    let steps = norm_steps(name);
    law_what_requirements_ask(dict, steps[0]);
    law_what_requirements_ask(dict, steps[1]);
    if all_hold(dict, steps, 0) {
        assert(step_fault(dict, steps[0]) is None);
        assert(step_fault(dict, steps[1]) is None);
    }
}

proof fn lemma_weights<F>(dict: Seq<NamedArray<F>>, w: Seq<char>)
    ensures
        has_weights(dict, w) <==> has_filled(dict, w) && exists|i: int|
            #[trigger] first_named(dict, w, i) && dict[i].shape@.len() == 2,
{
    assert forall|i: int| #[trigger] first_named(dict, w, i) && dict[i].shape@.len() == 2 implies
        element_count(dict[i].shape@, 2) == dict[i].shape@[0] * dict[i].shape@[1] by {
        let shape = dict[i].shape@;
        law_shapes_hold_their_product(shape, shape[0], shape[1]);
        assert(shape =~= seq![shape[0], shape[1]]);
    }
    assert forall|i: int, j: int| #[trigger]
        first_named(dict, w, i) && #[trigger] first_named(dict, w, j) implies i == j by {
        assert(!(i < j));
        assert(!(j < i));
    }
}

proof fn lemma_linear<F>(dict: Seq<NamedArray<F>>, name: Seq<char>)
    ensures
        all_hold(dict, linear_steps(name), 0) <==> has_linear(dict, name),
{
    let steps = linear_steps(name);
    law_what_requirements_ask(dict, steps[0]);
    law_what_requirements_ask(dict, steps[1]);
    law_what_requirements_ask(dict, steps[2]);
    lemma_weights(dict, name + ".weight"@);
    if all_hold(dict, steps, 0) {
        assert(step_fault(dict, steps[0]) is None);
        assert(step_fault(dict, steps[1]) is None);
        assert(step_fault(dict, steps[2]) is None);
    }
}

/// An attention layer: the width divides into the heads, and queries, keys, values
/// and output are linear layers.
pub open spec fn has_attention<F>(
    dict: Seq<NamedArray<F>>,
    name: Seq<char>,
    width: usize,
    heads: usize,
) -> bool {
    &&& width as int % heads as int == 0
    &&& has_linear(dict, name + ".q"@)
    &&& has_linear(dict, name + ".k"@)
    &&& has_linear(dict, name + ".v"@)
    &&& has_linear(dict, name + ".o"@)
}

proof fn lemma_attention<F>(dict: Seq<NamedArray<F>>, name: Seq<char>, d: usize, h: usize)
    ensures
        all_hold(dict, attention_steps(name, d, h), 0) <==> has_attention(dict, name, d, h),
{
    let split = step(Rule::Divides, name, ""@, d, h);
    let (q, k) = (linear_steps(name + ".q"@), linear_steps(name + ".k"@));
    let (v, o) = (linear_steps(name + ".v"@), linear_steps(name + ".o"@));
    lemma_one_holds(dict, split);
    lemma_both_hold(dict, seq![split], q);
    lemma_both_hold(dict, seq![split] + q, k);
    lemma_both_hold(dict, seq![split] + q + k, v);
    lemma_both_hold(dict, seq![split] + q + k + v, o);
    lemma_linear(dict, name + ".q"@);
    lemma_linear(dict, name + ".k"@);
    lemma_linear(dict, name + ".v"@);
    lemma_linear(dict, name + ".o"@);
}

/// A transformer block: attention and a feed-forward pair, each behind a
/// normalization.
pub open spec fn has_transformer<F>(
    dict: Seq<NamedArray<F>>,
    name: Seq<char>,
    width: usize,
    heads: usize,
) -> bool {
    &&& has_norm(dict, name + ".ln1"@)
    &&& has_attention(dict, name + ".attn"@, width, heads)
    &&& has_norm(dict, name + ".ln2"@)
    &&& has_linear(dict, name + ".ff1"@)
    &&& has_linear(dict, name + ".ff2"@)
}

proof fn lemma_transformer<F>(dict: Seq<NamedArray<F>>, i: nat, d: usize, h: usize)
    ensures
        all_hold(dict, block_steps(i, d, h), 0) <==> has_transformer(
            dict,
            "blocks."@ + decimal(i),
            d,
            h,
        ),
{
    let p = "blocks."@ + decimal(i);
    let (a, b) = (norm_steps(p + ".ln1"@), attention_steps(p + ".attn"@, d, h));
    let (c, e) = (norm_steps(p + ".ln2"@), linear_steps(p + ".ff1"@));
    lemma_both_hold(dict, a, b);
    lemma_both_hold(dict, a + b, c);
    lemma_both_hold(dict, a + b + c, e);
    lemma_both_hold(dict, a + b + c + e, linear_steps(p + ".ff2"@));
    lemma_norm(dict, p + ".ln1"@);
    lemma_norm(dict, p + ".ln2"@);
    lemma_attention(dict, p + ".attn"@, d, h);
    lemma_linear(dict, p + ".ff1"@);
    lemma_linear(dict, p + ".ff2"@);
}

proof fn lemma_transformers<F>(dict: Seq<NamedArray<F>>, n: int, d: usize, h: usize)
    requires
        0 <= n,
    ensures
        all_hold(dict, blocks_steps(n, d, h), 0) <==> forall|i: nat|
            i < n ==> has_transformer(dict, "blocks."@ + #[trigger] decimal(i), d, h),
    decreases n,
{
    if n > 0 {
        lemma_transformers(dict, n - 1, d, h);
        lemma_both_hold(dict, blocks_steps(n - 1, d, h), block_steps((n - 1) as nat, d, h));
        lemma_transformer(dict, (n - 1) as nat, d, h);
    }
}

/// The layers around the blocks of an entity policy.
pub open spec fn has_surroundings<F>(
    dict: Seq<NamedArray<F>>,
    width: usize,
    heads: usize,
) -> bool {
    &&& has_linear(dict, "embed"@)
    &&& has_linear(dict, "query_embed"@)
    &&& has_linear(dict, "act_embed.0"@)
    &&& has_linear(dict, "act_embed.2"@)
    &&& has_filled(dict, "prev_embed_w"@)
    &&& has_linear(dict, "prev_proj"@)
    &&& has_norm(dict, "pool_ln"@)
    &&& has_attention(dict, "pool"@, width, heads)
    &&& has_linear(dict, "policy_dot"@)
    &&& has_linear(dict, "value_head"@)
    &&& has_filled(dict, "action_table"@)
    &&& has_rows(dict, "act_embed.2"@ + ".weight"@, 32)
    &&& has_rows(dict, "policy_dot"@ + ".weight"@, 32)
}

proof fn lemma_nothing_added(s: Seq<char>)
    ensures
        s + ""@ == s,
{
    reveal_strlit("");
    assert(s + ""@ =~= s);
}

proof fn lemma_surroundings<F>(dict: Seq<NamedArray<F>>, d: usize, h: usize)
    ensures
        all_hold(dict, rest_steps(d, h), 0) <==> has_surroundings(dict, d, h),
{
    let prev = step(Rule::Tensor, "prev_embed_w"@, ""@, 0, 0);
    let table = step(Rule::Tensor, "action_table"@, ""@, 0, 0);
    let embedded = step(Rule::Rows, "act_embed.2"@, ".weight"@, ACT_EMB, 0);
    let dotted = step(Rule::Rows, "policy_dot"@, ".weight"@, ACT_EMB, 0);
    lemma_nothing_added("prev_embed_w"@);
    lemma_nothing_added("action_table"@);
    let s1 = linear_steps("embed"@);
    let s2 = s1 + linear_steps("query_embed"@);
    let s3 = s2 + linear_steps("act_embed.0"@);
    let s4 = s3 + linear_steps("act_embed.2"@);
    let s5 = s4 + seq![prev];
    let s6 = s5 + linear_steps("prev_proj"@);
    let s7 = s6 + norm_steps("pool_ln"@);
    let s8 = s7 + attention_steps("pool"@, d, h);
    let s9 = s8 + linear_steps("policy_dot"@);
    let s10 = s9 + linear_steps("value_head"@);
    lemma_both_hold(dict, s1, linear_steps("query_embed"@));
    lemma_both_hold(dict, s2, linear_steps("act_embed.0"@));
    lemma_both_hold(dict, s3, linear_steps("act_embed.2"@));
    lemma_both_hold(dict, s4, seq![prev]);
    lemma_both_hold(dict, s5, linear_steps("prev_proj"@));
    lemma_both_hold(dict, s6, norm_steps("pool_ln"@));
    lemma_both_hold(dict, s7, attention_steps("pool"@, d, h));
    lemma_both_hold(dict, s8, linear_steps("policy_dot"@));
    lemma_both_hold(dict, s9, linear_steps("value_head"@));
    lemma_both_hold(dict, s10, seq![table, embedded, dotted]);
    lemma_both_hold(dict, seq![table], seq![embedded] + seq![dotted]);
    lemma_both_hold(dict, seq![embedded], seq![dotted]);
    assert(seq![table, embedded, dotted] =~= seq![table] + (seq![embedded] + seq![dotted]));
    lemma_one_holds(dict, prev);
    lemma_one_holds(dict, table);
    lemma_one_holds(dict, embedded);
    lemma_one_holds(dict, dotted);
    law_what_requirements_ask(dict, prev);
    law_what_requirements_ask(dict, table);
    law_what_requirements_ask(dict, embedded);
    law_what_requirements_ask(dict, dotted);
    lemma_linear(dict, "embed"@);
    lemma_linear(dict, "query_embed"@);
    lemma_linear(dict, "act_embed.0"@);
    lemma_linear(dict, "act_embed.2"@);
    lemma_linear(dict, "prev_proj"@);
    lemma_norm(dict, "pool_ln"@);
    lemma_attention(dict, "pool"@, d, h);
    lemma_linear(dict, "policy_dot"@);
    lemma_linear(dict, "value_head"@);
}

/// An entity policy has the dimensions that its arrays show: its width and what it
/// reads of an entity are the shape of the weights that embed entities, what it reads
/// of a query, of actions taken and of the action table is told by the arrays that
/// embed those. The width is shared out evenly among the heads. Its blocks are all
/// there, and so are the layers around them.
pub proof fn law_entity_policies_are_read_by_name<F>(dict: Seq<NamedArray<F>>, heads: usize, i: nat)
    requires
        entity_in(dict, heads) is Ok,
        dict.len() <= usize::MAX,
    ensures
        ({
            let p = entity_in(dict, heads)->Ok_0;
            &&& has_matrix(dict, "embed"@ + ".weight"@, p.d_model, p.ent_feat)
            &&& has_cols(dict, "query_embed"@ + ".weight"@, p.q_feat)
            &&& has_numbers(dict, "prev_embed_w"@, p.prev_actions)
            &&& has_matrix(dict, "action_table"@, p.table_size, 8)
            &&& p.heads == heads
            &&& heads > 0 ==> p.head_dim * heads == p.d_model
            &&& p.layers > 0
            &&& i < p.layers ==> has_transformer(dict, "blocks."@ + decimal(i), p.d_model, heads)
            &&& has_surroundings(dict, p.d_model, heads)
        }),
{
    let ids = numbers_named(dict, "blocks."@, ".ln1.weight"@, dict.len() as int);
    lemma_no_more_numbers(dict, "blocks."@, ".ln1.weight"@, dict.len() as int);
    let m = ids.len() as int;
    let p = entity_in(dict, heads)->Ok_0;
    let d = p.d_model;
    assert(first_fault(dict, front_steps(), 0) is None);
    assert(first_fault(dict, layer_steps(m, d, heads), 0) is None);
    assert(p.layers == m);
    lemma_blocks_accepted(dict, m, d, heads, i);
    lemma_weights(dict, "embed"@ + ".weight"@);
    lemma_nothing_added("prev_embed_w"@);
    lemma_nothing_added("action_table"@);
    lemma_front_shapes(dict);
    lemma_embeddings(
        dict,
        shape_of(dict, "embed"@ + ".weight"@),
        shape_of(dict, "prev_embed_w"@),
        shape_of(dict, "action_table"@),
    );
    if heads > 0 {
        vstd::arithmetic::div_mod::lemma_fundamental_div_mod(d as int, heads as int);
        vstd::arithmetic::mul::lemma_mul_is_commutative(heads as int, d as int / heads as int);
    }
}

proof fn lemma_blocks_accepted<F>(
    dict: Seq<NamedArray<F>>,
    m: int,
    d: usize,
    heads: usize,
    i: nat,
)
    requires
        0 <= m,
        first_fault(dict, layer_steps(m, d, heads), 0) is None,
    ensures
        i < m ==> has_transformer(dict, "blocks."@ + decimal(i), d, heads),
        has_surroundings(dict, d, heads),
{
    lemma_all_hold(dict, layer_steps(m, d, heads), 0);
    lemma_both_hold(dict, blocks_steps(m, d, heads), rest_steps(d, heads));
    lemma_transformers(dict, m, d, heads);
    lemma_surroundings(dict, d, heads);
}

proof fn lemma_front_shapes<F>(dict: Seq<NamedArray<F>>)
    requires
        first_fault(dict, front_steps(), 0) is None,
    ensures
        lookup(dict, "embed"@ + ".weight"@) is Some,
        shape_of(dict, "embed"@ + ".weight"@).len() == 2,
        has_cols(
            dict,
            "query_embed"@ + ".weight"@,
            shape_of(dict, "query_embed"@ + ".weight"@)[1],
        ),
        lookup(dict, "prev_embed_w"@) is Some,
        shape_of(dict, "prev_embed_w"@).len() == 1,
        lookup(dict, "action_table"@) is Some,
        shape_of(dict, "action_table"@).len() == 2,
        shape_of(dict, "action_table"@)[1] == 8,
{
    let front = front_steps();
    lemma_nothing_added("prev_embed_w"@);
    lemma_nothing_added("action_table"@);
    lemma_all_hold(dict, front, 0);
    assert(step_fault(dict, front[0]) is None);
    assert(step_fault(dict, front[1]) is None);
    assert(step_fault(dict, front[2]) is None);
    assert(step_fault(dict, front[3]) is None);
    assert(step_fault(dict, front[4]) is None);
    let q = "query_embed"@ + ".weight"@;
    lemma_shape_found(dict, q);
    assert(first_named(dict, q, position(dict, q, 0)->0));
}

proof fn lemma_embeddings<F>(
    dict: Seq<NamedArray<F>>,
    embed: Seq<usize>,
    prev: Seq<usize>,
    table: Seq<usize>,
)
    requires
        lookup(dict, "embed"@ + ".weight"@) matches Some(a) && a.shape@ == embed,
        lookup(dict, "prev_embed_w"@) matches Some(a) && a.shape@ == prev,
        lookup(dict, "action_table"@) matches Some(a) && a.shape@ == table,
        embed.len() == 2 && prev.len() == 1 && table.len() == 2,
        has_filled(dict, "embed"@ + ".weight"@),
        has_filled(dict, "prev_embed_w"@),
        has_filled(dict, "action_table"@),
    ensures
        has_matrix(dict, "embed"@ + ".weight"@, embed[0], embed[1]),
        has_numbers(dict, "prev_embed_w"@, prev[0]),
        has_matrix(dict, "action_table"@, table[0], table[1]),
{
    lemma_shape_found(dict, "embed"@ + ".weight"@);
    lemma_shape_found(dict, "prev_embed_w"@);
    lemma_shape_found(dict, "action_table"@);
    assert(embed =~= seq![embed[0], embed[1]]);
    assert(prev =~= seq![prev[0]]);
    assert(table =~= seq![table[0], table[1]]);
    law_shapes_hold_their_product(embed, embed[0], embed[1]);
    law_shapes_hold_their_product(prev, prev[0], 0);
    law_shapes_hold_their_product(table, table[0], table[1]);
}

proof fn lemma_shape_found<F>(dict: Seq<NamedArray<F>>, name: Seq<char>)
    ensures
        lookup(dict, name) is Some ==> first_named(dict, name, position(dict, name, 0)->0),
        forall|i: int, j: int| #[trigger]
            first_named(dict, name, i) && #[trigger] first_named(dict, name, j) ==> i == j,
{
    lemma_first(dict, name, 0);
    assert forall|i: int, j: int| #[trigger]
        first_named(dict, name, i) && #[trigger] first_named(dict, name, j) implies i == j by {
        assert(!(i < j));
        assert(!(j < i));
    }
}

proof fn lemma_no_more_numbers<F>(
    dict: Seq<NamedArray<F>>,
    prefix: Seq<char>,
    suffix: Seq<char>,
    n: int,
)
    requires
        0 <= n,
    ensures
        numbers_named(dict, prefix, suffix, n).len() <= n,
    decreases n,
{
    if n > 0 {
        lemma_no_more_numbers(dict, prefix, suffix, n - 1);
    }
}

/// The array of this name is filled and has `n` rows or more.
pub open spec fn has_tall<F>(dict: Seq<NamedArray<F>>, name: Seq<char>, n: usize) -> bool {
    exists|i: int|
        #[trigger] first_named(dict, name, i) && dict[i].shape@.len() >= 1 && dict[i].shape@[0]
            >= n && dict[i].data@.len() == element_count(
            dict[i].shape@,
            dict[i].shape@.len() as int,
        )
}

/// A block of Nexto: three projections of 128 rows packed into one array, and the
/// layers behind them.
pub open spec fn has_packed_block<F>(dict: Seq<NamedArray<F>>, name: Seq<char>) -> bool {
    &&& has_tall(dict, name + ".attention.in_proj_weight"@, 384)
    &&& has_tall(dict, name + ".attention.in_proj_bias"@, 384)
    &&& has_norm(dict, name + ".attention.out_proj"@)
    &&& has_norm(dict, name + ".norm1"@)
    &&& has_norm(dict, name + ".norm2"@)
    &&& has_norm(dict, name + ".norm3"@)
    &&& has_norm(dict, name + ".linear1"@)
    &&& has_norm(dict, name + ".linear2"@)
}

proof fn lemma_packed<F>(dict: Seq<NamedArray<F>>, name: Seq<char>)
    ensures
        all_hold(dict, packed_steps(name), 0) <==> has_tall(
            dict,
            name + ".attention.in_proj_weight"@,
            384,
        ) && has_tall(dict, name + ".attention.in_proj_bias"@, 384),
{
    let steps = packed_steps(name);
    let (w, b) = (name + ".attention.in_proj_weight"@, name + ".attention.in_proj_bias"@);
    lemma_shape_found(dict, w);
    lemma_shape_found(dict, b);
    assert(steps[0].key == w && steps[2].key == w && steps[4].key == w && steps[6].key == w);
    assert(steps[1].key == b && steps[3].key == b && steps[5].key == b && steps[7].key == b);
    if all_hold(dict, steps, 0) {
        assert(step_fault(dict, steps[0]) is None);
        assert(step_fault(dict, steps[1]) is None);
        assert(step_fault(dict, steps[6]) is None);
        assert(step_fault(dict, steps[7]) is None);
        assert(first_named(dict, w, position(dict, w, 0)->0));
        assert(first_named(dict, b, position(dict, b, 0)->0));
    }
    if has_tall(dict, w, 384) && has_tall(dict, b, 384) {
        let i = choose|i: int|
            #[trigger] first_named(dict, w, i) && dict[i].shape@.len() >= 1 && dict[i].shape@[0]
                >= 384 && dict[i].data@.len() == element_count(
                dict[i].shape@,
                dict[i].shape@.len() as int,
            );
        let j = choose|j: int|
            #[trigger] first_named(dict, b, j) && dict[j].shape@.len() >= 1 && dict[j].shape@[0]
                >= 384 && dict[j].data@.len() == element_count(
                dict[j].shape@,
                dict[j].shape@.len() as int,
            );
        law_names_find_the_first(dict, w, i);
        law_names_find_the_first(dict, b, j);
        assert forall|k: int| 0 <= k < steps.len() implies step_fault(dict, #[trigger] steps[k]) is None by {
            assert(steps.len() == 8);
            assert(k == 0 || k == 1 || k == 2 || k == 3 || k == 4 || k == 5 || k == 6 || k == 7);
        }
    }
}

proof fn lemma_packed_block<F>(dict: Seq<NamedArray<F>>, p: Seq<char>)
    ensures
        all_hold(dict, nexto_block(p), 0) <==> has_packed_block(dict, p),
{
    let s1 = packed_steps(p);
    let s2 = s1 + norm_steps(p + ".attention.out_proj"@);
    let s3 = s2 + norm_steps(p + ".norm1"@);
    let s4 = s3 + norm_steps(p + ".norm2"@);
    let s5 = s4 + norm_steps(p + ".norm3"@);
    let s6 = s5 + norm_steps(p + ".linear1"@);
    lemma_both_hold(dict, s1, norm_steps(p + ".attention.out_proj"@));
    lemma_both_hold(dict, s2, norm_steps(p + ".norm1"@));
    lemma_both_hold(dict, s3, norm_steps(p + ".norm2"@));
    lemma_both_hold(dict, s4, norm_steps(p + ".norm3"@));
    lemma_both_hold(dict, s5, norm_steps(p + ".linear1"@));
    lemma_both_hold(dict, s6, norm_steps(p + ".linear2"@));
    lemma_packed(dict, p);
    lemma_norm(dict, p + ".attention.out_proj"@);
    lemma_norm(dict, p + ".norm1"@);
    lemma_norm(dict, p + ".norm2"@);
    lemma_norm(dict, p + ".norm3"@);
    lemma_norm(dict, p + ".linear1"@);
    lemma_norm(dict, p + ".linear2"@);
}

/// The blocks of Nexto are accepted if and only if each of them is there.
pub proof fn law_accepted_blocks<F>(dict: Seq<NamedArray<F>>, n: int)
    requires
        0 <= n,
    ensures
        first_fault(dict, nexto_blocks(n), 0) is None <==> forall|i: nat|
            i < n ==> has_packed_block(dict, "net.earl.blocks."@ + #[trigger] decimal(i)),
    decreases n,
{
    lemma_all_hold(dict, nexto_blocks(n), 0);
    if n > 0 {
        law_accepted_blocks(dict, n - 1);
        lemma_all_hold(dict, nexto_blocks(n - 1), 0);
        let p = block_prefix((n - 1) as nat);
        lemma_both_hold(dict, nexto_blocks(n - 1), nexto_block(p));
        lemma_packed_block(dict, p);
    }
}

/// Nexto has the blocks that are numbered without a gap from 0 on: those whose first
/// linear layer has weights.
pub proof fn law_blocks_are_counted<F>(dict: Seq<NamedArray<F>>, n: int, i: nat, k: int)
    requires
        block_count(dict, n),
    ensures
        i < n ==> exists|j: int| #[trigger]
            first_named(dict, "net.earl.blocks."@ + decimal(i) + ".linear1.weight"@, j),
        0 <= k < dict.len() ==> dict[k].name@ != "net.earl.blocks."@ + decimal(n as nat)
            + ".linear1.weight"@,
{
    if i < n {
        assert(has_block(dict, i));
        let name = "net.earl.blocks."@ + decimal(i) + ".linear1.weight"@;
        lemma_first(dict, name, 0);
        assert(first_named(dict, name, position(dict, name, 0)->0));
    }
    law_names_find_the_first(
        dict,
        "net.earl.blocks."@ + decimal(n as nat) + ".linear1.weight"@,
        0,
    );
}

/// A layer that takes rows of `width` numbers and gives rows of `gives`: as many as
/// its weights have rows or, where that is one, as its biases have. The biases go with
/// 90 rows of what the weights give.
pub open spec fn passes_rows<F>(
    dict: Seq<NamedArray<F>>,
    name: Seq<char>,
    width: usize,
    gives: usize,
) -> bool {
    exists|i: int, j: int|
        #![trigger first_named(dict, name + ".weight"@, i), first_named(dict, name + ".bias"@, j)]
        {
            let (w, b) = (dict[i].shape@, dict[j].shape@);
            &&& first_named(dict, name + ".weight"@, i)
            &&& first_named(dict, name + ".bias"@, j)
            &&& w.len() == 2 && w[1] == width
            &&& dict[i].data@.len() == w[0] * w[1]
            &&& dict[j].data@.len() == element_count(b, b.len() as int)
            &&& b.len() <= 2
            &&& b.len() > 0 ==> b.last() == w[0] || b.last() == 1 || w[0] == 1
            &&& b.len() == 2 ==> b[0] == 1 || b[0] == 90
            &&& gives == if b.len() > 0 && w[0] == 1 {
                b.last()
            } else {
                w[0]
            }
        }
}

proof fn lemma_row_layer<F>(dict: Seq<NamedArray<F>>, name: Seq<char>, width: usize)
    ensures
        all_hold(dict, row_layer(dict, name, width), 0) <==> passes_rows(
            dict,
            name,
            width,
            width_after(dict, name),
        ),
        forall|g: usize| #[trigger]
            passes_rows(dict, name, width, g) ==> g == width_after(dict, name),
{
    let (w, b) = (name + ".weight"@, name + ".bias"@);
    let matrix = step(Rule::Matrix, name, ".weight"@, 0, 0);
    let wide = step(Rule::Cols, name, ".weight"@, width, 0);
    let bias = step(Rule::Bias, name, ".bias"@, rows_of(dict, w), NEXTO_ACTIONS);
    let own = seq![matrix, wide, bias];
    lemma_shape_found(dict, w);
    lemma_shape_found(dict, b);
    lemma_both_hold(dict, norm_steps(name), own);
    lemma_norm(dict, name);
    lemma_weights(dict, w);
    law_what_requirements_ask(dict, matrix);
    law_what_requirements_ask(dict, wide);
    assert forall|g: usize| #[trigger] passes_rows(dict, name, width, g) implies g == width_after(
        dict,
        name,
    ) by {
        let (i, j) = choose|i: int, j: int|
            #![trigger first_named(dict, w, i), first_named(dict, b, j)]
            first_named(dict, w, i) && first_named(dict, b, j) && dict[i].shape@.len() == 2 && g
                == if dict[j].shape@.len() > 0 && dict[i].shape@[0] == 1 {
                dict[j].shape@.last()
            } else {
                dict[i].shape@[0]
            };
        law_names_find_the_first(dict, w, i);
        law_names_find_the_first(dict, b, j);
    }
    if all_hold(dict, row_layer(dict, name, width), 0) {
        assert(step_fault(dict, own[0]) is None);
        assert(step_fault(dict, own[1]) is None);
        assert(step_fault(dict, own[2]) is None);
        let (i, j) = (position(dict, w, 0)->0, position(dict, b, 0)->0);
        assert(has_weights(dict, w));
        assert(first_named(dict, w, i) && first_named(dict, b, j));
        assert(passes_rows(dict, name, width, width_after(dict, name)));
    }
    if passes_rows(dict, name, width, width_after(dict, name)) {
        let (i, j) = choose|i: int, j: int|
            #![trigger first_named(dict, w, i), first_named(dict, b, j)]
            {
                let (x, y) = (dict[i].shape@, dict[j].shape@);
                &&& first_named(dict, w, i)
                &&& first_named(dict, b, j)
                &&& x.len() == 2 && x[1] == width
                &&& dict[i].data@.len() == x[0] * x[1]
                &&& dict[j].data@.len() == element_count(y, y.len() as int)
                &&& y.len() <= 2
                &&& y.len() > 0 ==> y.last() == x[0] || y.last() == 1 || x[0] == 1
                &&& y.len() == 2 ==> y[0] == 1 || y[0] == 90
            };
        law_names_find_the_first(dict, w, i);
        law_names_find_the_first(dict, b, j);
        assert(has_weights(dict, w));
        assert(has_filled(dict, b));
        assert forall|k: int| 0 <= k < own.len() implies step_fault(dict, #[trigger] own[k]) is None by {
            assert(k == 0 || k == 1 || k == 2);
        }
    }
}

/// The layers around the blocks of Nexto are accepted if and only if they are there
/// and the rows of the action table, eight numbers each, pass through the three that
/// embed them: each takes what the one before it gives.
pub proof fn law_action_rows_pass_through<F>(dict: Seq<NamedArray<F>>)
    ensures
        first_fault(dict, nexto_rest(dict), 0) is None <==> {
            &&& exists|a: usize, b: usize, c: usize|
                #![trigger
                    passes_rows(dict, "net.output.net.2"@, a, b),
                    passes_rows(dict, "net.output.net.4"@, b, c)]
                passes_rows(dict, "net.output.net.0"@, 8, a) && passes_rows(
                    dict,
                    "net.output.net.2"@,
                    a,
                    b,
                ) && passes_rows(dict, "net.output.net.4"@, b, c)
            &&& has_norm(dict, "net.earl.query_preprocess.0"@)
            &&& has_norm(dict, "net.earl.query_preprocess.2"@)
            &&& has_norm(dict, "net.earl.key_value_preprocess.0"@)
            &&& has_norm(dict, "net.earl.key_value_preprocess.2"@)
            &&& has_norm(dict, "net.output.emb_convertor"@)
        },
{
    let (n0, n2, n4) = ("net.output.net.0"@, "net.output.net.2"@, "net.output.net.4"@);
    let (w0, w2, w4) = (width_after(dict, n0), width_after(dict, n2), width_after(dict, n4));
    let (l0, l2, l4) = (row_layer(dict, n0, 8), row_layer(dict, n2, w0), row_layer(dict, n4, w2));
    lemma_all_hold(dict, nexto_rest(dict), 0);
    lemma_both_hold(dict, l0, l2);
    lemma_both_hold(dict, l0 + l2, l4);
    lemma_row_layer(dict, n0, 8);
    lemma_row_layer(dict, n2, w0);
    lemma_row_layer(dict, n4, w2);
    let s1 = table_layers(dict);
    let s2 = s1 + norm_steps("net.earl.query_preprocess.0"@);
    let s3 = s2 + norm_steps("net.earl.query_preprocess.2"@);
    let s4 = s3 + norm_steps("net.earl.key_value_preprocess.0"@);
    let s5 = s4 + norm_steps("net.earl.key_value_preprocess.2"@);
    lemma_both_hold(dict, s1, norm_steps("net.earl.query_preprocess.0"@));
    lemma_both_hold(dict, s2, norm_steps("net.earl.query_preprocess.2"@));
    lemma_both_hold(dict, s3, norm_steps("net.earl.key_value_preprocess.0"@));
    lemma_both_hold(dict, s4, norm_steps("net.earl.key_value_preprocess.2"@));
    lemma_both_hold(dict, s5, norm_steps("net.output.emb_convertor"@));
    lemma_norm(dict, "net.earl.query_preprocess.0"@);
    lemma_norm(dict, "net.earl.query_preprocess.2"@);
    lemma_norm(dict, "net.earl.key_value_preprocess.0"@);
    lemma_norm(dict, "net.earl.key_value_preprocess.2"@);
    lemma_norm(dict, "net.output.emb_convertor"@);
    if all_hold(dict, s1, 0) {
        assert(passes_rows(dict, n0, 8, w0) && passes_rows(dict, n2, w0, w2) && passes_rows(
            dict,
            n4,
            w2,
            w4,
        ));
    }
    assert forall|a: usize, b: usize, c: usize|
        #![trigger passes_rows(dict, n2, a, b), passes_rows(dict, n4, b, c)]
        passes_rows(dict, n0, 8, a) && passes_rows(dict, n2, a, b) && passes_rows(
            dict,
            n4,
            b,
            c,
        ) implies all_hold(dict, s1, 0) by {
        assert(a == w0);
        assert(b == w2);
        assert(c == w4);
    }
}

/// A number is read as it is written: between a prefix and a suffix, a number in
/// decimal stands for itself.
pub proof fn law_numbers_read_back(n: nat, prefix: Seq<char>, suffix: Seq<char>)
    requires
        n <= usize::MAX,
    ensures
        name_index(prefix + decimal(n) + suffix, prefix, suffix) == Some(n as int),
{
    let d = decimal(n);
    let s = prefix + d + suffix;
    lemma_digits_back(n);
    assert(s.take(prefix.len() as int) =~= prefix);
    assert(s.skip(s.len() - suffix.len()) =~= suffix);
    assert(s.subrange(prefix.len() as int, s.len() - suffix.len()) =~= d);
    assert('0' <= d[0]);
    assert(d[0] != '+');
}

proof fn lemma_digits_back(n: nat)
    ensures
        decimal(n).len() > 0,
        all_digits(decimal(n)),
        digits_value(decimal(n)) == n,
    decreases n,
{
    reveal_with_fuel(digits_value, 2);
    let d = decimal(n);
    if n < 10 {
        assert(d.drop_last() =~= Seq::empty());
    } else {
        lemma_digits_back(n / 10);
        assert(d.drop_last() =~= decimal(n / 10));
    }
}

/// The numbers that names hold are read array by array, each array giving the number
/// that its own name holds, or none.
pub proof fn law_numbers_come_from_names<F>(
    dict: Seq<NamedArray<F>>,
    prefix: Seq<char>,
    suffix: Seq<char>,
    n: int,
    k: usize,
)
    requires
        0 <= n <= dict.len(),
    ensures
        numbers_named(dict, prefix, suffix, n).contains(k) <==> exists|i: int|
            0 <= i < n && name_index((#[trigger] dict[i]).name@, prefix, suffix) == Some(k as int),
    decreases n,
{
    if n > 0 {
        law_numbers_come_from_names(dict, prefix, suffix, n - 1, k);
        let before = numbers_named(dict, prefix, suffix, n - 1);
        let all = numbers_named(dict, prefix, suffix, n);
        let last = name_index(dict[n - 1].name@, prefix, suffix);
        if last is Some {
            let x = last->0 as usize;
            assert(all == before.push(x));
            assert(0 <= last->0 <= usize::MAX) by {
                lemma_index_is_small(dict[n - 1].name@, prefix, suffix);
            }
            if before.contains(k) {
                let j = choose|j: int| 0 <= j < before.len() && before[j] == k;
                assert(all[j] == k);
            }
            if x == k {
                assert(all[before.len() as int] == k);
            }
            if all.contains(k) && x != k {
                let j = choose|j: int| 0 <= j < all.len() && all[j] == k;
                assert(before[j] == k);
            }
        }
    }
}

proof fn lemma_index_is_small(s: Seq<char>, prefix: Seq<char>, suffix: Seq<char>)
    ensures
        name_index(s, prefix, suffix) matches Some(i) ==> 0 <= i <= usize::MAX,
{
    if let Some(mid) = between(s, prefix, suffix) {
        let digits = if mid.len() > 1 && mid[0] == '+' {
            mid.skip(1)
        } else {
            mid
        };
        if all_digits(digits) {
            lemma_digits_are_positive(digits);
        }
    }
}

proof fn lemma_digits_are_positive(s: Seq<char>)
    requires
        all_digits(s),
    ensures
        digits_value(s) >= 0,
    decreases s.len(),
{
    if s.len() > 0 {
        assert forall|i: int| 0 <= i < s.drop_last().len() implies '0' <= #[trigger] s.drop_last()[i]
            && s.drop_last()[i] <= '9' by {
            assert(s.drop_last()[i] == s[i]);
        }
        lemma_digits_are_positive(s.drop_last());
        assert('0' <= s[s.len() - 1]);
    }
}

} // verus!
