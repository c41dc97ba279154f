//! A bot with eight direct outputs.

use crate::argmax::{argmax, argmax_of};
use crate::layout::{
    checkable, first_fault, lemma_checkable_concat, push_step, run_steps, step, step_views, Fault, Rule, Step, StepView,
};
use crate::rows::append_range;
use crate::scalar::{num, total, whole, Scalar};
use crate::state_dict::{decimal, to_decimal, RawStateDict};
use vstd::prelude::*;
use vstd::string::StringExecFns;

verus! {

/// A bot with five hidden layers and eight output heads.
#[derive(Clone, Copy, Debug, PartialEq, Eq, Structural)]
pub struct ElementNet {
    pub obs_size: usize,
}

/// A linear layer of the bot.
pub open spec fn element_layer(prefix: Seq<char>) -> Seq<StepView> {
    seq![
        step(Rule::Present, prefix, ".weight"@, 0, 0),
        step(Rule::Present, prefix, ".bias"@, 0, 0),
        step(Rule::Matrix, prefix, ".weight"@, 0, 0),
        step(Rule::Tensor, prefix, ".weight"@, 0, 0),
        step(Rule::Column, prefix, ".bias"@, 0, 0),
    ]
}

/// The first `n` hidden layers, numbered from 1.
pub open spec fn hidden_layers(n: int) -> Seq<StepView>
    decreases n,
{
    if n <= 0 {
        Seq::empty()
    } else {
        hidden_layers(n - 1) + element_layer("fc"@ + decimal(n as nat))
    }
}

/// What the arrays of the bot must be, in the order in which they are checked.
pub open spec fn element_steps(obs_size: usize) -> Seq<StepView> {
    hidden_layers(5) + seq![step(Rule::Cols, "fc1"@, ".weight"@, obs_size, 0)] + element_layer(
        "cat_heads"@,
    ) + element_layer("ber_heads"@) + seq![
        step(Rule::Rows, "cat_heads"@, ".weight"@, 15, 0),
        step(Rule::Rows, "ber_heads"@, ".weight"@, 6, 0),
    ]
}

fn push_layer(steps: &mut Vec<Step>, prefix: &str)
    ensures
        step_views(final(steps)@) == step_views(old(steps)@) + element_layer(prefix@),
{
    let ghost before = step_views(steps@);
    push_step(steps, Rule::Present, prefix, ".weight", 0, 0);
    push_step(steps, Rule::Present, prefix, ".bias", 0, 0);
    push_step(steps, Rule::Matrix, prefix, ".weight", 0, 0);
    push_step(steps, Rule::Tensor, prefix, ".weight", 0, 0);
    push_step(steps, Rule::Column, prefix, ".bias", 0, 0);
    assert(step_views(steps@) =~= before + element_layer(prefix@));
}

proof fn lemma_hidden_checkable(n: int)
    ensures
        checkable(hidden_layers(n)),
    decreases n,
{
    if n > 0 {
        lemma_hidden_checkable(n - 1);
        lemma_checkable_concat(hidden_layers(n - 1), element_layer("fc"@ + decimal(n as nat)));
    }
}

impl ElementNet {
    /// Checks that a state dict holds the bot's layers for observations of width
    /// `obs_size`, and reports the first array that does not fit.
    pub fn new<F>(map: &RawStateDict<F>, obs_size: usize) -> (r: Result<ElementNet, Fault>)
        ensures
            match r {
                Ok(net) => net.obs_size == obs_size && first_fault(
                    map@,
                    element_steps(obs_size),
                    0,
                ) is None,
                Err(e) => first_fault(map@, element_steps(obs_size), 0) == Some(e@),
            },
    {
        let mut steps: Vec<Step> = Vec::new();
        assert(step_views(steps@) =~= Seq::empty());
        let mut i: usize = 0;
        while i < 5
            invariant
                i <= 5,
                step_views(steps@) == hidden_layers(i as int),
            decreases 5 - i,
        {
            let mut name: String = String::from_str("fc");
            let d: String = to_decimal(i + 1);
            name.append(d.as_str());
            push_layer(&mut steps, name.as_str());
            i = i + 1;
        }
        let ghost a = step_views(steps@);
        push_step(&mut steps, Rule::Cols, "fc1", ".weight", obs_size, 0);
        assert(step_views(steps@) =~= a + seq![step(Rule::Cols, "fc1"@, ".weight"@, obs_size, 0)]);
        push_layer(&mut steps, "cat_heads");
        push_layer(&mut steps, "ber_heads");
        let ghost b = step_views(steps@);
        push_step(&mut steps, Rule::Rows, "cat_heads", ".weight", 15, 0);
        push_step(&mut steps, Rule::Rows, "ber_heads", ".weight", 6, 0);
        proof {
            let last = seq![
                step(Rule::Rows, "cat_heads"@, ".weight"@, 15, 0),
                step(Rule::Rows, "ber_heads"@, ".weight"@, 6, 0),
            ];
            assert(step_views(steps@) =~= b + last);
            lemma_hidden_checkable(5);
            let c = seq![step(Rule::Cols, "fc1"@, ".weight"@, obs_size, 0)];
            let d = element_layer("cat_heads"@);
            let e = element_layer("ber_heads"@);
            lemma_checkable_concat(a, c);
            lemma_checkable_concat(a + c, d);
            lemma_checkable_concat(a + c + d, e);
            lemma_checkable_concat(a + c + d + e, last);
        }
        match run_steps(map, &steps) {
            Ok(_) => Ok(ElementNet { obs_size }),
            Err(e) => Err(e),
        }
    }
}

/// Logits of a bot that gives its controls directly: five of three choices and
/// three of two.
pub struct HeadLogits<F> {
    pub cat: Vec<F>,
    pub ber: Vec<F>,
}

/// Choices with three options.
pub const ELEMENT_CATEGORICALS: usize = 5;

/// Choices with two options.
pub const ELEMENT_BERNOULLIS: usize = 3;

/// Control `i` that the logits give: a choice of three is -1, 0 or 1, a choice
/// of two is 0 or 1.
pub open spec fn decoded<F: Scalar>(cat: Seq<F>, ber: Seq<F>, i: int) -> int {
    if i < ELEMENT_CATEGORICALS {
        argmax_of(cat.subrange(3 * i, 3 * i + 3)) - 1
    } else {
        argmax_of(
            ber.subrange(2 * (i - ELEMENT_CATEGORICALS), 2 * (i - ELEMENT_CATEGORICALS) + 2),
        )
    }
}

fn slice_of<F: Copy>(v: &Vec<F>, from: usize, len: usize) -> (r: Vec<F>)
    requires
        from + len <= v@.len(),
    ensures
        r@ == v@.subrange(from as int, from + len),
{
    let mut r: Vec<F> = Vec::new();
    append_range(&mut r, v, from, len);
    assert(r@ =~= v@.subrange(from as int, from + len));
    r
}

impl ElementNet {
    /// The controls that the logits give.
    pub fn decide<F: Scalar>(&self, h: &HeadLogits<F>) -> (c: [F; 8])
        requires
            total::<F>(),
            h.cat@.len() == 3 * ELEMENT_CATEGORICALS,
            h.ber@.len() == 2 * ELEMENT_BERNOULLIS,
        ensures
            forall|i: int| 0 <= i < 8 ==> #[trigger] c@[i] == num::<F>(decoded(h.cat@, h.ber@, i)),
    {
        let zero: F = whole(0);
        let mut c: [F; 8] = [zero; 8];
        let mut i: usize = 0;
        while i < 8
            invariant
                i <= 8,
                total::<F>(),
                h.cat@.len() == 15,
                h.ber@.len() == 6,
                forall|j: int| 0 <= j < i ==> #[trigger] c@[j] == num::<F>(decoded(h.cat@, h.ber@, j)),
            decreases 8 - i,
        {
            if i < ELEMENT_CATEGORICALS {
                let a: usize = argmax(&slice_of(&h.cat, 3 * i, 3));
                c[i] = whole(a as i16 - 1);
            } else {
                let a: usize = argmax(&slice_of(&h.ber, 2 * (i - ELEMENT_CATEGORICALS), 2));
                c[i] = whole(a as i16);
            }
            i = i + 1;
        }
        c
    }
}

} // verus!
