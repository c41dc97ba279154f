//! The attention network that two of the bots share.

use crate::layout::{
    added_cols, checkable, first_fault, lemma_checkable_concat, norm_steps, push_norm, push_step, run_steps,
    step, step_views, Fault, Rule, Step, StepView,
};
use crate::state_dict::{
    decimal, find, lemma_decimal_injective, lemma_names_bounded, lookup, to_decimal, NamedArray,
    RawStateDict,
};
use vstd::prelude::*;
use vstd::string::StringExecFns;

verus! {

/// Width of the network.
pub const NEXTO_D_MODEL: usize = 128;

/// Attention heads.
pub const NEXTO_HEADS: usize = 4;

/// Actions that the network scores.
pub const NEXTO_ACTIONS: usize = 90;

/// The attention network.
#[derive(Clone, Copy, Debug, PartialEq, Eq, Structural)]
pub struct NextoNet {
    /// Number of attention blocks.
    pub blocks: usize,
}

/// Why a state dict is no such network.
#[derive(Debug)]
pub enum NextoError {
    /// There is no attention block.
    NoBlocks,
    /// An array fails a requirement.
    Array(Fault),
}

/// Name of block `i`.
pub open spec fn block_prefix(i: nat) -> Seq<char> {
    "net.earl.blocks."@ + decimal(i)
}

/// Whether block `i` is there.
pub open spec fn has_block<F>(dict: Seq<NamedArray<F>>, i: nat) -> bool {
    lookup(dict, block_prefix(i) + ".linear1.weight"@) is Some
}

/// The blocks are those numbered from 0 up to the first that is missing.
pub open spec fn block_count<F>(dict: Seq<NamedArray<F>>, n: int) -> bool {
    &&& 0 <= n
    &&& forall|i: nat| i < n ==> #[trigger] has_block(dict, i)
    &&& !has_block(dict, n as nat)
}

/// The packed projection of a block, as tall as three projections.
pub open spec fn packed_steps(prefix: Seq<char>) -> Seq<StepView> {
    seq![
        step(Rule::Tensor, prefix, ".attention.in_proj_weight"@, 0, 0),
        step(Rule::Tensor, prefix, ".attention.in_proj_bias"@, 0, 0),
        step(Rule::Tall, prefix, ".attention.in_proj_weight"@, 128, 0),
        step(Rule::Tall, prefix, ".attention.in_proj_bias"@, 128, 0),
        step(Rule::Tall, prefix, ".attention.in_proj_weight"@, 256, 0),
        step(Rule::Tall, prefix, ".attention.in_proj_bias"@, 256, 0),
        step(Rule::Tall, prefix, ".attention.in_proj_weight"@, 384, 0),
        step(Rule::Tall, prefix, ".attention.in_proj_bias"@, 384, 0),
    ]
}

/// What the arrays of a block must be.
pub open spec fn nexto_block(prefix: Seq<char>) -> Seq<StepView> {
    packed_steps(prefix) + norm_steps(prefix + ".attention.out_proj"@) + norm_steps(
        prefix + ".norm1"@,
    ) + norm_steps(prefix + ".norm2"@) + norm_steps(prefix + ".norm3"@) + norm_steps(
        prefix + ".linear1"@,
    ) + norm_steps(prefix + ".linear2"@)
}

/// What the arrays of the first `n` blocks must be.
pub open spec fn nexto_blocks(n: int) -> Seq<StepView>
    decreases n,
{
    if n <= 0 {
        Seq::empty()
    } else {
        nexto_blocks(n - 1) + nexto_block(block_prefix((n - 1) as nat))
    }
}

/// First dimension of the array named `name`, 0 where there is none.
pub open spec fn rows_of<F>(dict: Seq<NamedArray<F>>, name: Seq<char>) -> usize {
    match lookup(dict, name) {
        Some(a) => if a.shape@.len() >= 1 {
            a.shape@[0]
        } else {
            0
        },
        None => 0,
    }
}

/// How many numbers a layer gives for each row.
pub open spec fn width_after<F>(dict: Seq<NamedArray<F>>, prefix: Seq<char>) -> usize {
    let cols = rows_of(dict, prefix + ".weight"@);
    match lookup(dict, prefix + ".bias"@) {
        Some(a) => added_cols(a.shape@, cols),
        None => cols,
    }
}

/// A layer that takes the action table's rows, `width` numbers each.
pub open spec fn row_layer<F>(
    dict: Seq<NamedArray<F>>,
    prefix: Seq<char>,
    width: usize,
) -> Seq<StepView> {
    norm_steps(prefix) + seq![
        step(Rule::Matrix, prefix, ".weight"@, 0, 0),
        step(Rule::Cols, prefix, ".weight"@, width, 0),
        step(
            Rule::Bias,
            prefix,
            ".bias"@,
            rows_of(dict, prefix + ".weight"@),
            NEXTO_ACTIONS,
        ),
    ]
}

/// The three layers that embed the rows of the action table, eight numbers each.
/// Each takes what the one before gives.
pub open spec fn table_layers<F>(dict: Seq<NamedArray<F>>) -> Seq<StepView> {
    row_layer(dict, "net.output.net.0"@, 8) + row_layer(
        dict,
        "net.output.net.2"@,
        width_after(dict, "net.output.net.0"@),
    ) + row_layer(dict, "net.output.net.4"@, width_after(dict, "net.output.net.2"@))
}

/// What the arrays around the blocks must be.
pub open spec fn nexto_rest<F>(dict: Seq<NamedArray<F>>) -> Seq<StepView> {
    table_layers(dict) + norm_steps("net.earl.query_preprocess.0"@) + norm_steps("net.earl.query_preprocess.2"@)
        + norm_steps("net.earl.key_value_preprocess.0"@) + norm_steps(
        "net.earl.key_value_preprocess.2"@,
    ) + norm_steps("net.output.emb_convertor"@)
}

fn joined(prefix: &str, suffix: &str) -> (s: String)
    ensures
        s@ == prefix@ + suffix@,
{
    let mut s: String = String::from_str(prefix);
    s.append(suffix);
    s
}

fn make_prefix(i: usize) -> (s: String)
    ensures
        s@ == block_prefix(i as nat),
{
    joined("net.earl.blocks.", to_decimal(i).as_str())
}

fn push_block(steps: &mut Vec<Step>, p: &str)
    ensures
        step_views(final(steps)@) == step_views(old(steps)@) + nexto_block(p@),
{
    let ghost before = step_views(steps@);
    push_step(steps, Rule::Tensor, p, ".attention.in_proj_weight", 0, 0);
    push_step(steps, Rule::Tensor, p, ".attention.in_proj_bias", 0, 0);
    push_step(steps, Rule::Tall, p, ".attention.in_proj_weight", 128, 0);
    push_step(steps, Rule::Tall, p, ".attention.in_proj_bias", 128, 0);
    push_step(steps, Rule::Tall, p, ".attention.in_proj_weight", 256, 0);
    push_step(steps, Rule::Tall, p, ".attention.in_proj_bias", 256, 0);
    push_step(steps, Rule::Tall, p, ".attention.in_proj_weight", 384, 0);
    push_step(steps, Rule::Tall, p, ".attention.in_proj_bias", 384, 0);
    assert(step_views(steps@) =~= before + packed_steps(p@));
    push_norm(steps, joined(p, ".attention.out_proj").as_str());
    push_norm(steps, joined(p, ".norm1").as_str());
    push_norm(steps, joined(p, ".norm2").as_str());
    push_norm(steps, joined(p, ".norm3").as_str());
    push_norm(steps, joined(p, ".linear1").as_str());
    push_norm(steps, joined(p, ".linear2").as_str());
    assert(step_views(steps@) =~= before + nexto_block(p@));
}

fn find_rows<F>(dict: &RawStateDict<F>, prefix: &str) -> (n: usize)
    ensures
        n == rows_of(dict@, prefix@ + ".weight"@),
{
    match find(dict, &joined(prefix, ".weight")) {
        Some(i) => if dict[i].shape.len() >= 1 {
            dict[i].shape[0]
        } else {
            0
        },
        None => 0,
    }
}

fn find_width<F>(dict: &RawStateDict<F>, prefix: &str) -> (n: usize)
    ensures
        n == width_after(dict@, prefix@),
{
    let cols: usize = find_rows(dict, prefix);
    match find(dict, &joined(prefix, ".bias")) {
        Some(i) => {
            let k: usize = dict[i].shape.len();
            if k >= 1 && cols == 1 {
                dict[i].shape[k - 1]
            } else {
                cols
            }
        },
        None => cols,
    }
}

fn push_row_layer<F>(steps: &mut Vec<Step>, dict: &RawStateDict<F>, prefix: &str, width: usize)
    ensures
        step_views(final(steps)@) == step_views(old(steps)@) + row_layer(dict@, prefix@, width),
{
    let ghost before = step_views(steps@);
    push_norm(steps, prefix);
    push_step(steps, Rule::Matrix, prefix, ".weight", 0, 0);
    push_step(steps, Rule::Cols, prefix, ".weight", width, 0);
    push_step(steps, Rule::Bias, prefix, ".bias", find_rows(dict, prefix), NEXTO_ACTIONS);
    assert(step_views(steps@) =~= before + row_layer(dict@, prefix@, width));
}

fn push_rest<F>(steps: &mut Vec<Step>, dict: &RawStateDict<F>)
    ensures
        step_views(final(steps)@) == step_views(old(steps)@) + nexto_rest(dict@),
{
    let ghost before = step_views(steps@);
    push_row_layer(steps, dict, "net.output.net.0", 8);
    push_row_layer(steps, dict, "net.output.net.2", find_width(dict, "net.output.net.0"));
    push_row_layer(steps, dict, "net.output.net.4", find_width(dict, "net.output.net.2"));
    push_norm(steps, "net.earl.query_preprocess.0");
    push_norm(steps, "net.earl.query_preprocess.2");
    push_norm(steps, "net.earl.key_value_preprocess.0");
    push_norm(steps, "net.earl.key_value_preprocess.2");
    push_norm(steps, "net.output.emb_convertor");
    assert(step_views(steps@) =~= before + nexto_rest(dict@));
}

proof fn lemma_blocks_checkable(n: int)
    ensures
        checkable(nexto_blocks(n)),
    decreases n,
{
    if n > 0 {
        lemma_blocks_checkable(n - 1);
        let p = block_prefix((n - 1) as nat);
        assert(checkable(nexto_block(p)));
        lemma_checkable_concat(nexto_blocks(n - 1), nexto_block(p));
    }
}

/// Names of the first layers of the first `n` blocks.
spec fn block_keys(n: nat) -> Seq<Seq<char>> {
    Seq::new(n, |i: int| block_prefix(i as nat) + ".linear1.weight"@)
}

proof fn lemma_blocks_bounded<F>(dict: Seq<NamedArray<F>>, n: nat)
    requires
        forall|i: nat| i < n ==> #[trigger] has_block(dict, i),
    ensures
        n <= dict.len(),
{
    let names = block_keys(n);
    assert forall|i: int| 0 <= i < names.len() implies lookup(dict, #[trigger] names[i]) is Some by {
        assert(has_block(dict, i as nat));
    }
    assert forall|i: int, j: int| 0 <= i < j < names.len() implies names[i] != names[j] by {
        if names[i] == names[j] {
            let p = "net.earl.blocks."@;
            let s = ".linear1.weight"@;
            let a = decimal(i as nat);
            let b = decimal(j as nat);
            assert(names[i] =~= p + a + s);
            assert(names[j] =~= p + b + s);
            assert(a.len() == b.len());
            assert((p + a + s).subrange(p.len() as int, (p.len() + a.len()) as int) =~= a);
            assert((p + b + s).subrange(p.len() as int, (p.len() + b.len()) as int) =~= b);
            lemma_decimal_injective(i as nat, j as nat);
        }
    }
    lemma_names_bounded(dict, names);
}

impl NextoNet {
    /// Counts the blocks of a state dict and checks that all layers are there and
    /// that the rows of the action table pass through the layers that embed them.
    pub fn new<F>(map: &RawStateDict<F>) -> (r: Result<NextoNet, NextoError>)
        requires
            map@.len() < usize::MAX,
        ensures
            exists|n: int| #[trigger]
                block_count(map@, n) && match r {
                    Ok(net) => net.blocks == n && n > 0 && first_fault(
                        map@,
                        nexto_blocks(n) + nexto_rest(map@),
                        0,
                    ) is None,
                    Err(NextoError::NoBlocks) => n == 0,
                    Err(NextoError::Array(e)) => n > 0 && first_fault(
                        map@,
                        nexto_blocks(n) + nexto_rest(map@),
                        0,
                    ) == Some(e@),
                },
    {
        let mut n: usize = 0;
        let mut more: bool = true;
        while more
            invariant
                forall|i: nat| i < n ==> #[trigger] has_block(map@, i),
                !more ==> !has_block(map@, n as nat),
                n <= map@.len(),
                map@.len() < usize::MAX,
            decreases map@.len() - n + (if more { 1int } else { 0 }),
        {
            let key: String = joined(make_prefix(n).as_str(), ".linear1.weight");
            match find(map, &key) {
                Some(_) => {
                    proof {
                        assert(has_block(map@, n as nat));
                        lemma_blocks_bounded(map@, (n + 1) as nat);
                    }
                    n = n + 1;
                },
                None => {
                    more = false;
                },
            }
        }
        assert(block_count(map@, n as int));
        if n == 0 {
            return Err(NextoError::NoBlocks);
        }
        let mut steps: Vec<Step> = Vec::new();
        assert(step_views(steps@) =~= Seq::empty());
        let mut i: usize = 0;
        while i < n
            invariant
                i <= n,
                step_views(steps@) == nexto_blocks(i as int),
            decreases n - i,
        {
            push_block(&mut steps, make_prefix(i).as_str());
            i = i + 1;
        }
        push_rest(&mut steps, map);
        proof {
            lemma_blocks_checkable(n as int);
            assert(checkable(nexto_rest(map@)));
            lemma_checkable_concat(nexto_blocks(n as int), nexto_rest(map@));
        }
        match run_steps(map, &steps) {
            Ok(_) => Ok(NextoNet { blocks: n }),
            Err(e) => Err(NextoError::Array(e)),
        }
    }
}

} // verus!
