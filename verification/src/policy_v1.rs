//! Shape of an entity policy and of its inputs.

use crate::layout::{
    checkable, first_fault, lemma_checkable_concat, linear_steps, norm_steps, push_linear, push_norm, push_step,
    is_spoken_of, run_steps, speaks_of, step, step_views, Fault, FaultView, Rule, Step, StepView,
};
use crate::state_dict::{
    collect_numbers, decimal, evenly_numbered, find, is_evenly_numbered, lookup, numbers_named,
    to_decimal, NamedArray, RawStateDict,
};
use vstd::prelude::*;
use vstd::string::StringExecFns;

verus! {

/// Features of an action row.
pub const ACT_FEAT: usize = 8;

/// Width of an action embedding.
pub const ACT_EMB: usize = 32;

/// Dimensions of an entity policy.
#[derive(Clone, Copy, Debug, PartialEq, Eq, Structural)]
pub struct EntityPolicy {
    pub d_model: usize,
    pub ent_feat: usize,
    pub q_feat: usize,
    pub prev_actions: usize,
    pub table_size: usize,
    pub layers: usize,
    pub heads: usize,
    pub head_dim: usize,
}

/// Why a state dict is no entity policy.
#[derive(Debug)]
pub enum EntityError {
    /// An array fails a requirement.
    Array(Fault),
    /// There are no transformer blocks.
    NoBlocks,
    /// The blocks are not numbered 0, 1, 2, ..
    BlockIndices,
    /// An array belongs to no layer.
    UnexpectedKey(String),
}

/// Why a state dict is no entity policy, with names as characters.
pub enum EntityErrorView {
    Array(FaultView),
    NoBlocks,
    BlockIndices,
    UnexpectedKey(Seq<char>),
}

impl View for EntityError {
    type V = EntityErrorView;

    open spec fn view(&self) -> EntityErrorView {
        match self {
            EntityError::Array(f) => EntityErrorView::Array(f@),
            EntityError::NoBlocks => EntityErrorView::NoBlocks,
            EntityError::BlockIndices => EntityErrorView::BlockIndices,
            EntityError::UnexpectedKey(name) => EntityErrorView::UnexpectedKey(name@),
        }
    }
}

/// What the arrays that give the dimensions must be.
pub open spec fn front_steps() -> Seq<StepView> {
    seq![
        step(Rule::Matrix, "embed"@, ".weight"@, 0, 0),
        step(Rule::Wide, "query_embed"@, ".weight"@, 0, 0),
        step(Rule::Vector, "prev_embed_w"@, ""@, 0, 0),
        step(Rule::Matrix, "action_table"@, ""@, 0, 0),
        step(Rule::Cols, "action_table"@, ""@, ACT_FEAT, 0),
    ]
}

/// An attention layer: the width divides into the heads, and its four
/// projections are linear layers.
pub open spec fn attention_steps(prefix: Seq<char>, d: usize, h: usize) -> Seq<StepView> {
    seq![step(Rule::Divides, prefix, ""@, d, h)] + linear_steps(prefix + ".q"@) + linear_steps(
        prefix + ".k"@,
    ) + linear_steps(prefix + ".v"@) + linear_steps(prefix + ".o"@)
}

/// A transformer block.
pub open spec fn block_steps(i: nat, d: usize, h: usize) -> Seq<StepView> {
    let p = "blocks."@ + decimal(i);
    norm_steps(p + ".ln1"@) + attention_steps(p + ".attn"@, d, h) + norm_steps(p + ".ln2"@)
        + linear_steps(p + ".ff1"@) + linear_steps(p + ".ff2"@)
}

/// The first `n` transformer blocks.
pub open spec fn blocks_steps(n: int, d: usize, h: usize) -> Seq<StepView>
    decreases n,
{
    if n <= 0 {
        Seq::empty()
    } else {
        blocks_steps(n - 1, d, h) + block_steps((n - 1) as nat, d, h)
    }
}

/// The layers around the blocks.
pub open spec fn rest_steps(d: usize, h: usize) -> Seq<StepView> {
    linear_steps("embed"@) + linear_steps("query_embed"@) + linear_steps("act_embed.0"@)
        + linear_steps("act_embed.2"@) + seq![step(Rule::Tensor, "prev_embed_w"@, ""@, 0, 0)]
        + linear_steps("prev_proj"@) + norm_steps("pool_ln"@) + attention_steps("pool"@, d, h)
        + linear_steps("policy_dot"@) + linear_steps("value_head"@) + seq![
        step(Rule::Tensor, "action_table"@, ""@, 0, 0),
        step(Rule::Rows, "act_embed.2"@, ".weight"@, ACT_EMB, 0),
        step(Rule::Rows, "policy_dot"@, ".weight"@, ACT_EMB, 0),
    ]
}

/// Shape of the array named `name`.
pub open spec fn shape_of<F>(dict: Seq<NamedArray<F>>, name: Seq<char>) -> Seq<usize> {
    lookup(dict, name)->0.shape@
}

/// What the arrays of the first `n` blocks and of the layers around them must be.
pub open spec fn layer_steps(n: int, d: usize, h: usize) -> Seq<StepView> {
    blocks_steps(n, d, h) + rest_steps(d, h)
}

/// Whether an array of that name may be there: one of a layer, or the record of
/// the dimensions.
pub open spec fn expected_name(steps: Seq<StepView>, name: Seq<char>) -> bool {
    speaks_of(steps, name) || name == "dims"@
}

/// The first array from `from` on that belongs to no layer.
pub open spec fn stray_array<F>(
    dict: Seq<NamedArray<F>>,
    steps: Seq<StepView>,
    from: int,
) -> Option<int>
    decreases dict.len() - from,
{
    if from < 0 || from >= dict.len() {
        None
    } else if !expected_name(steps, dict[from].name@) {
        Some(from)
    } else {
        stray_array(dict, steps, from + 1)
    }
}

/// The entity policy that a state dict gives, or why it gives none.
pub open spec fn entity_in<F>(dict: Seq<NamedArray<F>>, heads: usize) -> Result<
    EntityPolicy,
    EntityErrorView,
> {
    let ids = numbers_named(dict, "blocks."@, ".ln1.weight"@, dict.len() as int);
    let embed = shape_of(dict, "embed"@ + ".weight"@);
    let d = embed[0];
    if let Some(f) = first_fault(dict, front_steps(), 0) {
        Err(EntityErrorView::Array(f))
    } else if ids.len() == 0 {
        Err(EntityErrorView::NoBlocks)
    } else if !evenly_numbered(ids, 1) {
        Err(EntityErrorView::BlockIndices)
    } else if let Some(f) = first_fault(dict, layer_steps(ids.len() as int, d, heads), 0) {
        Err(EntityErrorView::Array(f))
    } else if let Some(i) = stray_array(dict, layer_steps(ids.len() as int, d, heads), 0) {
        Err(EntityErrorView::UnexpectedKey(dict[i].name@))
    } else {
        Ok(
            EntityPolicy {
                d_model: d,
                ent_feat: embed[1],
                q_feat: shape_of(dict, "query_embed"@ + ".weight"@)[1],
                prev_actions: shape_of(dict, "prev_embed_w"@ + ""@)[0],
                table_size: shape_of(dict, "action_table"@ + ""@)[0],
                layers: ids.len() as usize,
                heads,
                head_dim: (d / heads) as usize,
            },
        )
    }
}

/// A result whose error is given by what it holds.
pub open spec fn entity_outcome(r: Result<EntityPolicy, EntityError>) -> Result<
    EntityPolicy,
    EntityErrorView,
> {
    match r {
        Ok(p) => Ok(p),
        Err(e) => Err(e@),
    }
}

fn front() -> (steps: Vec<Step>)
    ensures
        step_views(steps@) == front_steps(),
{
    let mut steps: Vec<Step> = Vec::new();
    assert(step_views(steps@) =~= Seq::empty());
    push_step(&mut steps, Rule::Matrix, "embed", ".weight", 0, 0);
    push_step(&mut steps, Rule::Wide, "query_embed", ".weight", 0, 0);
    push_step(&mut steps, Rule::Vector, "prev_embed_w", "", 0, 0);
    push_step(&mut steps, Rule::Matrix, "action_table", "", 0, 0);
    push_step(&mut steps, Rule::Cols, "action_table", "", ACT_FEAT, 0);
    assert(step_views(steps@) =~= front_steps());
    steps
}

/// `prefix` followed by `suffix`.
fn joined(prefix: &str, suffix: &str) -> (s: String)
    ensures
        s@ == prefix@ + suffix@,
{
    let mut s: String = String::from_str(prefix);
    s.append(suffix);
    s
}

fn push_attention(steps: &mut Vec<Step>, prefix: &str, d: usize, h: usize)
    ensures
        step_views(final(steps)@) == step_views(old(steps)@) + attention_steps(prefix@, d, h),
{
    let ghost before = step_views(steps@);
    push_step(steps, Rule::Divides, prefix, "", d, h);
    push_linear(steps, joined(prefix, ".q").as_str());
    push_linear(steps, joined(prefix, ".k").as_str());
    push_linear(steps, joined(prefix, ".v").as_str());
    push_linear(steps, joined(prefix, ".o").as_str());
    assert(step_views(steps@) =~= before + attention_steps(prefix@, d, h));
}

fn push_block(steps: &mut Vec<Step>, i: usize, d: usize, h: usize)
    ensures
        step_views(final(steps)@) == step_views(old(steps)@) + block_steps(i as nat, d, h),
{
    let ghost before = step_views(steps@);
    let p: String = joined("blocks.", to_decimal(i).as_str());
    push_norm(steps, joined(p.as_str(), ".ln1").as_str());
    push_attention(steps, joined(p.as_str(), ".attn").as_str(), d, h);
    push_norm(steps, joined(p.as_str(), ".ln2").as_str());
    push_linear(steps, joined(p.as_str(), ".ff1").as_str());
    push_linear(steps, joined(p.as_str(), ".ff2").as_str());
    assert(step_views(steps@) =~= before + block_steps(i as nat, d, h));
}

fn push_rest(steps: &mut Vec<Step>, d: usize, h: usize)
    ensures
        step_views(final(steps)@) == step_views(old(steps)@) + rest_steps(d, h),
{
    let ghost before = step_views(steps@);
    push_linear(steps, "embed");
    push_linear(steps, "query_embed");
    push_linear(steps, "act_embed.0");
    push_linear(steps, "act_embed.2");
    push_step(steps, Rule::Tensor, "prev_embed_w", "", 0, 0);
    push_linear(steps, "prev_proj");
    push_norm(steps, "pool_ln");
    push_attention(steps, "pool", d, h);
    push_linear(steps, "policy_dot");
    push_linear(steps, "value_head");
    push_step(steps, Rule::Tensor, "action_table", "", 0, 0);
    push_step(steps, Rule::Rows, "act_embed.2", ".weight", ACT_EMB, 0);
    push_step(steps, Rule::Rows, "policy_dot", ".weight", ACT_EMB, 0);
    assert(step_views(steps@) =~= before + rest_steps(d, h));
}

proof fn lemma_attention_checkable(prefix: Seq<char>, d: usize, h: usize)
    requires
        h > 0,
    ensures
        checkable(attention_steps(prefix, d, h)),
{
}

proof fn lemma_blocks_checkable(n: int, d: usize, h: usize)
    requires
        h > 0,
    ensures
        checkable(blocks_steps(n, d, h)),
    decreases n,
{
    if n > 0 {
        lemma_blocks_checkable(n - 1, d, h);
        let p = "blocks."@ + decimal((n - 1) as nat);
        lemma_attention_checkable(p + ".attn"@, d, h);
        lemma_checkable_concat(norm_steps(p + ".ln1"@), attention_steps(p + ".attn"@, d, h));
        let a = norm_steps(p + ".ln1"@) + attention_steps(p + ".attn"@, d, h);
        lemma_checkable_concat(a, norm_steps(p + ".ln2"@));
        lemma_checkable_concat(a + norm_steps(p + ".ln2"@), linear_steps(p + ".ff1"@));
        lemma_checkable_concat(
            a + norm_steps(p + ".ln2"@) + linear_steps(p + ".ff1"@),
            linear_steps(p + ".ff2"@),
        );
        lemma_checkable_concat(blocks_steps(n - 1, d, h), block_steps((n - 1) as nat, d, h));
    }
}

proof fn lemma_rest_checkable(d: usize, h: usize)
    requires
        h > 0,
    ensures
        checkable(rest_steps(d, h)),
{
    let a = linear_steps("embed"@) + linear_steps("query_embed"@) + linear_steps("act_embed.0"@)
        + linear_steps("act_embed.2"@) + seq![step(Rule::Tensor, "prev_embed_w"@, ""@, 0, 0)]
        + linear_steps("prev_proj"@) + norm_steps("pool_ln"@);
    assert(checkable(a));
    lemma_attention_checkable("pool"@, d, h);
    lemma_checkable_concat(a, attention_steps("pool"@, d, h));
    let b = linear_steps("policy_dot"@) + linear_steps("value_head"@) + seq![
        step(Rule::Tensor, "action_table"@, ""@, 0, 0),
        step(Rule::Rows, "act_embed.2"@, ".weight"@, ACT_EMB, 0),
        step(Rule::Rows, "policy_dot"@, ".weight"@, ACT_EMB, 0),
    ];
    assert(checkable(b));
    lemma_checkable_concat(a + attention_steps("pool"@, d, h), b);
    assert(rest_steps(d, h) =~= a + attention_steps("pool"@, d, h) + b);
}

/// The array that a satisfied requirement speaks of.
fn required<'a, F>(dict: &'a RawStateDict<F>, prefix: &str, suffix: &str) -> (a: &'a NamedArray<F>)
    requires
        lookup(dict@, prefix@ + suffix@) is Some,
    ensures
        *a == lookup(dict@, prefix@ + suffix@)->0,
{
    match find(dict, &joined(prefix, suffix)) {
        Some(i) => &dict[i],
        None => &dict[0],
    }
}

fn find_stray_array<F>(dict: &RawStateDict<F>, steps: &Vec<Step>) -> (r: Option<usize>)
    ensures
        match r {
            Some(i) => i < dict@.len() && stray_array(dict@, step_views(steps@), 0) == Some(
                i as int,
            ),
            None => stray_array(dict@, step_views(steps@), 0) is None,
        },
{
    let dims: String = String::from_str("dims");
    let mut i: usize = 0;
    while i < dict.len()
        invariant
            i <= dict@.len(),
            dims@ == "dims"@,
            stray_array(dict@, step_views(steps@), 0) == stray_array(
                dict@,
                step_views(steps@),
                i as int,
            ),
        decreases dict.len() - i,
    {
        if !is_spoken_of(steps, &dict[i].name) && dict[i].name != dims {
            return Some(i);
        }
        i = i + 1;
    }
    None
}

impl EntityPolicy {
    /// Reads the dimensions of an entity policy off a state dict and checks that
    /// all its layers are there and nothing else is. The number of heads cannot be
    /// read off.
    pub fn new<F>(weights: &RawStateDict<F>, heads: usize) -> (r: Result<
        EntityPolicy,
        EntityError,
    >)
        requires
            heads > 0,
        ensures
            entity_outcome(r) == entity_in(weights@, heads),
    {
        let steps: Vec<Step> = front();
        if let Err(f) = run_steps(weights, &steps) {
            return Err(EntityError::Array(f));
        }
        proof {
            lemma_front_passes(weights@);
        }
        let embed = required(weights, "embed", ".weight");
        let d_model: usize = embed.shape[0];
        let ent_feat: usize = embed.shape[1];
        let q_feat: usize = required(weights, "query_embed", ".weight").shape[1];
        let prev_actions: usize = required(weights, "prev_embed_w", "").shape[0];
        let table_size: usize = required(weights, "action_table", "").shape[0];
        let ids: Vec<usize> = collect_numbers(weights, "blocks.", ".ln1.weight");
        if ids.len() == 0 {
            return Err(EntityError::NoBlocks);
        }
        if !is_evenly_numbered(&ids, 1) {
            return Err(EntityError::BlockIndices);
        }
        let mut build: Vec<Step> = Vec::new();
        let mut i: usize = 0;
        assert(step_views(build@) =~= Seq::empty());
        while i < ids.len()
            invariant
                i <= ids@.len(),
                step_views(build@) == blocks_steps(i as int, d_model, heads),
            decreases ids.len() - i,
        {
            push_block(&mut build, i, d_model, heads);
            i = i + 1;
        }
        push_rest(&mut build, d_model, heads);
        proof {
            lemma_blocks_checkable(ids@.len() as int, d_model, heads);
            lemma_rest_checkable(d_model, heads);
            lemma_checkable_concat(
                blocks_steps(ids@.len() as int, d_model, heads),
                rest_steps(d_model, heads),
            );
        }
        if let Err(f) = run_steps(weights, &build) {
            return Err(EntityError::Array(f));
        }
        if let Some(at) = find_stray_array(weights, &build) {
            return Err(EntityError::UnexpectedKey(weights[at].name.clone()));
        }
        Ok(
            EntityPolicy {
                d_model,
                ent_feat,
                q_feat,
                prev_actions,
                table_size,
                layers: ids.len(),
                heads,
                head_dim: d_model / heads,
            },
        )
    }

    /// Rows of the action table that the policy chooses from.
    pub fn table_size(&self) -> (n: usize)
        ensures
            n == self.table_size,
    {
        self.table_size
    }
}

proof fn lemma_front_passes<F>(dict: Seq<NamedArray<F>>)
    requires
        first_fault(dict, front_steps(), 0) is None,
    ensures
        lookup(dict, "embed"@ + ".weight"@) is Some,
        lookup(dict, "query_embed"@ + ".weight"@) is Some,
        lookup(dict, "prev_embed_w"@ + ""@) is Some,
        lookup(dict, "action_table"@ + ""@) is Some,
        shape_of(dict, "embed"@ + ".weight"@).len() == 2,
        shape_of(dict, "query_embed"@ + ".weight"@).len() >= 2,
        shape_of(dict, "prev_embed_w"@ + ""@).len() == 1,
        shape_of(dict, "action_table"@ + ""@).len() == 2,
{
    reveal_with_fuel(first_fault, 6);
    let s = front_steps();
    assert(s[0] == step(Rule::Matrix, "embed"@, ".weight"@, 0, 0));
    assert(s[1] == step(Rule::Wide, "query_embed"@, ".weight"@, 0, 0));
    assert(s[2] == step(Rule::Vector, "prev_embed_w"@, ""@, 0, 0));
    assert(s[3] == step(Rule::Matrix, "action_table"@, ""@, 0, 0));
}

proof fn lemma_no_stray<F>(dict: Seq<NamedArray<F>>, steps: Seq<StepView>, from: int, i: int)
    requires
        0 <= from <= i < dict.len(),
        stray_array(dict, steps, from) is None,
    ensures
        expected_name(steps, dict[i].name@),
    decreases i - from,
{
    if from < i {
        lemma_no_stray(dict, steps, from + 1, i);
    }
}

/// No array of an accepted state dict is passed over: each belongs to a layer of
/// the policy or records its dimensions.
pub proof fn law_no_array_is_ignored<F>(dict: Seq<NamedArray<F>>, heads: usize, i: int)
    requires
        entity_in(dict, heads) is Ok,
        0 <= i < dict.len() <= usize::MAX,
    ensures
        ({
            let p = entity_in(dict, heads)->Ok_0;
            expected_name(layer_steps(p.layers as int, p.d_model, heads), dict[i].name@)
        }),
{
    let ids = numbers_named(dict, "blocks."@, ".ln1.weight"@, dict.len() as int);
    let d = shape_of(dict, "embed"@ + ".weight"@)[0];
    lemma_fewer_numbers(dict, "blocks."@, ".ln1.weight"@, dict.len() as int);
    lemma_no_stray(dict, layer_steps(ids.len() as int, d, heads), 0, i);
}

proof fn lemma_fewer_numbers<F>(
    dict: Seq<NamedArray<F>>,
    prefix: Seq<char>,
    suffix: Seq<char>,
    n: int,
)
    requires
        0 <= n,
    ensures
        numbers_named(dict, prefix, suffix, n).len() <= n,
    decreases n,
{
    if n > 0 {
        lemma_fewer_numbers(dict, prefix, suffix, n - 1);
    }
}

/// Whether a name is that of an auxiliary head: it begins with `aux_`.
pub open spec fn auxiliary(name: Seq<char>) -> bool {
    name.len() >= 4 && name.take(4) == "aux_"@
}

/// Two letters or more, the first two not `au`.
spec fn begins_otherwise(name: Seq<char>) -> bool {
    name.len() >= 2 && !(name[0] == 'a' && name[1] == 'u')
}

/// Requirements whose arrays' names all begin otherwise.
spec fn all_begin_otherwise(steps: Seq<StepView>) -> bool {
    forall|i: int| 0 <= i < steps.len() ==> begins_otherwise((#[trigger] steps[i]).key)
}

proof fn lemma_begin_concat(s: Seq<StepView>, t: Seq<StepView>)
    requires
        all_begin_otherwise(s),
        all_begin_otherwise(t),
    ensures
        all_begin_otherwise(s + t),
{
    assert forall|i: int| 0 <= i < (s + t).len() implies begins_otherwise(
        (#[trigger] (s + t)[i]).key,
    ) by {
        if i < s.len() {
            assert((s + t)[i] == s[i]);
        } else {
            assert((s + t)[i] == t[i - s.len()]);
        }
    }
}

proof fn lemma_layer_begins(prefix: Seq<char>)
    requires
        begins_otherwise(prefix),
    ensures
        all_begin_otherwise(linear_steps(prefix)),
        all_begin_otherwise(norm_steps(prefix)),
{
}

proof fn lemma_attention_begins(p: Seq<char>, d: usize, h: usize)
    requires
        begins_otherwise(p),
    ensures
        all_begin_otherwise(attention_steps(p, d, h)),
{
    lemma_layer_begins(p + ".q"@);
    lemma_layer_begins(p + ".k"@);
    lemma_layer_begins(p + ".v"@);
    lemma_layer_begins(p + ".o"@);
    let a = seq![step(Rule::Divides, p, ""@, d, h)];
    lemma_begin_concat(a, linear_steps(p + ".q"@));
    lemma_begin_concat(a + linear_steps(p + ".q"@), linear_steps(p + ".k"@));
    lemma_begin_concat(
        a + linear_steps(p + ".q"@) + linear_steps(p + ".k"@),
        linear_steps(p + ".v"@),
    );
    lemma_begin_concat(
        a + linear_steps(p + ".q"@) + linear_steps(p + ".k"@) + linear_steps(p + ".v"@),
        linear_steps(p + ".o"@),
    );
}

proof fn lemma_blocks_begin(n: int, d: usize, h: usize)
    ensures
        all_begin_otherwise(blocks_steps(n, d, h)),
    decreases n,
{
    if n > 0 {
        lemma_blocks_begin(n - 1, d, h);
        reveal_strlit("blocks.");
        let p = "blocks."@ + decimal((n - 1) as nat);
        lemma_layer_begins(p + ".ln1"@);
        lemma_attention_begins(p + ".attn"@, d, h);
        lemma_layer_begins(p + ".ln2"@);
        lemma_layer_begins(p + ".ff1"@);
        lemma_layer_begins(p + ".ff2"@);
        let a = norm_steps(p + ".ln1"@) + attention_steps(p + ".attn"@, d, h);
        lemma_begin_concat(norm_steps(p + ".ln1"@), attention_steps(p + ".attn"@, d, h));
        lemma_begin_concat(a, norm_steps(p + ".ln2"@));
        lemma_begin_concat(a + norm_steps(p + ".ln2"@), linear_steps(p + ".ff1"@));
        lemma_begin_concat(
            a + norm_steps(p + ".ln2"@) + linear_steps(p + ".ff1"@),
            linear_steps(p + ".ff2"@),
        );
        lemma_begin_concat(blocks_steps(n - 1, d, h), block_steps((n - 1) as nat, d, h));
    }
}

proof fn lemma_rest_begins(d: usize, h: usize)
    ensures
        all_begin_otherwise(rest_steps(d, h)),
{
    reveal_strlit("embed");
    reveal_strlit("query_embed");
    reveal_strlit("act_embed.0");
    reveal_strlit("act_embed.2");
    reveal_strlit("prev_embed_w");
    reveal_strlit("prev_proj");
    reveal_strlit("pool_ln");
    reveal_strlit("pool");
    reveal_strlit("policy_dot");
    reveal_strlit("value_head");
    reveal_strlit("action_table");
    lemma_layer_begins("embed"@);
    lemma_layer_begins("query_embed"@);
    lemma_layer_begins("act_embed.0"@);
    lemma_layer_begins("act_embed.2"@);
    lemma_layer_begins("prev_proj"@);
    lemma_layer_begins("pool_ln"@);
    lemma_attention_begins("pool"@, d, h);
    lemma_layer_begins("policy_dot"@);
    lemma_layer_begins("value_head"@);
    let a = linear_steps("embed"@) + linear_steps("query_embed"@);
    lemma_begin_concat(linear_steps("embed"@), linear_steps("query_embed"@));
    let b = a + linear_steps("act_embed.0"@) + linear_steps("act_embed.2"@);
    lemma_begin_concat(a, linear_steps("act_embed.0"@));
    lemma_begin_concat(a + linear_steps("act_embed.0"@), linear_steps("act_embed.2"@));
    let w = seq![step(Rule::Tensor, "prev_embed_w"@, ""@, 0, 0)];
    assert(all_begin_otherwise(w));
    let c = b + w + linear_steps("prev_proj"@);
    lemma_begin_concat(b, w);
    lemma_begin_concat(b + w, linear_steps("prev_proj"@));
    let e = c + norm_steps("pool_ln"@) + attention_steps("pool"@, d, h);
    lemma_begin_concat(c, norm_steps("pool_ln"@));
    lemma_begin_concat(c + norm_steps("pool_ln"@), attention_steps("pool"@, d, h));
    let g = e + linear_steps("policy_dot"@) + linear_steps("value_head"@);
    lemma_begin_concat(e, linear_steps("policy_dot"@));
    lemma_begin_concat(e + linear_steps("policy_dot"@), linear_steps("value_head"@));
    let t = seq![
        step(Rule::Tensor, "action_table"@, ""@, 0, 0),
        step(Rule::Rows, "act_embed.2"@, ".weight"@, ACT_EMB, 0),
        step(Rule::Rows, "policy_dot"@, ".weight"@, ACT_EMB, 0),
    ];
    assert(all_begin_otherwise(t));
    lemma_begin_concat(g, t);
}

/// A state dict with the weights of an auxiliary head is refused, whatever else
/// it holds.
pub proof fn law_auxiliary_heads_are_refused<F>(dict: Seq<NamedArray<F>>, heads: usize, i: int)
    requires
        0 <= i < dict.len() <= usize::MAX,
        auxiliary(dict[i].name@),
    ensures
        entity_in(dict, heads) is Err,
{
    if entity_in(dict, heads) is Ok {
        law_no_array_is_ignored(dict, heads, i);
        let p = entity_in(dict, heads)->Ok_0;
        let steps = layer_steps(p.layers as int, p.d_model, heads);
        lemma_blocks_begin(p.layers as int, p.d_model, heads);
        lemma_rest_begins(p.d_model, heads);
        lemma_begin_concat(
            blocks_steps(p.layers as int, p.d_model, heads),
            rest_steps(p.d_model, heads),
        );
        reveal_strlit("aux_");
        reveal_strlit("dims");
        let name = dict[i].name@;
        assert(name.take(4)[0] == 'a' && name.take(4)[1] == 'u');
        assert(!begins_otherwise(name));
    }
}

/// Which input of a batch has the wrong length.
#[derive(Clone, Copy, Debug, PartialEq, Eq, Structural)]
pub enum BatchError {
    Ents,
    Mask,
    Query,
    Prev,
}

/// Lengths of the inputs of a batch.
#[derive(Clone, Copy, Debug, PartialEq, Eq, Structural)]
pub struct BatchLens {
    pub ents: usize,
    pub mask: usize,
    pub query: usize,
    pub prev: usize,
}

/// Entity slots per row of a batch of `b` rows.
pub open spec fn slots_per_row(mask: usize, b: usize) -> int {
    mask as int / (if b > 1 {
        b as int
    } else {
        1
    })
}

/// Whether `a * b * c` is `n`.
fn product_is(a: usize, b: usize, c: usize, n: usize) -> (r: bool)
    ensures
        r == (a * b * c == n),
{
    if a == 0 || b == 0 || c == 0 {
        assert(a * b * c == 0) by (nonlinear_arith)
            requires
                a == 0 || b == 0 || c == 0,
        ;
        return n == 0;
    }
    match a.checked_mul(b) {
        None => {
            assert(a * b * c >= a * b) by (nonlinear_arith)
                requires
                    a >= 1,
                    b >= 1,
                    c >= 1,
            ;
            false
        },
        Some(ab) => match ab.checked_mul(c) {
            None => false,
            Some(abc) => abc == n,
        },
    }
}

impl EntityPolicy {
    /// What the lengths of the inputs of a batch of `b` rows are judged to be.
    pub open spec fn batch_judged(self, lens: BatchLens, b: usize) -> Result<usize, BatchError> {
        let slots = slots_per_row(lens.mask, b);
        if lens.ents != b * slots * self.ent_feat {
            Err(BatchError::Ents)
        } else if lens.mask != b * slots {
            Err(BatchError::Mask)
        } else if lens.query != b * self.q_feat {
            Err(BatchError::Query)
        } else if lens.prev != b * self.prev_actions {
            Err(BatchError::Prev)
        } else {
            Ok(slots as usize)
        }
    }

    /// Checks the lengths of the inputs of a batch of `b` rows and returns the
    /// number of entity slots per row, which the mask gives.
    pub fn check_batch(&self, lens: BatchLens, b: usize) -> (r: Result<usize, BatchError>)
        ensures
            r == self.batch_judged(lens, b),
            r == ({
                let slots = slots_per_row(lens.mask, b);
                if lens.ents != b * slots * self.ent_feat {
                    Err(BatchError::Ents)
                } else if lens.mask != b * slots {
                    Err(BatchError::Mask)
                } else if lens.query != b * self.q_feat {
                    Err(BatchError::Query)
                } else if lens.prev != b * self.prev_actions {
                    Err(BatchError::Prev)
                } else {
                    Ok::<usize, BatchError>(slots as usize)
                }
            }),
    {
        let per: usize = if b > 1 {
            b
        } else {
            1
        };
        let max_ent: usize = lens.mask / per;
        if !product_is(b, max_ent, self.ent_feat, lens.ents) {
            return Err(BatchError::Ents);
        }
        if !product_is(b, max_ent, 1, lens.mask) {
            return Err(BatchError::Mask);
        }
        if !product_is(b, self.q_feat, 1, lens.query) {
            return Err(BatchError::Query);
        }
        if !product_is(b, self.prev_actions, 1, lens.prev) {
            return Err(BatchError::Prev);
        }
        Ok(max_ent)
    }
}

/// The mask tells how many entities a row has: as many as fit into it evenly.
pub proof fn law_mask_tells_the_slots(mask: usize, b: usize)
    ensures
        b > 0 ==> b * slots_per_row(mask, b) <= mask < b * (slots_per_row(mask, b) + 1),
        b == 0 ==> slots_per_row(mask, b) == mask,
{
    let per = if b > 1 {
        b as int
    } else {
        1
    };
    let slots = slots_per_row(mask, b);
    vstd::arithmetic::div_mod::lemma_fundamental_div_mod(mask as int, per);
    vstd::arithmetic::mul::lemma_mul_is_distributive_add(per, slots, 1);
}

/// Batches that pass are `b` rows of everything: as many entities in every row, each of
/// the numbers that the policy reads of one, a query and recent actions.
pub proof fn law_batches_that_pass(p: EntityPolicy, lens: BatchLens, b: usize, slots: usize)
    requires
        b > 0,
    ensures
        p.batch_judged(lens, b) == Ok::<usize, BatchError>(slots) <==> lens.mask == b * slots
            && lens.ents == b * slots * p.ent_feat && lens.query == b * p.q_feat && lens.prev == b
            * p.prev_actions,
{
    let n = slots_per_row(lens.mask, b);
    law_mask_tells_the_slots(lens.mask, b);
    if lens.mask == b * slots {
        assert(n == slots) by (nonlinear_arith)
            requires
                b > 0,
                lens.mask == b * slots,
                b * n <= lens.mask < b * (n + 1),
        ;
    }
    assert(n <= lens.mask) by (nonlinear_arith)
        requires
            b > 0,
            b * n <= lens.mask,
            0 <= lens.mask,
    ;
    assert(n >= 0) by (nonlinear_arith)
        requires
            b > 0,
            lens.mask < b * (n + 1),
            0 <= lens.mask,
    ;
}

} // verus!
