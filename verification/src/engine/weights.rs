//! Reading a flat-observation policy out of a state dict.

use crate::actions::TABLE_SIZE;
use crate::obs::OBS_SIZE;
use crate::policy::{LayerName, LayerView, LayerWeights, PolicyView, PolicyWeights};
use crate::rows::append_range;
use crate::state_dict::{
    collect_numbers, decimal, evenly_numbered, find, has_multiple, is_evenly_numbered, lookup,
    numbers_named, to_decimal, NamedArray, RawStateDict,
};
use vstd::prelude::*;
use vstd::string::StringExecFns;

verus! {

/// Why a state dict is no flat-observation policy.
#[derive(Clone, Copy, Debug, PartialEq, Eq, Structural)]
pub enum StateDictError {
    NoTrunkLayers,
    /// Trunk layers are not numbered 0, 2, 4, ..
    TrunkIndices,
    MissingWeight(LayerName),
    MissingBias(LayerName),
    BadShapes(LayerName),
    /// The trunk layer at this position does not take what the one before gives.
    TrunkChain(usize),
    /// A head does not take what the trunk gives, or the value head gives not
    /// one value.
    HeadShapes,
    /// The trunk takes observations of this width.
    InputDim(usize),
    /// The policy head gives this many logits.
    OutputDim(usize),
    /// The array at this position belongs to no layer.
    UnexpectedKey(usize),
}

/// Name of a layer in a state dict.
pub open spec fn layer_prefix(layer: LayerName) -> Seq<char> {
    match layer {
        LayerName::Trunk(i) => "trunk."@ + decimal(i as nat),
        LayerName::PolicyHead => "policy_head"@,
        LayerName::ValueHead => "value_head"@,
    }
}

/// Name of a layer's weights.
pub open spec fn weight_key(layer: LayerName) -> Seq<char> {
    layer_prefix(layer) + ".weight"@
}

/// Name of a layer's biases.
pub open spec fn bias_key(layer: LayerName) -> Seq<char> {
    layer_prefix(layer) + ".bias"@
}

/// A layer as a state dict gives it.
pub open spec fn layer_in<F>(dict: Seq<NamedArray<F>>, layer: LayerName) -> Result<
    LayerView<F>,
    StateDictError,
> {
    match lookup(dict, weight_key(layer)) {
        None => Err(StateDictError::MissingWeight(layer)),
        Some(w) => match lookup(dict, bias_key(layer)) {
            None => Err(StateDictError::MissingBias(layer)),
            Some(b) => if w.shape@.len() != 2 || b.shape@.len() != 1 || b.shape@[0] != w.shape@[0] {
                Err(StateDictError::BadShapes(layer))
            } else {
                Ok(
                    LayerView {
                        w: w.data@,
                        b: b.data@,
                        out_dim: w.shape@[0],
                        in_dim: w.shape@[1],
                    },
                )
            },
        },
    }
}

/// The first `m` trunk layers, or why one of them cannot be had.
pub open spec fn trunk_in<F>(dict: Seq<NamedArray<F>>, m: int) -> Result<
    Seq<LayerView<F>>,
    StateDictError,
>
    decreases m,
{
    if m <= 0 {
        Ok(Seq::empty())
    } else {
        match trunk_in(dict, m - 1) {
            Err(e) => Err(e),
            Ok(layers) => match layer_in(dict, LayerName::Trunk((2 * (m - 1)) as usize)) {
                Err(e) => Err(e),
                Ok(l) => Ok(layers.push(l)),
            },
        }
    }
}

/// The first layer from `from` on that does not take what the one before gives.
pub open spec fn broken_link<F>(trunk: Seq<LayerView<F>>, from: int) -> Option<int>
    decreases trunk.len() - from,
{
    if from < 1 || from >= trunk.len() {
        None
    } else if trunk[from].in_dim != trunk[from - 1].out_dim {
        Some(from)
    } else {
        broken_link(trunk, from + 1)
    }
}

/// Whether a name belongs to a policy with `m` trunk layers.
pub open spec fn expected_key(name: Seq<char>, m: int) -> bool {
    ||| name == weight_key(LayerName::PolicyHead)
    ||| name == bias_key(LayerName::PolicyHead)
    ||| name == weight_key(LayerName::ValueHead)
    ||| name == bias_key(LayerName::ValueHead)
    ||| exists|i: int|
        0 <= i < m && (name == #[trigger] weight_key(LayerName::Trunk((2 * i) as usize)) || name
            == bias_key(LayerName::Trunk((2 * i) as usize)))
}

/// The first array from `from` on that belongs to no layer.
pub open spec fn unexpected_key<F>(dict: Seq<NamedArray<F>>, m: int, from: int) -> Option<int>
    decreases dict.len() - from,
{
    if from < 0 || from >= dict.len() {
        None
    } else if !expected_key(dict[from].name@, m) {
        Some(from)
    } else {
        unexpected_key(dict, m, from + 1)
    }
}

/// What is found wrong with the layers of a policy, if anything.
pub open spec fn policy_fault<F>(
    dict: Seq<NamedArray<F>>,
    trunk: Seq<LayerView<F>>,
    policy: LayerView<F>,
    value: LayerView<F>,
) -> Option<StateDictError> {
    if let Some(i) = broken_link(trunk, 1) {
        Some(StateDictError::TrunkChain(i as usize))
    } else if policy.in_dim != trunk.last().out_dim || value.in_dim != trunk.last().out_dim
        || value.out_dim != 1 {
        Some(StateDictError::HeadShapes)
    } else if trunk[0].in_dim != OBS_SIZE {
        Some(StateDictError::InputDim(trunk[0].in_dim))
    } else if policy.out_dim != TABLE_SIZE {
        Some(StateDictError::OutputDim(policy.out_dim))
    } else if let Some(i) = unexpected_key(dict, trunk.len() as int, 0) {
        Some(StateDictError::UnexpectedKey(i as usize))
    } else {
        None
    }
}

/// The policy that a state dict gives, or why it gives none.
pub open spec fn policy_in<F>(dict: Seq<NamedArray<F>>) -> Result<PolicyView<F>, StateDictError> {
    let ids = numbers_named(dict, "trunk."@, ".weight"@, dict.len() as int);
    if ids.len() == 0 {
        Err(StateDictError::NoTrunkLayers)
    } else if !evenly_numbered(ids, 2) {
        Err(StateDictError::TrunkIndices)
    } else {
        match trunk_in(dict, ids.len() as int) {
            Err(e) => Err(e),
            Ok(trunk) => match layer_in(dict, LayerName::PolicyHead) {
                Err(e) => Err(e),
                Ok(policy) => match layer_in(dict, LayerName::ValueHead) {
                    Err(e) => Err(e),
                    Ok(value) => match policy_fault(dict, trunk, policy, value) {
                        Some(e) => Err(e),
                        None => Ok(PolicyView { trunk, policy, value }),
                    },
                },
            },
        }
    }
}

/// A result whose weights are given by what they hold.
pub open spec fn layer_outcome<F>(r: Result<LayerWeights<F>, StateDictError>) -> Result<
    LayerView<F>,
    StateDictError,
> {
    match r {
        Ok(l) => Ok(l@),
        Err(e) => Err(e),
    }
}

/// A result whose policy is given by what it holds.
pub open spec fn policy_outcome<F>(r: Result<PolicyWeights<F>, StateDictError>) -> Result<
    PolicyView<F>,
    StateDictError,
> {
    match r {
        Ok(p) => Ok(p@),
        Err(e) => Err(e),
    }
}

fn make_prefix(layer: LayerName) -> (s: String)
    ensures
        s@ == layer_prefix(layer),
{
    match layer {
        LayerName::Trunk(i) => {
            let mut s: String = String::from_str("trunk.");
            let d: String = to_decimal(i);
            s.append(d.as_str());
            s
        },
        LayerName::PolicyHead => String::from_str("policy_head"),
        LayerName::ValueHead => String::from_str("value_head"),
    }
}

fn make_weight_key(layer: LayerName) -> (s: String)
    ensures
        s@ == weight_key(layer),
{
    let mut s: String = make_prefix(layer);
    s.append(".weight");
    s
}

fn make_bias_key(layer: LayerName) -> (s: String)
    ensures
        s@ == bias_key(layer),
{
    let mut s: String = make_prefix(layer);
    s.append(".bias");
    s
}

/// A copy of the elements of `v`.
fn copied<T: Copy>(v: &Vec<T>) -> (r: Vec<T>)
    ensures
        r@ == v@,
{
    let mut r: Vec<T> = Vec::new();
    let len: usize = v.len();
    append_range(&mut r, v, 0, len);
    assert(r@ =~= v@);
    r
}

fn take_layer<F: Copy>(dict: &RawStateDict<F>, layer: LayerName) -> (r: Result<
    LayerWeights<F>,
    StateDictError,
>)
    ensures
        layer_outcome(r) == layer_in(dict@, layer),
{
    let w = match find(dict, &make_weight_key(layer)) {
        None => return Err(StateDictError::MissingWeight(layer)),
        Some(i) => &dict[i],
    };
    let b = match find(dict, &make_bias_key(layer)) {
        None => return Err(StateDictError::MissingBias(layer)),
        Some(i) => &dict[i],
    };
    if w.shape.len() != 2 || b.shape.len() != 1 || b.shape[0] != w.shape[0] {
        return Err(StateDictError::BadShapes(layer));
    }
    Ok(
        LayerWeights {
            w: copied(&w.data),
            b: copied(&b.data),
            out_dim: w.shape[0],
            in_dim: w.shape[1],
        },
    )
}

fn is_expected_key(name: &String, m: usize) -> (r: bool)
    requires
        2 * m <= usize::MAX + 1,
    ensures
        r == expected_key(name@, m as int),
{
    if *name == make_weight_key(LayerName::PolicyHead) || *name == make_bias_key(
        LayerName::PolicyHead,
    ) || *name == make_weight_key(LayerName::ValueHead) || *name == make_bias_key(
        LayerName::ValueHead,
    ) {
        return true;
    }
    let mut i: usize = 0;
    while i < m
        invariant
            i <= m,
            2 * m <= usize::MAX + 1,
            forall|j: int|
                0 <= j < i ==> name@ != #[trigger] weight_key(LayerName::Trunk((2 * j) as usize))
                    && name@ != bias_key(LayerName::Trunk((2 * j) as usize)),
        decreases m - i,
    {
        if *name == make_weight_key(LayerName::Trunk(2 * i)) || *name == make_bias_key(
            LayerName::Trunk(2 * i),
        ) {
            assert(expected_key(name@, m as int)) by {
                let j = i as int;
                assert(name@ == weight_key(LayerName::Trunk((2 * j) as usize)) || name@
                    == bias_key(LayerName::Trunk((2 * j) as usize)));
            }
            return true;
        }
        i = i + 1;
    }
    false
}

fn find_broken_link<F>(trunk: &Vec<LayerWeights<F>>) -> (r: Option<usize>)
    ensures
        match r {
            Some(i) => broken_link(trunk@.map_values(|l: LayerWeights<F>| l@), 1) == Some(i as int),
            None => broken_link(trunk@.map_values(|l: LayerWeights<F>| l@), 1) is None,
        },
{
    let ghost chain = trunk@.map_values(|l: LayerWeights<F>| l@);
    let mut i: usize = 1;
    while i < trunk.len()
        invariant
            1 <= i,
            chain == trunk@.map_values(|l: LayerWeights<F>| l@),
            broken_link(chain, 1) == broken_link(chain, i as int),
        decreases trunk.len() - i,
    {
        if trunk[i].in_dim != trunk[i - 1].out_dim {
            return Some(i);
        }
        i = i + 1;
    }
    None
}

fn find_unexpected_key<F>(dict: &RawStateDict<F>, m: usize) -> (r: Option<usize>)
    requires
        2 * m <= usize::MAX + 1,
    ensures
        match r {
            Some(i) => unexpected_key(dict@, m as int, 0) == Some(i as int),
            None => unexpected_key(dict@, m as int, 0) is None,
        },
{
    let mut i: usize = 0;
    while i < dict.len()
        invariant
            i <= dict@.len(),
            2 * m <= usize::MAX + 1,
            unexpected_key(dict@, m as int, 0) == unexpected_key(dict@, m as int, i as int),
        decreases dict.len() - i,
    {
        if !is_expected_key(&dict[i].name, m) {
            return Some(i);
        }
        i = i + 1;
    }
    None
}

/// Reads a flat-observation policy out of a state dict: trunk layers numbered
/// 0, 2, 4, .. that chain up, a policy head and a value head that fit the trunk,
/// the observation width and the action table, and no other arrays.
pub fn parse_state_dict<F: Copy>(arrays: &RawStateDict<F>) -> (r: Result<
    PolicyWeights<F>,
    StateDictError,
>)
    ensures
        policy_outcome(r) == policy_in(arrays@),
{
    let ids: Vec<usize> = collect_numbers(arrays, "trunk.", ".weight");
    let m: usize = ids.len();
    if m == 0 {
        return Err(StateDictError::NoTrunkLayers);
    }
    if !is_evenly_numbered(&ids, 2) {
        return Err(StateDictError::TrunkIndices);
    }
    proof {
        assert(has_multiple(ids@, m - 1, 2));
        assert(Seq::<LayerWeights<F>>::empty().map_values(|l: LayerWeights<F>| l@) =~= Seq::<
            LayerView<F>,
        >::empty());
    }
    let mut trunk: Vec<LayerWeights<F>> = Vec::new();
    let mut i: usize = 0;
    while i < m
        invariant
            i <= m,
            2 * (m - 1) <= usize::MAX,
            m == numbers_named(arrays@, "trunk."@, ".weight"@, arrays@.len() as int).len(),
            m > 0,
            evenly_numbered(numbers_named(arrays@, "trunk."@, ".weight"@, arrays@.len() as int), 2),
            trunk@.len() == i,
            trunk_in(arrays@, i as int) == Ok::<Seq<LayerView<F>>, StateDictError>(
                trunk@.map_values(|l: LayerWeights<F>| l@),
            ),
        decreases m - i,
    {
        let ghost before = trunk@;
        match take_layer(arrays, LayerName::Trunk(2 * i)) {
            Err(e) => {
                proof {
                    lemma_trunk_error(arrays@, i + 1, m as int);
                }
                return Err(e);
            },
            Ok(l) => trunk.push(l),
        }
        assert(trunk@.map_values(|l: LayerWeights<F>| l@) =~= before.map_values(
            |l: LayerWeights<F>| l@,
        ).push(trunk@.last()@));
        i = i + 1;
    }
    let policy = match take_layer(arrays, LayerName::PolicyHead) {
        Err(e) => return Err(e),
        Ok(l) => l,
    };
    let value = match take_layer(arrays, LayerName::ValueHead) {
        Err(e) => return Err(e),
        Ok(l) => l,
    };
    let ghost chain = trunk@.map_values(|l: LayerWeights<F>| l@);
    assert(chain.len() == m);
    if let Some(at) = find_broken_link(&trunk) {
        return Err(StateDictError::TrunkChain(at));
    }
    let width: usize = trunk[m - 1].out_dim;
    if policy.in_dim != width || value.in_dim != width || value.out_dim != 1 {
        return Err(StateDictError::HeadShapes);
    }
    if trunk[0].in_dim != OBS_SIZE {
        return Err(StateDictError::InputDim(trunk[0].in_dim));
    }
    if policy.out_dim != TABLE_SIZE {
        return Err(StateDictError::OutputDim(policy.out_dim));
    }
    if let Some(at) = find_unexpected_key(arrays, m) {
        return Err(StateDictError::UnexpectedKey(at));
    }
    Ok(PolicyWeights { trunk, policy, value })
}

proof fn lemma_trunk_error<F>(dict: Seq<NamedArray<F>>, m: int, n: int)
    requires
        0 <= m <= n,
        trunk_in(dict, m) is Err,
    ensures
        trunk_in(dict, n) == trunk_in(dict, m),
    decreases n,
{
    if m < n {
        lemma_trunk_error(dict, m, n - 1);
    }
}

} // verus!
