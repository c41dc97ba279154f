//! Requirements on the arrays of a state dict, checked one after the other.

use crate::state_dict::{find, lookup, NamedArray, RawStateDict};
use vstd::prelude::*;
use vstd::string::StringExecFns;

verus! {

/// What is required of an array.
#[derive(Clone, Copy, Debug, PartialEq, Eq, Structural)]
pub enum Rule {
    /// It is there.
    Present,
    /// It is there and its data fill its shape.
    Tensor,
    /// It has one dimension.
    Vector,
    /// It has two dimensions.
    Matrix,
    /// It has two dimensions or more.
    Wide,
    /// Its shape is `n` by `m`.
    Exact,
    /// Its first dimension is `n`.
    Rows,
    /// Its second dimension is `n`.
    Cols,
    /// Its first dimension is `n` or more.
    Tall,
    /// It holds `n` numbers.
    Length,
    /// It holds as many numbers as its first dimension says.
    Column,
    /// It can be added to `m` rows of `n` numbers.
    Bias,
    /// Not of an array: `m` divides `n`.
    Divides,
}

/// How a requirement fails.
#[derive(Clone, Copy, Debug, PartialEq, Eq, Structural)]
pub enum FaultKind {
    /// There is no such array.
    Missing,
    /// The data do not fill the shape.
    DataLength,
    /// The number of dimensions is wrong.
    Rank,
    /// A dimension is wrong.
    Shape,
    /// The model width does not divide into the heads.
    Heads,
}

/// One requirement.
pub struct Step {
    pub rule: Rule,
    pub key: String,
    pub n: usize,
    pub m: usize,
}

/// One requirement, with the array's name as characters.
pub struct StepView {
    pub rule: Rule,
    pub key: Seq<char>,
    pub n: usize,
    pub m: usize,
}

impl View for Step {
    type V = StepView;

    open spec fn view(&self) -> StepView {
        StepView { rule: self.rule, key: self.key@, n: self.n, m: self.m }
    }
}

/// A failed requirement.
#[derive(Debug)]
pub struct Fault {
    pub kind: FaultKind,
    pub key: String,
}

/// A failed requirement, with the array's name as characters.
pub struct FaultView {
    pub kind: FaultKind,
    pub key: Seq<char>,
}

impl View for Fault {
    type V = FaultView;

    open spec fn view(&self) -> FaultView {
        FaultView { kind: self.kind, key: self.key@ }
    }
}

/// Requirements as characters.
pub open spec fn step_views(steps: Seq<Step>) -> Seq<StepView> {
    steps.map_values(|s: Step| s@)
}

/// Number of elements of the first `n` dimensions of a shape.
pub open spec fn element_count(shape: Seq<usize>, n: int) -> int
    decreases n,
{
    if n <= 0 {
        1
    } else {
        element_count(shape, n - 1) * shape[n - 1]
    }
}

/// Whether two dimensions go together when arrays are added: they are equal, or
/// one is repeated along the other.
pub open spec fn dims_agree(a: usize, b: usize) -> bool {
    a == b || a == 1 || b == 1
}

/// Whether an array of at most two dimensions can be added to `rows` rows of
/// `cols` numbers without more rows.
pub open spec fn adds_to(shape: Seq<usize>, rows: usize, cols: usize) -> bool {
    &&& shape.len() <= 2
    &&& shape.len() >= 1 ==> dims_agree(shape.last(), cols)
    &&& shape.len() == 2 ==> shape[0] == 1 || shape[0] == rows
}

/// How many numbers the rows of `cols` numbers have once an array was added.
pub open spec fn added_cols(shape: Seq<usize>, cols: usize) -> usize {
    if shape.len() >= 1 && cols == 1 {
        shape.last()
    } else {
        cols
    }
}

/// How an array fails a requirement, if it does.
pub open spec fn array_fault<F>(a: NamedArray<F>, step: StepView) -> Option<FaultKind> {
    let shape = a.shape@;
    match step.rule {
        Rule::Present => None,
        Rule::Tensor => if element_count(shape, shape.len() as int) == a.data@.len() {
            None
        } else {
            Some(FaultKind::DataLength)
        },
        Rule::Vector => if shape.len() == 1 {
            None
        } else {
            Some(FaultKind::Rank)
        },
        Rule::Matrix => if shape.len() == 2 {
            None
        } else {
            Some(FaultKind::Rank)
        },
        Rule::Wide => if shape.len() >= 2 {
            None
        } else {
            Some(FaultKind::Rank)
        },
        Rule::Exact => if shape == seq![step.n, step.m] {
            None
        } else {
            Some(FaultKind::Shape)
        },
        Rule::Rows => if shape.len() >= 1 && shape[0] == step.n {
            None
        } else {
            Some(FaultKind::Shape)
        },
        Rule::Cols => if shape.len() >= 2 && shape[1] == step.n {
            None
        } else {
            Some(FaultKind::Shape)
        },
        Rule::Tall => if shape.len() >= 1 && shape[0] >= step.n {
            None
        } else {
            Some(FaultKind::Shape)
        },
        Rule::Length => if a.data@.len() == step.n {
            None
        } else {
            Some(FaultKind::DataLength)
        },
        Rule::Column => if shape.len() >= 1 && a.data@.len() == shape[0] {
            None
        } else {
            Some(FaultKind::DataLength)
        },
        Rule::Bias => if shape.len() > 2 {
            Some(FaultKind::Rank)
        } else if adds_to(shape, step.m, step.n) {
            None
        } else {
            Some(FaultKind::Shape)
        },
        Rule::Divides => None,
    }
}

/// How a requirement fails, if it does.
pub open spec fn step_fault<F>(dict: Seq<NamedArray<F>>, step: StepView) -> Option<FaultKind> {
    if step.rule == Rule::Divides {
        if step.n as int % step.m as int == 0 {
            None
        } else {
            Some(FaultKind::Heads)
        }
    } else {
        match lookup(dict, step.key) {
            None => Some(FaultKind::Missing),
            Some(a) => array_fault(a, step),
        }
    }
}

/// The first requirement from `from` on that fails.
pub open spec fn first_fault<F>(
    dict: Seq<NamedArray<F>>,
    steps: Seq<StepView>,
    from: int,
) -> Option<FaultView>
    decreases steps.len() - from,
{
    if from < 0 || from >= steps.len() {
        None
    } else {
        match step_fault(dict, steps[from]) {
            Some(kind) => Some(FaultView { kind, key: steps[from].key }),
            None => first_fault(dict, steps, from + 1),
        }
    }
}

/// Whether the data of an array fill its shape.
fn fills<F>(a: &NamedArray<F>) -> (r: bool)
    ensures
        r == (element_count(a.shape@, a.shape@.len() as int) == a.data@.len()),
{
    let mut zero: bool = false;
    let mut i: usize = 0;
    while i < a.shape.len()
        invariant
            i <= a.shape@.len(),
            zero == exists|j: int| 0 <= j < i && #[trigger] a.shape@[j] == 0,
        decreases a.shape.len() - i,
    {
        if a.shape[i] == 0 {
            zero = true;
        }
        i = i + 1;
    }
    if zero {
        proof {
            let j = choose|j: int| 0 <= j < a.shape@.len() && #[trigger] a.shape@[j] == 0;
            lemma_count_with_zero(a.shape@, j, a.shape@.len() as int);
        }
        return a.data.len() == 0;
    }
    let mut n: usize = 1;
    i = 0;
    while i < a.shape.len()
        invariant
            i <= a.shape@.len(),
            forall|j: int| 0 <= j < a.shape@.len() ==> #[trigger] a.shape@[j] != 0,
            n == element_count(a.shape@, i as int),
        decreases a.shape.len() - i,
    {
        match n.checked_mul(a.shape[i]) {
            None => {
                proof {
                    lemma_count_grows(a.shape@, i + 1, a.shape@.len() as int);
                    assert(a.data.len() <= usize::MAX);
                }
                return false;
            },
            Some(v) => {
                n = v;
            },
        }
        i = i + 1;
    }
    n == a.data.len()
}

proof fn lemma_count_with_zero(shape: Seq<usize>, j: int, n: int)
    requires
        0 <= j < n <= shape.len(),
        shape[j] == 0,
    ensures
        element_count(shape, n) == 0,
    decreases n,
{
    if j < n - 1 {
        lemma_count_with_zero(shape, j, n - 1);
    }
    assert(element_count(shape, n - 1) * shape[n - 1] == 0) by (nonlinear_arith)
        requires
            element_count(shape, n - 1) == 0 || shape[n - 1] == 0,
    ;
}

proof fn lemma_count_grows(shape: Seq<usize>, m: int, n: int)
    requires
        0 <= m <= n <= shape.len(),
        forall|j: int| 0 <= j < shape.len() ==> #[trigger] shape[j] != 0,
    ensures
        1 <= element_count(shape, m) <= element_count(shape, n),
    decreases n,
{
    if m < n {
        lemma_count_grows(shape, m, n - 1);
        assert(shape[n - 1] != 0);
        let c = element_count(shape, n - 1);
        assert(c <= c * shape[n - 1]) by (nonlinear_arith)
            requires
                1 <= c,
                shape[n - 1] >= 1,
        ;
    } else if n > 0 {
        lemma_count_grows(shape, m - 1, n - 1);
        assert(shape[n - 1] != 0);
        let c = element_count(shape, n - 1);
        assert(1 <= c * shape[n - 1]) by (nonlinear_arith)
            requires
                1 <= c,
                shape[n - 1] >= 1,
        ;
    }
}

fn does_add_to(shape: &Vec<usize>, rows: usize, cols: usize) -> (r: bool)
    ensures
        r == adds_to(shape@, rows, cols),
{
    let n: usize = shape.len();
    if n == 0 {
        true
    } else if n > 2 {
        false
    } else {
        let last: usize = shape[n - 1];
        (last == cols || last == 1 || cols == 1) && (n == 1 || shape[0] == 1 || shape[0] == rows)
    }
}

fn check_array<F>(a: &NamedArray<F>, step: &Step) -> (r: Option<FaultKind>)
    ensures
        r == array_fault(*a, step@),
{
    match step.rule {
        Rule::Present => None,
        Rule::Tensor => if fills(a) {
            None
        } else {
            Some(FaultKind::DataLength)
        },
        Rule::Vector => if a.shape.len() == 1 {
            None
        } else {
            Some(FaultKind::Rank)
        },
        Rule::Matrix => if a.shape.len() == 2 {
            None
        } else {
            Some(FaultKind::Rank)
        },
        Rule::Wide => if a.shape.len() >= 2 {
            None
        } else {
            Some(FaultKind::Rank)
        },
        Rule::Exact => if a.shape.len() == 2 && a.shape[0] == step.n && a.shape[1] == step.m {
            assert(a.shape@ =~= seq![step.n, step.m]);
            None
        } else {
            Some(FaultKind::Shape)
        },
        Rule::Rows => if a.shape.len() >= 1 && a.shape[0] == step.n {
            None
        } else {
            Some(FaultKind::Shape)
        },
        Rule::Cols => if a.shape.len() >= 2 && a.shape[1] == step.n {
            None
        } else {
            Some(FaultKind::Shape)
        },
        Rule::Tall => if a.shape.len() >= 1 && a.shape[0] >= step.n {
            None
        } else {
            Some(FaultKind::Shape)
        },
        Rule::Length => if a.data.len() == step.n {
            None
        } else {
            Some(FaultKind::DataLength)
        },
        Rule::Column => if a.shape.len() >= 1 && a.data.len() == a.shape[0] {
            None
        } else {
            Some(FaultKind::DataLength)
        },
        Rule::Bias => if a.shape.len() > 2 {
            Some(FaultKind::Rank)
        } else if does_add_to(&a.shape, step.m, step.n) {
            None
        } else {
            Some(FaultKind::Shape)
        },
        Rule::Divides => None,
    }
}

/// How a requirement fails, if it does.
pub fn check_step<F>(dict: &RawStateDict<F>, step: &Step) -> (r: Option<FaultKind>)
    requires
        step.rule == Rule::Divides ==> step.m > 0,
    ensures
        r == step_fault(dict@, step@),
{
    if step.rule == Rule::Divides {
        if step.n % step.m == 0 {
            None
        } else {
            Some(FaultKind::Heads)
        }
    } else {
        match find(dict, &step.key) {
            None => Some(FaultKind::Missing),
            Some(i) => check_array(&dict[i], step),
        }
    }
}

/// Requirements that can be checked: none divides by zero.
pub open spec fn checkable(steps: Seq<StepView>) -> bool {
    forall|i: int|
        0 <= i < steps.len() ==> ((#[trigger] steps[i]).rule == Rule::Divides ==> steps[i].m > 0)
}

/// Checks the requirements in order and reports the first that fails.
pub fn run_steps<F>(dict: &RawStateDict<F>, steps: &Vec<Step>) -> (r: Result<(), Fault>)
    requires
        checkable(step_views(steps@)),
    ensures
        match r {
            Ok(_) => first_fault(dict@, step_views(steps@), 0) is None,
            Err(e) => first_fault(dict@, step_views(steps@), 0) == Some(e@),
        },
{
    let ghost all = step_views(steps@);
    let mut i: usize = 0;
    while i < steps.len()
        invariant
            i <= steps@.len(),
            all == step_views(steps@),
            checkable(all),
            first_fault(dict@, all, 0) == first_fault(dict@, all, i as int),
        decreases steps.len() - i,
    {
        assert(all[i as int] == steps@[i as int]@);
        if let Some(kind) = check_step(dict, &steps[i]) {
            return Err(Fault { kind, key: steps[i].key.clone() });
        }
        i = i + 1;
    }
    Ok(())
}

/// A requirement on the array `prefix` + `suffix`.
pub open spec fn step(
    rule: Rule,
    prefix: Seq<char>,
    suffix: Seq<char>,
    n: usize,
    m: usize,
) -> StepView {
    StepView { rule, key: prefix + suffix, n, m }
}

/// A linear layer: weights and biases are there, the weights a matrix.
pub open spec fn linear_steps(prefix: Seq<char>) -> Seq<StepView> {
    seq![
        step(Rule::Tensor, prefix, ".weight"@, 0, 0),
        step(Rule::Tensor, prefix, ".bias"@, 0, 0),
        step(Rule::Matrix, prefix, ".weight"@, 0, 0),
    ]
}

/// A normalization layer: weights and biases are there.
pub open spec fn norm_steps(prefix: Seq<char>) -> Seq<StepView> {
    seq![
        step(Rule::Tensor, prefix, ".weight"@, 0, 0),
        step(Rule::Tensor, prefix, ".bias"@, 0, 0),
    ]
}

/// Appends a requirement on the array `prefix` + `suffix`.
pub fn push_step(
    steps: &mut Vec<Step>,
    rule: Rule,
    prefix: &str,
    suffix: &str,
    n: usize,
    m: usize,
)
    ensures
        step_views(final(steps)@) == step_views(old(steps)@).push(
            step(rule, prefix@, suffix@, n, m),
        ),
{
    let mut key: String = String::from_str(prefix);
    key.append(suffix);
    let ghost before = steps@;
    steps.push(Step { rule, key, n, m });
    assert(step_views(steps@) =~= step_views(before).push(step(rule, prefix@, suffix@, n, m)));
}

/// Appends the requirements on a linear layer.
pub fn push_linear(steps: &mut Vec<Step>, prefix: &str)
    ensures
        step_views(final(steps)@) == step_views(old(steps)@) + linear_steps(prefix@),
{
    let ghost before = step_views(steps@);
    push_step(steps, Rule::Tensor, prefix, ".weight", 0, 0);
    push_step(steps, Rule::Tensor, prefix, ".bias", 0, 0);
    push_step(steps, Rule::Matrix, prefix, ".weight", 0, 0);
    assert(step_views(steps@) =~= before + linear_steps(prefix@));
}

/// Appends the requirements on a normalization layer.
pub fn push_norm(steps: &mut Vec<Step>, prefix: &str)
    ensures
        step_views(final(steps)@) == step_views(old(steps)@) + norm_steps(prefix@),
{
    let ghost before = step_views(steps@);
    push_step(steps, Rule::Tensor, prefix, ".weight", 0, 0);
    push_step(steps, Rule::Tensor, prefix, ".bias", 0, 0);
    assert(step_views(steps@) =~= before + norm_steps(prefix@));
}

/// Whether some requirement is on the array `name`.
pub open spec fn speaks_of(steps: Seq<StepView>, name: Seq<char>) -> bool {
    exists|i: int|
        0 <= i < steps.len() && (#[trigger] steps[i]).rule != Rule::Divides && steps[i].key == name
}

/// Whether some requirement is on the array `name`.
pub fn is_spoken_of(steps: &Vec<Step>, name: &String) -> (r: bool)
    ensures
        r == speaks_of(step_views(steps@), name@),
{
    let ghost all = step_views(steps@);
    let mut i: usize = 0;
    while i < steps.len()
        invariant
            i <= steps@.len(),
            all == step_views(steps@),
            forall|j: int|
                0 <= j < i ==> (#[trigger] all[j]).rule == Rule::Divides || all[j].key != name@,
        decreases steps.len() - i,
    {
        assert(all[i as int] == steps@[i as int]@);
        if steps[i].rule != Rule::Divides && steps[i].key == *name {
            return true;
        }
        i = i + 1;
    }
    false
}

/// Two lists that can be checked can be checked one after the other.
pub proof fn lemma_checkable_concat(s: Seq<StepView>, t: Seq<StepView>)
    requires
        checkable(s),
        checkable(t),
    ensures
        checkable(s + t),
{
    assert forall|i: int|
        0 <= i < (s + t).len() && (#[trigger] (s + t)[i]).rule == Rule::Divides implies (s
        + t)[i].m > 0 by {
        if i < s.len() {
            assert((s + t)[i] == s[i]);
        } else {
            assert((s + t)[i] == t[i - s.len()]);
        }
    }
}

} // verus!
