//! Weights of a flat-observation policy.

use vstd::prelude::*;

verus! {

/// Weights of one linear layer, row-major `out_dim` by `in_dim`.
pub struct LayerWeights<F> {
    pub w: Vec<F>,
    pub b: Vec<F>,
    pub out_dim: usize,
    pub in_dim: usize,
}

/// Weights of a policy: a chain of layers with a policy head and a value head.
pub struct PolicyWeights<F> {
    pub trunk: Vec<LayerWeights<F>>,
    pub policy: LayerWeights<F>,
    pub value: LayerWeights<F>,
}

/// What a layer holds.
pub struct LayerView<F> {
    pub w: Seq<F>,
    pub b: Seq<F>,
    pub out_dim: usize,
    pub in_dim: usize,
}

/// What a policy holds.
pub struct PolicyView<F> {
    pub trunk: Seq<LayerView<F>>,
    pub policy: LayerView<F>,
    pub value: LayerView<F>,
}

impl<F> View for LayerWeights<F> {
    type V = LayerView<F>;

    open spec fn view(&self) -> LayerView<F> {
        LayerView { w: self.w@, b: self.b@, out_dim: self.out_dim, in_dim: self.in_dim }
    }
}

impl<F> View for PolicyWeights<F> {
    type V = PolicyView<F>;

    open spec fn view(&self) -> PolicyView<F> {
        PolicyView {
            trunk: self.trunk@.map_values(|l: LayerWeights<F>| l@),
            policy: self.policy@,
            value: self.value@,
        }
    }
}

/// A layer of a policy.
#[derive(Clone, Copy, Debug, PartialEq, Eq, Structural)]
pub enum LayerName {
    /// A trunk layer by its number.
    Trunk(usize),
    PolicyHead,
    ValueHead,
}

/// A layer whose data do not fill its dimensions.
#[derive(Clone, Copy, Debug, PartialEq, Eq, Structural)]
pub struct LayerMismatch {
    /// Number of weights.
    pub w: usize,
    /// Number of biases.
    pub b: usize,
    pub out_dim: usize,
    pub in_dim: usize,
}

impl<F> LayerView<F> {
    /// The data fill the dimensions.
    pub open spec fn filled(self) -> bool {
        self.w.len() == self.out_dim * self.in_dim && self.b.len() == self.out_dim
    }

    /// What is reported of a layer whose data do not.
    pub open spec fn mismatch(self) -> LayerMismatch {
        LayerMismatch {
            w: self.w.len() as usize,
            b: self.b.len() as usize,
            out_dim: self.out_dim,
            in_dim: self.in_dim,
        }
    }
}

impl<F> LayerWeights<F> {
    /// Accepts a layer whose data fill its dimensions.
    pub fn check(&self) -> (r: Result<(), LayerMismatch>)
        ensures
            r == if self@.filled() {
                Ok::<(), LayerMismatch>(())
            } else {
                Err(self@.mismatch())
            },
    {
        let cells: Option<usize> = self.out_dim.checked_mul(self.in_dim);
        let fits: bool = match cells {
            Some(n) => self.w.len() == n,
            None => false,
        };
        if !fits || self.b.len() != self.out_dim {
            return Err(
                LayerMismatch {
                    w: self.w.len(),
                    b: self.b.len(),
                    out_dim: self.out_dim,
                    in_dim: self.in_dim,
                },
            );
        }
        Ok(())
    }
}

/// The first of the first `n` layers, in order, whose data do not fill it.
pub open spec fn first_mismatch<F>(layers: Seq<LayerView<F>>, n: int) -> Option<LayerMismatch>
    decreases n,
{
    if n <= 0 {
        None
    } else {
        match first_mismatch(layers, n - 1) {
            Some(e) => Some(e),
            None => if layers[n - 1].filled() {
                None
            } else {
                Some(layers[n - 1].mismatch())
            },
        }
    }
}

impl<F> PolicyView<F> {
    /// The layers in the order in which they are built.
    pub open spec fn layers(self) -> Seq<LayerView<F>> {
        self.trunk.push(self.policy).push(self.value)
    }
}

impl<F> PolicyWeights<F> {
    /// Accepts weights whose layers all fill their dimensions; otherwise names
    /// the first that does not, trunk before policy head before value head.
    pub fn check(&self) -> (r: Result<(), LayerMismatch>)
        ensures
            r == match first_mismatch(self@.layers(), self@.layers().len() as int) {
                None => Ok::<(), LayerMismatch>(()),
                Some(e) => Err(e),
            },
    {
        let ghost all = self@.layers();
        let mut i: usize = 0;
        while i < self.trunk.len()
            invariant
                i <= self.trunk@.len(),
                all == self@.layers(),
                first_mismatch(all, i as int) is None,
            decreases self.trunk.len() - i,
        {
            assert(all[i as int] == self.trunk@[i as int]@);
            if let Err(e) = self.trunk[i].check() {
                proof {
                    lemma_mismatch_stays(all, i + 1, all.len() as int);
                }
                return Err(e);
            }
            i = i + 1;
        }
        let ghost n = self.trunk@.len() as int;
        assert(all[n] == self.policy@);
        assert(all[n + 1] == self.value@);
        if let Err(e) = self.policy.check() {
            proof {
                lemma_mismatch_stays(all, n + 1, n + 2);
            }
            return Err(e);
        }
        assert(first_mismatch(all, n + 1) is None);
        self.value.check()
    }
}

proof fn lemma_mismatch_stays<F>(layers: Seq<LayerView<F>>, m: int, n: int)
    requires
        0 <= m <= n,
        first_mismatch(layers, m) is Some,
    ensures
        first_mismatch(layers, n) == first_mismatch(layers, m),
    decreases n,
{
    if m < n {
        lemma_mismatch_stays(layers, m, n - 1);
    }
}

} // verus!
