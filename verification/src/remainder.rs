//! The smallest scalar: remainders modulo three.
//!
//! Contracts ask of a scalar that its operators are functions, and laws ask that
//! they do not round. Remainders modulo three meet both demands, so neither is
//! empty. Laws of size also ask that the comparisons are those of an ordered field.
//! Remainders do not meet that, nor does any scalar of finitely many values: those
//! laws speak of ideal numbers, such as the rational ones, and have no witness
//! here.

use crate::exact::exact;
use crate::mirror::{differences_turn, signs_cancel};
use crate::scalar::{num, ordered, plus, total};
use core::cmp::Ordering;
use core::ops::{Add, Div, Mul, Neg, Sub};
use vstd::prelude::*;
use vstd::std_specs::cmp::{PartialEqSpecImpl, PartialOrdSpecImpl};
use vstd::std_specs::convert::FromSpecImpl;
use vstd::std_specs::ops::{AddSpecImpl, DivSpecImpl, MulSpecImpl, NegSpecImpl, SubSpecImpl};

verus! {

/// A remainder modulo three.
#[derive(Clone, Copy, Debug)]
pub enum Remainder {
    Zero,
    One,
    Two,
}

impl Remainder {
    /// The remainder as a number.
    pub open spec fn value(self) -> int {
        match self {
            Remainder::Zero => 0,
            Remainder::One => 1,
            Remainder::Two => 2,
        }
    }

    /// The remainder of a number.
    pub open spec fn of(n: int) -> Remainder {
        if n % 3 == 0 {
            Remainder::Zero
        } else if n % 3 == 1 {
            Remainder::One
        } else {
            Remainder::Two
        }
    }

    /// The product of two remainders.
    pub open spec fn product(self, rhs: Remainder) -> Remainder {
        match (self, rhs) {
            (Remainder::Zero, _) => Remainder::Zero,
            (_, Remainder::Zero) => Remainder::Zero,
            (Remainder::One, _) => rhs,
            (_, Remainder::One) => self,
            _ => Remainder::One,
        }
    }

    /// The remainder as a number.
    pub fn get(self) -> (n: i32)
        ensures
            n == self.value(),
    {
        match self {
            Remainder::Zero => 0,
            Remainder::One => 1,
            Remainder::Two => 2,
        }
    }

    /// The remainder of a number.
    pub fn new(n: i32) -> (r: Remainder)
        ensures
            r == Remainder::of(n as int),
    {
        let rest: i32 = n % 3;
        if rest == 0 {
            Remainder::Zero
        } else if rest == 1 || rest == -2 {
            Remainder::One
        } else {
            Remainder::Two
        }
    }
}

impl AddSpecImpl for Remainder {
    open spec fn obeys_add_spec() -> bool {
        true
    }

    open spec fn add_req(self, rhs: Remainder) -> bool {
        true
    }

    open spec fn add_spec(self, rhs: Remainder) -> Remainder {
        Remainder::of(self.value() + rhs.value())
    }
}

impl Add for Remainder {
    type Output = Remainder;

    fn add(self, rhs: Remainder) -> (r: Remainder) {
        Remainder::new(self.get() + rhs.get())
    }
}

impl SubSpecImpl for Remainder {
    open spec fn obeys_sub_spec() -> bool {
        true
    }

    open spec fn sub_req(self, rhs: Remainder) -> bool {
        true
    }

    open spec fn sub_spec(self, rhs: Remainder) -> Remainder {
        Remainder::of(self.value() - rhs.value())
    }
}

impl Sub for Remainder {
    type Output = Remainder;

    fn sub(self, rhs: Remainder) -> (r: Remainder) {
        Remainder::new(self.get() - rhs.get())
    }
}

impl MulSpecImpl for Remainder {
    open spec fn obeys_mul_spec() -> bool {
        true
    }

    open spec fn mul_req(self, rhs: Remainder) -> bool {
        true
    }

    open spec fn mul_spec(self, rhs: Remainder) -> Remainder {
        self.product(rhs)
    }
}

impl Mul for Remainder {
    type Output = Remainder;

    fn mul(self, rhs: Remainder) -> (r: Remainder) {
        match (self, rhs) {
            (Remainder::Zero, _) => Remainder::Zero,
            (_, Remainder::Zero) => Remainder::Zero,
            (Remainder::One, _) => rhs,
            (_, Remainder::One) => self,
            _ => Remainder::One,
        }
    }
}

impl DivSpecImpl for Remainder {
    open spec fn obeys_div_spec() -> bool {
        true
    }

    open spec fn div_req(self, rhs: Remainder) -> bool {
        true
    }

    /// One and two are their own inverses.
    open spec fn div_spec(self, rhs: Remainder) -> Remainder {
        self.product(rhs)
    }
}

impl Div for Remainder {
    type Output = Remainder;

    fn div(self, rhs: Remainder) -> (r: Remainder) {
        self * rhs
    }
}

impl NegSpecImpl for Remainder {
    open spec fn obeys_neg_spec() -> bool {
        true
    }

    open spec fn neg_req(self) -> bool {
        true
    }

    open spec fn neg_spec(self) -> Remainder {
        Remainder::of(-self.value())
    }
}

impl Neg for Remainder {
    type Output = Remainder;

    fn neg(self) -> (r: Remainder) {
        Remainder::new(0 - self.get())
    }
}

impl PartialEqSpecImpl for Remainder {
    open spec fn obeys_eq_spec() -> bool {
        true
    }

    open spec fn eq_spec(&self, other: &Remainder) -> bool {
        self.value() == other.value()
    }
}

impl PartialEq for Remainder {
    fn eq(&self, other: &Remainder) -> (r: bool) {
        self.get() == other.get()
    }
}

impl PartialOrdSpecImpl for Remainder {
    open spec fn obeys_partial_cmp_spec() -> bool {
        true
    }

    open spec fn partial_cmp_spec(&self, other: &Remainder) -> Option<Ordering> {
        if self.value() < other.value() {
            Some(Ordering::Less)
        } else if self.value() == other.value() {
            Some(Ordering::Equal)
        } else {
            Some(Ordering::Greater)
        }
    }
}

impl PartialOrd for Remainder {
    fn partial_cmp(&self, other: &Remainder) -> (r: Option<Ordering>) {
        let a: i32 = self.get();
        let b: i32 = other.get();
        if a < b {
            Some(Ordering::Less)
        } else if a == b {
            Some(Ordering::Equal)
        } else {
            Some(Ordering::Greater)
        }
    }
}

impl FromSpecImpl<i16> for Remainder {
    open spec fn obeys_from_spec() -> bool {
        true
    }

    open spec fn from_spec(k: i16) -> Remainder {
        Remainder::of(k as int)
    }
}

impl From<i16> for Remainder {
    fn from(k: i16) -> (r: Remainder) {
        Remainder::new(k as i32)
    }
}

/// What contracts and laws ask of a scalar can be met.
pub proof fn law_demands_can_be_met()
    ensures
        ordered::<Remainder>(),
        total::<Remainder>(),
        exact::<Remainder>(),
        num::<Remainder>(2) != num::<Remainder>(0),
        signs_cancel::<Remainder>(),
        differences_turn::<Remainder>(),
{
    assert(exact::<Remainder>()) by {
        reveal(exact);
        assert forall|k: int| -16384 <= k < 16384 implies #[trigger] num::<Remainder>(k + 1) == plus(
            num::<Remainder>(k),
            num::<Remainder>(1),
        ) by {
            lemma_next_constant(k);
        }
    }
}

/// One more than a number leaves one more.
proof fn lemma_next_constant(k: int)
    requires
        -16384 <= k < 16384,
    ensures
        num::<Remainder>(k + 1) == plus(num::<Remainder>(k), num::<Remainder>(1)),
{
    let n = k as i16;
    assert(n as int == k);
    assert((k + 1) as i16 as int == k + 1);
    assert(Remainder::of(k + 1) == Remainder::of(Remainder::of(k).value() + 1));
}

} // verus!
