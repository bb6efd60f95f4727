//! The numeric capability that every metric is written against.
//!
//! A metric never looks inside a value: it only combines values through the
//! operations of [`Real`]. Each operation has a specification function of the
//! same name with the suffix `_spec`, which says what the operation denotes.
//!
//! A type whose operations are exactly these functions says so by
//! [`Real::obeys_real_spec`], and must then prove it of every operation. A
//! type that rounds, or whose results differ from one machine to the next,
//! leaves it false: the metrics still run on it, and everything that is
//! stated of the values they return is stated of the types that obey.
//!
//! No algebraic law (commutativity, associativity, ...) is part of the trait.
//! The theorems that need one name it as a hypothesis.
//!
//! Every specification function has a default, so that a type defined outside
//! verified code can implement the trait by its operations alone; it then
//! does not obey, and nothing is claimed of it.

use vstd::prelude::*;

verus! {

/// Numbers with the operations that the metrics use.
pub trait Real: Sized + Copy {
    /// Whether every operation of the type returns what its specification
    /// function denotes. Where this does not hold, nothing is known of what
    /// an operation returns.
    open spec fn obeys_real_spec() -> bool {
        false
    }

    /// The additive identity.
    open spec fn zero_spec() -> Self {
        arbitrary()
    }

    /// The multiplicative identity.
    open spec fn one_spec() -> Self {
        arbitrary()
    }

    /// The value that stands for the count `n`, if the type can represent it.
    open spec fn from_usize_spec(n: usize) -> Option<Self> {
        arbitrary()
    }

    /// The sum.
    open spec fn add_spec(self, rhs: Self) -> Self {
        arbitrary()
    }

    /// The difference.
    open spec fn sub_spec(self, rhs: Self) -> Self {
        arbitrary()
    }

    /// The product.
    open spec fn mul_spec(self, rhs: Self) -> Self {
        arbitrary()
    }

    /// The quotient. It has a value for every divisor, zero too.
    open spec fn div_spec(self, rhs: Self) -> Self {
        arbitrary()
    }

    /// The magnitude.
    open spec fn abs_spec(self) -> Self {
        arbitrary()
    }

    /// `self` raised to the integer power `n`.
    open spec fn powi_spec(self, n: i32) -> Self {
        arbitrary()
    }

    /// `self` raised to the power `e`.
    open spec fn powf_spec(self, e: Self) -> Self {
        arbitrary()
    }

    /// The square root.
    open spec fn sqrt_spec(self) -> Self {
        arbitrary()
    }

    /// Whether `self` counts as zero for the type's own comparison.
    open spec fn is_zero_spec(self) -> bool {
        arbitrary()
    }

    /// The order of the type. No metric computes with it; it is the language in
    /// which bounds on results are stated.
    open spec fn le_spec(self, rhs: Self) -> bool {
        arbitrary()
    }

    fn zero() -> (r: Self)
        ensures
            Self::obeys_real_spec() ==> r == Self::zero_spec(),
    ;

    fn one() -> (r: Self)
        ensures
            Self::obeys_real_spec() ==> r == Self::one_spec(),
    ;

    fn from_usize(n: usize) -> (r: Option<Self>)
        ensures
            Self::obeys_real_spec() ==> r == Self::from_usize_spec(n),
    ;

    fn add(self, rhs: Self) -> (r: Self)
        ensures
            Self::obeys_real_spec() ==> r == self.add_spec(rhs),
    ;

    fn sub(self, rhs: Self) -> (r: Self)
        ensures
            Self::obeys_real_spec() ==> r == self.sub_spec(rhs),
    ;

    fn mul(self, rhs: Self) -> (r: Self)
        ensures
            Self::obeys_real_spec() ==> r == self.mul_spec(rhs),
    ;

    fn div(self, rhs: Self) -> (r: Self)
        ensures
            Self::obeys_real_spec() ==> r == self.div_spec(rhs),
    ;

    fn abs(self) -> (r: Self)
        ensures
            Self::obeys_real_spec() ==> r == self.abs_spec(),
    ;

    fn powi(self, n: i32) -> (r: Self)
        ensures
            Self::obeys_real_spec() ==> r == self.powi_spec(n),
    ;

    fn powf(self, e: Self) -> (r: Self)
        ensures
            Self::obeys_real_spec() ==> r == self.powf_spec(e),
    ;

    fn sqrt(self) -> (r: Self)
        ensures
            Self::obeys_real_spec() ==> r == self.sqrt_spec(),
    ;

    fn is_zero(self) -> (r: bool)
        ensures
            Self::obeys_real_spec() ==> r == self.is_zero_spec(),
    ;
}

} // verus!
