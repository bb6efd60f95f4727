//! A value that may be missing, and arithmetic that lets a missing operand
//! make the result missing.

use crate::numeric::Real;
use vstd::prelude::*;

verus! {

/// An observed value, or the mark that none was observed.
#[derive(Debug, Clone, Copy, PartialEq, Eq)]
pub enum Score<T> {
    Observed(T),
    Missing,
}

impl<T> Score<T> {
    /// What combining `self` and `rhs` denotes, where `f(l, r, out)` says that
    /// `out` combines the observed values `l` and `r`.
    pub open spec fn combines_to(
        self,
        rhs: Self,
        f: spec_fn(T, T, T) -> bool,
        out: Self,
    ) -> bool {
        match (self, rhs) {
            (Score::Observed(l), Score::Observed(r)) => out matches Score::Observed(v) && f(
                l,
                r,
                v,
            ),
            _ => out is Missing,
        }
    }

    /// Whether no value was observed.
    pub fn is_none(&self) -> (r: bool)
        ensures
            r == (*self is Missing),
    {
        match self {
            Score::Observed(_) => false,
            Score::Missing => true,
        }
    }

    /// Whether a value was observed.
    pub fn is_some(&self) -> (r: bool)
        ensures
            r == (*self is Observed),
    {
        match self {
            Score::Observed(_) => true,
            Score::Missing => false,
        }
    }

    /// The observed value, if there is one.
    pub fn into_option(self) -> (r: Option<T>)
        ensures
            r == match self {
                Score::Observed(v) => Some(v),
                Score::Missing => None::<T>,
            },
    {
        match self {
            Score::Observed(v) => Some(v),
            Score::Missing => None,
        }
    }

    /// The score that holds what `value` holds, in specifications.
    pub open spec fn from_option_spec(value: Option<T>) -> Self {
        match value {
            Some(v) => Score::Observed(v),
            None => Score::Missing,
        }
    }

    /// The score that holds what `value` holds.
    pub fn from_option(value: Option<T>) -> (r: Self)
        ensures
            r == Self::from_option_spec(value),
    {
        match value {
            Some(v) => Score::Observed(v),
            None => Score::Missing,
        }
    }

    /// Combines two scores with `f`: observed only where both operands are,
    /// and then what `f` makes of the two values.
    pub fn combine<F: FnOnce(T, T) -> T>(self, rhs: Self, f: F) -> (r: Self)
        requires
            self matches Score::Observed(l) ==> (rhs matches Score::Observed(r) ==> f.requires(
                (l, r),
            )),
        ensures
            self.combines_to(rhs, |l: T, r: T, v: T| f.ensures((l, r), v), r),
    {
        match (self, rhs) {
            (Score::Observed(l), Score::Observed(r)) => Score::Observed(f(l, r)),
            _ => Score::Missing,
        }
    }
}

/// Scores are numbers themselves: an operation on scores is the operation on
/// the observed values, and missing where an operand is missing.
impl<T: Real> Real for Score<T> {
    open spec fn obeys_real_spec() -> bool {
        T::obeys_real_spec()
    }

    open spec fn zero_spec() -> Self {
        Score::Observed(T::zero_spec())
    }

    open spec fn one_spec() -> Self {
        Score::Observed(T::one_spec())
    }

    open spec fn from_usize_spec(n: usize) -> Option<Self> {
        match T::from_usize_spec(n) {
            Some(v) => Some(Score::Observed(v)),
            None => None,
        }
    }

    open spec fn add_spec(self, rhs: Self) -> Self {
        match (self, rhs) {
            (Score::Observed(l), Score::Observed(r)) => Score::Observed(l.add_spec(r)),
            _ => Score::Missing,
        }
    }

    open spec fn sub_spec(self, rhs: Self) -> Self {
        match (self, rhs) {
            (Score::Observed(l), Score::Observed(r)) => Score::Observed(l.sub_spec(r)),
            _ => Score::Missing,
        }
    }

    open spec fn mul_spec(self, rhs: Self) -> Self {
        match (self, rhs) {
            (Score::Observed(l), Score::Observed(r)) => Score::Observed(l.mul_spec(r)),
            _ => Score::Missing,
        }
    }

    open spec fn div_spec(self, rhs: Self) -> Self {
        match (self, rhs) {
            (Score::Observed(l), Score::Observed(r)) => Score::Observed(l.div_spec(r)),
            _ => Score::Missing,
        }
    }

    open spec fn abs_spec(self) -> Self {
        match self {
            Score::Observed(v) => Score::Observed(v.abs_spec()),
            Score::Missing => Score::Missing,
        }
    }

    open spec fn powi_spec(self, n: i32) -> Self {
        match self {
            Score::Observed(v) => Score::Observed(v.powi_spec(n)),
            Score::Missing => Score::Missing,
        }
    }

    open spec fn powf_spec(self, e: Self) -> Self {
        match (self, e) {
            (Score::Observed(v), Score::Observed(x)) => Score::Observed(v.powf_spec(x)),
            _ => Score::Missing,
        }
    }

    open spec fn sqrt_spec(self) -> Self {
        match self {
            Score::Observed(v) => Score::Observed(v.sqrt_spec()),
            Score::Missing => Score::Missing,
        }
    }

    open spec fn is_zero_spec(self) -> bool {
        self matches Score::Observed(v) && v.is_zero_spec()
    }

    open spec fn le_spec(self, rhs: Self) -> bool {
        match (self, rhs) {
            (Score::Observed(l), Score::Observed(r)) => l.le_spec(r),
            _ => false,
        }
    }

    fn zero() -> (r: Self)
        ensures
            r is Observed,
    {
        Score::Observed(T::zero())
    }

    fn one() -> (r: Self)
        ensures
            r is Observed,
    {
        Score::Observed(T::one())
    }

    fn from_usize(n: usize) -> (r: Option<Self>)
        ensures
            r matches Some(s) ==> s is Observed,
    {
        match T::from_usize(n) {
            Some(v) => Some(Score::Observed(v)),
            None => None,
        }
    }

    /// The sum: observed only where both operands are.
    fn add(self, rhs: Self) -> (r: Self)
        ensures
            r is Observed <==> self is Observed && rhs is Observed,
    {
        match (self, rhs) {
            (Score::Observed(l), Score::Observed(r)) => Score::Observed(l.add(r)),
            _ => Score::Missing,
        }
    }

    /// The difference: observed only where both operands are.
    fn sub(self, rhs: Self) -> (r: Self)
        ensures
            r is Observed <==> self is Observed && rhs is Observed,
    {
        match (self, rhs) {
            (Score::Observed(l), Score::Observed(r)) => Score::Observed(l.sub(r)),
            _ => Score::Missing,
        }
    }

    /// The product: observed only where both operands are.
    fn mul(self, rhs: Self) -> (r: Self)
        ensures
            r is Observed <==> self is Observed && rhs is Observed,
    {
        match (self, rhs) {
            (Score::Observed(l), Score::Observed(r)) => Score::Observed(l.mul(r)),
            _ => Score::Missing,
        }
    }

    /// The quotient: observed only where both operands are.
    fn div(self, rhs: Self) -> (r: Self)
        ensures
            r is Observed <==> self is Observed && rhs is Observed,
    {
        match (self, rhs) {
            (Score::Observed(l), Score::Observed(r)) => Score::Observed(l.div(r)),
            _ => Score::Missing,
        }
    }

    fn abs(self) -> (r: Self)
        ensures
            r is Observed <==> self is Observed,
    {
        match self {
            Score::Observed(v) => Score::Observed(v.abs()),
            Score::Missing => Score::Missing,
        }
    }

    fn powi(self, n: i32) -> (r: Self)
        ensures
            r is Observed <==> self is Observed,
    {
        match self {
            Score::Observed(v) => Score::Observed(v.powi(n)),
            Score::Missing => Score::Missing,
        }
    }

    /// The power: observed only where base and exponent are.
    fn powf(self, e: Self) -> (r: Self)
        ensures
            r is Observed <==> self is Observed && e is Observed,
    {
        match (self, e) {
            (Score::Observed(v), Score::Observed(x)) => Score::Observed(v.powf(x)),
            _ => Score::Missing,
        }
    }

    fn sqrt(self) -> (r: Self)
        ensures
            r is Observed <==> self is Observed,
    {
        match self {
            Score::Observed(v) => Score::Observed(v.sqrt()),
            Score::Missing => Score::Missing,
        }
    }

    /// Whether the score is an observed zero.
    fn is_zero(self) -> (r: bool)
        ensures
            r ==> self is Observed,
    {
        match self {
            Score::Observed(v) => v.is_zero(),
            Score::Missing => false,
        }
    }
}

/// The result of an operation on two scores is observed exactly where both
/// operands are.
pub proof fn lemma_observed_iff_both<T: Real>(a: Score<T>, b: Score<T>)
    ensures
        a.add_spec(b) is Observed <==> a is Observed && b is Observed,
        a.sub_spec(b) is Observed <==> a is Observed && b is Observed,
        a.mul_spec(b) is Observed <==> a is Observed && b is Observed,
        a.div_spec(b) is Observed <==> a is Observed && b is Observed,
        a.powf_spec(b) is Observed <==> a is Observed && b is Observed,
        forall|f: spec_fn(T, T, T) -> bool, out: Score<T>| #[trigger]
            a.combines_to(b, f, out) ==> (out is Observed <==> a is Observed && b is Observed),
{
}

} // verus!
