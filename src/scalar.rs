use vstd::prelude::*;

verus! {

/// The arithmetic that the solvers need from their sample type.
///
/// Each operation has a spec counterpart, which the contracts of the
/// library speak of: an implementation promises that the operation returns
/// exactly its counterpart, a function of the arguments alone. Beyond that
/// the library assumes nothing of the operations (no field laws), so what it
/// proves holds of any implementation, rounding included.
pub trait Scalar: Copy + Sized + Send + Sync {
    spec fn spec_zero() -> Self;

    spec fn spec_one() -> Self;

    spec fn spec_plus(self, other: Self) -> Self;

    spec fn spec_minus(self, other: Self) -> Self;

    spec fn spec_times(self, other: Self) -> Self;

    spec fn spec_divide(self, other: Self) -> Self;

    spec fn spec_negate(self) -> Self;

    spec fn spec_is_zero(self) -> bool;

    spec fn spec_is_positive(self) -> bool;

    spec fn spec_from_count(n: usize) -> Self;

    /// The additive identity; also the fixed temperature at the left end.
    fn zero() -> (r: Self)
        ensures
            r == Self::spec_zero(),
    ;

    /// The multiplicative identity.
    fn one() -> (r: Self)
        ensures
            r == Self::spec_one(),
    ;

    fn plus(self, other: Self) -> (r: Self)
        ensures
            r == self.spec_plus(other),
    ;

    fn minus(self, other: Self) -> (r: Self)
        ensures
            r == self.spec_minus(other),
    ;

    fn times(self, other: Self) -> (r: Self)
        ensures
            r == self.spec_times(other),
    ;

    /// `self / other`; the library calls it only where `other` is not zero.
    fn divide(self, other: Self) -> (r: Self)
        ensures
            r == self.spec_divide(other),
    ;

    fn negate(self) -> (r: Self)
        ensures
            r == self.spec_negate(),
    ;

    /// Whether dividing by `self` is undefined.
    fn is_zero(self) -> (r: bool)
        ensures
            r == self.spec_is_zero(),
    ;

    /// Whether `self` is strictly greater than zero.
    fn is_positive(self) -> (r: bool)
        ensures
            r == self.spec_is_positive(),
    ;

    /// The sample that stands for the count `n`.
    fn from_count(n: usize) -> (r: Self)
        ensures
            r == Self::spec_from_count(n),
    ;
}

} // verus!
