use vstd::prelude::*;

verus! {

/// Why a clustering operation could not be carried out.
#[derive(Clone, Copy, PartialEq, Eq, Structural, Debug)]
pub enum KMeansError {
    /// A vector was divided by a scalar equal to zero: a cluster that holds
    /// no point has no mean.
    DivideByZero,
    /// More clusters were asked for than there are points, or the nearest
    /// of no clusters at all.
    InvalidArgument,
    /// Two distances were compared and one of them is not a number.
    InvalidComparison,
}

} // verus!
