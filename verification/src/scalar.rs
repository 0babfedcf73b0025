use vstd::prelude::*;

verus! {

/// How one scalar stands to another.
#[derive(Clone, Copy, PartialEq, Eq, Debug)]
pub enum Order {
    Less,
    Equal,
    Greater,
}

/// The order of two keys; `None` when either key is missing.
pub open spec fn order_of(a: Option<i64>, b: Option<i64>) -> Option<Order> {
    match (a, b) {
        (Some(x), Some(y)) => Some(
            if x < y {
                Order::Less
            } else if x == y {
                Order::Equal
            } else {
                Order::Greater
            },
        ),
        _ => None,
    }
}

/// A number type the clustering can run on.
///
/// Every operation is total and is a function of its arguments: beside each
/// one stands a function ending in `_spec` that names the value it returns.
/// The numbers are ordered through `key`, which places them among the
/// integers with zero at `0`; a value without a key is not a number and
/// compares with nothing, itself included.
pub trait Scalar: Copy {
    /// Zero.
    spec fn zero_spec() -> Self;

    /// The whole number `n`.
    spec fn from_count_spec(n: i32) -> Self;

    /// `self + rhs`.
    spec fn add_spec(self, rhs: Self) -> Self;

    /// `self - rhs`.
    spec fn sub_spec(self, rhs: Self) -> Self;

    /// `self * rhs`.
    spec fn mul_spec(self, rhs: Self) -> Self;

    /// `self / rhs`.
    spec fn div_spec(self, rhs: Self) -> Self;

    /// The square root of `self`.
    spec fn sqrt_spec(self) -> Self;

    /// The place of `self` among the integers, if it is a number: of two
    /// numbers the lesser has the lesser key, and equal ones have the same.
    spec fn key(self) -> Option<i64>;

    fn zero() -> (r: Self)
        ensures
            r == Self::zero_spec(),
            r.key() == Some(0i64),
    ;

    /// Only the count of nothing is zero.
    fn from_count(n: i32) -> (r: Self)
        ensures
            r == Self::from_count_spec(n),
            r.key() == Some(0i64) <==> n == 0,
    ;

    fn add(&self, rhs: &Self) -> (r: Self)
        ensures
            r == self.add_spec(*rhs),
    ;

    fn sub(&self, rhs: &Self) -> (r: Self)
        ensures
            r == self.sub_spec(*rhs),
    ;

    fn mul(&self, rhs: &Self) -> (r: Self)
        ensures
            r == self.mul_spec(*rhs),
    ;

    fn div(&self, rhs: &Self) -> (r: Self)
        ensures
            r == self.div_spec(*rhs),
    ;

    fn sqrt(&self) -> (r: Self)
        ensures
            r == self.sqrt_spec(),
    ;

    /// How `self` stands to `other`, if both are numbers.
    fn compare(&self, other: &Self) -> (r: Option<Order>)
        ensures
            r == order_of(self.key(), other.key()),
    ;
}

} // verus!
