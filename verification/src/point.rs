use crate::error::KMeansError;
use crate::scalar::{order_of, Order, Scalar};
use vstd::prelude::*;

verus! {

/// What a point must offer for clusters to be told apart by distance.
pub trait KMeansPoint: Sized {
    type Output;

    fn square(self) -> Self;

    fn sum(self) -> Self::Output;

    fn distance(self, other: Self) -> Self::Output;
}

/// A point of the data set: its coordinates, one scalar per dimension.
#[derive(PartialEq, Debug)]
pub struct Vector<S: Scalar> {
    pub point: Vec<S>,
}

pub type Point<S> = Vector<S>;

impl<S: Scalar> View for Vector<S> {
    type V = Seq<S>;

    open spec fn view(&self) -> Seq<S> {
        self.point@
    }
}

/// The number of coordinates that two vectors have in common: operations on
/// two vectors stop where the shorter one ends.
pub open spec fn common_len<S>(a: Seq<S>, b: Seq<S>) -> nat {
    if a.len() <= b.len() {
        a.len()
    } else {
        b.len()
    }
}

/// Coordinate by coordinate, `a + b`.
pub open spec fn added<S: Scalar>(a: Seq<S>, b: Seq<S>) -> Seq<S> {
    Seq::new(common_len(a, b), |i: int| a[i].add_spec(b[i]))
}

/// Coordinate by coordinate, `a - b`.
pub open spec fn subtracted<S: Scalar>(a: Seq<S>, b: Seq<S>) -> Seq<S> {
    Seq::new(common_len(a, b), |i: int| a[i].sub_spec(b[i]))
}

/// Coordinate by coordinate, `a * b`.
pub open spec fn multiplied<S: Scalar>(a: Seq<S>, b: Seq<S>) -> Seq<S> {
    Seq::new(common_len(a, b), |i: int| a[i].mul_spec(b[i]))
}

/// Every coordinate of `a` divided by `n`.
pub open spec fn divided<S: Scalar>(a: Seq<S>, n: S) -> Seq<S> {
    Seq::new(a.len(), |i: int| a[i].div_spec(n))
}

/// The vector of `n` zeros.
pub open spec fn zeros<S: Scalar>(n: nat) -> Seq<S> {
    Seq::new(n, |i: int| S::zero_spec())
}

/// The coordinates of `a` added up from the left, starting at zero.
pub open spec fn summed<S: Scalar>(a: Seq<S>) -> S
    decreases a.len(),
{
    if a.len() == 0 {
        S::zero_spec()
    } else {
        summed(a.drop_last()).add_spec(a.last())
    }
}

/// The Euclidean distance from `a` to `b`: the square root of the sum of
/// the squared differences.
pub open spec fn distance_between<S: Scalar>(a: Seq<S>, b: Seq<S>) -> S {
    let d = subtracted(a, b);
    summed(multiplied(d, d)).sqrt_spec()
}

/// Whether two scalars compare as equal.
pub open spec fn same_scalar<S: Scalar>(x: S, y: S) -> bool {
    order_of(x.key(), y.key()) == Some(Order::Equal)
}

/// Whether two vectors have the same dimension and equal coordinates.
pub open spec fn same_vector<S: Scalar>(a: Seq<S>, b: Seq<S>) -> bool {
    &&& a.len() == b.len()
    &&& forall|i: int| 0 <= i < a.len() ==> same_scalar(#[trigger] a[i], b[i])
}

impl<S: Scalar> Clone for Vector<S> {
    fn clone(&self) -> (r: Self)
        ensures
            r@ == self@,
    {
        let mut out: Vec<S> = Vec::with_capacity(self.point.len());
        let mut i: usize = 0;
        while i < self.point.len()
            invariant
                i <= self.point.len(),
                out@ == self@.take(i as int),
            decreases self.point.len() - i,
        {
            out.push(self.point[i]);
            i = i + 1;
        }
        Vector { point: out }
    }
}

impl<S: Scalar> Vector<S> {
    /// The point with the coordinates `point`.
    pub fn new(point: Vec<S>) -> (r: Self)
        ensures
            r@ == point@,
    {
        Vector { point }
    }

    /// The vector of `n` zeros.
    pub fn zeros(n: usize) -> (r: Self)
        ensures
            r@ == zeros::<S>(n as nat),
    {
        let mut out: Vec<S> = Vec::with_capacity(n);
        let mut i: usize = 0;
        while i < n
            invariant
                i <= n,
                out@ == zeros::<S>(i as nat),
            decreases n - i,
        {
            out.push(S::zero());
            i = i + 1;
        }
        Vector { point: out }
    }

    /// The number of coordinates that `self` and `rhs` both have.
    fn shared_len(&self, rhs: &Self) -> (n: usize)
        ensures
            n == common_len(self@, rhs@),
    {
        if self.point.len() <= rhs.point.len() {
            self.point.len()
        } else {
            rhs.point.len()
        }
    }

    /// Coordinate by coordinate, `self + rhs`.
    pub fn add(self, rhs: Self) -> (r: Self)
        ensures
            r@ == added(self@, rhs@),
    {
        let n = self.shared_len(&rhs);
        let mut out: Vec<S> = Vec::with_capacity(n);
        let mut i: usize = 0;
        while i < n
            invariant
                n == common_len(self@, rhs@),
                i <= n,
                out@ == added(self@, rhs@).take(i as int),
            decreases n - i,
        {
            out.push(self.point[i].add(&rhs.point[i]));
            i = i + 1;
        }
        Vector { point: out }
    }

    /// Coordinate by coordinate, `self - rhs`.
    pub fn sub(self, rhs: Self) -> (r: Self)
        ensures
            r@ == subtracted(self@, rhs@),
    {
        let n = self.shared_len(&rhs);
        let mut out: Vec<S> = Vec::with_capacity(n);
        let mut i: usize = 0;
        while i < n
            invariant
                n == common_len(self@, rhs@),
                i <= n,
                out@ == subtracted(self@, rhs@).take(i as int),
            decreases n - i,
        {
            out.push(self.point[i].sub(&rhs.point[i]));
            i = i + 1;
        }
        Vector { point: out }
    }

    /// Coordinate by coordinate, `self * rhs`.
    pub fn mul(self, rhs: Self) -> (r: Self)
        ensures
            r@ == multiplied(self@, rhs@),
    {
        let n = self.shared_len(&rhs);
        let mut out: Vec<S> = Vec::with_capacity(n);
        let mut i: usize = 0;
        while i < n
            invariant
                n == common_len(self@, rhs@),
                i <= n,
                out@ == multiplied(self@, rhs@).take(i as int),
            decreases n - i,
        {
            out.push(self.point[i].mul(&rhs.point[i]));
            i = i + 1;
        }
        Vector { point: out }
    }

    /// Divides every coordinate by `n`, unless `n` equals zero.
    pub fn div(self, n: S) -> (r: Result<Self, KMeansError>)
        ensures
            n.key() == Some(0i64) <==> r is Err,
            r is Err ==> r == Err::<Self, KMeansError>(KMeansError::DivideByZero),
            r is Ok ==> r->Ok_0@ == divided(self@, n),
    {
        let zero = S::zero();
        match n.compare(&zero) {
            Some(Order::Equal) => {
                return Err(KMeansError::DivideByZero);
            },
            _ => {},
        }
        let mut out: Vec<S> = Vec::with_capacity(self.point.len());
        let mut i: usize = 0;
        while i < self.point.len()
            invariant
                i <= self.point.len(),
                out@ == divided(self@, n).take(i as int),
            decreases self.point.len() - i,
        {
            out.push(self.point[i].div(&n));
            i = i + 1;
        }
        Ok(Vector { point: out })
    }

    /// Whether `self` and `other` have the same dimension and equal
    /// coordinates.
    pub fn equals(&self, other: &Self) -> (r: bool)
        ensures
            r == same_vector(self@, other@),
    {
        if self.point.len() != other.point.len() {
            return false;
        }
        let mut i: usize = 0;
        while i < self.point.len()
            invariant
                i <= self.point.len(),
                self.point.len() == other.point.len(),
                forall|j: int| 0 <= j < i ==> same_scalar(#[trigger] self@[j], other@[j]),
            decreases self.point.len() - i,
        {
            match self.point[i].compare(&other.point[i]) {
                Some(Order::Equal) => {},
                _ => {
                    return false;
                },
            }
            i = i + 1;
        }
        true
    }
}

impl<S: Scalar> KMeansPoint for Vector<S> {
    type Output = S;

    /// Every coordinate multiplied by itself.
    fn square(self) -> (r: Self)
        ensures
            r@ == multiplied(self@, self@),
    {
        let other = self.clone();
        self.mul(other)
    }

    /// The coordinates added up.
    fn sum(self) -> (r: S)
        ensures
            r == summed(self@),
    {
        let mut acc = S::zero();
        let mut i: usize = 0;
        while i < self.point.len()
            invariant
                i <= self.point.len(),
                acc == summed(self@.take(i as int)),
            decreases self.point.len() - i,
        {
            acc = acc.add(&self.point[i]);
            assert(self@.take(i + 1).drop_last() =~= self@.take(i as int));
            i = i + 1;
        }
        assert(self@.take(i as int) =~= self@);
        acc
    }

    /// The Euclidean distance from `self` to `other`.
    fn distance(self, other: Self) -> (r: S)
        ensures
            r == distance_between(self@, other@),
    {
        self.sub(other).square().sum().sqrt()
    }
}

} // verus!
