use crate::point::{distance_between, multiplied, subtracted, summed};
use crate::scalar::{Order, Scalar};
use vstd::prelude::*;

verus! {

/// How many units of a `Fixed` make one: it keeps six decimal places.
pub const SCALE: i64 = 1_000_000;

/// A decimal fixed-point number: `micros` millionths, or nothing once an
/// operation has left the range of `i64` or has no value (a division by
/// zero, the root of a negative number). A number that is nothing stays so
/// through every operation and compares with no number.
#[derive(Clone, Copy, PartialEq, Eq, Debug)]
pub struct Fixed {
    pub micros: Option<i64>,
}

/// `v` as a number of millionths, if `i64` holds it.
pub open spec fn checked(v: int) -> Option<i64> {
    if i64::MIN <= v <= i64::MAX {
        Some(v as i64)
    } else {
        None
    }
}

/// `n / d` rounded toward zero, for `d != 0`.
pub open spec fn quotient(n: int, d: int) -> int {
    if n >= 0 && d > 0 {
        n / d
    } else if n >= 0 {
        -(n / (-d))
    } else if d > 0 {
        -((-n) / d)
    } else {
        (-n) / (-d)
    }
}

/// Whether `r` is the square root of `n`, rounded down.
pub open spec fn is_root(n: int, r: int) -> bool {
    0 <= r && r * r <= n < (r + 1) * (r + 1)
}

/// The square root of `n`, rounded down, for `n >= 0`.
pub open spec fn root(n: int) -> int {
    choose|r: int| is_root(n, r)
}

/// Between two roots of one number no room is left: they are equal.
pub proof fn lemma_root_unique(n: int, r: int, s: int)
    requires
        is_root(n, r),
        is_root(n, s),
    ensures
        r == s,
{
    if r < s {
        assert((r + 1) * (r + 1) <= s * s) by (nonlinear_arith)
            requires
                0 <= r,
                r + 1 <= s,
        ;
    }
    if s < r {
        assert((s + 1) * (s + 1) <= r * r) by (nonlinear_arith)
            requires
                0 <= s,
                s + 1 <= r,
        ;
    }
}

/// `n / d` rounded toward zero, where `i64` holds it.
fn quotient_of(n: i128, d: i128) -> (r: Option<i64>)
    requires
        d != 0,
        i128::MIN < n,
        i128::MIN < d,
    ensures
        r == checked(quotient(n as int, d as int)),
{
    let n_mag: u128 = if n < 0 { (-n) as u128 } else { n as u128 };
    let d_mag: u128 = if d < 0 { (-d) as u128 } else { d as u128 };
    let q: u128 = n_mag / d_mag;
    if (n < 0) == (d < 0) {
        if q <= 0x7fff_ffff_ffff_ffff {
            Some(q as i64)
        } else {
            None
        }
    } else {
        if q <= 0x8000_0000_0000_0000 {
            Some((-(q as i128)) as i64)
        } else {
            None
        }
    }
}

/// The square root of `n`, rounded down.
fn root_of(n: u128) -> (r: u128)
    requires
        n < 0x1000_0000_0000_0000_0000_0000,
    ensures
        r == root(n as int),
        r < 0x1_0000_0000_0000,
{
    let mut low: u128 = 0;
    let mut high: u128 = 0x1_0000_0000_0000;
    assert(0x1_0000_0000_0000 * 0x1_0000_0000_0000 == 0x1_0000_0000_0000_0000_0000_0000int)
        by (nonlinear_arith);
    while high - low > 1
        invariant
            low < high <= 0x1_0000_0000_0000,
            low * low <= n < high * high,
        decreases high - low,
    {
        let mid: u128 = low + (high - low) / 2;
        assert(mid * mid < 0x1_0000_0000_0000 * 0x1_0000_0000_0000) by (nonlinear_arith)
            requires
                0 <= mid < 0x1_0000_0000_0000,
        ;
        if mid * mid <= n {
            low = mid;
        } else {
            high = mid;
        }
    }
    proof {
        lemma_root_unique(n as int, low as int, root(n as int));
    }
    low
}

impl Fixed {
    /// The number of `micros` millionths.
    pub fn new(micros: i64) -> (r: Self)
        ensures
            r.micros == Some(micros),
    {
        Fixed { micros: Some(micros) }
    }
}

impl Scalar for Fixed {
    open spec fn zero_spec() -> Self {
        Fixed { micros: Some(0i64) }
    }

    open spec fn from_count_spec(n: i32) -> Self {
        Fixed { micros: checked(n * SCALE) }
    }

    open spec fn add_spec(self, rhs: Self) -> Self {
        match (self.micros, rhs.micros) {
            (Some(x), Some(y)) => Fixed { micros: checked(x + y) },
            _ => Fixed { micros: None },
        }
    }

    open spec fn sub_spec(self, rhs: Self) -> Self {
        match (self.micros, rhs.micros) {
            (Some(x), Some(y)) => Fixed { micros: checked(x - y) },
            _ => Fixed { micros: None },
        }
    }

    open spec fn mul_spec(self, rhs: Self) -> Self {
        match (self.micros, rhs.micros) {
            (Some(x), Some(y)) => Fixed { micros: checked(quotient(x * y, SCALE as int)) },
            _ => Fixed { micros: None },
        }
    }

    open spec fn div_spec(self, rhs: Self) -> Self {
        match (self.micros, rhs.micros) {
            (Some(x), Some(y)) if y != 0 => Fixed {
                micros: checked(quotient(x * SCALE, y as int)),
            },
            _ => Fixed { micros: None },
        }
    }

    open spec fn sqrt_spec(self) -> Self {
        match self.micros {
            Some(x) if x >= 0 => Fixed { micros: checked(root(x * SCALE)) },
            _ => Fixed { micros: None },
        }
    }

    open spec fn key(self) -> Option<i64> {
        self.micros
    }

    fn zero() -> (r: Self) {
        Fixed { micros: Some(0) }
    }

    fn from_count(n: i32) -> (r: Self) {
        let m: i64 = (n as i64) * SCALE;
        Fixed { micros: Some(m) }
    }

    fn add(&self, rhs: &Self) -> (r: Self) {
        match (self.micros, rhs.micros) {
            (Some(x), Some(y)) => {
                let s: i128 = x as i128 + y as i128;
                if -0x8000_0000_0000_0000 <= s && s <= 0x7fff_ffff_ffff_ffff {
                    Fixed { micros: Some(s as i64) }
                } else {
                    Fixed { micros: None }
                }
            },
            _ => Fixed { micros: None },
        }
    }

    fn sub(&self, rhs: &Self) -> (r: Self) {
        match (self.micros, rhs.micros) {
            (Some(x), Some(y)) => {
                let s: i128 = x as i128 - y as i128;
                if -0x8000_0000_0000_0000 <= s && s <= 0x7fff_ffff_ffff_ffff {
                    Fixed { micros: Some(s as i64) }
                } else {
                    Fixed { micros: None }
                }
            },
            _ => Fixed { micros: None },
        }
    }

    fn mul(&self, rhs: &Self) -> (r: Self) {
        match (self.micros, rhs.micros) {
            (Some(x), Some(y)) => {
                assert(-0x4000_0000_0000_0000_0000_0000_0000_0000 <= x * y
                    <= 0x4000_0000_0000_0000_0000_0000_0000_0000) by (nonlinear_arith)
                    requires
                        -0x8000_0000_0000_0000 <= x <= 0x8000_0000_0000_0000,
                        -0x8000_0000_0000_0000 <= y <= 0x8000_0000_0000_0000,
                ;
                let p: i128 = (x as i128) * (y as i128);
                Fixed { micros: quotient_of(p, SCALE as i128) }
            },
            _ => Fixed { micros: None },
        }
    }

    fn div(&self, rhs: &Self) -> (r: Self) {
        match (self.micros, rhs.micros) {
            (Some(x), Some(y)) => {
                if y == 0 {
                    Fixed { micros: None }
                } else {
                    let p: i128 = (x as i128) * (SCALE as i128);
                    Fixed { micros: quotient_of(p, y as i128) }
                }
            },
            _ => Fixed { micros: None },
        }
    }

    fn sqrt(&self) -> (r: Self) {
        match self.micros {
            Some(x) => {
                if x < 0 {
                    Fixed { micros: None }
                } else {
                    let p: u128 = (x as u128) * (SCALE as u128);
                    let s = root_of(p);
                    Fixed { micros: Some(s as i64) }
                }
            },
            None => Fixed { micros: None },
        }
    }

    fn compare(&self, other: &Self) -> (r: Option<Order>) {
        match (self.micros, other.micros) {
            (Some(x), Some(y)) => Some(
                if x < y {
                    Order::Less
                } else if x == y {
                    Order::Equal
                } else {
                    Order::Greater
                },
            ),
            _ => None,
        }
    }
}

/// Every number that is not negative has a square root, rounded down.
pub proof fn lemma_root_exists(n: int)
    requires
        n >= 0,
    ensures
        is_root(n, root(n)),
    decreases n,
{
    if n == 0 {
        assert(is_root(0, 0));
    } else {
        lemma_root_exists(n - 1);
        let r = root(n - 1);
        if (r + 1) * (r + 1) <= n {
            assert((r + 1) * (r + 1) < (r + 2) * (r + 2)) by (nonlinear_arith)
                requires
                    0 <= r,
            ;
            assert(is_root(n, r + 1));
        } else {
            assert(is_root(n, r));
        }
    }
}

/// The square of a difference is that of the opposite difference, also
/// where one of them leaves the range.
pub proof fn lemma_square_of_difference(x: Fixed, y: Fixed)
    ensures
        x.sub_spec(y).mul_spec(x.sub_spec(y)) == y.sub_spec(x).mul_spec(y.sub_spec(x)),
{
    if let (Some(a), Some(b)) = (x.micros, y.micros) {
        let d = a - b;
        assert(d * d == (-d) * (-d)) by (nonlinear_arith);
        assert(0x8000_0000_0000_0000 * 0x8000_0000_0000_0000
            == 0x4000_0000_0000_0000_0000_0000_0000_0000int) by (nonlinear_arith);
        if d == i64::MIN || d == -i64::MIN {
            assert(d * d == 0x4000_0000_0000_0000_0000_0000_0000_0000int) by (nonlinear_arith)
                requires
                    d == -0x8000_0000_0000_0000 || d == 0x8000_0000_0000_0000,
            ;
            assert(0x4000_0000_0000_0000_0000_0000_0000_0000int / 1_000_000
                > 0x7fff_ffff_ffff_ffff) by (nonlinear_arith);
        }
    }
}

/// The distance from `a` to `b` is the distance from `b` to `a`.
pub proof fn lemma_distance_symmetric(a: Seq<Fixed>, b: Seq<Fixed>)
    ensures
        distance_between(a, b) == distance_between(b, a),
{
    let d = subtracted(a, b);
    let e = subtracted(b, a);
    assert forall|i: int| 0 <= i < d.len() implies multiplied(d, d)[i] == multiplied(e, e)[i] by {
        lemma_square_of_difference(a[i], b[i]);
    }
    assert(multiplied(d, d) =~= multiplied(e, e));
}

/// A distance is a number that is not negative, or no number at all.
pub proof fn lemma_distance_not_negative(a: Seq<Fixed>, b: Seq<Fixed>)
    ensures
        match distance_between(a, b).key() {
            Some(d) => d >= 0,
            None => true,
        },
{
    let d = subtracted(a, b);
    if let Some(x) = summed(multiplied(d, d)).micros {
        if x >= 0 {
            assert(x * SCALE >= 0) by (nonlinear_arith)
                requires
                    x >= 0,
            ;
            lemma_root_exists(x * SCALE);
        }
    }
}

/// Zeros add up to zero.
pub proof fn lemma_sum_of_zeros(a: Seq<Fixed>)
    requires
        forall|i: int| 0 <= i < a.len() ==> (#[trigger] a[i]) == Fixed::zero_spec(),
    ensures
        summed(a) == Fixed::zero_spec(),
    decreases a.len(),
{
    if a.len() > 0 {
        assert forall|i: int| 0 <= i < a.drop_last().len() implies (#[trigger] a.drop_last()[i])
            == Fixed::zero_spec() by {
            assert(a.drop_last()[i] == a[i]);
        }
        lemma_sum_of_zeros(a.drop_last());
    }
}

/// A vector of numbers is at distance zero from itself.
pub proof fn lemma_distance_to_self(a: Seq<Fixed>)
    requires
        forall|i: int| 0 <= i < a.len() ==> (#[trigger] a[i]).micros is Some,
    ensures
        distance_between(a, a) == Fixed::zero_spec(),
{
    let d = subtracted(a, a);
    assert forall|i: int| 0 <= i < d.len() implies (#[trigger] multiplied(d, d)[i])
        == Fixed::zero_spec() by {
        assert(d[i] == Fixed::zero_spec());
    }
    lemma_sum_of_zeros(multiplied(d, d));
    lemma_root_exists(0);
    lemma_root_unique(0, 0, root(0));
}

} // verus!
