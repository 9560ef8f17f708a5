//! Small arithmetic routines with exact contracts: checked addition and
//! multiplication, truncating division, and a generic maximum over a slice.

use vstd::prelude::*;
use vstd::laws_cmp::obeys_cmp;
use vstd::laws_cmp::obeys_partial_cmp_spec_properties;
use vstd::std_specs::cmp::PartialOrdSpec;

use core::cmp::Ordering;

verus! {

/// Sum of two machine integers; the caller guarantees the sum fits.
pub fn add(a: i32, b: i32) -> (r: i32)
    requires
        i32::MIN <= a + b <= i32::MAX,
    ensures
        r == a + b,
{
    a + b
}

/// Product of two machine integers; the caller guarantees the product fits.
pub fn multiply(a: i32, b: i32) -> (r: i32)
    requires
        i32::MIN <= a * b <= i32::MAX,
    ensures
        r == a * b,
{
    a * b
}

/// Truncating integer division, as machine division behaves: the quotient
/// of the magnitudes, with the sign of the exact quotient.
pub open spec fn trunc_div(a: int, b: int) -> int
    recommends
        b != 0,
{
    if a == 0 {
        0
    } else if a > 0 && b > 0 {
        a / b
    } else if a < 0 && b < 0 {
        (a * -1) / (b * -1)
    } else if a < 0 {
        ((a * -1) / b) * -1
    } else {
        (a / (b * -1)) * -1
    }
}

/// Division that refuses a zero divisor: `None` exactly when `b` is zero,
/// and the truncating quotient otherwise. The one overflowing pair of
/// arguments is excluded.
pub fn divide(a: i32, b: i32) -> (r: Option<i32>)
    requires
        !(a == i32::MIN && b == -1),
    ensures
        b == 0 ==> r is None,
        b != 0 ==> (r matches Some(q) && q == trunc_div(a as int, b as int)),
{
    proof {
        if b != 0 {
            let x = a as int;
            let d = b as int;
            if x > 0 && d > 0 {
                lemma_quotient_in_range(x, d);
            } else if x < 0 && d < 0 {
                lemma_quotient_in_range(x * -1, d * -1);
                if x == i32::MIN {
                    assert(d * -1 >= 2);
                    assert((x * -1) / (d * -1) <= i32::MAX) by (nonlinear_arith)
                        requires
                            x == -0x8000_0000,
                            d * -1 >= 2,
                    ;
                }
            } else if x < 0 {
                lemma_quotient_in_range(x * -1, d);
            } else if x > 0 {
                lemma_quotient_in_range(x, d * -1);
            }
        }
    }
    a.checked_div(b)
}

/// For a non-negative numerator and positive denominator the quotient lies
/// between zero and the numerator.
proof fn lemma_quotient_in_range(x: int, d: int)
    requires
        x > 0,
        d > 0,
    ensures
        0 <= x / d <= x,
{
    assert(0 <= x / d <= x) by (nonlinear_arith)
        requires
            x > 0,
            d > 0,
    ;
}

/// A reference to a maximum element of the slice: `None` only when the
/// slice is empty; otherwise an element no other element exceeds. The
/// comparison laws of `T` are those `Ord` promises.
pub fn max<T: Ord>(list: &[T]) -> (r: Option<&T>)
    requires
        obeys_cmp::<T>(),
    ensures
        (r is None) == (list@.len() == 0),
        r matches Some(m) ==> exists|i: int| 0 <= i < list@.len() && list@[i] == *m,
        r matches Some(m) ==> forall|i: int|
            0 <= i < list@.len() ==> (#[trigger] list@[i].partial_cmp_spec(m)) != Some(
                Ordering::Greater,
            ),
{
    proof {
        reveal(vstd::laws_cmp::obeys_cmp_partial_ord);
        reveal(obeys_partial_cmp_spec_properties);
    }
    let n = list.len();
    if n == 0 {
        return None;
    }
    let mut best: usize = 0;
    let mut i: usize = 1;
    while i < n
        invariant
            obeys_cmp::<T>(),
            n == list@.len(),
            best < i <= n,
            forall|j: int|
                0 <= j < i ==> (#[trigger] list@[j].partial_cmp_spec(&list@[best as int])) != Some(
                    Ordering::Greater,
                ),
        decreases n - i,
    {
        proof {
            reveal(vstd::laws_cmp::obeys_cmp_partial_ord);
            reveal(obeys_partial_cmp_spec_properties);
        }
        if list[i] > list[best] {
            best = i;
        }
        i += 1;
    }
    Some(&list[best])
}

} // verus!
