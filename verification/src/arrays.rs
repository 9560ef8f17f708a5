//! Array routines with exact contracts: the classic pair-sum search, the
//! replace-with-greatest-to-the-right transformation, and the product of all
//! other elements.

use vstd::prelude::*;
use vstd::arithmetic::mul::lemma_mul_is_associative;

use std::collections::HashMap;

verus! {

broadcast use vstd::std_specs::hash::group_hash_axioms;

/// Finds the first pair of positions whose elements sum to `target`.
///
/// `None` is returned exactly when no two positions sum to `target`. A
/// returned pair `[a, b]` is the one the left-to-right scan finds: `b` is
/// the least second position of any such pair, and `a` is the greatest
/// first position below it holding the complement.
pub fn two_sum(nums: Vec<i32>, target: i32) -> (r: Option<Vec<i32>>)
    requires
        nums@.len() <= i32::MAX,
    ensures
        r is None ==> forall|p: int, q: int|
            0 <= p < q < nums@.len() ==> nums@[p] + nums@[q] != target,
        r matches Some(v) ==> {
            &&& v@.len() == 2
            &&& 0 <= v@[0] < v@[1] < nums@.len()
            &&& nums@[v@[0] as int] + nums@[v@[1] as int] == target
            &&& forall|p: int, q: int| 0 <= p < q < v@[1] ==> nums@[p] + nums@[q] != target
            &&& forall|p: int| v@[0] < p < v@[1] ==> #[trigger] nums@[p] + nums@[v@[1] as int]
                != target
        },
{
    let n = nums.len();
    let mut pre_map: HashMap<i32, i32> = HashMap::new();
    let mut i: usize = 0;
    while i < n
        invariant
            n == nums@.len(),
            n <= i32::MAX,
            i <= n,
            forall|k: i32|
                #[trigger] pre_map@.contains_key(k) <==> exists|t: int|
                    0 <= t < i && nums@[t] == k,
            forall|k: i32|
                #[trigger] pre_map@.contains_key(k) ==> {
                    &&& 0 <= pre_map@[k] < i
                    &&& nums@[pre_map@[k] as int] == k
                    &&& forall|t: int| pre_map@[k] < t < i ==> nums@[t] != k
                },
            forall|p: int, q: int| 0 <= p < q < i ==> nums@[p] + nums@[q] != target,
        decreases n - i,
    {
        let num = nums[i];
        let c64: i64 = target as i64 - num as i64;
        if i32::MIN as i64 <= c64 && c64 <= i32::MAX as i64 {
            let c: i32 = c64 as i32;
            if let Some(pre) = pre_map.get(&c) {
                let mut v: Vec<i32> = Vec::new();
                v.push(*pre);
                v.push(i as i32);
                return Some(v);
            }
        } else {
            proof {
                assert forall|p: int| 0 <= p < i implies nums@[p] + nums@[i as int] != target by {
                    assert(i32::MIN <= nums@[p] <= i32::MAX);
                }
            }
        }
        pre_map.insert(num, i as i32);
        i += 1;
    }
    None
}

/// The greatest element of `s` at or after position `i`, or `-1` when there
/// is none.
pub open spec fn suffix_max(s: Seq<i32>, i: int) -> int
    decreases s.len() - i,
{
    if i < 0 || i >= s.len() {
        -1
    } else {
        let rest = suffix_max(s, i + 1);
        if s[i] > rest {
            s[i] as int
        } else {
            rest
        }
    }
}

/// Replaces every element by the greatest element to its right; the last
/// element becomes `-1`.
pub fn replace_elements(arr: Vec<i32>) -> (r: Vec<i32>)
    ensures
        r@.len() == arr@.len(),
        forall|i: int| 0 <= i < arr@.len() ==> r@[i] == suffix_max(arr@, i + 1),
{
    let ghost orig = arr@;
    let mut arr = arr;
    let n = arr.len();
    let mut max_val: i32 = -1;
    let mut i: usize = n;
    while i > 0
        invariant
            n == arr@.len(),
            n == orig.len(),
            i <= n,
            arr@.subrange(0, i as int) == orig.subrange(0, i as int),
            forall|j: int| i <= j < n ==> arr@[j] == suffix_max(orig, j + 1),
            max_val == suffix_max(orig, i as int),
        decreases i,
    {
        i -= 1;
        proof {
            assert(arr@[i as int] == orig.subrange(0, i + 1)[i as int]);
        }
        let current = arr[i];
        arr.set(i, max_val);
        if current > max_val {
            max_val = current;
        }
        proof {
            assert(arr@.subrange(0, i as int) =~= orig.subrange(0, i as int));
        }
    }
    arr
}

/// The product of the elements of `s` in positions `lo..hi`.
pub open spec fn range_product(s: Seq<i32>, lo: int, hi: int) -> int
    decreases hi - lo,
{
    if lo < 0 || lo >= hi || hi > s.len() {
        1
    } else {
        s[lo] * range_product(s, lo + 1, hi)
    }
}

/// Extending a product range on the right multiplies in the new element.
proof fn lemma_range_product_snoc(s: Seq<i32>, lo: int, hi: int)
    requires
        0 <= lo <= hi < s.len(),
    ensures
        range_product(s, lo, hi + 1) == range_product(s, lo, hi) * s[hi],
    decreases hi - lo,
{
    if lo == hi {
        assert(range_product(s, lo + 1, hi + 1) == 1);
        assert(range_product(s, lo, hi + 1) == s[lo] * range_product(s, lo + 1, hi + 1));
        assert(range_product(s, lo, hi) == 1);
    } else {
        lemma_range_product_snoc(s, lo + 1, hi);
        assert(range_product(s, lo, hi + 1) == s[lo] * range_product(s, lo + 1, hi + 1));
        assert(range_product(s, lo + 1, hi + 1) == range_product(s, lo + 1, hi) * s[hi]);
        assert(range_product(s, lo, hi) == s[lo] * range_product(s, lo + 1, hi));
        lemma_mul_is_associative(s[lo] as int, range_product(s, lo + 1, hi), s[hi] as int);
    }
}

/// Replaces every element by the product of all the others, using prefix
/// and suffix products. The caller guarantees that every intermediate
/// product fits a machine integer.
pub fn product_except_self(nums: Vec<i32>) -> (r: Vec<i32>)
    requires
        forall|i: int|
            0 <= i <= nums@.len() ==> i32::MIN <= #[trigger] range_product(nums@, 0, i)
                <= i32::MAX,
        forall|i: int|
            0 <= i <= nums@.len() ==> i32::MIN <= #[trigger] range_product(nums@, i, nums@.len() as int)
                <= i32::MAX,
        forall|i: int|
            0 <= i < nums@.len() ==> i32::MIN <= #[trigger] (range_product(nums@, 0, i)
                * range_product(nums@, i + 1, nums@.len() as int)) <= i32::MAX,
    ensures
        r@.len() == nums@.len(),
        forall|i: int|
            0 <= i < nums@.len() ==> r@[i] == range_product(nums@, 0, i) * range_product(
                nums@,
                i + 1,
                nums@.len() as int,
            ),
{
    let ghost s = nums@;
    let n = nums.len();
    let mut res: Vec<i32> = Vec::new();
    while res.len() < n
        invariant
            n == s.len(),
            res@.len() <= n,
            forall|j: int| 0 <= j < res@.len() ==> res@[j] == 1,
        decreases n - res.len(),
    {
        res.push(1);
    }
    let mut prefix: i32 = 1;
    let mut i: usize = 0;
    while i < n
        invariant
            n == s.len(),
            nums@ == s,
            res@.len() == n,
            i <= n,
            prefix == range_product(s, 0, i as int),
            forall|j: int| 0 <= j < i ==> res@[j] == range_product(s, 0, j),
            forall|i0: int| 0 <= i0 <= n ==> i32::MIN <= #[trigger] range_product(s, 0, i0) <= i32::MAX,
        decreases n - i,
    {
        res.set(i, prefix);
        proof {
            lemma_range_product_snoc(s, 0, i as int);
        }
        prefix = prefix * nums[i];
        i += 1;
    }
    let mut suffix: i32 = 1;
    let mut i: usize = n;
    while i > 0
        invariant
            n == s.len(),
            nums@ == s,
            res@.len() == n,
            i <= n,
            suffix == range_product(s, i as int, n as int),
            forall|j: int| 0 <= j < i ==> res@[j] == range_product(s, 0, j),
            forall|j: int|
                i <= j < n ==> res@[j] == range_product(s, 0, j) * range_product(
                    s,
                    j + 1,
                    n as int,
                ),
            forall|i0: int|
                0 <= i0 <= n ==> i32::MIN <= #[trigger] range_product(s, i0, n as int) <= i32::MAX,
            forall|i0: int|
                0 <= i0 < n ==> i32::MIN <= #[trigger] (range_product(s, 0, i0) * range_product(
                    s,
                    i0 + 1,
                    n as int,
                )) <= i32::MAX,
        decreases i,
    {
        i -= 1;
        proof {
            assert(res@[i as int] == range_product(s, 0, i as int));
            assert(i32::MIN <= range_product(s, 0, i as int) * range_product(
                s,
                i + 1,
                n as int,
            ) <= i32::MAX);
        }
        let value = res[i] * suffix;
        res.set(i, value);
        proof {
            assert(i32::MIN <= range_product(s, i as int, n as int) <= i32::MAX);
            assert(range_product(s, i as int, n as int) == s[i as int] * range_product(
                s,
                i + 1,
                n as int,
            ));
            assert(s[i as int] * range_product(s, i + 1, n as int) == range_product(
                s,
                i + 1,
                n as int,
            ) * s[i as int]) by (nonlinear_arith);
        }
        suffix = suffix * nums[i];
    }
    res
}

} // verus!
