//! The most frequent values of a sequence, chosen by descending frequency.

use vstd::prelude::*;

verus! {

broadcast use vstd::seq_lib::seq_to_set_is_finite;

/// How many positions of `s` hold the value `x`.
pub open spec fn count_of(s: Seq<i32>, x: i32) -> int
    decreases s.len(),
{
    if s.len() == 0 {
        0
    } else {
        count_of(s.drop_last(), x) + if s.last() == x {
            1int
        } else {
            0int
        }
    }
}

/// A count is between zero and the sequence length.
pub(crate) proof fn lemma_count_bounds(s: Seq<i32>, x: i32)
    ensures
        0 <= count_of(s, x) <= s.len(),
    decreases s.len(),
{
    if s.len() > 0 {
        lemma_count_bounds(s.drop_last(), x);
    }
}

/// A value that occurs somewhere has a positive count.
proof fn lemma_count_pos(s: Seq<i32>, t: int)
    requires
        0 <= t < s.len(),
    ensures
        count_of(s, s[t]) >= 1,
    decreases s.len(),
{
    lemma_count_bounds(s.drop_last(), s[t]);
    if t < s.len() - 1 {
        assert(s.drop_last()[t] == s[t]);
        lemma_count_pos(s.drop_last(), t);
    }
}

/// Appending an absent element keeps a sequence duplicate-free.
pub(crate) proof fn lemma_push_no_dup(s: Seq<i32>, x: i32)
    requires
        s.no_duplicates(),
        !s.contains(x),
    ensures
        s.push(x).no_duplicates(),
{
    assert forall|p: int, q: int|
        0 <= p < s.push(x).len() && 0 <= q < s.push(x).len() && p != q implies s.push(x)[p] != s.push(
        x,
    )[q] by {
        if p < s.len() && q < s.len() {
            assert(s.push(x)[p] == s[p] && s.push(x)[q] == s[q]);
        } else if p < s.len() {
            assert(s.push(x)[q] == x && s.push(x)[p] == s[p]);
        } else {
            assert(s.push(x)[p] == x && s.push(x)[q] == s[q]);
        }
    }
}


/// True when some entry's value is `x`.
pub open spec fn has_entry(ent: Seq<(i32, usize)>, x: i32) -> bool {
    exists|j: int| 0 <= j < ent.len() && (#[trigger] ent[j]).0 == x
}

/// True when `x` is the value of an entry at frequency level `f` already
/// passed: its count exceeds `f`, or equals `f` with its index below `j`.
pub open spec fn from_entry_above(ent: Seq<(i32, usize)>, x: i32, f: int, j: int) -> bool {
    exists|jj: int|
        0 <= jj < ent.len() && x == (#[trigger] ent[jj]).0 && (ent[jj].1 > f || (ent[jj].1 == f
            && jj < j))
}

/// Everything the selection phase needs to know about the entry list: each
/// entry is a distinct value of `s` paired with its exact count, every value
/// of `s` has an entry, and there are as many entries as distinct values.
#[verifier::opaque]
pub open spec fn entries_wf(s: Seq<i32>, ent: Seq<(i32, usize)>) -> bool {
    &&& forall|j: int| 0 <= j < ent.len() ==> s.contains((#[trigger] ent[j]).0)
    &&& forall|j: int|
        0 <= j < ent.len() ==> (#[trigger] ent[j]).1 as int == count_of(s, ent[j].0) && 1 <= ent[
            j
        ].1 <= s.len()
    &&& forall|j1: int, j2: int|
        0 <= j1 < j2 < ent.len() ==> (#[trigger] ent[j1]).0 != (#[trigger] ent[j2]).0
    &&& forall|t: int| #![trigger s[t]] 0 <= t < s.len() ==> has_entry(ent, s[t])
    &&& ent.len() == s.to_set().len()
}

/// True when some position before `i` holds the same value as position `i`.
fn occurs_before(nums: &Vec<i32>, i: usize) -> (r: bool)
    requires
        i < nums@.len(),
    ensures
        r == exists|t: int| 0 <= t < i && nums@[t] == nums@[i as int],
{
    let mut t: usize = 0;
    while t < i
        invariant
            i < nums@.len(),
            t <= i,
            forall|u: int| 0 <= u < t ==> nums@[u] != nums@[i as int],
        decreases i - t,
    {
        if nums[t] == nums[i] {
            return true;
        }
        t += 1;
    }
    false
}

/// Counts how often `x` occurs in `nums`.
fn count_occurrences(nums: &Vec<i32>, x: i32) -> (c: usize)
    ensures
        c as int == count_of(nums@, x),
{
    let n = nums.len();
    let mut c: usize = 0;
    let mut t: usize = 0;
    while t < n
        invariant
            n == nums@.len(),
            t <= n,
            c <= t,
            c as int == count_of(nums@.subrange(0, t as int), x),
        decreases n - t,
    {
        proof {
            let pre = nums@.subrange(0, t as int);
            let post = nums@.subrange(0, t + 1);
            assert(post.drop_last() =~= pre);
            assert(post.last() == nums@[t as int]);
        }
        if nums[t] == x {
            c += 1;
        }
        t += 1;
    }
    proof {
        assert(nums@.subrange(0, n as int) =~= nums@);
    }
    c
}

/// Lists each distinct value of `nums` once, in first-occurrence order,
/// together with how often it occurs.
#[verifier::rlimit(50)]
pub(crate) fn collect_entries(nums: &Vec<i32>) -> (entries: Vec<(i32, usize)>)
    ensures
        entries_wf(nums@, entries@),
{
    let n = nums.len();
    let mut entries: Vec<(i32, usize)> = Vec::new();
    let mut i: usize = 0;
    while i < n
        invariant
            n == nums@.len(),
            i <= n,
            forall|j: int|
                0 <= j < entries@.len() ==> exists|t: int|
                    0 <= t < i && nums@[t] == (#[trigger] entries@[j]).0,
            forall|j: int|
                0 <= j < entries@.len() ==> (#[trigger] entries@[j]).1 as int == count_of(
                    nums@,
                    entries@[j].0,
                ) && 1 <= entries@[j].1 <= n,
            forall|j1: int, j2: int|
                0 <= j1 < j2 < entries@.len() ==> (#[trigger] entries@[j1]).0 != (
                #[trigger] entries@[j2]).0,
            forall|t: int| #![trigger nums@[t]] 0 <= t < i ==> has_entry(entries@, nums@[t]),
        decreases n - i,
    {
        if !occurs_before(&nums, i) {
            let c = count_occurrences(&nums, nums[i]);
            proof {
                lemma_count_pos(nums@, i as int);
                lemma_count_bounds(nums@, nums@[i as int]);
            }
            let ghost pre = entries@;
            entries.push((nums[i], c));
            proof {
                assert(entries@[pre.len() as int].0 == nums@[i as int]);
                assert forall|t: int| 0 <= t < i + 1 implies has_entry(
                    entries@,
                    #[trigger] nums@[t],
                ) by {
                    if t < i {
                        let j = choose|j: int| 0 <= j < pre.len() && (#[trigger] pre[j]).0
                            == nums@[t];
                        assert(entries@[j].0 == nums@[t]);
                    } else {
                        assert(entries@[pre.len() as int].0 == nums@[t]);
                    }
                }
            }
        } else {
            proof {
                let t0 = choose|t0: int| 0 <= t0 < i && nums@[t0] == nums@[i as int];
                let j0 = choose|j: int| 0 <= j < entries@.len() && entries@[j].0 == nums@[t0];
                assert forall|t: int| 0 <= t < i + 1 implies has_entry(
                    entries@,
                    #[trigger] nums@[t],
                ) by {
                    if t == i {
                        assert(entries@[j0].0 == nums@[t]);
                    }
                }
            }
        }
        i += 1;
    }
    proof {
        // Each distinct value appears exactly once, so the entry count is
        // the cardinality of the value set.
        let vals = Seq::new(entries@.len(), |j: int| entries@[j].0);
        assert(vals.no_duplicates());
        vals.unique_seq_to_set();
        assert forall|x: i32| vals.to_set().contains(x) implies nums@.to_set().contains(x) by {
            let j = choose|j: int| 0 <= j < vals.len() && vals[j] == x;
            let t = choose|t: int| 0 <= t < nums@.len() && nums@[t] == entries@[j].0;
            assert(nums@.to_set().contains(nums@[t]));
        }
        assert forall|x: i32| nums@.to_set().contains(x) implies vals.to_set().contains(x) by {
            let t = choose|t: int| 0 <= t < nums@.len() && nums@[t] == x;
            assert(has_entry(entries@, nums@[t]));
            let j = choose|j: int| 0 <= j < entries@.len() && (#[trigger] entries@[j]).0
                == nums@[t];
            assert(vals[j] == x);
        }
        assert(vals.to_set() =~= nums@.to_set());
        assert forall|j: int| 0 <= j < entries@.len() implies nums@.contains(
            (#[trigger] entries@[j]).0,
        ) by {
            let t = choose|t: int| 0 <= t < nums@.len() && nums@[t] == entries@[j].0;
        }
        reveal(entries_wf);
        assert(forall|j: int|
            0 <= j < entries@.len() ==> (#[trigger] entries@[j]).1 as int == count_of(
                nums@,
                entries@[j].0,
            ) && 1 <= entries@[j].1 <= nums@.len());
        assert(forall|j1: int, j2: int|
            0 <= j1 < j2 < entries@.len() ==> (#[trigger] entries@[j1]).0 != (
            #[trigger] entries@[j2]).0);
        assert forall|t: int| 0 <= t < nums@.len() implies has_entry(
            entries@,
            #[trigger] nums@[t],
        ) by {
            assert(0 <= t < i);
        }
        assert(entries@.len() == nums@.to_set().len());
        assert(forall|j: int|
            0 <= j < entries@.len() ==> nums@.contains((#[trigger] entries@[j]).0));
        assert(entries_wf(nums@, entries@));
    }
    entries
}

} // verus!
