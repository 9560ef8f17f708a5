//! Selecting the most frequent values, by descending frequency level.

use vstd::prelude::*;

use crate::frequency::collect_entries;
use crate::frequency::count_of;
use crate::frequency::entries_wf;
use crate::frequency::from_entry_above;
use crate::frequency::has_entry;
use crate::frequency::lemma_push_no_dup;

verus! {

/// The `k` most frequent values of `nums` (all of them when `k` is zero or
/// exceeds the number of distinct values): distinct, drawn from `nums`, and
/// no value left out is more frequent than any value returned. Ties are
/// broken by scan order.
pub fn top_k_frequent(nums: Vec<i32>, k: i32) -> (r: Vec<i32>)
    requires
        k >= 0,
    ensures
        r@.no_duplicates(),
        forall|p: int| 0 <= p < r@.len() ==> nums@.contains(#[trigger] r@[p]),
        r@.len() == if k == 0 {
            nums@.to_set().len() as int
        } else if k as int <= nums@.to_set().len() {
            k as int
        } else {
            nums@.to_set().len() as int
        },
        forall|p: int, y: i32|
            #![trigger count_of(nums@, y), r@[p]]
            0 <= p < r@.len() && nums@.contains(y) && !r@.contains(y) ==> count_of(nums@, y)
                <= count_of(nums@, r@[p]),
{
    let n = nums.len();
    let entries = collect_entries(&nums);
    let m = entries.len();
    proof {
        reveal(entries_wf);
    }
    let mut result: Vec<i32> = Vec::new();
    let mut f: usize = n;
    while f >= 1
        invariant
            n == nums@.len(),
            m == entries@.len(),
            f <= n,
            k >= 0,
            entries_wf(nums@, entries@),
            result@.no_duplicates(),
            forall|p: int|
                0 <= p < result@.len() ==> from_entry_above(
                    entries@,
                    #[trigger] result@[p],
                    f as int,
                    0,
                ),
            forall|j: int|
                0 <= j < entries@.len() && (#[trigger] entries@[j]).1 > f ==> result@.contains(
                    entries@[j].0,
                ),
            k > 0 ==> result@.len() < k as int,
        decreases f,
    {
        let mut j: usize = 0;
        while j < m
            invariant
                n == nums@.len(),
                m == entries@.len(),
                1 <= f <= n,
                j <= m,
                k >= 0,
                entries_wf(nums@, entries@),
                result@.no_duplicates(),
                forall|p: int|
                    0 <= p < result@.len() ==> from_entry_above(
                        entries@,
                        #[trigger] result@[p],
                        f as int,
                        j as int,
                    ),
                forall|jj: int|
                    0 <= jj < entries@.len() && ((#[trigger] entries@[jj]).1 > f || (
                    entries@[jj].1 == f && jj < j)) ==> result@.contains(entries@[jj].0),
                k > 0 ==> result@.len() < k as int,
            decreases m - j,
        {
            let e = entries[j];
            if e.1 == f {
                let ghost pre = result@;
                proof {
                    reveal(entries_wf);
                    if pre.contains(e.0) {
                        let p = choose|p: int| 0 <= p < pre.len() && pre[p] == e.0;
                        let jj = choose|jj: int|
                            0 <= jj < entries@.len() && pre[p] == (#[trigger] entries@[jj]).0 && (
                            entries@[jj].1 > f || (entries@[jj].1 == f && jj < j));
                        assert(entries@[jj].0 == entries@[j as int].0);
                        assert(jj == j as int);
                        assert(false);
                    }
                    lemma_push_no_dup(pre, e.0);
                }
                result.push(e.0);
                proof {
                    assert(result@[pre.len() as int] == entries@[j as int].0);
                    assert forall|p: int| 0 <= p < result@.len() implies from_entry_above(
                        entries@,
                        #[trigger] result@[p],
                        f as int,
                        j + 1,
                    ) by {
                        if p < pre.len() {
                            assert(result@[p] == pre[p]);
                            let jj = choose|jj: int|
                                0 <= jj < entries@.len() && pre[p] == (#[trigger] entries@[jj]).0
                                    && (entries@[jj].1 > f || (entries@[jj].1 == f && jj < j));
                            assert(result@[p] == entries@[jj].0);
                        } else {
                            assert(result@[p] == entries@[j as int].0);
                        }
                    }
                    assert forall|jj: int|
                        0 <= jj < entries@.len() && ((#[trigger] entries@[jj]).1 > f || (
                        entries@[jj].1 == f && jj < j + 1)) implies result@.contains(
                        entries@[jj].0,
                    ) by {
                        if entries@[jj].1 > f || (entries@[jj].1 == f && jj < j) {
                            assert(pre.contains(entries@[jj].0));
                            let p = choose|p: int| 0 <= p < pre.len() && pre[p] == entries@[jj].0;
                            assert(result@[p] == entries@[jj].0);
                        } else {
                            assert(jj == j as int);
                            assert(result@[pre.len() as int] == entries@[jj].0);
                        }
                    }
                }
                if result.len() == k as usize {
                    proof {
                        lemma_result_is_valid(nums@, entries@, result@, f as int, j + 1);
                        reveal(entries_wf);
                        assert(result@.len() <= nums@.to_set().len());
                    }
                    return result;
                }
            }
            j += 1;
        }
        proof {
            assert forall|p: int| 0 <= p < result@.len() implies from_entry_above(
                entries@,
                #[trigger] result@[p],
                f as int - 1,
                0,
            ) by {
                let jj = choose|jj: int|
                    0 <= jj < entries@.len() && result@[p] == (#[trigger] entries@[jj]).0 && (
                    entries@[jj].1 > f || (entries@[jj].1 == f && jj < m));
                assert(entries@[jj].1 > f as int - 1);
            }
            assert forall|jj: int|
                0 <= jj < entries@.len() && (#[trigger] entries@[jj]).1 > f as int
                    - 1 implies result@.contains(entries@[jj].0) by {
                assert(entries@[jj].1 > f || (entries@[jj].1 == f && jj < m));
            }
        }
        f -= 1;
    }
    proof {
        lemma_full_selection(nums@, entries@, result@);
    }
    result
}

/// What holds of a selection cut off at level `f`, entry `j`: the values
/// returned are distinct members of the input dominating everything left
/// out, and there are no more of them than there are distinct values.
proof fn lemma_result_is_valid(s: Seq<i32>, ent: Seq<(i32, usize)>, res: Seq<i32>, f: int, j: int)
    requires
        entries_wf(s, ent),
        res.no_duplicates(),
        forall|p: int| 0 <= p < res.len() ==> from_entry_above(ent, #[trigger] res[p], f, j),
        forall|jj: int|
            0 <= jj < ent.len() && ((#[trigger] ent[jj]).1 > f || (ent[jj].1 == f && jj < j))
                ==> res.contains(ent[jj].0),
    ensures
        res.len() <= s.to_set().len(),
        forall|p: int| 0 <= p < res.len() ==> s.contains(#[trigger] res[p]),
        forall|p: int, y: i32|
            #![trigger count_of(s, y), res[p]]
            0 <= p < res.len() && s.contains(y) && !res.contains(y) ==> count_of(s, y) <= count_of(
                s,
                res[p],
            ),
{
    broadcast use vstd::seq_lib::seq_to_set_is_finite;

    reveal(entries_wf);
    let rvals = res.to_set();
    res.unique_seq_to_set();
    assert forall|p: int| 0 <= p < res.len() implies s.contains(#[trigger] res[p]) by {
        let jj = choose|jj: int|
            0 <= jj < ent.len() && res[p] == (#[trigger] ent[jj]).0 && (ent[jj].1 > f || (ent[
                jj
            ].1 == f && jj < j));
        assert(s.contains(ent[jj].0));
    }
    assert forall|x: i32| rvals.contains(x) implies s.to_set().contains(x) by {
        let p = choose|p: int| 0 <= p < res.len() && res[p] == x;
        assert(s.contains(res[p]));
        let t = choose|t: int| 0 <= t < s.len() && s[t] == x;
        assert(s.to_set().contains(s[t]));
    }
    vstd::set_lib::lemma_len_subset(rvals, s.to_set());
    assert forall|p: int, y: i32|
        0 <= p < res.len() && s.contains(y) && !res.contains(y) implies count_of(s, y) <= count_of(
        s,
        res[p],
    ) by {
        let ty = choose|t: int| 0 <= t < s.len() && s[t] == y;
        assert(has_entry(ent, s[ty]));
        let jy = choose|jj: int| 0 <= jj < ent.len() && (#[trigger] ent[jj]).0 == s[ty];
        assert(ent[jy].1 as int == count_of(s, y));
        if ent[jy].1 > f || (ent[jy].1 == f && jy < j) {
            assert(res.contains(ent[jy].0));
            assert(false);
        }
        let jp = choose|jj: int|
            0 <= jj < ent.len() && res[p] == (#[trigger] ent[jj]).0 && (ent[jj].1 > f || (ent[
                jj
            ].1 == f && jj < j));
        assert(count_of(s, res[p]) == ent[jp].1 as int);
        assert(ent[jp].1 as int >= f);
        assert(ent[jy].1 as int <= f);
    }
}

/// With every positive-count entry selected, the result lists each distinct
/// value exactly once and leaves nothing out.
proof fn lemma_full_selection(s: Seq<i32>, ent: Seq<(i32, usize)>, res: Seq<i32>)
    requires
        entries_wf(s, ent),
        res.no_duplicates(),
        forall|p: int| 0 <= p < res.len() ==> from_entry_above(ent, #[trigger] res[p], 0, 0),
        forall|jj: int|
            0 <= jj < ent.len() && (#[trigger] ent[jj]).1 > 0 ==> res.contains(ent[jj].0),
    ensures
        res.len() == s.to_set().len(),
        forall|p: int| 0 <= p < res.len() ==> s.contains(#[trigger] res[p]),
        forall|p: int, y: i32|
            #![trigger count_of(s, y), res[p]]
            0 <= p < res.len() && s.contains(y) && !res.contains(y) ==> count_of(s, y) <= count_of(
                s,
                res[p],
            ),
{
    broadcast use vstd::seq_lib::seq_to_set_is_finite;

    reveal(entries_wf);
    let rvals = res.to_set();
    res.unique_seq_to_set();
    assert forall|p: int| 0 <= p < res.len() implies s.contains(#[trigger] res[p]) by {
        let jj = choose|jj: int|
            0 <= jj < ent.len() && res[p] == (#[trigger] ent[jj]).0 && ent[jj].1 > 0;
        assert(s.contains(ent[jj].0));
    }
    assert forall|x: i32| s.to_set().contains(x) implies rvals.contains(x) by {
        let t = choose|t: int| 0 <= t < s.len() && s[t] == x;
        assert(has_entry(ent, s[t]));
        let jj = choose|jj: int| 0 <= jj < ent.len() && (#[trigger] ent[jj]).0 == s[t];
        assert(res.contains(ent[jj].0));
        let p = choose|p: int| 0 <= p < res.len() && res[p] == ent[jj].0;
        assert(res.to_set().contains(res[p]));
    }
    assert forall|x: i32| rvals.contains(x) implies s.to_set().contains(x) by {
        let p = choose|p: int| 0 <= p < res.len() && res[p] == x;
        assert(s.contains(res[p]));
        let t = choose|t: int| 0 <= t < s.len() && s[t] == x;
        assert(s.to_set().contains(s[t]));
    }
    assert(rvals =~= s.to_set());
    assert forall|p: int, y: i32|
        0 <= p < res.len() && s.contains(y) && !res.contains(y) implies count_of(s, y) <= count_of(
        s,
        res[p],
    ) by {
        let ty = choose|t: int| 0 <= t < s.len() && s[t] == y;
        assert(has_entry(ent, s[ty]));
        let jy = choose|jj: int| 0 <= jj < ent.len() && (#[trigger] ent[jj]).0 == s[ty];
        assert(res.contains(ent[jy].0));
        assert(false);
    }
}

} // verus!
