//! The longest run of consecutive integers among the values of a sequence.

use vstd::prelude::*;

use std::collections::HashSet;

verus! {

broadcast use {vstd::std_specs::hash::group_hash_axioms, vstd::seq_lib::seq_to_set_is_finite};

/// True when `v` is a machine integer present in `s`.
pub open spec fn set_has(s: Set<i32>, v: int) -> bool {
    i32::MIN <= v <= i32::MAX && s.contains(v as i32)
}

/// True when the `len` consecutive integers starting at `start` are all
/// present in `s`.
pub open spec fn has_run(s: Set<i32>, start: int, len: int) -> bool {
    forall|d: int| 0 <= d < len ==> #[trigger] set_has(s, start + d)
}

/// A run of `len` distinct values inside a finite set needs the set to hold
/// at least `len` elements.
proof fn lemma_run_le_card(s: Set<i32>, start: int, len: int)
    requires
        s.finite(),
        has_run(s, start, len),
    ensures
        len <= s.len(),
    decreases len,
{
    if len > 0 {
        assert(set_has(s, start + (len - 1)));
        let last = (start + (len - 1)) as i32;
        let s2 = s.remove(last);
        assert(has_run(s2, start, len - 1)) by {
            assert forall|d: int| 0 <= d < len - 1 implies #[trigger] set_has(s2, start + d) by {
                assert(set_has(s, start + d));
                assert((start + d) as i32 != last);
            }
        }
        lemma_run_le_card(s2, start, len - 1);
        vstd::set::axiom_set_remove_len(s, last);
        vstd::set_lib::lemma_set_remove_finite_iff(s, last);
    }
}

/// Every run extends leftwards to a maximal run: one whose starting value
/// has no predecessor in the set.
proof fn lemma_left_maximal(s: Set<i32>, start: int, len: int)
    requires
        s.finite(),
        has_run(s, start, len),
        len >= 1,
    ensures
        exists|s2: int|
            #![trigger has_run(s, s2, start + len - s2)]
            s2 <= start && has_run(s, s2, start + len - s2) && !set_has(s, s2 - 1),
    decreases start - i32::MIN,
{
    assert(set_has(s, start + 0));
    if start == i32::MIN || !set_has(s, start - 1) {
        assert(!set_has(s, start - 1));
        assert(start + len - start == len);
        assert(has_run(s, start, start + len - start));
    } else {
        assert(has_run(s, start - 1, len + 1)) by {
            assert forall|d: int| 0 <= d < len + 1 implies #[trigger] set_has(s, start - 1 + d) by {
                if d == 0 {
                    assert(start - 1 + d == start - 1);
                } else {
                    assert(set_has(s, start + (d - 1)));
                    assert(start - 1 + d == start + (d - 1));
                }
            }
        }
        lemma_left_maximal(s, start - 1, len + 1);
        let s2 = choose|s2: int|
            #![trigger has_run(s, s2, start - 1 + len + 1 - s2)]
            s2 <= start - 1 && has_run(s, s2, start - 1 + len + 1 - s2) && !set_has(s, s2 - 1);
        assert(start - 1 + len + 1 - s2 == start + len - s2);
        assert(has_run(s, s2, start + len - s2));
    }
}

/// One value of a sequence prefix, then all of it, lands in its set of
/// values.
proof fn lemma_to_set_snoc(s: Seq<i32>, i: int)
    requires
        0 <= i < s.len(),
    ensures
        s.subrange(0, i + 1).to_set() =~= s.subrange(0, i).to_set().insert(s[i]),
{
    let a = s.subrange(0, i + 1);
    let b = s.subrange(0, i);
    assert forall|x: i32| a.to_set().contains(x) implies b.to_set().insert(s[i]).contains(
        x,
    ) by {
        let t = choose|t: int| 0 <= t < a.len() && a[t] == x;
        if t < i {
            assert(b[t] == x);
        }
    }
    assert forall|x: i32| b.to_set().insert(s[i]).contains(x) implies a.to_set().contains(
        x,
    ) by {
        if b.to_set().contains(x) {
            let t = choose|t: int| 0 <= t < b.len() && b[t] == x;
            assert(a[t] == x);
        } else {
            assert(a[i] == x);
        }
    }
}

/// The length of the longest run of consecutive integers among the values
/// of `nums`: no longer run exists, and one of that length does.
pub fn longest_consecutive(nums: Vec<i32>) -> (r: i32)
    requires
        nums@.len() <= 0x7fff_ffff,
    ensures
        0 <= r <= nums@.len(),
        (r == 0) == (nums@.len() == 0),
        r > 0 ==> exists|start: int| has_run(nums@.to_set(), start, r as int),
        forall|start: int, len: int| has_run(nums@.to_set(), start, len) ==> len <= r,
{
    let ghost sv = nums@.to_set();
    let n = nums.len();
    let mut set: HashSet<i32> = HashSet::new();
    let mut i: usize = 0;
    while i < n
        invariant
            n == nums@.len(),
            i <= n,
            set@ == nums@.subrange(0, i as int).to_set(),
        decreases n - i,
    {
        proof {
            lemma_to_set_snoc(nums@, i as int);
        }
        set.insert(nums[i]);
        i += 1;
    }
    proof {
        assert(nums@.subrange(0, n as int) =~= nums@);
    }
    let mut longest: i32 = 0;
    let mut i: usize = 0;
    while i < n
        invariant
            n == nums@.len(),
            n <= 0x7fff_ffff,
            i <= n,
            set@ == sv,
            sv == nums@.to_set(),
            sv.finite(),
            0 <= longest <= n,
            i == 0 ==> longest == 0,
            longest > 0 ==> exists|start: int| has_run(sv, start, longest as int),
            forall|t: int, len: int|
                #![trigger has_run(sv, nums@[t] as int, len)]
                0 <= t < i && !set_has(sv, nums@[t] - 1) && has_run(sv, nums@[t] as int, len)
                    ==> len <= longest,
        decreases n - i,
    {
        let v = nums[i];
        proof {
            assert(nums@.contains(nums@[i as int]));
            assert(sv.contains(v));
        }
        let is_start = if v == i32::MIN {
            true
        } else {
            !set.contains(&(v - 1))
        };
        if is_start {
            let mut cur = v;
            let mut streak: i32 = 1;
            proof {
                assert(has_run(sv, v as int, 1)) by {
                    assert forall|d: int| 0 <= d < 1 implies #[trigger] set_has(sv, v as int + d) by {
                        assert(v as int + d == v as int);
                        assert(((v as int) as i32) == v);
                    }
                }
            }
            while cur < i32::MAX && set.contains(&(cur + 1))
                invariant
                    set@ == sv,
                    sv == nums@.to_set(),
                    sv.finite(),
                    n == nums@.len(),
                    n <= 0x7fff_ffff,
                    v <= cur,
                    1 <= streak,
                    streak as int == cur - v + 1,
                    streak <= n,
                    has_run(sv, v as int, streak as int),
                decreases i32::MAX - cur,
            {
                proof {
                    assert(has_run(sv, v as int, streak + 1)) by {
                        assert forall|d: int| 0 <= d < streak + 1 implies #[trigger] set_has(
                            sv,
                            v as int + d,
                        ) by {
                            if d == streak {
                                assert(v as int + d == cur as int + 1);
                                assert(((cur as int + 1) as i32) == cur + 1);
                                assert(sv.contains(((cur as int + 1) as i32)));
                            } else {
                                assert(set_has(sv, v as int + d));
                            }
                        }
                    }
                    lemma_run_le_card(sv, v as int, streak + 1);
                    nums@.lemma_cardinality_of_set();
                }
                cur = cur + 1;
                streak = streak + 1;
            }
            proof {
                assert forall|len: int| has_run(sv, v as int, len) implies len <= streak by {
                    if len > streak {
                        assert(set_has(sv, v as int + streak));
                        assert(v as int + streak == cur as int + 1);
                        if cur < i32::MAX {
                            assert(((cur as int + 1) as i32) == cur + 1);
                            assert(sv.contains(((cur as int + 1) as i32)));
                        }
                    }
                }
            }
            if streak > longest {
                longest = streak;
            }
        } else {
            proof {
                assert(sv.contains(((v as int - 1) as i32)));
                assert(set_has(sv, nums@[i as int] - 1));
            }
        }
        i += 1;
    }
    proof {
        assert forall|start: int, len: int| has_run(sv, start, len) implies len <= longest by {
            if len >= 1 {
                lemma_left_maximal(sv, start, len);
                let s2 = choose|s2: int|
                    #![trigger has_run(sv, s2, start + len - s2)]
                    s2 <= start && has_run(sv, s2, start + len - s2) && !set_has(sv, s2 - 1);
                assert(set_has(sv, s2 + 0));
                let w = (s2 + 0) as i32;
                assert(sv.contains(w));
                assert(nums@.contains(w));
                let t = choose|t: int| 0 <= t < nums@.len() && nums@[t] == w;
                assert(nums@[t] as int == s2);
                assert(has_run(sv, nums@[t] as int, start + len - s2));
                assert(start + len - s2 <= longest);
                assert(len <= start + len - s2);
            }
        }
        if n > 0 {
            assert(nums@.contains(nums@[0]));
            assert(sv.contains(nums@[0]));
            assert(has_run(sv, nums@[0] as int, 1)) by {
                assert forall|d: int| 0 <= d < 1 implies #[trigger] set_has(sv, nums@[0] as int + d) by {
                    assert(nums@[0] as int + d == nums@[0] as int);
                    assert(((nums@[0] as int) as i32) == nums@[0]);
                }
            }
            assert(1 <= longest);
        }
    }
    longest
}

} // verus!
