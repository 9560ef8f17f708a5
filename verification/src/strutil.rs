//! Small verified helpers for working with `&str` values at the character
//! level: equality, ASCII-case-insensitive equality, and locating the first
//! occurrence of a character.

use vstd::prelude::*;

verus! {

/// ASCII lower-casing of one character, as its Unicode scalar value.
/// Characters outside `'A'..='Z'` are unchanged.
pub open spec fn lower32(c: char) -> u32 {
    if 0x41 <= c as u32 <= 0x5a {
        (c as u32 + 32) as u32
    } else {
        c as u32
    }
}

/// True when `a` and `b` agree character by character once ASCII letters are
/// folded to lower case.
pub open spec fn eq_ignore_ascii_case_spec(a: Seq<char>, b: Seq<char>) -> bool {
    a.len() == b.len() && forall|i: int|
        0 <= i < a.len() ==> #[trigger] lower32(a[i]) == lower32(b[i])
}

/// Index of the first occurrence of `c` in `s`, or `-1` when `c` is absent.
pub open spec fn first_index(s: Seq<char>, c: char) -> int
    decreases s.len(),
{
    if s.len() == 0 {
        -1
    } else if s[0] == c {
        0
    } else {
        let rest = first_index(s.drop_first(), c);
        if rest < 0 {
            -1
        } else {
            rest + 1
        }
    }
}

/// What `first_index` returns, characterised without recursion: if the first
/// `k` characters of `s` avoid `c` and either `k` is the length of `s` or
/// `s[k] == c`, then `first_index` is `k` (or `-1` at the end).
pub proof fn lemma_first_index(s: Seq<char>, c: char, k: int)
    requires
        0 <= k <= s.len(),
        forall|i: int| 0 <= i < k ==> s[i] != c,
        k < s.len() ==> s[k] == c,
    ensures
        first_index(s, c) == if k == s.len() {
            -1int
        } else {
            k
        },
    decreases s.len(),
{
    if s.len() == 0 {
    } else if s[0] == c {
    } else {
        lemma_first_index(s.drop_first(), c, k - 1);
    }
}

/// Character-for-character equality of two string slices.
pub fn str_eq(a: &str, b: &str) -> (r: bool)
    ensures
        r == (a@ == b@),
{
    let alen = a.unicode_len();
    let blen = b.unicode_len();
    if alen != blen {
        return false;
    }
    let mut i: usize = 0;
    while i < alen
        invariant
            alen == a@.len(),
            blen == b@.len(),
            alen == blen,
            i <= alen,
            forall|j: int| 0 <= j < i ==> a@[j] == b@[j],
        decreases alen - i,
    {
        if a.get_char(i) != b.get_char(i) {
            return false;
        }
        i += 1;
    }
    proof {
        assert(a@ =~= b@);
    }
    true
}

/// ASCII lower-casing of one character, as a scalar value.
pub fn lower_scalar(c: char) -> (r: u32)
    ensures
        r == lower32(c),
{
    let u = c as u32;
    if 0x41 <= u && u <= 0x5a {
        u + 32
    } else {
        u
    }
}

/// Equality of two string slices up to ASCII letter case.
pub fn eq_ignore_ascii_case(a: &str, b: &str) -> (r: bool)
    ensures
        r == eq_ignore_ascii_case_spec(a@, b@),
{
    let alen = a.unicode_len();
    let blen = b.unicode_len();
    if alen != blen {
        return false;
    }
    let mut i: usize = 0;
    while i < alen
        invariant
            alen == a@.len(),
            blen == b@.len(),
            alen == blen,
            i <= alen,
            forall|j: int| 0 <= j < i ==> #[trigger] lower32(a@[j]) == lower32(b@[j]),
        decreases alen - i,
    {
        if lower_scalar(a.get_char(i)) != lower_scalar(b.get_char(i)) {
            return false;
        }
        i += 1;
    }
    true
}

} // verus!
