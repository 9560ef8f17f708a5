//! Text routines: joining non-empty fragments with a separator, parsing a
//! trimmed `key=value` line, and the alphanumeric palindrome test.

use vstd::prelude::*;
use vstd::string::StrSliceExecFns;
use vstd::string::StringExecFns;

use crate::strutil::first_index;
use crate::strutil::lemma_first_index;
use crate::strutil::lower32;

verus! {

/// The non-empty entries of `ps`, in order.
pub open spec fn non_empty_parts(ps: Seq<Seq<char>>) -> Seq<Seq<char>>
    decreases ps.len(),
{
    if ps.len() == 0 {
        Seq::empty()
    } else {
        let rest = non_empty_parts(ps.drop_last());
        if ps.last().len() > 0 {
            rest.push(ps.last())
        } else {
            rest
        }
    }
}

/// The entries of `ps` concatenated with `sep` between neighbours.
pub open spec fn join_all(ps: Seq<Seq<char>>, sep: Seq<char>) -> Seq<char>
    decreases ps.len(),
{
    if ps.len() == 0 {
        Seq::empty()
    } else if ps.len() == 1 {
        ps[0]
    } else {
        join_all(ps.drop_last(), sep) + sep + ps.last()
    }
}

/// Joins the non-empty parts with `sep` between neighbours; empty parts
/// contribute nothing, not even a separator.
pub fn join_non_empty(parts: &[&str], sep: &str) -> (r: String)
    ensures
        r@ == join_all(non_empty_parts(parts@.map_values(|p: &str| p@)), sep@),
{
    let n = parts.len();
    let mut out = String::new();
    let mut first = true;
    let mut i: usize = 0;
    while i < n
        invariant
            n == parts@.len(),
            i <= n,
            first == (non_empty_parts(
                parts@.subrange(0, i as int).map_values(|p: &str| p@),
            ).len() == 0),
            out@ == join_all(
                non_empty_parts(parts@.subrange(0, i as int).map_values(|p: &str| p@)),
                sep@,
            ),
        decreases n - i,
    {
        let ghost pre = parts@.subrange(0, i as int).map_values(|p: &str| p@);
        let ghost post = parts@.subrange(0, i + 1).map_values(|p: &str| p@);
        proof {
            assert(post.drop_last() =~= pre);
            assert(post.last() == parts@[i as int]@);
        }
        let p = parts[i];
        if !p.is_empty() {
            if !first {
                out.append(sep);
            }
            out.append(p);
            first = false;
            proof {
                let nep = non_empty_parts(pre);
                assert(non_empty_parts(post) == nep.push(p@));
                if nep.len() == 0 {
                    assert(join_all(nep.push(p@), sep@) == p@);
                    assert(out@ =~= p@);
                } else {
                    assert(nep.push(p@).drop_last() =~= nep);
                    assert(join_all(nep.push(p@), sep@) == join_all(nep, sep@) + sep@ + p@);
                }
            }
        } else {
            proof {
                assert(non_empty_parts(post) == non_empty_parts(pre));
            }
        }
        i += 1;
    }
    proof {
        assert(parts@.subrange(0, n as int) =~= parts@);
    }
    out
}

/// True when `c` has the Unicode `White_Space` property: what trimming
/// removes from the ends of a line.
pub open spec fn is_space(c: char) -> bool {
    ||| 0x09 <= c as u32 <= 0x0d
    ||| c as u32 == 0x20
    ||| c as u32 == 0x85
    ||| c as u32 == 0xa0
    ||| c as u32 == 0x1680
    ||| 0x2000 <= c as u32 <= 0x200a
    ||| c as u32 == 0x2028
    ||| c as u32 == 0x2029
    ||| c as u32 == 0x202f
    ||| c as u32 == 0x205f
    ||| c as u32 == 0x3000
}

/// Decides [`is_space`].
fn is_space_char(c: char) -> (r: bool)
    ensures
        r == is_space(c),
{
    let u = c as u32;
    (0x09 <= u && u <= 0x0d) || u == 0x20 || u == 0x85 || u == 0xa0 || u == 0x1680 || (0x2000 <= u
        && u <= 0x200a) || u == 0x2028 || u == 0x2029 || u == 0x202f || u == 0x205f || u == 0x3000
}

/// `s` with leading whitespace removed.
pub open spec fn trim_left(s: Seq<char>) -> Seq<char>
    decreases s.len(),
{
    if s.len() > 0 && is_space(s[0]) {
        trim_left(s.drop_first())
    } else {
        s
    }
}

/// `s` with trailing whitespace removed.
pub open spec fn trim_right(s: Seq<char>) -> Seq<char>
    decreases s.len(),
{
    if s.len() > 0 && is_space(s.last()) {
        trim_right(s.drop_last())
    } else {
        s
    }
}

/// `s` with whitespace removed from both ends.
pub open spec fn trim_spec(s: Seq<char>) -> Seq<char> {
    trim_right(trim_left(s))
}

/// The trimmed characters of `s` between positions `lo` and `hi`.
pub fn trimmed_range<'a>(s: &'a str, lo: usize, hi: usize) -> (r: &'a str)
    requires
        lo <= hi <= s@.len(),
    ensures
        r@ == trim_spec(s@.subrange(lo as int, hi as int)),
{
    let mut a = lo;
    while a < hi && is_space_char(s.get_char(a))
        invariant
            lo <= a <= hi <= s@.len(),
            trim_left(s@.subrange(lo as int, hi as int)) == trim_left(
                s@.subrange(a as int, hi as int),
            ),
        decreases hi - a,
    {
        proof {
            assert(s@.subrange(a as int, hi as int).drop_first() =~= s@.subrange(
                a + 1,
                hi as int,
            ));
        }
        a += 1;
    }
    proof {
        assert(trim_left(s@.subrange(a as int, hi as int)) == s@.subrange(a as int, hi as int));
    }
    let mut b = hi;
    while b > a && is_space_char(s.get_char(b - 1))
        invariant
            a <= b <= hi <= s@.len(),
            trim_right(s@.subrange(a as int, hi as int)) == trim_right(
                s@.subrange(a as int, b as int),
            ),
        decreases b,
    {
        proof {
            assert(s@.subrange(a as int, b as int).drop_last() =~= s@.subrange(
                a as int,
                b - 1,
            ));
        }
        b -= 1;
    }
    proof {
        assert(trim_right(s@.subrange(a as int, b as int)) == s@.subrange(a as int, b as int));
    }
    s.substring_char(a, b)
}

/// What parsing a `key=value` line yields: the trimmed parts on either side
/// of the first `eq`, provided both are non-empty.
pub open spec fn parse_kv_spec(s: Seq<char>, eq: char) -> Option<(Seq<char>, Seq<char>)> {
    let e = first_index(s, eq);
    if e < 0 {
        Option::None
    } else {
        let k = trim_spec(s.subrange(0, e));
        let v = trim_spec(s.subrange(e + 1, s.len() as int));
        if k.len() == 0 || v.len() == 0 {
            Option::None
        } else {
            Option::Some((k, v))
        }
    }
}

/// Splits `s` at the first `eq` and trims both sides; `None` when `eq` is
/// absent or either side trims to nothing.
pub fn parse_kv_line<'a>(s: &'a str, eq: char) -> (r: Option<(&'a str, &'a str)>)
    ensures
        (r is Some) == (parse_kv_spec(s@, eq) is Some),
        r matches Some(kv) ==> parse_kv_spec(s@, eq) matches Some(q) && kv.0@ == q.0 && kv.1@
            == q.1,
{
    let n = s.unicode_len();
    let mut e: usize = 0;
    while e < n && s.get_char(e) != eq
        invariant
            n == s@.len(),
            e <= n,
            forall|t: int| 0 <= t < e ==> s@[t] != eq,
        decreases n - e,
    {
        e += 1;
    }
    proof {
        lemma_first_index(s@, eq, e as int);
    }
    if e == n {
        return Option::None;
    }
    let k = trimmed_range(s, 0, e);
    let v = trimmed_range(s, e + 1, n);
    if k.is_empty() || v.is_empty() {
        Option::None
    } else {
        Option::Some((k, v))
    }
}

/// True when `c` is an ASCII letter or digit.
pub open spec fn is_alnum(c: char) -> bool {
    ||| 0x30 <= c as u32 <= 0x39
    ||| 0x41 <= c as u32 <= 0x5a
    ||| 0x61 <= c as u32 <= 0x7a
}

/// The ASCII letters and digits of `s`, folded to lower case, as scalar
/// values, in order.
pub open spec fn norm_chars(s: Seq<char>) -> Seq<u32>
    decreases s.len(),
{
    if s.len() == 0 {
        Seq::empty()
    } else {
        let rest = norm_chars(s.drop_last());
        if is_alnum(s.last()) {
            rest.push(lower32(s.last()))
        } else {
            rest
        }
    }
}

/// True when `t` reads the same forwards and backwards.
pub open spec fn is_palindrome_seq(t: Seq<u32>) -> bool {
    forall|i: int| 0 <= i < t.len() ==> #[trigger] t[i] == t[t.len() - 1 - i]
}

/// Decides whether the letters and digits of `s`, ignoring case and every
/// other character, form a palindrome.
pub fn is_alphanumeric_palindrome(s: &str) -> (r: bool)
    ensures
        r == is_palindrome_seq(norm_chars(s@)),
{
    let n = s.unicode_len();
    let mut t: Vec<u32> = Vec::new();
    let mut i: usize = 0;
    while i < n
        invariant
            n == s@.len(),
            i <= n,
            t@ == norm_chars(s@.subrange(0, i as int)),
        decreases n - i,
    {
        let c = s.get_char(i);
        let u = c as u32;
        proof {
            let pre = s@.subrange(0, i as int);
            let post = s@.subrange(0, i + 1);
            assert(post.drop_last() =~= pre);
            assert(post.last() == s@[i as int]);
        }
        if (0x30 <= u && u <= 0x39) || (0x41 <= u && u <= 0x5a) || (0x61 <= u && u <= 0x7a) {
            let l = crate::strutil::lower_scalar(c);
            t.push(l);
        }
        i += 1;
    }
    proof {
        assert(s@.subrange(0, n as int) =~= s@);
    }
    let ghost tt = t@;
    let m = t.len();
    let mut j: usize = 0;
    while j < m / 2
        invariant
            m == tt.len(),
            t@ == tt,
            tt == norm_chars(s@),
            j <= m / 2,
            forall|p: int| 0 <= p < j ==> #[trigger] tt[p] == tt[m - 1 - p],
        decreases m / 2 - j,
    {
        if t[j] != t[m - 1 - j] {
            assert(!is_palindrome_seq(tt));
            return false;
        }
        j += 1;
    }
    proof {
        assert forall|p: int| 0 <= p < tt.len() implies #[trigger] tt[p] == tt[tt.len() - 1 - p] by {
            if p < m / 2 {
            } else {
                let q = m - 1 - p;
                if q < p {
                    assert(tt[q] == tt[m - 1 - q]);
                }
            }
        }
    }
    true
}

} // verus!
