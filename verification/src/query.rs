//! The query extractor: a minimal parser for `key=value` query strings.
//!
//! The raw query is split on `&`; each segment is split on its first `=`.
//! The value of the first segment whose key matches exactly is returned, with
//! no percent-decoding. Segments without `=` are skipped, never an error.

use vstd::prelude::*;
use vstd::string::StrSliceExecFns;
use vstd::string::StringExecFns;

use crate::strutil::first_index;
use crate::strutil::lemma_first_index;
use crate::strutil::str_eq;

verus! {

/// The value a single segment contributes for `key`: the part after the
/// first `=`, provided the part before it equals `key`; `None` when the
/// segment has no `=` or its key differs.
pub open spec fn seg_value(seg: Seq<char>, key: Seq<char>) -> Option<Seq<char>> {
    let e = first_index(seg, '=');
    if e < 0 {
        Option::None
    } else if seg.subrange(0, e) == key {
        Option::Some(seg.subrange(e + 1, seg.len() as int))
    } else {
        Option::None
    }
}

/// The value for `key` in the query string `q`: the contribution of the
/// first `&`-separated segment whose key matches, if any.
pub open spec fn extract_spec(q: Seq<char>, key: Seq<char>) -> Option<Seq<char>>
    decreases q.len(),
{
    let a = first_index(q, '&');
    if 0 <= a && a < q.len() {
        if seg_value(q.subrange(0, a), key) is Some {
            seg_value(q.subrange(0, a), key)
        } else {
            extract_spec(q.subrange(a + 1, q.len() as int), key)
        }
    } else {
        seg_value(q, key)
    }
}

/// Returns the raw (not percent-decoded) value of the first `key=value`
/// pair of `raw_query` whose key equals `key` exactly; `None` when the query
/// is absent or holds no such pair. Malformed segments are skipped.
pub fn extract_param(raw_query: Option<&str>, key: &str) -> (r: Option<String>)
    ensures
        raw_query is None ==> r is None,
        raw_query matches Some(q) ==> {
            &&& (r is Some) == (extract_spec(q@, key@) is Some)
            &&& (r matches Some(v) ==> extract_spec(q@, key@) matches Some(sv) && v@ == sv)
        },
{
    let q = match raw_query {
        Option::None => {
            return Option::None;
        },
        Option::Some(q) => q,
    };
    let n = q.unicode_len();
    let mut start: usize = 0;
    proof {
        assert(q@.subrange(0, n as int) =~= q@);
    }
    loop
        invariant
            raw_query == Option::Some(q),
            n == q@.len(),
            start <= n,
            extract_spec(q@, key@) == extract_spec(q@.subrange(start as int, n as int), key@),
        decreases n - start,
    {
        let ghost rest = q@.subrange(start as int, n as int);
        // Find the end of the current segment: the next `&` or the end.
        let mut j = start;
        while j < n && q.get_char(j) != '&'
            invariant
                n == q@.len(),
                start <= j <= n,
                forall|t: int| start <= t < j ==> q@[t] != '&',
            decreases n - j,
        {
            j += 1;
        }
        proof {
            assert(forall|t: int| 0 <= t < rest.len() ==> rest[t] == q@[start + t]);
            lemma_first_index(rest, '&', j - start);
        }
        // Find the first `=` inside the segment.
        let mut e = start;
        while e < j && q.get_char(e) != '='
            invariant
                n == q@.len(),
                j <= n,
                start <= e <= j,
                forall|t: int| start <= t < e ==> q@[t] != '=',
            decreases j - e,
        {
            e += 1;
        }
        let ghost seg = q@.subrange(start as int, j as int);
        proof {
            assert(forall|t: int| 0 <= t < seg.len() ==> seg[t] == q@[start + t]);
            lemma_first_index(seg, '=', e - start);
        }
        if e < j {
            let seg_key = q.substring_char(start, e);
            proof {
                assert(seg.subrange(0, e - start) =~= seg_key@);
            }
            if str_eq(seg_key, key) {
                let value = q.substring_char(e + 1, j);
                proof {
                    assert(seg.subrange(e - start + 1, seg.len() as int) =~= value@);
                    assert(seg_value(seg, key@) == Option::Some(value@));
                    if j < n {
                        assert(rest.subrange(0, j - start) =~= seg);
                    } else {
                        assert(rest =~= seg);
                    }
                    assert(extract_spec(rest, key@) == Option::Some(value@));
                }
                return Option::Some(String::from_str(value));
            }
            proof {
                assert(seg_value(seg, key@) is None);
            }
        } else {
            proof {
                assert(seg_value(seg, key@) is None);
            }
        }
        if j == n {
            proof {
                assert(rest =~= seg);
            }
            return Option::None;
        }
        proof {
            assert(rest.subrange(0, j - start) =~= seg);
            assert(rest.subrange(j - start + 1, rest.len() as int) =~= q@.subrange(
                j + 1,
                n as int,
            ));
        }
        start = j + 1;
    }
}

} // verus!
