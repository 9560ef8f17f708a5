//! The hop-by-hop header classifier.
//!
//! Hop-by-hop headers are meaningful only for a single transport connection
//! and must never be forwarded across the proxy boundary (RFC 7230 section
//! 6.1). The classifier decides membership in that fixed set, ignoring ASCII
//! letter case.

use vstd::prelude::*;

use crate::strutil::eq_ignore_ascii_case;
use crate::strutil::eq_ignore_ascii_case_spec;

verus! {

/// True when `name`, folded to ASCII lower case, is one of the eight
/// hop-by-hop header names.
pub open spec fn is_hop_by_hop_spec(name: Seq<char>) -> bool {
    ||| eq_ignore_ascii_case_spec(name, "connection"@)
    ||| eq_ignore_ascii_case_spec(name, "keep-alive"@)
    ||| eq_ignore_ascii_case_spec(name, "proxy-authenticate"@)
    ||| eq_ignore_ascii_case_spec(name, "proxy-authorization"@)
    ||| eq_ignore_ascii_case_spec(name, "te"@)
    ||| eq_ignore_ascii_case_spec(name, "trailers"@)
    ||| eq_ignore_ascii_case_spec(name, "transfer-encoding"@)
    ||| eq_ignore_ascii_case_spec(name, "upgrade"@)
}

/// Decides whether `name` is a hop-by-hop header name, in any letter case.
pub fn is_hop_by_hop(name: &str) -> (r: bool)
    ensures
        r == is_hop_by_hop_spec(name@),
{
    eq_ignore_ascii_case(name, "connection") || eq_ignore_ascii_case(name, "keep-alive")
        || eq_ignore_ascii_case(name, "proxy-authenticate")
        || eq_ignore_ascii_case(name, "proxy-authorization") || eq_ignore_ascii_case(name, "te")
        || eq_ignore_ascii_case(name, "trailers") || eq_ignore_ascii_case(
        name,
        "transfer-encoding",
    ) || eq_ignore_ascii_case(name, "upgrade")
}

/// The header names that responses built by this crate carry are not
/// hop-by-hop: their lengths differ from all eight entries of the set.
pub proof fn lemma_content_type_not_hop_by_hop()
    ensures
        !is_hop_by_hop_spec("content-type"@),
{
    reveal_strlit("content-type");
    reveal_strlit("connection");
    reveal_strlit("keep-alive");
    reveal_strlit("proxy-authenticate");
    reveal_strlit("proxy-authorization");
    reveal_strlit("te");
    reveal_strlit("trailers");
    reveal_strlit("transfer-encoding");
    reveal_strlit("upgrade");
}

} // verus!
