//! Relaying an upstream fetch outcome into a downstream response.
//!
//! The network call itself happens outside this crate; its result is handed
//! in as a [`FetchOutcome`] holding plain values. [`relay_upstream`] turns
//! every possible outcome into a well-formed [`GatewayResponse`]: failures
//! become 502 diagnostics, and a received upstream response is passed through
//! with its status and body unchanged and its hop-by-hop headers removed.

use vstd::prelude::*;
use vstd::utf8::encode_utf8;

use crate::headers::is_hop_by_hop_spec;
use crate::response::GatewayResponse;
use crate::response::build_text;
use crate::response::content_type_views;
use crate::response::header_views;
use crate::response::response_views;

verus! {

/// An upstream response, already read to completion: status code, header
/// pairs in arrival order (duplicates permitted), and the full body.
pub struct UpstreamResponse {
    pub status: u16,
    pub headers: Vec<(String, String)>,
    pub body: Vec<u8>,
}

/// Everything that can come back from one upstream GET attempt.
pub enum FetchOutcome {
    /// The request could not be sent or no response arrived.
    ConnectFailed,
    /// Headers arrived but reading the body failed.
    ReadFailed,
    /// A complete response arrived, with any status code.
    Received(UpstreamResponse),
}

/// The headers that survive the proxy boundary: the input sequence with
/// every hop-by-hop entry removed, order and duplicates preserved.
pub open spec fn filter_headers(hs: Seq<(String, String)>) -> Seq<(String, String)>
    decreases hs.len(),
{
    if hs.len() == 0 {
        Seq::empty()
    } else {
        let rest = filter_headers(hs.drop_last());
        if !is_hop_by_hop_spec(hs.last().0@) {
            rest.push(hs.last())
        } else {
            rest
        }
    }
}

/// What relaying yields, as a function of the outcome alone: status,
/// headers and body of the downstream response.
pub open spec fn relay_views(outcome: FetchOutcome) -> (int, Seq<(Seq<char>, Seq<char>)>, Seq<u8>) {
    match outcome {
        FetchOutcome::ConnectFailed => (
            502,
            content_type_views("text/plain; charset=utf-8"@),
            encode_utf8("Upstream fetch failed"@),
        ),
        FetchOutcome::ReadFailed => (
            502,
            content_type_views("text/plain; charset=utf-8"@),
            encode_utf8("Upstream read failed"@),
        ),
        FetchOutcome::Received(u) => (
            if 100 <= u.status <= 599 {
                u.status as int
            } else {
                502
            },
            header_views(filter_headers(u.headers@)),
            u.body@,
        ),
    }
}

/// Every header kept by `filter_headers` has a name that is not hop-by-hop.
pub proof fn lemma_filtered_headers_ordinary(hs: Seq<(String, String)>)
    ensures
        forall|j: int|
            0 <= j < filter_headers(hs).len() ==> !is_hop_by_hop_spec(
                #[trigger] filter_headers(hs)[j].0@,
            ),
    decreases hs.len(),
{
    if hs.len() > 0 {
        lemma_filtered_headers_ordinary(hs.drop_last());
        let rest = filter_headers(hs.drop_last());
        assert forall|j: int| 0 <= j < filter_headers(hs).len() implies !is_hop_by_hop_spec(
            filter_headers(hs)[j].0@,
        ) by {
            if !is_hop_by_hop_spec(hs.last().0@) {
                if j < rest.len() {
                    assert(filter_headers(hs)[j] == rest[j]);
                } else {
                    assert(filter_headers(hs)[j] == hs.last());
                }
            } else {
                assert(filter_headers(hs)[j] == rest[j]);
            }
        }
    }
}

/// Copies the non-hop-by-hop headers of `hs`, in order.
fn copy_end_to_end_headers(hs: &Vec<(String, String)>) -> (r: Vec<(String, String)>)
    ensures
        r@ == filter_headers(hs@),
{
    let n = hs.len();
    let mut out: Vec<(String, String)> = Vec::new();
    let mut i: usize = 0;
    while i < n
        invariant
            n == hs@.len(),
            i <= n,
            out@ == filter_headers(hs@.subrange(0, i as int)),
        decreases n - i,
    {
        let pair = &hs[i];
        if !crate::headers::is_hop_by_hop(pair.0.as_str()) {
            let name = pair.0.clone();
            let value = pair.1.clone();
            proof {
                assert((name, value) == hs@[i as int]);
            }
            out.push((name, value));
        }
        proof {
            let pre = hs@.subrange(0, i as int);
            let post = hs@.subrange(0, i + 1);
            assert(post.drop_last() =~= pre);
            assert(post.last() == hs@[i as int]);
        }
        i += 1;
    }
    proof {
        assert(hs@.subrange(0, n as int) =~= hs@);
    }
    out
}

/// Turns an upstream outcome into the downstream response: failures become
/// 502 text diagnostics; a received response keeps its status (out-of-range
/// codes fall back to 502) and body, with hop-by-hop headers removed.
pub fn relay_upstream(outcome: FetchOutcome) -> (r: GatewayResponse)
    ensures
        response_views(r) == relay_views(outcome),
        r.wf(),
{
    match outcome {
        FetchOutcome::ConnectFailed => build_text("Upstream fetch failed", 502),
        FetchOutcome::ReadFailed => build_text("Upstream read failed", 502),
        FetchOutcome::Received(u) => {
            let status: u16 = if 100 <= u.status && u.status <= 599 {
                u.status
            } else {
                502
            };
            let headers = copy_end_to_end_headers(&u.headers);
            proof {
                lemma_filtered_headers_ordinary(u.headers@);
            }
            GatewayResponse { status, headers, body: u.body }
        },
    }
}

/// No hop-by-hop header crosses the boundary: a pair whose name is
/// hop-by-hop never appears among the relayed headers, whatever the
/// upstream sent.
pub proof fn lemma_hop_by_hop_dropped(hs: Seq<(String, String)>, h: (String, String))
    requires
        is_hop_by_hop_spec(h.0@),
    ensures
        !filter_headers(hs).contains(h),
{
    lemma_filtered_headers_ordinary(hs);
    if filter_headers(hs).contains(h) {
        let j = choose|j: int| 0 <= j < filter_headers(hs).len() && filter_headers(hs)[j] == h;
        assert(!is_hop_by_hop_spec(filter_headers(hs)[j].0@));
    }
}

/// Every ordinary header survives the boundary: a header pair of `hs` whose
/// name is not hop-by-hop appears among the relayed headers.
pub proof fn lemma_ordinary_header_kept(hs: Seq<(String, String)>, i: int)
    requires
        0 <= i < hs.len(),
        !is_hop_by_hop_spec(hs[i].0@),
    ensures
        filter_headers(hs).contains(hs[i]),
    decreases hs.len(),
{
    if i == hs.len() - 1 {
        assert(filter_headers(hs).last() == hs[i]);
    } else {
        lemma_ordinary_header_kept(hs.drop_last(), i);
        let rest = filter_headers(hs.drop_last());
        let j = choose|j: int| 0 <= j < rest.len() && rest[j] == hs.drop_last()[i];
        assert(filter_headers(hs)[j] == hs[i]);
    }
}

} // verus!
