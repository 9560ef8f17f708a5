//! Downstream response construction.
//!
//! A [`GatewayResponse`] is the only value handed back to the transport
//! layer: a status code, a header list, and a byte body. Two constructors
//! build it: [`build_text`] for plain-text diagnostics and [`build_json`] for
//! the JSON demo payload. Both pin the exact body bytes, and both keep the
//! invariant that no hop-by-hop header ever appears in a response.

use vstd::prelude::*;
use vstd::utf8::encode_scalar;
use vstd::utf8::encode_utf8;
use vstd::utf8::has_width_1_encoding;
use vstd::utf8::has_width_2_encoding;
use vstd::utf8::has_width_3_encoding;
use vstd::utf8::has_width_4_encoding;
use vstd::utf8::is_scalar;
use vstd::string::StrSliceExecFns;
use vstd::string::StringExecFns;

use crate::headers::is_hop_by_hop_spec;
use crate::headers::lemma_content_type_not_hop_by_hop;

verus! {

/// A response ready to be written to the downstream connection: the only
/// shape this crate ever returns to the transport layer.
pub struct GatewayResponse {
    /// HTTP status code, always within 100..=599.
    pub status: u16,
    /// Header (name, value) pairs, in order, duplicates permitted.
    pub headers: Vec<(String, String)>,
    /// The response body.
    pub body: Vec<u8>,
}

/// The fixed JSON payload shape served at the root route.
pub struct Message {
    pub hello: String,
    pub number: u32,
}

/// The header list of a response as a sequence of character-level pairs.
pub open spec fn header_views(hs: Seq<(String, String)>) -> Seq<(Seq<char>, Seq<char>)> {
    hs.map_values(|h: (String, String)| (h.0@, h.1@))
}

/// Everything observable about a response: status, headers, body.
pub open spec fn response_views(r: GatewayResponse) -> (int, Seq<(Seq<char>, Seq<char>)>, Seq<u8>) {
    (r.status as int, header_views(r.headers@), r.body@)
}

/// The single-entry header list every text or JSON response carries.
pub open spec fn content_type_views(value: Seq<char>) -> Seq<(Seq<char>, Seq<char>)> {
    seq![("content-type"@, value)]
}

impl GatewayResponse {
    /// Well-formedness: the status is a legal HTTP status code and no header
    /// name, case-folded, is hop-by-hop.
    pub open spec fn wf(self) -> bool {
        &&& 100 <= self.status <= 599
        &&& forall|i: int|
            0 <= i < self.headers@.len() ==> !is_hop_by_hop_spec(#[trigger] self.headers@[i].0@)
    }
}

/// Appends the UTF-8 bytes of `s` to `out`.
pub fn push_str_bytes(out: &mut Vec<u8>, s: &str)
    ensures
        final(out)@ == old(out)@ + encode_utf8(s@),
{
    let mut bytes = s.as_bytes_vec();
    out.append(&mut bytes);
}

/// Appends the UTF-8 encoding of the single character `c` to `out`.
pub fn push_char_bytes(out: &mut Vec<u8>, c: char)
    ensures
        final(out)@ == old(out)@ + encode_scalar(c as u32),
{
    proof {
        vstd::utf8::char_is_scalar(c);
    }
    let u = c as u32;
    if u < 0x80 {
        assert(u & 0x7f == u) by (bit_vector)
            requires
                u < 0x80,
        ;
        out.push(u as u8);
        assert(final(out)@ =~= old(out)@ + encode_scalar(c as u32));
    } else if u < 0x800 {
        assert(((u >> 6) & 0x1f) < 0x100 && (u & 0x3f) < 0x100) by (bit_vector);
        let b1: u8 = 0xc0u8 | (((u >> 6) & 0x1f) as u8);
        let b2: u8 = 0x80u8 | ((u & 0x3f) as u8);
        out.push(b1);
        out.push(b2);
        assert(final(out)@ =~= old(out)@ + encode_scalar(c as u32));
    } else if u < 0x10000 {
        assert(((u >> 12) & 0x0f) < 0x100 && ((u >> 6) & 0x3f) < 0x100 && (u & 0x3f) < 0x100)
            by (bit_vector);
        let b1: u8 = 0xe0u8 | (((u >> 12) & 0x0f) as u8);
        let b2: u8 = 0x80u8 | (((u >> 6) & 0x3f) as u8);
        let b3: u8 = 0x80u8 | ((u & 0x3f) as u8);
        out.push(b1);
        out.push(b2);
        out.push(b3);
        assert(has_width_3_encoding(u));
        assert(final(out)@ =~= old(out)@ + encode_scalar(c as u32));
    } else {
        assert(((u >> 18) & 0x07) < 0x100 && ((u >> 12) & 0x3f) < 0x100 && ((u >> 6) & 0x3f) < 0x100
            && (u & 0x3f) < 0x100) by (bit_vector);
        let b1: u8 = 0xf0u8 | (((u >> 18) & 0x07) as u8);
        let b2: u8 = 0x80u8 | (((u >> 12) & 0x3f) as u8);
        let b3: u8 = 0x80u8 | (((u >> 6) & 0x3f) as u8);
        let b4: u8 = 0x80u8 | ((u & 0x3f) as u8);
        out.push(b1);
        out.push(b2);
        out.push(b3);
        out.push(b4);
        assert(final(out)@ =~= old(out)@ + encode_scalar(c as u32));
    }
}

/// The JSON string escaping of one character, as UTF-8 bytes: quote,
/// backslash and the common control characters get two-character escapes,
/// the remaining control characters a `\u00XX` escape, and every other
/// character its plain UTF-8 encoding.
pub open spec fn json_escape_char(c: char) -> Seq<u8> {
    if c == '"' {
        seq![0x5cu8, 0x22u8]
    } else if c == '\\' {
        seq![0x5cu8, 0x5cu8]
    } else if c == '\n' {
        seq![0x5cu8, 0x6eu8]
    } else if c == '\r' {
        seq![0x5cu8, 0x72u8]
    } else if c == '\t' {
        seq![0x5cu8, 0x74u8]
    } else if (c as u32) < 0x20 {
        seq![0x5cu8, 0x75u8, 0x30u8, 0x30u8, hex_digit(c as u32 >> 4), hex_digit(c as u32 & 0xf)]
    } else {
        encode_scalar(c as u32)
    }
}

/// The byte for one lower-case hexadecimal digit; `d` is below 16.
pub open spec fn hex_digit(d: u32) -> u8 {
    if d < 10 {
        (0x30 + d) as u8
    } else {
        (0x57 + d) as u8
    }
}

/// The JSON string escaping of a whole character sequence, as UTF-8 bytes.
pub open spec fn json_escaped_bytes(s: Seq<char>) -> Seq<u8>
    decreases s.len(),
{
    if s.len() == 0 {
        seq![]
    } else {
        json_escaped_bytes(s.drop_last()) + json_escape_char(s.last())
    }
}

/// The decimal digits of `n`, as ASCII bytes, most significant first.
pub open spec fn dec_bytes(n: u32) -> Seq<u8>
    decreases n,
{
    if n < 10 {
        seq![(0x30 + n) as u8]
    } else {
        dec_bytes(n / 10) + seq![(0x30 + n % 10) as u8]
    }
}

/// The serialized JSON object for a [`Message`]: an object with the string
/// field `hello` and the number field `number`, with no extra whitespace.
pub open spec fn json_message_bytes(hello: Seq<char>, number: u32) -> Seq<u8> {
    encode_utf8("{\"hello\":\""@) + json_escaped_bytes(hello) + encode_utf8("\",\"number\":"@)
        + dec_bytes(number) + encode_utf8("}"@)
}

/// Emits one lower-case hexadecimal digit.
fn hex_digit_byte(d: u32) -> (r: u8)
    requires
        d < 16,
    ensures
        r == hex_digit(d),
{
    if d < 10 {
        (0x30 + d) as u8
    } else {
        (0x57 + d) as u8
    }
}

/// Appends the JSON escaping of the single character `c` to `out`.
fn push_escaped_char(out: &mut Vec<u8>, c: char)
    ensures
        final(out)@ == old(out)@ + json_escape_char(c),
{
    if c == '"' {
        out.push(0x5c);
        out.push(0x22);
        assert(final(out)@ =~= old(out)@ + json_escape_char(c));
    } else if c == '\\' {
        out.push(0x5c);
        out.push(0x5c);
        assert(final(out)@ =~= old(out)@ + json_escape_char(c));
    } else if c == '\n' {
        out.push(0x5c);
        out.push(0x6e);
        assert(final(out)@ =~= old(out)@ + json_escape_char(c));
    } else if c == '\r' {
        out.push(0x5c);
        out.push(0x72);
        assert(final(out)@ =~= old(out)@ + json_escape_char(c));
    } else if c == '\t' {
        out.push(0x5c);
        out.push(0x74);
        assert(final(out)@ =~= old(out)@ + json_escape_char(c));
    } else if (c as u32) < 0x20 {
        let u = c as u32;
        out.push(0x5c);
        out.push(0x75);
        out.push(0x30);
        out.push(0x30);
        assert((u >> 4) < 16 && (u & 0xf) < 16) by (bit_vector)
            requires
                u < 0x20,
        ;
        let hi = hex_digit_byte(u >> 4);
        let lo = hex_digit_byte(u & 0xf);
        out.push(hi);
        out.push(lo);
        assert(final(out)@ =~= old(out)@ + json_escape_char(c));
    } else {
        push_char_bytes(out, c);
    }
}

/// Appends the JSON escaping of every character of `s` to `out`.
fn push_escaped_str(out: &mut Vec<u8>, s: &str)
    ensures
        final(out)@ == old(out)@ + json_escaped_bytes(s@),
{
    let n = s.unicode_len();
    let mut i: usize = 0;
    while i < n
        invariant
            n == s@.len(),
            i <= n,
            out@ == old(out)@ + json_escaped_bytes(s@.subrange(0, i as int)),
        decreases n - i,
    {
        let c = s.get_char(i);
        push_escaped_char(out, c);
        proof {
            let pre = s@.subrange(0, i as int);
            let post = s@.subrange(0, i + 1);
            assert(post.drop_last() =~= pre);
            assert(post.last() == s@[i as int]);
        }
        i += 1;
    }
    proof {
        assert(s@.subrange(0, n as int) =~= s@);
    }
}

/// Appends the decimal digits of `n` to `out`.
fn push_decimal(out: &mut Vec<u8>, n: u32)
    ensures
        final(out)@ == old(out)@ + dec_bytes(n),
    decreases n,
{
    if n < 10 {
        out.push((0x30 + n) as u8);
        assert(final(out)@ =~= old(out)@ + dec_bytes(n));
    } else {
        push_decimal(out, n / 10);
        out.push((0x30 + n % 10) as u8);
        assert(final(out)@ =~= old(out)@ + dec_bytes(n));
    }
}

/// The single `content-type` header that built responses carry.
fn content_type_header(value: &str) -> (r: Vec<(String, String)>)
    ensures
        r@.len() == 1,
        r@[0].0@ == "content-type"@,
        r@[0].1@ == value@,
        header_views(r@) == content_type_views(value@),
        forall|i: int| 0 <= i < r@.len() ==> !is_hop_by_hop_spec(#[trigger] r@[i].0@),
{
    let mut headers: Vec<(String, String)> = Vec::new();
    headers.push((String::from_str("content-type"), String::from_str(value)));
    proof {
        lemma_content_type_not_hop_by_hop();
        assert(header_views(headers@) =~= content_type_views(value@));
    }
    headers
}

/// Builds a plain-text response: the body is exactly the UTF-8 bytes of
/// `text`, with a `text/plain; charset=utf-8` content type.
pub fn build_text(text: &str, status: u16) -> (r: GatewayResponse)
    requires
        100 <= status <= 599,
    ensures
        r.status == status,
        r.headers@.len() == 1,
        header_views(r.headers@) == content_type_views("text/plain; charset=utf-8"@),
        r.body@ == encode_utf8(text@),
        r.wf(),
{
    let headers = content_type_header("text/plain; charset=utf-8");
    let body = text.as_bytes_vec();
    GatewayResponse { status, headers, body }
}

/// Builds the JSON response for `msg`: the body is exactly the serialized
/// object of [`json_message_bytes`], with an `application/json` content type.
pub fn build_json(msg: &Message, status: u16) -> (r: GatewayResponse)
    requires
        100 <= status <= 599,
    ensures
        r.status == status,
        r.headers@.len() == 1,
        header_views(r.headers@) == content_type_views("application/json"@),
        r.body@ == json_message_bytes(msg.hello@, msg.number),
        r.wf(),
{
    let headers = content_type_header("application/json");
    let mut body: Vec<u8> = Vec::new();
    push_str_bytes(&mut body, "{\"hello\":\"");
    push_escaped_str(&mut body, msg.hello.as_str());
    push_str_bytes(&mut body, "\",\"number\":");
    push_decimal(&mut body, msg.number);
    push_str_bytes(&mut body, "}");
    proof {
        assert(body@ =~= json_message_bytes(msg.hello@, msg.number));
    }
    GatewayResponse { status, headers, body }
}

} // verus!
