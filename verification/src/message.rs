//! Encoding of the outbound request descriptor: the JSON object
//! `{"method":M,"pairs":[..],"providers":[..],"min_last_update":"T"}`
//! that a payment-gated request carries as its transfer message (UTF-8
//! bytes).  Quotes and backslashes inside the embedded strings are escaped;
//! the timestamp is written as a quoted decimal, the way the oracle reads
//! its wrapped integers.

use vstd::prelude::*;
use vstd::utf8::encode_utf8;

use crate::payload::{BYTE_COMMA, BYTE_LBRACKET, BYTE_QUOTE, BYTE_RBRACKET, BYTE_ZERO};

verus! {

pub const BYTE_BACKSLASH: u8 = 92;

/// A byte string with every quote and backslash escaped.
pub open spec fn escape_json(s: Seq<u8>) -> Seq<u8>
    decreases s.len(),
{
    if s.len() == 0 {
        Seq::empty()
    } else {
        let head = if s[0] == BYTE_QUOTE || s[0] == BYTE_BACKSLASH {
            seq![BYTE_BACKSLASH, s[0]]
        } else {
            seq![s[0]]
        };
        head + escape_json(s.drop_first())
    }
}

/// A JSON string literal: the escaped bytes between quotes.
pub open spec fn json_string(s: Seq<u8>) -> Seq<u8> {
    seq![BYTE_QUOTE] + escape_json(s) + seq![BYTE_QUOTE]
}

/// The comma-separated string literals of an array.
pub open spec fn json_items(xs: Seq<Seq<u8>>) -> Seq<u8>
    decreases xs.len(),
{
    if xs.len() == 0 {
        Seq::empty()
    } else if xs.len() == 1 {
        json_string(xs[0])
    } else {
        json_items(xs.drop_last()) + seq![BYTE_COMMA] + json_string(xs.last())
    }
}

/// A JSON array of string literals.
pub open spec fn json_array(xs: Seq<Seq<u8>>) -> Seq<u8> {
    seq![BYTE_LBRACKET] + json_items(xs) + seq![BYTE_RBRACKET]
}

/// The decimal digits of `v`, most significant first.
pub open spec fn dec_digits(v: nat) -> Seq<u8>
    decreases v,
{
    if v < 10 {
        seq![(v + BYTE_ZERO) as u8]
    } else {
        dec_digits(v / 10) + seq![(v % 10 + BYTE_ZERO) as u8]
    }
}

/// Each string as the bytes of its UTF-8 form.
pub open spec fn bytes_of_strings(xs: Seq<Seq<char>>) -> Seq<Seq<u8>> {
    xs.map_values(|s: Seq<char>| encode_utf8(s))
}

/// The full descriptor object.
pub open spec fn request_descriptor(
    method: Seq<char>,
    pairs: Seq<Seq<char>>,
    providers: Seq<Seq<char>>,
    min_last_update: u64,
) -> Seq<u8> {
    encode_utf8("{\"method\":"@) + json_string(encode_utf8(method)) + encode_utf8(",\"pairs\":"@)
        + json_array(bytes_of_strings(pairs)) + encode_utf8(",\"providers\":"@) + json_array(
        bytes_of_strings(providers),
    ) + encode_utf8(",\"min_last_update\":\""@) + dec_digits(min_last_update as nat) + encode_utf8(
        "\"}"@,
    )
}

/// Escaping one more byte appends its escaped form.
proof fn lemma_escape_snoc(t: Seq<u8>, x: u8)
    ensures
        escape_json(t.push(x)) == escape_json(t) + (if x == BYTE_QUOTE || x == BYTE_BACKSLASH {
            seq![BYTE_BACKSLASH, x]
        } else {
            seq![x]
        }),
    decreases t.len(),
{
    if t.len() == 0 {
        assert(t.push(x)[0] == x);
        assert(t.push(x).drop_first() =~= Seq::<u8>::empty());
        assert(escape_json(Seq::<u8>::empty()) =~= Seq::<u8>::empty());
        assert(escape_json(t.push(x).drop_first()) =~= Seq::<u8>::empty());
        assert(escape_json(t) + (if x == BYTE_QUOTE || x == BYTE_BACKSLASH {
            seq![BYTE_BACKSLASH, x]
        } else {
            seq![x]
        }) =~= escape_json(t.push(x)));
    } else {
        assert(t.push(x)[0] == t[0]);
        assert(t.push(x).drop_first() =~= t.drop_first().push(x));
        lemma_escape_snoc(t.drop_first(), x);
        assert(escape_json(t) + (if x == BYTE_QUOTE || x == BYTE_BACKSLASH {
            seq![BYTE_BACKSLASH, x]
        } else {
            seq![x]
        }) =~= escape_json(t.push(x)));
    }
}

/// Append the UTF-8 bytes of `s`.
fn push_str_bytes(out: &mut Vec<u8>, s: &str)
    ensures
        final(out)@ == old(out)@ + encode_utf8(s@),
{
    let ghost start = out@;
    let b = s.as_bytes();
    let mut i: usize = 0;
    while i < b.len()
        invariant
            i <= b@.len(),
            b@ == encode_utf8(s@),
            out@ == start + b@.take(i as int),
        decreases b@.len() - i,
    {
        out.push(b[i]);
        proof {
            assert(b@.take(i as int + 1) =~= b@.take(i as int).push(b@[i as int]));
            assert(out@ =~= start + b@.take(i as int + 1));
        }
        i += 1;
    }
    proof {
        assert(b@.take(b@.len() as int) =~= b@);
    }
}

/// Append `s` as a JSON string literal.
fn push_json_string(out: &mut Vec<u8>, s: &str)
    ensures
        final(out)@ == old(out)@ + json_string(encode_utf8(s@)),
{
    let ghost start = out@;
    out.push(BYTE_QUOTE);
    let b = s.as_bytes();
    let mut i: usize = 0;
    while i < b.len()
        invariant
            i <= b@.len(),
            b@ == encode_utf8(s@),
            out@ == start + seq![BYTE_QUOTE] + escape_json(b@.take(i as int)),
        decreases b@.len() - i,
    {
        let c = b[i];
        if c == BYTE_QUOTE || c == BYTE_BACKSLASH {
            out.push(BYTE_BACKSLASH);
        }
        out.push(c);
        proof {
            lemma_escape_snoc(b@.take(i as int), c);
            assert(b@.take(i as int + 1) =~= b@.take(i as int).push(c));
            assert(out@ =~= start + seq![BYTE_QUOTE] + escape_json(b@.take(i as int + 1)));
        }
        i += 1;
    }
    out.push(BYTE_QUOTE);
    proof {
        assert(b@.take(b@.len() as int) =~= b@);
        assert(out@ =~= start + json_string(encode_utf8(s@)));
    }
}

/// Append the strings as a JSON array.
fn push_json_array(out: &mut Vec<u8>, xs: &Vec<String>)
    ensures
        final(out)@ == old(out)@ + json_array(bytes_of_strings(xs.deep_view())),
{
    let ghost start = out@;
    let ghost bs = bytes_of_strings(xs.deep_view());
    out.push(BYTE_LBRACKET);
    let mut i: usize = 0;
    while i < xs.len()
        invariant
            i <= xs@.len(),
            bs == bytes_of_strings(xs.deep_view()),
            bs.len() == xs@.len(),
            out@ == start + seq![BYTE_LBRACKET] + json_items(bs.take(i as int)),
        decreases xs@.len() - i,
    {
        if i > 0 {
            out.push(BYTE_COMMA);
        }
        push_json_string(out, xs[i].as_str());
        proof {
            assert(bs[i as int] == encode_utf8(xs@[i as int]@));
            assert(bs.take(i as int + 1).drop_last() =~= bs.take(i as int));
            assert(bs.take(i as int + 1).last() == bs[i as int]);
            assert(out@ =~= start + seq![BYTE_LBRACKET] + json_items(bs.take(i as int + 1)));
        }
        i += 1;
    }
    out.push(BYTE_RBRACKET);
    proof {
        assert(bs.take(bs.len() as int) =~= bs);
        assert(out@ =~= start + json_array(bs));
    }
}

/// Append the decimal digits of `v`.
fn push_dec(out: &mut Vec<u8>, v: u64)
    ensures
        final(out)@ == old(out)@ + dec_digits(v as nat),
    decreases v,
{
    if v < 10 {
        out.push(BYTE_ZERO + v as u8);
        proof {
            assert(out@ =~= old(out)@ + dec_digits(v as nat));
        }
    } else {
        push_dec(out, v / 10);
        out.push(BYTE_ZERO + (v % 10) as u8);
        proof {
            assert(out@ =~= old(out)@ + dec_digits(v as nat));
        }
    }
}

/// Build the descriptor for a payment-gated request.
pub fn encode_request_descriptor(
    method: &str,
    pairs: &Vec<String>,
    providers: &Vec<String>,
    min_last_update: u64,
) -> (r: Vec<u8>)
    ensures
        r@ == request_descriptor(method@, pairs.deep_view(), providers.deep_view(), min_last_update),
{
    let mut out: Vec<u8> = Vec::new();
    push_str_bytes(&mut out, "{\"method\":");
    push_json_string(&mut out, method);
    push_str_bytes(&mut out, ",\"pairs\":");
    push_json_array(&mut out, pairs);
    push_str_bytes(&mut out, ",\"providers\":");
    push_json_array(&mut out, providers);
    push_str_bytes(&mut out, ",\"min_last_update\":\"");
    push_dec(&mut out, min_last_update);
    push_str_bytes(&mut out, "\"}");
    proof {
        assert(out@ =~= request_descriptor(
            method@,
            pairs.deep_view(),
            providers.deep_view(),
            min_last_update,
        ));
    }
    out
}

} // verus!
