//! Decoding of resolved call payloads.  A scalar result arrives as the JSON
//! text `null` or a quoted decimal such as `"2000"`; a vector result arrives
//! as a JSON array of those.  This is the canonical form the oracle emits:
//! no surrounding whitespace, digits only between the quotes.  The decoders
//! accept exactly that grammar and reject everything else, keeping the
//! difference between "no data" (`null`) and a number intact.

use vstd::prelude::*;

verus! {

pub const BYTE_QUOTE: u8 = 34;

pub const BYTE_COMMA: u8 = 44;

pub const BYTE_LBRACKET: u8 = 91;

pub const BYTE_RBRACKET: u8 = 93;

pub const BYTE_ZERO: u8 = 48;

pub const BYTE_NINE: u8 = 57;

pub open spec fn is_digit(b: u8) -> bool {
    BYTE_ZERO <= b <= BYTE_NINE
}

pub open spec fn all_digits(s: Seq<u8>) -> bool {
    forall|i: int| 0 <= i < s.len() ==> is_digit(s[i])
}

/// The number a digit string spells.
pub open spec fn digits_val(s: Seq<u8>) -> nat
    decreases s.len(),
{
    if s.len() == 0 {
        0
    } else {
        digits_val(s.drop_last()) * 10 + (s.last() - BYTE_ZERO) as nat
    }
}

/// The four bytes of the JSON text `null`.
pub open spec fn is_null_token(s: Seq<u8>) -> bool {
    s.len() == 4 && s[0] == 110 && s[1] == 117 && s[2] == 108 && s[3] == 108
}

/// What a scalar payload spells: `Some(None)` for `null`, `Some(Some(v))`
/// for a quoted decimal whose value fits an unsigned 128-bit price, `None`
/// for anything else.
pub open spec fn scalar_payload(s: Seq<u8>) -> Option<Option<u128>> {
    if is_null_token(s) {
        Some(None)
    } else if s.len() >= 3 && s[0] == BYTE_QUOTE && s.last() == BYTE_QUOTE && all_digits(
        s.subrange(1, s.len() - 1),
    ) && digits_val(s.subrange(1, s.len() - 1)) <= u128::MAX as nat {
        Some(Some(digits_val(s.subrange(1, s.len() - 1)) as u128))
    } else {
        None
    }
}

/// Index of the first quote at or after `i`, or the length if there is none.
pub open spec fn find_quote(s: Seq<u8>, i: int) -> int
    decreases s.len() - i,
{
    if i < 0 || i >= s.len() {
        s.len() as int
    } else if s[i] == BYTE_QUOTE {
        i
    } else {
        find_quote(s, i + 1)
    }
}

/// Exclusive end of the array element that starts at `i`, or -1 if no
/// element starts there.
pub open spec fn elem_end(s: Seq<u8>, i: int) -> int {
    if !(0 <= i < s.len()) {
        -1
    } else if s[i] == BYTE_QUOTE {
        let q = find_quote(s, i + 1);
        if q < s.len() {
            q + 1
        } else {
            -1
        }
    } else if i + 4 <= s.len() && is_null_token(s.subrange(i, i + 4)) {
        i + 4
    } else {
        -1
    }
}

pub proof fn lemma_find_quote_ge(s: Seq<u8>, i: int)
    requires
        i <= s.len(),
    ensures
        find_quote(s, i) >= i,
        find_quote(s, i) <= s.len(),
    decreases s.len() - i,
{
    if 0 <= i < s.len() && s[i] != BYTE_QUOTE {
        lemma_find_quote_ge(s, i + 1);
    }
}

/// The values spelled by `elem (',' elem)* ']'` starting at `i` and running
/// to the very end of `s`, or `None` if the bytes do not spell that.
pub open spec fn elems_payload(s: Seq<u8>, i: int) -> Option<Seq<Option<u128>>>
    decreases s.len() - i when 0 <= i <= s.len()
{
    let e = elem_end(s, i);
    if e < i + 1 {
        None
    } else {
        match scalar_payload(s.subrange(i, e)) {
            None => None,
            Some(v) => {
                if e == s.len() - 1 && s[e] == BYTE_RBRACKET {
                    Some(seq![v])
                } else if e < s.len() - 1 && s[e] == BYTE_COMMA {
                    match elems_payload(s, e + 1) {
                        None => None,
                        Some(rest) => Some(seq![v] + rest),
                    }
                } else {
                    None
                }
            },
        }
    }
}

/// What a vector payload spells: `[]` is the empty batch, otherwise a
/// bracketed comma-separated list of scalar payloads.
pub open spec fn vector_payload(s: Seq<u8>) -> Option<Seq<Option<u128>>> {
    if s.len() < 2 || s[0] != BYTE_LBRACKET {
        None
    } else if s.len() == 2 {
        if s[1] == BYTE_RBRACKET {
            Some(Seq::empty())
        } else {
            None
        }
    } else {
        elems_payload(s, 1)
    }
}

/// A longer digit string spells at least as large a number.
proof fn lemma_digits_val_prefix(s: Seq<u8>, j: int)
    requires
        0 <= j <= s.len(),
    ensures
        digits_val(s.take(j)) <= digits_val(s),
    decreases s.len(),
{
    if j < s.len() {
        assert(s.drop_last().take(j) =~= s.take(j));
        lemma_digits_val_prefix(s.drop_last(), j);
    } else {
        assert(s.take(j) =~= s);
    }
}

/// Decode the scalar payload spelled by `b[from..to]`.
pub fn parse_price_range(b: &Vec<u8>, from: usize, to: usize) -> (r: Option<Option<u128>>)
    requires
        from <= to <= b@.len(),
    ensures
        r == scalar_payload(b@.subrange(from as int, to as int)),
{
    let ghost s = b@.subrange(from as int, to as int);
    let n = to - from;
    if n == 4 && b[from] == 110 && b[from + 1] == 117 && b[from + 2] == 108 && b[from + 3] == 108 {
        proof {
            assert(is_null_token(s));
        }
        return Some(None);
    }
    if n >= 3 && b[from] == BYTE_QUOTE && b[to - 1] == BYTE_QUOTE {
        let ghost inner = s.subrange(1, s.len() - 1);
        let mut val: u128 = 0;
        let mut i = from + 1;
        while i < to - 1
            invariant
                from + 1 <= i <= to - 1,
                to <= b@.len(),
                n == to - from,
                n >= 3,
                s == b@.subrange(from as int, to as int),
                inner == s.subrange(1, s.len() - 1),
                s[0] == BYTE_QUOTE,
                s.last() == BYTE_QUOTE,
                all_digits(inner.take(i - from - 1)),
                val == digits_val(inner.take(i - from - 1)),
            decreases to - 1 - i,
        {
            let ghost k = i - from - 1;
            let c = b[i];
            proof {
                assert(inner[k as int] == c);
            }
            if !(BYTE_ZERO <= c && c <= BYTE_NINE) {
                proof {
                    assert(!is_digit(inner[k as int]));
                    assert(!all_digits(inner));
                    assert(s[0] == BYTE_QUOTE);
                    assert(!is_null_token(s));
                }
                return None;
            }
            let d = (c - BYTE_ZERO) as u128;
            let next: u128 = match val.checked_mul(10) {
                Some(v10) => match v10.checked_add(d) {
                    Some(v) => v,
                    None => {
                        proof {
                            overflow_means_reject(inner, k as int, val, s);
                        }
                        return None;
                    },
                },
                None => {
                    proof {
                        overflow_means_reject(inner, k as int, val, s);
                    }
                    return None;
                },
            };
            proof {
                assert(inner.take(k + 1).drop_last() =~= inner.take(k as int));
                assert(inner.take(k + 1).last() == c);
                assert(digits_val(inner.take(k + 1)) == digits_val(inner.take(k as int)) * 10 + (c
                    - BYTE_ZERO) as nat);
            }
            val = next;
            i += 1;
        }
        proof {
            assert(inner.take(i - from - 1) =~= inner);
            assert(s[0] == BYTE_QUOTE);
            assert(s.last() == BYTE_QUOTE);
            assert(!is_null_token(s));
            assert(scalar_payload(s) == Some(Some(val)));
        }
        return Some(Some(val));
    }
    proof {
        assert(!is_null_token(s));
        assert(scalar_payload(s) is None);
    }
    None
}

/// At a rejected multiply-accumulate step the number already exceeds the
/// price range, so the whole digit string does too.
proof fn overflow_means_reject(inner: Seq<u8>, k: int, val: u128, s: Seq<u8>)
    requires
        0 <= k < inner.len(),
        is_digit(inner[k]),
        all_digits(inner.take(k)),
        val == digits_val(inner.take(k)),
        val * 10 + (inner[k] - BYTE_ZERO) as nat > u128::MAX as nat,
        s.len() >= 3,
        s[0] == BYTE_QUOTE,
        inner == s.subrange(1, s.len() - 1),
    ensures
        scalar_payload(s) is None,
{
    assert(!is_null_token(s));
    if all_digits(inner) {
        assert(inner.take(k + 1).drop_last() =~= inner.take(k));
        assert(inner.take(k + 1).last() == inner[k]);
        assert(digits_val(inner.take(k + 1)) == val * 10 + (inner[k] - BYTE_ZERO) as nat);
        lemma_digits_val_prefix(inner, k + 1);
        assert(digits_val(inner) > u128::MAX as nat);
    }
}

/// Decode the scalar payload spelled by the whole of `b`.
pub fn parse_price(b: &Vec<u8>) -> (r: Option<Option<u128>>)
    ensures
        r == scalar_payload(b@),
{
    let r = parse_price_range(b, 0, b.len());
    proof {
        assert(b@.subrange(0, b@.len() as int) =~= b@);
    }
    r
}

/// Walking past non-quote bytes does not move the first quote.
proof fn lemma_find_quote_step(s: Seq<u8>, start: int, j: int)
    requires
        0 <= start <= j <= s.len(),
        forall|k: int| start <= k < j ==> s[k] != BYTE_QUOTE,
    ensures
        find_quote(s, start) == find_quote(s, j),
    decreases j - start,
{
    if start < j {
        lemma_find_quote_step(s, start + 1, j);
    }
}

/// Index of the first quote at or after `start`, or the length.
fn scan_quote(b: &Vec<u8>, start: usize) -> (r: usize)
    requires
        start <= b@.len(),
    ensures
        r as int == find_quote(b@, start as int),
        start <= r <= b@.len(),
{
    let mut j = start;
    while j < b.len()
        invariant
            start <= j <= b@.len(),
            forall|k: int| start <= k < j ==> b@[k] != BYTE_QUOTE,
        decreases b@.len() - j,
    {
        if b[j] == BYTE_QUOTE {
            proof {
                lemma_find_quote_step(b@, start as int, j as int);
            }
            return j;
        }
        j += 1;
    }
    proof {
        lemma_find_quote_step(b@, start as int, j as int);
    }
    j
}

/// Decode the element list spelled by `b[i..]`, including the closing
/// bracket.
fn parse_elems(b: &Vec<u8>, i: usize) -> (r: Option<Vec<Option<u128>>>)
    requires
        i <= b@.len(),
    ensures
        match r {
            Some(v) => elems_payload(b@, i as int) == Some(v@),
            None => elems_payload(b@, i as int) is None,
        },
    decreases b@.len() - i,
{
    if i >= b.len() {
        return None;
    }
    let e: usize;
    if b[i] == BYTE_QUOTE {
        let q = scan_quote(b, i + 1);
        if q >= b.len() {
            return None;
        }
        e = q + 1;
    } else if b.len() - i >= 4 && b[i] == 110 && b[i + 1] == 117 && b[i + 2] == 108 && b[i + 3]
        == 108 {
        e = i + 4;
        proof {
            assert(is_null_token(b@.subrange(i as int, i as int + 4)));
        }
    } else {
        proof {
            assert(elem_end(b@, i as int) == -1);
        }
        return None;
    }
    proof {
        lemma_find_quote_ge(b@, i as int + 1);
        assert(e as int == elem_end(b@, i as int));
        assert(i + 1 <= e <= b@.len());
    }
    match parse_price_range(b, i, e) {
        None => None,
        Some(v) => {
            if e == b.len() - 1 && b[e] == BYTE_RBRACKET {
                let mut out: Vec<Option<u128>> = Vec::new();
                out.push(v);
                proof {
                    assert(out@ =~= seq![v]);
                }
                Some(out)
            } else if e < b.len() - 1 && b[e] == BYTE_COMMA {
                match parse_elems(b, e + 1) {
                    None => None,
                    Some(mut rest) => {
                        let ghost tail = rest@;
                        rest.insert(0, v);
                        proof {
                            assert(rest@ =~= seq![v] + tail);
                        }
                        Some(rest)
                    },
                }
            } else {
                None
            }
        },
    }
}

/// Decode the vector payload spelled by the whole of `b`.
pub fn parse_price_vector(b: &Vec<u8>) -> (r: Option<Vec<Option<u128>>>)
    ensures
        match r {
            Some(v) => vector_payload(b@) == Some(v@),
            None => vector_payload(b@) is None,
        },
{
    if b.len() < 2 || b[0] != BYTE_LBRACKET {
        return None;
    }
    if b.len() == 2 {
        if b[1] == BYTE_RBRACKET {
            let out: Vec<Option<u128>> = Vec::new();
            proof {
                assert(out@ =~= Seq::<Option<u128>>::empty());
            }
            return Some(out);
        }
        return None;
    }
    parse_elems(b, 1)
}

} // verus!
