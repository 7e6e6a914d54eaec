//! The JSON-RPC text that the timestamp endpoint speaks: the request for a
//! method call and the decimal timestamp in its answer.
use vstd::prelude::*;
use vstd::string::{StringExecFns, StringSliceAdditionalSpecFns};

verus! {

/// How a call's result is encoded.
#[derive(Clone, Copy, Debug, PartialEq, Eq, Structural)]
pub enum Encoding {
    /// On one line.
    Compact,
    /// Indented over several lines.
    Pretty,
}

/// The request text of a call of `method` with id 1 and no parameters.
pub open spec fn request_spec(method: Seq<char>) -> Seq<char> {
    "{ \"jsonrpc\":\"2.0\", \"id\": 1, \"method\": \""@ + method + "\" }"@
}

/// The JSON-RPC 2.0 request text of a call of `method` with id 1.
pub fn request_text(method: &str) -> (r: String)
    ensures
        r@ == request_spec(method@),
{
    let mut r = String::from_str("{ \"jsonrpc\":\"2.0\", \"id\": 1, \"method\": \"");
    r.append(method);
    r.append("\" }");
    r
}

/// Whether `b` is an ASCII decimal digit.
pub open spec fn is_digit(b: u8) -> bool {
    48 <= b <= 57
}

/// Whether every byte of `b` is a decimal digit.
pub open spec fn all_digits(b: Seq<u8>) -> bool {
    forall|i: int| 0 <= i < b.len() ==> is_digit(#[trigger] b[i])
}

/// The number written by the decimal digits `b`, most significant first.
pub open spec fn digits_value(b: Seq<u8>) -> nat
    decreases b.len(),
{
    if b.len() == 0 {
        0
    } else {
        digits_value(b.drop_last()) * 10 + (b.last() - 48) as nat
    }
}

/// The digits of a decimal text: the text without one leading `+`.
pub open spec fn unsigned_digits(b: Seq<u8>) -> Seq<u8> {
    if b.len() > 0 && b[0] == 43 {
        b.drop_first()
    } else {
        b
    }
}

/// The value of a decimal text in `u64`: an optional `+` and at least one
/// digit, whose number fits.
pub open spec fn decimal_u64(b: Seq<u8>) -> Option<u64> {
    let d = unsigned_digits(b);
    if d.len() > 0 && all_digits(d) && digits_value(d) <= u64::MAX {
        Some(digits_value(d) as u64)
    } else {
        None
    }
}

proof fn lemma_prefix_value_le(b: Seq<u8>, j: int)
    requires
        0 <= j <= b.len(),
        forall|i: int| 0 <= i < b.len() ==> is_digit(#[trigger] b[i]),
    ensures
        digits_value(b.subrange(0, j)) <= digits_value(b),
    decreases b.len(),
{
    if j < b.len() {
        let c = b.drop_last();
        assert(c.subrange(0, j) =~= b.subrange(0, j));
        lemma_prefix_value_le(c, j);
        assert(b.drop_last() == c);
    } else {
        assert(b.subrange(0, j) =~= b);
    }
}

/// Reads the timestamp in an answer's text, as a `u64` is read from a string.
pub fn parse_timestamp(text: &str) -> (r: Option<u64>)
    ensures
        r == decimal_u64(text.spec_bytes()),
{
    let b = text.as_bytes();
    let ghost d = unsigned_digits(b@);
    assert(b@ == text.spec_bytes());
    let start: usize = if b.len() > 0 && b[0] == 43u8 {
        1
    } else {
        0
    };
    assert(d =~= b@.subrange(start as int, b@.len() as int));
    if start >= b.len() {
        return None;
    }
    let mut i: usize = start;
    while i < b.len()
        invariant
            start <= i <= b@.len(),
            d =~= b@.subrange(start as int, b@.len() as int),
            d == unsigned_digits(b@),
            b@ == text.spec_bytes(),
            forall|j: int| 0 <= j < i - start ==> is_digit(#[trigger] d[j]),
        decreases b@.len() - i,
    {
        assert(d[i - start] == b@[i as int]);
        if b[i] < 48u8 || b[i] > 57u8 {
            assert(!is_digit(d[i - start]));
            assert(!all_digits(d));
            assert(decimal_u64(b@) is None);
            return None;
        }
        i = i + 1;
    }
    let mut acc: u64 = 0;
    let mut i: usize = start;
    while i < b.len()
        invariant
            start <= i <= b@.len(),
            d =~= b@.subrange(start as int, b@.len() as int),
            d == unsigned_digits(b@),
            b@ == text.spec_bytes(),
            forall|j: int| 0 <= j < d.len() ==> is_digit(#[trigger] d[j]),
            acc == digits_value(d.subrange(0, i - start)),
        decreases b@.len() - i,
    {
        assert(d[i - start] == b@[i as int]);
        assert(is_digit(d[i - start]));
        let digit = (b[i] - 48u8) as u64;
        let ghost prefix = d.subrange(0, i + 1 - start);
        proof {
            assert(prefix.drop_last() =~= d.subrange(0, i - start));
            assert(prefix.last() == b@[i as int]);
            assert(digits_value(prefix) == acc * 10 + digit);
            lemma_prefix_value_le(d, i + 1 - start);
        }
        if acc > (u64::MAX - digit) / 10 {
            proof {
                assert(acc * 10 + digit > u64::MAX) by (nonlinear_arith)
                    requires
                        acc > (u64::MAX - digit) / 10,
                        digit <= 9,
                ;
                assert(digits_value(d) > u64::MAX);
            }
            return None;
        }
        proof {
            assert(acc * 10 + digit <= u64::MAX) by (nonlinear_arith)
                requires
                    acc <= (u64::MAX - digit) / 10,
                    digit <= 9,
            ;
        }
        acc = acc * 10 + digit;
        i = i + 1;
        assert(d.subrange(0, i - start) == prefix);
    }
    assert(d.subrange(0, d.len() as int) =~= d);
    Some(acc)
}

} // verus!
