use vstd::prelude::*;

use crate::error::Error;

verus! {

/// The byte `%`, which starts an escape.
pub const PERCENT: u8 = 0x25;

/// A byte that is printed as itself: ASCII and not a control character.
pub open spec fn is_printable(c: u8) -> bool {
    0x20 <= c && c <= 0x7e
}

/// The lowercase hexadecimal digit of a nibble.
pub open spec fn hex_digit(n: u8) -> u8 {
    if n < 10 {
        (0x30 + n) as u8
    } else {
        (0x61 + n - 10) as u8
    }
}

/// `0-9`, `A-F` or `a-f`.
pub open spec fn is_hex_digit(c: u8) -> bool {
    (0x30 <= c && c <= 0x39) || (0x41 <= c && c <= 0x46) || (0x61 <= c && c <= 0x66)
}

/// The value of a hexadecimal digit.
pub open spec fn hex_value(c: u8) -> u8 {
    if c <= 0x39 {
        (c - 0x30) as u8
    } else if c <= 0x46 {
        (c - 0x41 + 10) as u8
    } else {
        (c - 0x61 + 10) as u8
    }
}

/// The text of one byte: itself if printable, else `%` and two lowercase digits.
pub open spec fn escape_byte(c: u8) -> Seq<u8> {
    if is_printable(c) {
        seq![c]
    } else {
        seq![PERCENT, hex_digit(c / 16), hex_digit(c % 16)]
    }
}

/// The text of a byte sequence: the text of each byte, in order.
pub open spec fn encode_spec(b: Seq<u8>) -> Seq<u8>
    decreases b.len(),
{
    if b.len() == 0 {
        Seq::empty()
    } else {
        escape_byte(b[0]) + encode_spec(b.drop_first())
    }
}

/// The bytes a text denotes, or `None` where a `%` is not followed by two
/// hexadecimal digits.
pub open spec fn decode_spec(t: Seq<u8>) -> Option<Seq<u8>>
    decreases t.len(),
{
    if t.len() == 0 {
        Some(Seq::empty())
    } else if t[0] == PERCENT {
        if t.len() >= 3 && is_hex_digit(t[1]) && is_hex_digit(t[2]) {
            prefixed(
                seq![(hex_value(t[1]) * 16 + hex_value(t[2])) as u8],
                decode_spec(t.subrange(3, t.len() as int)),
            )
        } else {
            None
        }
    } else {
        prefixed(seq![t[0]], decode_spec(t.drop_first()))
    }
}

/// `p` put in front of a decoded result, if there is one.
pub open spec fn prefixed(p: Seq<u8>, o: Option<Seq<u8>>) -> Option<Seq<u8>> {
    match o {
        Some(r) => Some(p + r),
        None => None,
    }
}

fn hex_digit_of(n: u8) -> (r: u8)
    requires
        n < 16,
    ensures
        r == hex_digit(n),
{
    if n < 10 {
        0x30 + n
    } else {
        0x61 + n - 10
    }
}

fn hex_value_of(c: u8) -> (r: u8)
    requires
        is_hex_digit(c),
    ensures
        r == hex_value(c),
{
    if c <= 0x39 {
        c - 0x30
    } else if c <= 0x46 {
        c - 0x41 + 10
    } else {
        c - 0x61 + 10
    }
}

fn is_hex_digit_byte(c: u8) -> (r: bool)
    ensures
        r == is_hex_digit(c),
{
    (0x30 <= c && c <= 0x39) || (0x41 <= c && c <= 0x46) || (0x61 <= c && c <= 0x66)
}

proof fn lemma_encode_step(b: Seq<u8>, i: int)
    requires
        0 <= i < b.len(),
    ensures
        encode_spec(b.subrange(i, b.len() as int)) == escape_byte(b[i]) + encode_spec(
            b.subrange(i + 1, b.len() as int),
        ),
{
    let s = b.subrange(i, b.len() as int);
    assert(s.drop_first() =~= b.subrange(i + 1, b.len() as int));
}

/// Percent-escapes a value: printable ASCII bytes stay as they are, every
/// other byte becomes `%` followed by its two lowercase hexadecimal digits.
pub fn encode(b: &[u8]) -> (r: Vec<u8>)
    ensures
        r@ == encode_spec(b@),
{
    let mut out: Vec<u8> = Vec::new();
    let mut i: usize = 0;
    assert(b@.subrange(0, b@.len() as int) =~= b@);
    while i < b.len()
        invariant
            i <= b@.len(),
            encode_spec(b@) == out@ + encode_spec(b@.subrange(i as int, b@.len() as int)),
        decreases b@.len() - i,
    {
        let c = b[i];
        proof {
            lemma_encode_step(b@, i as int);
        }
        let ghost before = out@;
        let ghost rest = encode_spec(b@.subrange(i + 1, b@.len() as int));
        if 0x20 <= c && c <= 0x7e {
            out.push(c);
        } else {
            out.push(PERCENT);
            out.push(hex_digit_of(c / 16));
            out.push(hex_digit_of(c % 16));
        }
        assert(before + (escape_byte(c) + rest) =~= out@ + rest);
        i += 1;
    }
    assert(b@.subrange(i as int, b@.len() as int) =~= Seq::<u8>::empty());
    assert(out@ + Seq::<u8>::empty() =~= out@);
    out
}

/// Decodes a percent-escaped text: `%` and two hexadecimal digits (of either
/// case) give the byte they denote, every other byte stands for itself.
/// Fails with `InvalidHex` where a `%` is not followed by two such digits.
pub fn decode(t: &[u8]) -> (r: Result<Vec<u8>, Error>)
    ensures
        match r {
            Ok(v) => decode_spec(t@) == Some(v@),
            Err(e) => decode_spec(t@) is None && e == Error::InvalidHex,
        },
{
    let mut out: Vec<u8> = Vec::new();
    let mut i: usize = 0;
    let n = t.len();
    assert(t@.subrange(0, n as int) =~= t@);
    assert(Seq::<u8>::empty() + t@ =~= t@);
    while i < n
        invariant
            n == t@.len(),
            i <= n,
            decode_spec(t@) == prefixed(out@, decode_spec(t@.subrange(i as int, n as int))),
        decreases n - i,
    {
        let ghost s = t@.subrange(i as int, n as int);
        let c = t[i];
        if c == PERCENT {
            if n - i > 2 && is_hex_digit_byte(t[i + 1]) && is_hex_digit_byte(t[i + 2]) {
                let hi = hex_value_of(t[i + 1]);
                let lo = hex_value_of(t[i + 2]);
                let ghost before = out@;
                out.push(hi * 16 + lo);
                assert(s.subrange(3, s.len() as int) =~= t@.subrange(i + 3, n as int));
                assert(forall|r: Seq<u8>|
                    before + (seq![(hex_value(s[1]) * 16 + hex_value(s[2])) as u8] + r) =~= out@
                        + r);
                i += 3;
            } else {
                return Err(Error::InvalidHex);
            }
        } else {
            let ghost before = out@;
            out.push(c);
            assert(s.drop_first() =~= t@.subrange(i + 1, n as int));
            assert(forall|r: Seq<u8>| before + (seq![c] + r) =~= out@ + r);
            i += 1;
        }
    }
    assert(out@ + Seq::<u8>::empty() =~= out@);
    Ok(out)
}

proof fn lemma_hex_digit(n: u8)
    requires
        n < 16,
    ensures
        is_hex_digit(hex_digit(n)),
        hex_value(hex_digit(n)) == n,
{
}

/// Decoding the encoding of a byte sequence gives the sequence back, for
/// every sequence without a `%` byte. (A literal `%` is printable and is
/// written as itself, so `%41` encodes to itself and decodes to `A`.)
pub proof fn lemma_round_trip(b: Seq<u8>)
    requires
        forall|i: int| 0 <= i < b.len() ==> b[i] != PERCENT,
    ensures
        decode_spec(encode_spec(b)) == Some(b),
    decreases b.len(),
{
    if b.len() > 0 {
        let c = b[0];
        let rest = b.drop_first();
        assert(forall|i: int| 0 <= i < rest.len() ==> rest[i] == b[i + 1]);
        lemma_round_trip(rest);
        let e = encode_spec(b);
        let er = encode_spec(rest);
        assert(e == escape_byte(c) + er);
        if is_printable(c) {
            assert(e.drop_first() =~= er);
            assert(seq![c] + rest =~= b);
        } else {
            lemma_hex_digit(c / 16);
            lemma_hex_digit(c % 16);
            assert(e.subrange(3, e.len() as int) =~= er);
            assert((hex_value(e[1]) * 16 + hex_value(e[2])) as u8 == c);
            assert(seq![c] + rest =~= b);
        }
    }
}

/// A sequence of printable bytes without `%` encodes to itself.
pub proof fn lemma_printable_encodes_to_itself(b: Seq<u8>)
    requires
        forall|i: int| 0 <= i < b.len() ==> is_printable(b[i]) && b[i] != PERCENT,
    ensures
        encode_spec(b) == b,
    decreases b.len(),
{
    if b.len() > 0 {
        let rest = b.drop_first();
        assert(forall|i: int| 0 <= i < rest.len() ==> rest[i] == b[i + 1]);
        lemma_printable_encodes_to_itself(rest);
        assert(seq![b[0]] + rest =~= b);
    }
}

} // verus!
