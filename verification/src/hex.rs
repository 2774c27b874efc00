//! Hexadecimal byte-string codec. Key packages and public keys travel as
//! hex text at the API boundary; this module decodes and encodes that text
//! with exact specifications and a round-trip law.

use vstd::prelude::*;

verus! {

/// `b` is the ASCII code of a hexadecimal digit (either case).
pub open spec fn is_hex_digit(b: u8) -> bool {
    (48 <= b <= 57) || (97 <= b <= 102) || (65 <= b <= 70)
}

/// Numeric value of the hex digit with ASCII code `b`.
pub open spec fn hex_val(b: u8) -> u8 {
    if 48 <= b <= 57 {
        (b - 48) as u8
    } else if 97 <= b <= 102 {
        (b - 87) as u8
    } else if 65 <= b <= 70 {
        (b - 55) as u8
    } else {
        0
    }
}

/// Lower-case ASCII hex digit for a value below 16.
pub open spec fn hex_digit(v: u8) -> u8 {
    if v < 10 {
        (v + 48) as u8
    } else {
        (v + 87) as u8
    }
}

/// `s` is well-formed hex text: even length, hex digits throughout.
pub open spec fn valid_hex(s: Seq<u8>) -> bool {
    &&& s.len() % 2 == 0
    &&& forall|i: int| 0 <= i < s.len() ==> is_hex_digit(#[trigger] s[i])
}

/// The bytes denoted by well-formed hex text `s`.
pub open spec fn hex_decode(s: Seq<u8>) -> Seq<u8> {
    Seq::new(s.len() / 2, |i: int| (hex_val(s[2 * i]) * 16 + hex_val(s[2 * i + 1])) as u8)
}

/// The lower-case hex text denoting `b`.
pub open spec fn hex_encode(b: Seq<u8>) -> Seq<u8> {
    Seq::new(
        b.len() * 2,
        |i: int|
            if i % 2 == 0 {
                hex_digit(b[i / 2] / 16)
            } else {
                hex_digit(b[i / 2] % 16)
            },
    )
}

/// Decoding inverts encoding: hex text produced for `b` is well formed and
/// denotes `b` again.
pub proof fn lemma_hex_round_trip(b: Seq<u8>)
    ensures
        valid_hex(hex_encode(b)),
        hex_decode(hex_encode(b)) == b,
{
    let e = hex_encode(b);
    assert forall|i: int| 0 <= i < e.len() implies is_hex_digit(#[trigger] e[i]) by {
        let v = b[i / 2];
        assert(v / 16 < 16) by (nonlinear_arith);
        assert(v % 16 < 16) by (nonlinear_arith);
    }
    assert forall|i: int| 0 <= i < b.len() implies hex_decode(e)[i] == b[i] by {
        let v = b[i];
        assert(e[2 * i] == hex_digit(v / 16));
        assert((2 * i + 1) % 2 == 1) by (nonlinear_arith);
        assert((2 * i + 1) / 2 == i) by (nonlinear_arith);
        assert(e[2 * i + 1] == hex_digit(v % 16));
        assert(v / 16 < 16 && v % 16 < 16) by (nonlinear_arith);
        assert(hex_val(hex_digit(v / 16)) == v / 16);
        assert(hex_val(hex_digit(v % 16)) == v % 16);
        assert(v / 16 * 16 + v % 16 == v) by (nonlinear_arith);
    }
    assert(hex_decode(e) =~= b);
}

/// Numeric value of one hex digit byte, or `None` when `b` is no hex digit.
pub fn hex_val_of(b: u8) -> (r: Option<u8>)
    ensures
        r is Some <==> is_hex_digit(b),
        r is Some ==> r->0 == hex_val(b) && r->0 < 16,
{
    if 48 <= b && b <= 57 {
        Some(b - 48)
    } else if 97 <= b && b <= 102 {
        Some(b - 87)
    } else if 65 <= b && b <= 70 {
        Some(b - 55)
    } else {
        None
    }
}

/// Decode hex text to bytes; `None` exactly when the text is not
/// well-formed hex.
pub fn decode_hex(s: &[u8]) -> (r: Option<Vec<u8>>)
    ensures
        r is Some <==> valid_hex(s@),
        r is Some ==> r->0@ == hex_decode(s@),
{
    if s.len() % 2 != 0 {
        return None;
    }
    let mut out: Vec<u8> = Vec::new();
    let mut i: usize = 0;
    while i < s.len()
        invariant
            i % 2 == 0,
            i <= s.len(),
            s@.len() % 2 == 0,
            out@.len() == i / 2,
            forall|j: int| 0 <= j < i ==> is_hex_digit(#[trigger] s@[j]),
            forall|j: int|
                0 <= j < i / 2 ==> out@[j] == (hex_val(s@[2 * j]) * 16 + hex_val(
                    s@[2 * j + 1],
                )) as u8,
        decreases s.len() - i,
    {
        let hi = match hex_val_of(s[i]) {
            Some(v) => v,
            None => { return None; },
        };
        let lo = match hex_val_of(s[i + 1]) {
            Some(v) => v,
            None => { return None; },
        };
        out.push(hi * 16 + lo);
        proof {
            assert(forall|j: int| 0 <= j < i + 2 ==> is_hex_digit(#[trigger] s@[j]));
        }
        i = i + 2;
    }
    proof {
        assert(out@ =~= hex_decode(s@));
    }
    Some(out)
}

/// Encode bytes as lower-case hex text.
pub fn encode_hex(b: &[u8]) -> (r: Vec<u8>)
    ensures
        r@ == hex_encode(b@),
{
    let mut out: Vec<u8> = Vec::new();
    let mut i: usize = 0;
    while i < b.len()
        invariant
            i <= b.len(),
            out@.len() == 2 * i,
            forall|j: int| 0 <= j < 2 * i ==> out@[j] == hex_encode(b@)[j],
        decreases b.len() - i,
    {
        let v = b[i];
        let hi = v / 16;
        let lo = v % 16;
        let hi_d = if hi < 10 {
            hi + 48
        } else {
            hi + 87
        };
        let lo_d = if lo < 10 {
            lo + 48
        } else {
            lo + 87
        };
        out.push(hi_d);
        out.push(lo_d);
        proof {
            assert((2 * i as int) % 2 == 0) by (nonlinear_arith);
            assert((2 * i as int) / 2 == i as int) by (nonlinear_arith);
            assert((2 * i as int + 1) % 2 == 1) by (nonlinear_arith);
            assert((2 * i as int + 1) / 2 == i as int) by (nonlinear_arith);
            assert(hex_encode(b@)[2 * i as int] == hex_digit(v / 16));
            assert(hex_encode(b@)[2 * i as int + 1] == hex_digit(v % 16));
        }
        i = i + 1;
    }
    proof {
        assert(out@ =~= hex_encode(b@));
    }
    out
}

} // verus!
