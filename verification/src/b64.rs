//! Model of standard base64 (RFC 4648: standard alphabet, canonical padding),
//! and trusted wrappers around the `base64` crate's `BASE64_STANDARD` engine.
use vstd::prelude::*;

verus! {

/// ASCII code of the padding character `=`.
pub const B64_PAD: u8 = 61;

/// The byte of the standard base64 alphabet that encodes the six-bit value `v`.
pub open spec fn b64_char_of(v: int) -> u8 {
    if 0 <= v && v < 26 {
        (v + 65) as u8  // 'A'..'Z'
    } else if 26 <= v && v < 52 {
        (v + 71) as u8  // 'a'..'z'
    } else if 52 <= v && v < 62 {
        (v - 4) as u8  // '0'..'9'
    } else if v == 62 {
        43u8  // '+'
    } else {
        47u8  // '/'
    }
}

/// The six-bit value that the alphabet byte `c` stands for, or -1 if `c`
/// lies outside the standard alphabet (padding counts as outside).
pub open spec fn b64_val_of(c: u8) -> int {
    if 65 <= c && c <= 90 {
        c - 65
    } else if 97 <= c && c <= 122 {
        c - 71
    } else if 48 <= c && c <= 57 {
        c + 4
    } else if c == 43 {
        62
    } else if c == 47 {
        63
    } else {
        -1
    }
}

/// A byte that may occur in a canonical base64 encoding.
pub open spec fn is_b64_symbol(c: u8) -> bool {
    b64_val_of(c) >= 0 || c == B64_PAD
}

/// The canonical base64 encoding of `b`, as ASCII bytes.
pub open spec fn spec_b64_encode(b: Seq<u8>) -> Seq<u8>
    decreases b.len(),
{
    if b.len() == 0 {
        Seq::empty()
    } else if b.len() == 1 {
        seq![
            b64_char_of((b[0] >> 2) as int),
            b64_char_of(((b[0] & 3) << 4) as int),
            B64_PAD,
            B64_PAD,
        ]
    } else if b.len() == 2 {
        seq![
            b64_char_of((b[0] >> 2) as int),
            b64_char_of((((b[0] & 3) << 4) | (b[1] >> 4)) as int),
            b64_char_of(((b[1] & 15) << 2) as int),
            B64_PAD,
        ]
    } else {
        seq![
            b64_char_of((b[0] >> 2) as int),
            b64_char_of((((b[0] & 3) << 4) | (b[1] >> 4)) as int),
            b64_char_of((((b[1] & 15) << 2) | (b[2] >> 6)) as int),
            b64_char_of((b[2] & 63) as int),
        ] + spec_b64_encode(b.skip(3))
    }
}

/// Strict base64 decoding: `Some(bytes)` exactly on canonical encodings
/// (correct padding, zero trailing bits), `None` otherwise.
pub open spec fn spec_b64_decode(s: Seq<u8>) -> Option<Seq<u8>>
    decreases s.len(),
{
    if s.len() == 0 {
        Some(Seq::empty())
    } else if s.len() < 4 {
        None
    } else {
        let v0 = b64_val_of(s[0]);
        let v1 = b64_val_of(s[1]);
        if v0 < 0 || v1 < 0 {
            None
        } else if s.len() == 4 && s[2] == B64_PAD && s[3] == B64_PAD {
            if v1 % 16 == 0 {
                Some(seq![(v0 * 4 + v1 / 16) as u8])
            } else {
                None
            }
        } else if s.len() == 4 && s[3] == B64_PAD {
            let v2 = b64_val_of(s[2]);
            if 0 <= v2 && v2 % 4 == 0 {
                Some(seq![(v0 * 4 + v1 / 16) as u8, ((v1 % 16) * 16 + v2 / 4) as u8])
            } else {
                None
            }
        } else {
            let v2 = b64_val_of(s[2]);
            let v3 = b64_val_of(s[3]);
            if 0 <= v2 && 0 <= v3 {
                match spec_b64_decode(s.skip(4)) {
                    Some(rest) => Some(
                        seq![
                            (v0 * 4 + v1 / 16) as u8,
                            ((v1 % 16) * 16 + v2 / 4) as u8,
                            ((v2 % 4) * 64 + v3) as u8,
                        ] + rest,
                    ),
                    None => None,
                }
            } else {
                None
            }
        }
    }
}

/// The alphabet map and its inverse agree, and no alphabet byte collides with
/// padding, the frame separator `:` or the whitespace bytes.
pub proof fn lemma_b64_alphabet(v: int)
    requires
        0 <= v < 64,
    ensures
        b64_val_of(b64_char_of(v)) == v,
        b64_char_of(v) != B64_PAD,
        b64_char_of(v) != 58,
        b64_char_of(v) != 32,
        b64_char_of(v) != 10,
        b64_char_of(v) != 9,
        b64_char_of(v) != 13,
{
}

/// Every byte of an encoding is an alphabet byte or padding.
pub proof fn lemma_encode_symbols(b: Seq<u8>)
    ensures
        forall|i: int|
            0 <= i < spec_b64_encode(b).len() ==> is_b64_symbol(#[trigger] spec_b64_encode(b)[i]),
    decreases b.len(),
{
    let s = spec_b64_encode(b);
    if b.len() == 0 {
    } else if b.len() == 1 {
        let x = b[0];
        assert(x >> 2 < 64 && (x & 3) << 4 < 64) by (bit_vector);
        lemma_b64_alphabet((x >> 2) as int);
        lemma_b64_alphabet(((x & 3) << 4) as int);
    } else if b.len() == 2 {
        let x = b[0];
        let y = b[1];
        assert(x >> 2 < 64 && ((x & 3) << 4 | (y >> 4)) < 64 && (y & 15) << 2 < 64)
            by (bit_vector);
        lemma_b64_alphabet((x >> 2) as int);
        lemma_b64_alphabet((((x & 3) << 4) | (y >> 4)) as int);
        lemma_b64_alphabet(((y & 15) << 2) as int);
    } else {
        let x = b[0];
        let y = b[1];
        let z = b[2];
        assert(x >> 2 < 64 && ((x & 3) << 4 | (y >> 4)) < 64 && ((y & 15) << 2 | (z >> 6)) < 64
            && z & 63 < 64) by (bit_vector);
        lemma_b64_alphabet((x >> 2) as int);
        lemma_b64_alphabet((((x & 3) << 4) | (y >> 4)) as int);
        lemma_b64_alphabet((((y & 15) << 2) | (z >> 6)) as int);
        lemma_b64_alphabet((z & 63) as int);
        lemma_encode_symbols(b.skip(3));
        assert forall|i: int| 0 <= i < s.len() implies is_b64_symbol(s[i]) by {
            if i >= 4 {
                assert(s[i] == spec_b64_encode(b.skip(3))[i - 4]);
            }
        }
    }
}

/// Decoding a canonical encoding gives back exactly the encoded bytes.
pub proof fn lemma_b64_round_trip(b: Seq<u8>)
    ensures
        spec_b64_decode(spec_b64_encode(b)) == Some(b),
    decreases b.len(),
{
    let s = spec_b64_encode(b);
    if b.len() == 0 {
        assert(b =~= Seq::<u8>::empty());
    } else if b.len() == 1 {
        let x = b[0];
        assert(x >> 2 < 64 && (x & 3) << 4 < 64 && ((x & 3) << 4) % 16 == 0 && (x >> 2) * 4 + ((x
            & 3) << 4) / 16 == x) by (bit_vector);
        lemma_b64_alphabet((x >> 2) as int);
        lemma_b64_alphabet(((x & 3) << 4) as int);
        assert(seq![x] =~= b);
    } else if b.len() == 2 {
        let x = b[0];
        let y = b[1];
        let w1 = ((x & 3) << 4) | (y >> 4);
        let w2 = (y & 15) << 2;
        assert(x >> 2 < 64 && w1 < 64 && w2 < 64 && w2 % 4 == 0 && (x >> 2) * 4 + w1 / 16 == x && (
        w1 % 16) * 16 + w2 / 4 == y) by (bit_vector)
            requires
                w1 == ((x & 3) << 4) | (y >> 4),
                w2 == (y & 15) << 2,
        ;
        lemma_b64_alphabet((x >> 2) as int);
        lemma_b64_alphabet(w1 as int);
        lemma_b64_alphabet(w2 as int);
        assert(seq![x, y] =~= b);
    } else {
        let x = b[0];
        let y = b[1];
        let z = b[2];
        let w1 = ((x & 3) << 4) | (y >> 4);
        let w2 = ((y & 15) << 2) | (z >> 6);
        let w3 = z & 63;
        assert(x >> 2 < 64 && w1 < 64 && w2 < 64 && w3 < 64 && (x >> 2) * 4 + w1 / 16 == x && (w1
            % 16) * 16 + w2 / 4 == y && (w2 % 4) * 64 + w3 == z) by (bit_vector)
            requires
                w1 == ((x & 3) << 4) | (y >> 4),
                w2 == ((y & 15) << 2) | (z >> 6),
                w3 == z & 63,
        ;
        lemma_b64_alphabet((x >> 2) as int);
        lemma_b64_alphabet(w1 as int);
        lemma_b64_alphabet(w2 as int);
        lemma_b64_alphabet(w3 as int);
        lemma_b64_round_trip(b.skip(3));
        assert(s.skip(4) =~= spec_b64_encode(b.skip(3)));
        assert(seq![x, y, z] + b.skip(3) =~= b);
    }
}

/// Declares base64's `DecodeError` so a wrapper can return it; verified
/// code maps it to the library's own error and never looks inside it.
#[verifier::external_type_specification]
#[verifier::external_body]
pub struct ExDecodeError(base64::DecodeError);

/// Relies on base64's `Engine::encode` with the `BASE64_STANDARD` engine
/// (standard alphabet, canonical padding): it returns the RFC 4648 encoding
/// of `data`, which `spec_b64_encode` states byte for byte.
#[verifier::external_body]
pub fn b64_encode(data: &[u8]) -> (r: Vec<u8>)
    ensures
        r@ == spec_b64_encode(data@),
{
    base64::Engine::encode(&base64::prelude::BASE64_STANDARD, data).into_bytes()
}

/// Relies on base64's `Engine::decode` with the `BASE64_STANDARD` engine,
/// whose config demands canonical padding and zero trailing bits: it accepts
/// exactly the canonical encodings, which `spec_b64_decode` states.
#[verifier::external_body]
pub fn b64_decode(data: &[u8]) -> (r: Result<Vec<u8>, base64::DecodeError>)
    ensures
        r matches Ok(p) ==> spec_b64_decode(data@) == Some(p@),
        r is Err ==> spec_b64_decode(data@) is None,
{
    base64::Engine::decode(&base64::prelude::BASE64_STANDARD, data)
}

} // verus!
