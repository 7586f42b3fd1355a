//! Bridge token codec: base64 with the standard alphabet and canonical
//! padding, over byte sequences.
//!
//! A bridge token is the base64 image of a backend URL. Decoding is strict:
//! it accepts exactly the strings that `b64_encode` produces, so a decoded
//! token always recovers the original bytes, and anything else is rejected
//! explicitly.

use vstd::prelude::*;
use vstd::string::StrSliceExecFns;
use vstd::string::StringSliceAdditionalSpecFns;

verus! {

broadcast use vstd::utf8::is_ascii_chars_encode_utf8;

/// The ASCII code of the padding character `=`.
pub const PAD: u8 = 61;

/// True when `c` is the ASCII code of a character of the standard base64
/// alphabet (`A-Z`, `a-z`, `0-9`, `+`, `/`).
pub open spec fn is_b64_code(c: u8) -> bool {
    (65 <= c <= 90) || (97 <= c <= 122) || (48 <= c <= 57) || c == 43 || c == 47
}

/// The ASCII code of the alphabet character for a 6-bit value.
pub open spec fn b64_code_of(v: u8) -> u8
    recommends
        v < 64,
{
    if v < 26 {
        (v + 65) as u8
    } else if v < 52 {
        (v + 71) as u8
    } else if v < 62 {
        (v - 4) as u8
    } else if v == 62 {
        43
    } else {
        47
    }
}

/// The 6-bit value of an alphabet character's ASCII code.
pub open spec fn b64_val_of(c: u8) -> u8
    recommends
        is_b64_code(c),
{
    if 65 <= c <= 90 {
        (c - 65) as u8
    } else if 97 <= c <= 122 {
        (c - 71) as u8
    } else if 48 <= c <= 57 {
        (c + 4) as u8
    } else if c == 43 {
        62
    } else {
        63
    }
}

/// The four alphabet codes for one full group of three input bytes.
pub open spec fn enc3(b0: u8, b1: u8, b2: u8) -> Seq<u8> {
    seq![
        b64_code_of(b0 >> 2),
        b64_code_of(((b0 & 3) << 4) | (b1 >> 4)),
        b64_code_of(((b1 & 15) << 2) | (b2 >> 6)),
        b64_code_of(b2 & 63),
    ]
}

/// The three bytes encoded by one full group of four alphabet codes.
pub open spec fn dec3(c0: u8, c1: u8, c2: u8, c3: u8) -> Seq<u8>
    recommends
        is_b64_code(c0) && is_b64_code(c1) && is_b64_code(c2) && is_b64_code(c3),
{
    let v0 = b64_val_of(c0);
    let v1 = b64_val_of(c1);
    let v2 = b64_val_of(c2);
    let v3 = b64_val_of(c3);
    seq![
        ((v0 << 2) | (v1 >> 4)) as u8,
        (((v1 & 15) << 4) | (v2 >> 2)) as u8,
        (((v2 & 3) << 6) | v3) as u8,
    ]
}

/// Standard base64 encoding of a byte sequence, as a sequence of ASCII
/// codes, with `=` padding in the last group.
pub open spec fn b64_encode(b: Seq<u8>) -> Seq<u8>
    decreases b.len(),
{
    if b.len() == 0 {
        Seq::empty()
    } else if b.len() == 1 {
        seq![
            b64_code_of(b[0] >> 2),
            b64_code_of((b[0] & 3) << 4),
            PAD,
            PAD,
        ]
    } else if b.len() == 2 {
        seq![
            b64_code_of(b[0] >> 2),
            b64_code_of(((b[0] & 3) << 4) | (b[1] >> 4)),
            b64_code_of((b[1] & 15) << 2),
            PAD,
        ]
    } else {
        enc3(b[0], b[1], b[2]) + b64_encode(b.skip(3))
    }
}

/// Decoding of the last four-code group, which may carry padding. Canonical:
/// the bits that the padding cuts off must be zero.
pub open spec fn b64_decode_final(c0: u8, c1: u8, c2: u8, c3: u8) -> Option<Seq<u8>> {
    if is_b64_code(c0) && is_b64_code(c1) {
        if c2 == PAD && c3 == PAD {
            if b64_val_of(c1) & 15 == 0 {
                Some(seq![((b64_val_of(c0) << 2) | (b64_val_of(c1) >> 4)) as u8])
            } else {
                None
            }
        } else if is_b64_code(c2) && c3 == PAD {
            if b64_val_of(c2) & 3 == 0 {
                // The fourth value never reaches the first two bytes, so the
                // zero-valued code `A` stands in for the padding.
                Some(dec3(c0, c1, c2, 65).take(2))
            } else {
                None
            }
        } else if is_b64_code(c2) && is_b64_code(c3) {
            Some(dec3(c0, c1, c2, c3))
        } else {
            None
        }
    } else {
        None
    }
}

/// Decoding of a sequence of four-code groups; only the last group may carry
/// padding.
pub open spec fn b64_decode_blocks(s: Seq<u8>) -> Option<Seq<u8>>
    recommends
        s.len() % 4 == 0,
    decreases s.len(),
{
    if s.len() < 4 {
        if s.len() == 0 {
            Some(Seq::empty())
        } else {
            None
        }
    } else if s.len() == 4 {
        b64_decode_final(s[0], s[1], s[2], s[3])
    } else {
        if is_b64_code(s[0]) && is_b64_code(s[1]) && is_b64_code(s[2]) && is_b64_code(s[3]) {
            match b64_decode_blocks(s.skip(4)) {
                Some(rest) => Some(dec3(s[0], s[1], s[2], s[3]) + rest),
                None => None,
            }
        } else {
            None
        }
    }
}

/// Strict base64 decoding of a sequence of ASCII codes: the length must be a
/// multiple of four, every code must be in the alphabet, and padding may
/// stand only at the very end, canonically.
pub open spec fn b64_decode(s: Seq<u8>) -> Option<Seq<u8>> {
    if s.len() % 4 == 0 {
        b64_decode_blocks(s)
    } else {
        None
    }
}

/// Encoding a 6-bit value hits the alphabet (never the padding code), and
/// decoding gives the value back.
proof fn lemma_code_inverse(v: u8)
    requires
        v < 64,
    ensures
        is_b64_code(b64_code_of(v)),
        b64_code_of(v) != PAD,
        b64_val_of(b64_code_of(v)) == v,
{
}

/// The encoding of `n` bytes is `4 * ceil(n / 3)` codes long.
pub proof fn lemma_encode_len(b: Seq<u8>)
    ensures
        b64_encode(b).len() == 4 * ((b.len() + 2) as int / 3),
        b64_encode(b).len() % 4 == 0,
    decreases b.len(),
{
    if b.len() >= 3 {
        lemma_encode_len(b.skip(3));
    }
}

/// Round-trip law: strict decoding recovers exactly the bytes that were
/// encoded, for every byte sequence.
pub proof fn lemma_round_trip(b: Seq<u8>)
    ensures
        b64_decode(b64_encode(b)) == Some(b),
    decreases b.len(),
{
    lemma_encode_len(b);
    let s = b64_encode(b);
    if b.len() == 0 {
        assert(s =~= Seq::<u8>::empty());
        assert(b64_decode(s) == Some(b));
    } else if b.len() == 1 {
        let b0 = b[0];
        let v0 = b0 >> 2;
        let v1 = (b0 & 3) << 4;
        assert(b0 >> 2 < 64 && (b0 & 3) << 4 < 64 && ((b0 & 3) << 4) & 15 == 0 && (((b0 >> 2)
            << 2) | (((b0 & 3) << 4) >> 4)) == b0) by (bit_vector);
        lemma_code_inverse(v0);
        lemma_code_inverse(v1);
        assert(b64_decode_final(s[0], s[1], s[2], s[3]) == Some(seq![b0]));
        assert(seq![b0] =~= b);
    } else if b.len() == 2 {
        let b0 = b[0];
        let b1 = b[1];
        let v0 = b0 >> 2;
        let v1 = ((b0 & 3) << 4) | (b1 >> 4);
        let v2 = (b1 & 15) << 2;
        assert(b0 >> 2 < 64 && (((b0 & 3) << 4) | (b1 >> 4)) < 64 && (b1 & 15) << 2 < 64 && ((b1
            & 15) << 2) & 3 == 0 && (((b0 >> 2) << 2) | ((((b0 & 3) << 4) | (b1 >> 4)) >> 4))
            == b0 && ((((((b0 & 3) << 4) | (b1 >> 4)) & 15) << 4) | (((b1 & 15) << 2) >> 2))
            == b1) by (bit_vector);
        lemma_code_inverse(v0);
        lemma_code_inverse(v1);
        lemma_code_inverse(v2);
        let d = dec3(s[0], s[1], s[2], 65);
        assert(b64_val_of(65) == 0);
        assert(d[0] == b0 && d[1] == b1);
        assert(b64_decode_final(s[0], s[1], s[2], s[3]) == Some(d.take(2)));
        assert(d.take(2) =~= b);
    } else {
        let b0 = b[0];
        let b1 = b[1];
        let b2 = b[2];
        let v0 = b0 >> 2;
        let v1 = ((b0 & 3) << 4) | (b1 >> 4);
        let v2 = ((b1 & 15) << 2) | (b2 >> 6);
        let v3 = b2 & 63;
        assert(b0 >> 2 < 64 && (((b0 & 3) << 4) | (b1 >> 4)) < 64 && (((b1 & 15) << 2) | (b2
            >> 6)) < 64 && (b2 & 63) < 64 && (((b0 >> 2) << 2) | ((((b0 & 3) << 4) | (b1 >> 4))
            >> 4)) == b0 && ((((((b0 & 3) << 4) | (b1 >> 4)) & 15) << 4) | ((((b1 & 15) << 2) | (
            b2 >> 6)) >> 2)) == b1 && ((((((b1 & 15) << 2) | (b2 >> 6)) & 3) << 6) | (b2 & 63))
            == b2) by (bit_vector);
        lemma_code_inverse(v0);
        lemma_code_inverse(v1);
        lemma_code_inverse(v2);
        lemma_code_inverse(v3);
        let g = enc3(b0, b1, b2);
        let rest = b64_encode(b.skip(3));
        assert(s == g + rest);
        assert(s[0] == g[0] && s[1] == g[1] && s[2] == g[2] && s[3] == g[3]);
        assert(dec3(g[0], g[1], g[2], g[3]) =~= seq![b0, b1, b2]);
        if b.len() == 3 {
            assert(b.skip(3) =~= Seq::<u8>::empty());
            assert(rest =~= Seq::<u8>::empty());
            assert(s.len() == 4);
            assert(b64_decode_final(s[0], s[1], s[2], s[3]) == Some(dec3(s[0], s[1], s[2], s[3])));
            assert(dec3(s[0], s[1], s[2], s[3]) =~= b);
        } else {
            lemma_round_trip(b.skip(3));
            lemma_encode_len(b.skip(3));
            assert(rest.len() >= 4);
            assert(s.len() > 4);
            assert(s.skip(4) =~= rest);
            assert(b64_decode_blocks(rest) == Some(b.skip(3)));
            assert(b64_decode_blocks(s) == Some(dec3(s[0], s[1], s[2], s[3]) + b.skip(3)));
            assert(dec3(s[0], s[1], s[2], s[3]) + b.skip(3) =~= b);
        }
    }
}

/// The characters of an ASCII byte sequence.
pub open spec fn ascii_chars(s: Seq<u8>) -> Seq<char> {
    Seq::new(s.len(), |i| s[i] as char)
}

/// Prefixing every successful decode outcome with already-decoded bytes.
pub open spec fn opt_prepend(p: Seq<u8>, o: Option<Seq<u8>>) -> Option<Seq<u8>> {
    match o {
        Some(x) => Some(p + x),
        None => None,
    }
}

/// Decoding a bridge token failed: the token is not a canonical base64
/// string. This is a client fault, never a server one.
#[derive(Clone, Copy, Debug, PartialEq, Eq, Structural)]
pub struct TokenDecodeError;

impl TokenDecodeError {
    /// A diagnostic message for the error.
    pub fn message(&self) -> (r: &'static str)
        ensures
            r@ == "invalid base64 token"@,
    {
        "invalid base64 token"
    }
}

/// The alphabet character for a 6-bit value.
fn code_of(v: u8) -> (r: u8)
    requires
        v < 64,
    ensures
        r == b64_code_of(v),
{
    if v < 26 {
        v + 65
    } else if v < 52 {
        v + 71
    } else if v < 62 {
        v - 4
    } else if v == 62 {
        43
    } else {
        47
    }
}

/// The 6-bit value of an alphabet character, or `None` outside the alphabet.
fn val_of(c: u8) -> (r: Option<u8>)
    ensures
        match r {
            Some(v) => is_b64_code(c) && v == b64_val_of(c) && v < 64,
            None => !is_b64_code(c),
        },
{
    if 65 <= c && c <= 90 {
        Some(c - 65)
    } else if 97 <= c && c <= 122 {
        Some(c - 71)
    } else if 48 <= c && c <= 57 {
        Some(c + 4)
    } else if c == 43 {
        Some(62)
    } else if c == 47 {
        Some(63)
    } else {
        None
    }
}

/// Base64-encode a byte sequence into the sequence of alphabet codes.
pub fn encode_bytes(b: &Vec<u8>) -> (r: Vec<u8>)
    ensures
        r@ == b64_encode(b@),
{
    let n = b.len();
    let mut out: Vec<u8> = Vec::new();
    let mut i: usize = 0;
    proof {
        assert(b@.skip(0) =~= b@);
        assert(Seq::<u8>::empty() + b64_encode(b@) =~= b64_encode(b@));
    }
    while n - i >= 3
        invariant
            i % 3 == 0,
            i <= n,
            n == b@.len(),
            b64_encode(b@) == out@ + b64_encode(b@.skip(i as int)),
        decreases n - i,
    {
        let b0 = b[i];
        let b1 = b[i + 1];
        let b2 = b[i + 2];
        let v0 = b0 >> 2;
        let v1 = ((b0 & 3) << 4) | (b1 >> 4);
        let v2 = ((b1 & 15) << 2) | (b2 >> 6);
        let v3 = b2 & 63;
        proof {
            assert(b0 >> 2 < 64 && (((b0 & 3) << 4) | (b1 >> 4)) < 64 && (((b1 & 15) << 2) | (b2
                >> 6)) < 64 && (b2 & 63) < 64) by (bit_vector);
            let t = b@.skip(i as int);
            assert(t.len() == n - i);
            assert(t[0] == b@[i as int] && t[1] == b@[i as int + 1] && t[2] == b@[i as int + 2]);
            assert(t.skip(3) =~= b@.skip(i as int + 3));
            assert(b64_encode(t) == enc3(b0, b1, b2) + b64_encode(b@.skip(i as int + 3)));
        }
        let ghost out0 = out@;
        out.push(code_of(v0));
        out.push(code_of(v1));
        out.push(code_of(v2));
        out.push(code_of(v3));
        proof {
            assert(out@ =~= out0 + enc3(b0, b1, b2));
            assert((out0 + enc3(b0, b1, b2)) + b64_encode(b@.skip(i as int + 3))
                =~= out0 + (enc3(b0, b1, b2) + b64_encode(b@.skip(i as int + 3))));
        }
        i = i + 3;
    }
    let ghost t = b@.skip(i as int);
    proof {
        assert(t.len() == n - i);
    }
    if n - i == 1 {
        let b0 = b[i];
        proof {
            assert(t[0] == b@[i as int]);
            assert(b0 >> 2 < 64 && ((b0 & 3) << 4) < 64) by (bit_vector);
        }
        let ghost out0 = out@;
        out.push(code_of(b0 >> 2));
        out.push(code_of((b0 & 3) << 4));
        out.push(PAD);
        out.push(PAD);
        proof {
            assert(out@ =~= out0 + b64_encode(t));
        }
    } else if n - i == 2 {
        let b0 = b[i];
        let b1 = b[i + 1];
        proof {
            assert(t[0] == b@[i as int] && t[1] == b@[i as int + 1]);
            assert(b0 >> 2 < 64 && (((b0 & 3) << 4) | (b1 >> 4)) < 64
                && ((b1 & 15) << 2) < 64) by (bit_vector);
        }
        let ghost out0 = out@;
        out.push(code_of(b0 >> 2));
        out.push(code_of(((b0 & 3) << 4) | (b1 >> 4)));
        out.push(code_of((b1 & 15) << 2));
        out.push(PAD);
        proof {
            assert(out@ =~= out0 + b64_encode(t));
        }
    } else {
        proof {
            assert(t.len() == 0);
            assert(b64_encode(t) =~= Seq::<u8>::empty());
            assert(out@ =~= out@ + b64_encode(t));
        }
    }
    out
}

/// Strictly base64-decode a sequence of alphabet codes back into bytes.
pub fn decode_bytes(s: &Vec<u8>) -> (r: Result<Vec<u8>, TokenDecodeError>)
    ensures
        match r {
            Ok(v) => b64_decode(s@) == Some(v@),
            Err(_) => b64_decode(s@) is None,
        },
{
    let n = s.len();
    if n % 4 != 0 {
        return Err(TokenDecodeError);
    }
    let mut out: Vec<u8> = Vec::new();
    if n == 0 {
        proof {
            assert(b64_decode(s@) == Some(Seq::<u8>::empty()));
            assert(out@ =~= Seq::<u8>::empty());
        }
        return Ok(out);
    }
    let mut i: usize = 0;
    proof {
        assert(s@.skip(0) =~= s@);
        match b64_decode_blocks(s@) {
            Some(x) => {
                assert(Seq::<u8>::empty() + x =~= x);
            },
            None => {},
        }
    }
    while n - i > 4
        invariant
            i % 4 == 0,
            i + 4 <= n,
            n == s@.len(),
            n % 4 == 0,
            b64_decode_blocks(s@) == opt_prepend(out@, b64_decode_blocks(s@.skip(i as int))),
        decreases n - i,
    {
        let ghost t = s@.skip(i as int);
        proof {
            assert(t.len() == n - i);
            assert(t.len() > 4);
            assert(t[0] == s@[i as int] && t[1] == s@[i as int + 1] && t[2] == s@[i as int + 2]
                && t[3] == s@[i as int + 3]);
            assert(t.skip(4) =~= s@.skip(i as int + 4));
        }
        let r0 = val_of(s[i]);
        let r1 = val_of(s[i + 1]);
        let r2 = val_of(s[i + 2]);
        let r3 = val_of(s[i + 3]);
        match (r0, r1, r2, r3) {
            (Some(v0), Some(v1), Some(v2), Some(v3)) => {
                let d0 = (v0 << 2) | (v1 >> 4);
                let d1 = ((v1 & 15) << 4) | (v2 >> 2);
                let d2 = ((v2 & 3) << 6) | v3;
                let ghost out0 = out@;
                out.push(d0);
                out.push(d1);
                out.push(d2);
                proof {
                    let d = dec3(t[0], t[1], t[2], t[3]);
                    assert(out@ =~= out0 + d);
                    assert(b64_decode_blocks(t) == opt_prepend(d, b64_decode_blocks(
                        s@.skip(i as int + 4))));
                    match b64_decode_blocks(s@.skip(i as int + 4)) {
                        Some(x) => {
                            assert((out0 + d) + x =~= out0 + (d + x));
                        },
                        None => {},
                    }
                    assert((n - (i + 4)) % 4 == 0 && n - (i + 4) > 0);
                }
                i = i + 4;
            },
            _ => {
                proof {
                    assert(b64_decode_blocks(t) is None);
                }
                return Err(TokenDecodeError);
            },
        }
    }
    let ghost t = s@.skip(i as int);
    proof {
        assert(t.len() == 4);
        assert(t[0] == s@[i as int] && t[1] == s@[i as int + 1] && t[2] == s@[i as int + 2]
            && t[3] == s@[i as int + 3]);
        assert(b64_decode_blocks(t) == b64_decode_final(t[0], t[1], t[2], t[3]));
    }
    let c0 = s[i];
    let c1 = s[i + 1];
    let c2 = s[i + 2];
    let c3 = s[i + 3];
    let r0 = val_of(c0);
    let r1 = val_of(c1);
    match (r0, r1) {
        (Some(v0), Some(v1)) => {
            if c2 == PAD && c3 == PAD {
                if v1 & 15 == 0 {
                    let ghost out0 = out@;
                    out.push((v0 << 2) | (v1 >> 4));
                    proof {
                        assert(out@ =~= out0 + seq![((v0 << 2) | (v1 >> 4)) as u8]);
                    }
                    Ok(out)
                } else {
                    Err(TokenDecodeError)
                }
            } else if c3 == PAD {
                match val_of(c2) {
                    Some(v2) => {
                        if v2 & 3 == 0 {
                            let ghost out0 = out@;
                            out.push((v0 << 2) | (v1 >> 4));
                            out.push(((v1 & 15) << 4) | (v2 >> 2));
                            proof {
                                let d = dec3(c0, c1, c2, 65);
                                assert(b64_val_of(65) == 0);
                                assert(out@ =~= out0 + d.take(2));
                            }
                            Ok(out)
                        } else {
                            Err(TokenDecodeError)
                        }
                    },
                    None => Err(TokenDecodeError),
                }
            } else {
                match (val_of(c2), val_of(c3)) {
                    (Some(v2), Some(v3)) => {
                        let ghost out0 = out@;
                        out.push((v0 << 2) | (v1 >> 4));
                        out.push(((v1 & 15) << 4) | (v2 >> 2));
                        out.push(((v2 & 3) << 6) | v3);
                        proof {
                            assert(out@ =~= out0 + dec3(c0, c1, c2, c3));
                        }
                        Ok(out)
                    },
                    _ => Err(TokenDecodeError),
                }
            }
        },
        _ => Err(TokenDecodeError),
    }
}

/// An alphabet character decodes to a 6-bit value that encodes back to the
/// same character.
proof fn lemma_val_inverse(c: u8)
    requires
        is_b64_code(c),
    ensures
        b64_val_of(c) < 64,
        b64_code_of(b64_val_of(c)) == c,
{
}

/// Helper for the canonicity law, over whole blocks.
proof fn lemma_blocks_canonical(s: Seq<u8>, b: Seq<u8>)
    requires
        s.len() % 4 == 0,
        b64_decode_blocks(s) == Some(b),
    ensures
        s =~= b64_encode(b),
    decreases s.len(),
{
    if s.len() == 0 {
        assert(b =~= Seq::<u8>::empty());
    } else if s.len() == 4 {
        let c0 = s[0];
        let c1 = s[1];
        let c2 = s[2];
        let c3 = s[3];
        lemma_val_inverse(c0);
        lemma_val_inverse(c1);
        let v0 = b64_val_of(c0);
        let v1 = b64_val_of(c1);
        if c2 == PAD && c3 == PAD {
            let d0 = (v0 << 2) | (v1 >> 4);
            assert(d0 >> 2 == v0 && (d0 & 3) << 4 == v1) by (bit_vector)
                requires
                    v0 < 64,
                    v1 < 64,
                    v1 & 15 == 0,
                    d0 == (v0 << 2) | (v1 >> 4),
            ;
            assert(b =~= seq![d0]);
        } else if is_b64_code(c2) && c3 == PAD {
            lemma_val_inverse(c2);
            let v2 = b64_val_of(c2);
            let d0 = (v0 << 2) | (v1 >> 4);
            let d1 = ((v1 & 15) << 4) | (v2 >> 2);
            assert(d0 >> 2 == v0 && (((d0 & 3) << 4) | (d1 >> 4)) == v1 && (d1 & 15) << 2 == v2)
                by (bit_vector)
                requires
                    v0 < 64,
                    v1 < 64,
                    v2 < 64,
                    v2 & 3 == 0,
                    d0 == (v0 << 2) | (v1 >> 4),
                    d1 == ((v1 & 15) << 4) | (v2 >> 2),
            ;
            let d = dec3(c0, c1, c2, 65);
            assert(b64_val_of(65) == 0);
            assert(b =~= d.take(2));
            assert(b =~= seq![d0, d1]);
        } else {
            lemma_val_inverse(c2);
            lemma_val_inverse(c3);
            let v2 = b64_val_of(c2);
            let v3 = b64_val_of(c3);
            let d0 = (v0 << 2) | (v1 >> 4);
            let d1 = ((v1 & 15) << 4) | (v2 >> 2);
            let d2 = ((v2 & 3) << 6) | v3;
            assert(d0 >> 2 == v0 && (((d0 & 3) << 4) | (d1 >> 4)) == v1 && (((d1 & 15) << 2) | (
            d2 >> 6)) == v2 && d2 & 63 == v3) by (bit_vector)
                requires
                    v0 < 64,
                    v1 < 64,
                    v2 < 64,
                    v3 < 64,
                    d0 == (v0 << 2) | (v1 >> 4),
                    d1 == ((v1 & 15) << 4) | (v2 >> 2),
                    d2 == ((v2 & 3) << 6) | v3,
            ;
            assert(b =~= dec3(c0, c1, c2, c3));
            assert(b64_encode(b) == enc3(b[0], b[1], b[2]) + b64_encode(b.skip(3)));
            assert(b.skip(3) =~= Seq::<u8>::empty());
        }
    } else {
        let c0 = s[0];
        let c1 = s[1];
        let c2 = s[2];
        let c3 = s[3];
        lemma_val_inverse(c0);
        lemma_val_inverse(c1);
        lemma_val_inverse(c2);
        lemma_val_inverse(c3);
        let v0 = b64_val_of(c0);
        let v1 = b64_val_of(c1);
        let v2 = b64_val_of(c2);
        let v3 = b64_val_of(c3);
        let rest = match b64_decode_blocks(s.skip(4)) {
            Some(r) => r,
            None => Seq::empty(),
        };
        lemma_blocks_canonical(s.skip(4), rest);
        assert(b =~= dec3(c0, c1, c2, c3) + rest);
        let d0 = (v0 << 2) | (v1 >> 4);
        let d1 = ((v1 & 15) << 4) | (v2 >> 2);
        let d2 = ((v2 & 3) << 6) | v3;
        assert(d0 >> 2 == v0 && (((d0 & 3) << 4) | (d1 >> 4)) == v1 && (((d1 & 15) << 2) | (d2
            >> 6)) == v2 && d2 & 63 == v3) by (bit_vector)
            requires
                v0 < 64,
                v1 < 64,
                v2 < 64,
                v3 < 64,
                d0 == (v0 << 2) | (v1 >> 4),
                d1 == ((v1 & 15) << 4) | (v2 >> 2),
                d2 == ((v2 & 3) << 6) | v3,
        ;
        assert(b.len() >= 3);
        assert(b.skip(3) =~= rest);
        assert(b64_encode(b) == enc3(b[0], b[1], b[2]) + b64_encode(b.skip(3)));
        assert(enc3(b[0], b[1], b[2]) =~= seq![c0, c1, c2, c3]);
        assert(s =~= seq![c0, c1, c2, c3] + s.skip(4));
    }
}

/// Canonicity law: whatever the decoder accepts is exactly the encoding of
/// what it returns. A token never decodes to bytes it does not itself
/// re-encode to, so no silent corruption can pass the decoder.
pub proof fn lemma_decode_canonical(s: Seq<u8>, b: Seq<u8>)
    requires
        b64_decode(s) == Some(b),
    ensures
        s == b64_encode(b),
{
    lemma_blocks_canonical(s, b);
}

/// Helper for the rejection law, over whole blocks.
proof fn lemma_blocks_reject_foreign(s: Seq<u8>, i: int)
    requires
        s.len() % 4 == 0,
        0 <= i < s.len(),
        !is_b64_code(s[i]),
        s[i] != PAD,
    ensures
        b64_decode_blocks(s) is None,
    decreases s.len(),
{
    if s.len() > 4 && i >= 4 {
        lemma_blocks_reject_foreign(s.skip(4), i - 4);
    }
}

/// Rejection law: a string holding any byte outside the codec's alphabet
/// and outside the padding character never decodes; it always comes back as
/// an explicit error, never as silently corrupted bytes.
pub proof fn lemma_decode_rejects_foreign(s: Seq<u8>, i: int)
    requires
        0 <= i < s.len(),
        !is_b64_code(s[i]),
        s[i] != PAD,
    ensures
        b64_decode(s) is None,
{
    if s.len() % 4 == 0 {
        lemma_blocks_reject_foreign(s, i);
    }
}

/// Every code that `b64_encode` emits is an ASCII byte.
pub proof fn lemma_encode_ascii(b: Seq<u8>)
    ensures
        forall|i: int| 0 <= i < b64_encode(b).len() ==> b64_encode(b)[i] < 128,
    decreases b.len(),
{
    if b.len() >= 3 {
        lemma_encode_ascii(b.skip(3));
        let g = enc3(b[0], b[1], b[2]);
        let rest = b64_encode(b.skip(3));
        assert forall|i: int| 0 <= i < b64_encode(b).len() implies b64_encode(b)[i]
            < 128 by {
            if i < 4 {
                assert(b64_encode(b)[i] == g[i]);
            } else {
                assert(b64_encode(b)[i] == rest[i - 4]);
            }
        }
    }
}

/// Relies on `String::from_utf8`: a vector of ASCII bytes is valid UTF-8 and
/// decodes to the string whose characters are exactly those bytes.
#[verifier::external_body]
pub(crate) fn ascii_to_string(v: Vec<u8>) -> (r: String)
    requires
        forall|i: int| 0 <= i < v@.len() ==> v@[i] < 128,
    ensures
        r@ == ascii_chars(v@),
{
    match String::from_utf8(v) {
        Ok(s) => s,
        Err(_) => String::new(),
    }
}

/// Encode arbitrary bytes as a bridge token: a base64 string over the
/// standard alphabet, with canonical `=` padding.
pub fn encode(b: &Vec<u8>) -> (r: String)
    ensures
        r@ == ascii_chars(b64_encode(b@)),
{
    let codes = encode_bytes(b);
    proof {
        lemma_encode_ascii(b@);
    }
    ascii_to_string(codes)
}

/// Decode a bridge token string strictly; any byte outside the canonical
/// base64 form is rejected with a `TokenDecodeError`.
pub fn decode(s: &str) -> (r: Result<Vec<u8>, TokenDecodeError>)
    ensures
        match r {
            Ok(v) => b64_decode(s.spec_bytes()) == Some(v@),
            Err(_) => b64_decode(s.spec_bytes()) is None,
        },
{
    let bytes = s.as_bytes_vec();
    decode_bytes(&bytes)
}

/// The bytes of the string that `encode` builds are exactly the emitted
/// codes: the token is pure ASCII.
pub proof fn lemma_token_bytes(b: Seq<u8>, t: Seq<char>)
    requires
        t == ascii_chars(b64_encode(b)),
    ensures
        vstd::utf8::encode_utf8(t) =~= b64_encode(b),
{
    lemma_encode_ascii(b);
    let codes = b64_encode(b);
    assert forall|i: int| 0 <= i < t.len() implies '\0' <= #[trigger] t[i] <= '\u{7f}' by {
        assert(t[i] == codes[i] as char);
        assert(codes[i] < 128);
    }
    assert(vstd::utf8::is_ascii_chars(t));
    assert forall|i: int| 0 <= i < t.len() implies vstd::utf8::encode_utf8(t)[i] == codes[i] by {
        assert(t[i] as u8 == vstd::utf8::encode_utf8(t)[i]);
        assert(t[i] == codes[i] as char);
    }
}

/// Round-trip law at the string level: decoding the token string built from
/// `b` gives back exactly `b`.
pub proof fn lemma_string_round_trip(b: Seq<u8>, t: &str)
    requires
        t@ == ascii_chars(b64_encode(b)),
    ensures
        b64_decode(t.spec_bytes()) == Some(b),
{
    lemma_token_bytes(b, t@);
    lemma_round_trip(b);
}

} // verus!
