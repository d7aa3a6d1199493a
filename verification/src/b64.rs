//! Standard base64 transport encoding, used to make artifact bytes text-safe.
//!
//! The encoding itself is performed by an outside crate; this module states
//! exactly what that encoding is (`encode_spec`), defines the matching decode
//! (`decode_spec`), and proves that decoding inverts encoding, so that an
//! embed's payload always decodes back to the artifact bytes.

use base64::Engine;
use vstd::prelude::*;

verus! {

/// Value of one character of the standard base64 alphabet
/// (`A`-`Z`, `a`-`z`, `0`-`9`, `+`, `/`), for a sextet value `0 <= x < 64`.
pub open spec fn b64_char(x: int) -> u8 {
    if 0 <= x < 26 {
        (65 + x) as u8
    } else if 26 <= x < 52 {
        (97 + (x - 26)) as u8
    } else if 52 <= x < 62 {
        (48 + (x - 52)) as u8
    } else if x == 62 {
        43u8
    } else {
        47u8
    }
}

/// Sextet value of one base64 alphabet character; inverse of `b64_char`.
pub open spec fn b64_val(c: u8) -> int {
    if 65 <= c < 91 {
        c - 65
    } else if 97 <= c < 123 {
        (c - 97) + 26
    } else if 48 <= c < 58 {
        (c - 48) + 52
    } else if c == 43 {
        62
    } else {
        63
    }
}

/// The byte value of the padding character `=`.
pub open spec fn pad_byte() -> u8 {
    61u8
}

/// Standard base64 with padding: each group of three input bytes becomes four
/// alphabet characters; a final group of one or two bytes becomes four
/// characters ending in `==` or `=`.
pub open spec fn encode_spec(b: Seq<u8>) -> Seq<u8>
    decreases b.len(),
{
    if b.len() == 0 {
        Seq::empty()
    } else if b.len() == 1 {
        let x = b[0] as int;
        seq![b64_char(x / 4), b64_char((x % 4) * 16), pad_byte(), pad_byte()]
    } else if b.len() == 2 {
        let x = b[0] as int;
        let y = b[1] as int;
        seq![
            b64_char(x / 4),
            b64_char((x % 4) * 16 + y / 16),
            b64_char((y % 16) * 4),
            pad_byte(),
        ]
    } else {
        let x = b[0] as int;
        let y = b[1] as int;
        let z = b[2] as int;
        seq![
            b64_char(x / 4),
            b64_char((x % 4) * 16 + y / 16),
            b64_char((y % 16) * 4 + z / 64),
            b64_char(z % 64),
        ] + encode_spec(b.skip(3))
    }
}

/// Decoding of padded standard base64: the inverse of `encode_spec` on its
/// range. On other inputs it returns some byte sequence; nothing is claimed.
pub open spec fn decode_spec(s: Seq<u8>) -> Seq<u8>
    decreases s.len(),
{
    if s.len() < 4 {
        Seq::empty()
    } else {
        let a = b64_val(s[0]);
        let b = b64_val(s[1]);
        if s[2] == pad_byte() && s[3] == pad_byte() {
            seq![(a * 4 + b / 16) as u8]
        } else if s[3] == pad_byte() {
            let c = b64_val(s[2]);
            seq![(a * 4 + b / 16) as u8, ((b % 16) * 16 + c / 4) as u8]
        } else {
            let c = b64_val(s[2]);
            let d = b64_val(s[3]);
            seq![
                (a * 4 + b / 16) as u8,
                ((b % 16) * 16 + c / 4) as u8,
                ((c % 4) * 64 + d) as u8,
            ] + decode_spec(s.skip(4))
        }
    }
}

/// Relies on `base64::engine::general_purpose::STANDARD` and
/// `base64::Engine::encode`: standard base64 alphabet with `=` padding,
/// as `encode_spec` states group by group.
#[verifier::external_body]
pub fn base64_encode(b: &Vec<u8>) -> (r: Vec<u8>)
    ensures
        r@ == encode_spec(b@),
{
    base64::engine::general_purpose::STANDARD.encode(b.as_slice()).into_bytes()
}

/// An alphabet character is never the padding byte.
proof fn lemma_b64_char_not_pad(x: int)
    ensures
        b64_char(x) != pad_byte(),
{
}

/// `b64_val` inverts `b64_char` on sextet values.
proof fn lemma_b64_val_of_char(x: int)
    requires
        0 <= x < 64,
    ensures
        b64_val(b64_char(x)) == x,
{
}

/// Splitting lemma: the sextets produced by `encode_spec` recombine into the
/// original bytes by the arithmetic that `decode_spec` performs.
proof fn lemma_mul_add_div_mod(q: int, d: int, r: int)
    requires
        0 < d,
        0 <= r < d,
    ensures
        (q * d + r) / d == q,
        (q * d + r) % d == r,
{
    vstd::arithmetic::div_mod::lemma_fundamental_div_mod_converse(q * d + r, d, q, r);
}

/// Bounds of the quotient and remainder of a byte by a small power of two.
proof fn lemma_byte_div_mod_bounds(x: int, d: int)
    requires
        0 <= x < 256,
        0 < d,
    ensures
        0 <= x / d <= (256 - 1) / d,
        0 <= x % d < d,
        x == d * (x / d) + x % d,
{
    vstd::arithmetic::div_mod::lemma_fundamental_div_mod(x, d);
    vstd::arithmetic::div_mod::lemma_mod_bound(x, d);
    vstd::arithmetic::div_mod::lemma_div_is_ordered(x, 256 - 1, d);
    vstd::arithmetic::div_mod::lemma_div_is_ordered(0, x, d);
}

/// One three-byte group: decoding the four sextet characters of `x, y, z`
/// gives back `x, y, z`.
proof fn lemma_group_roundtrip(x: int, y: int, z: int)
    requires
        0 <= x < 256,
        0 <= y < 256,
        0 <= z < 256,
    ensures
        ({
            let a = x / 4;
            let b = (x % 4) * 16 + y / 16;
            let c = (y % 16) * 4 + z / 64;
            let d = z % 64;
            &&& 0 <= a < 64
            &&& 0 <= b < 64
            &&& 0 <= c < 64
            &&& 0 <= d < 64
            &&& a * 4 + b / 16 == x
            &&& (b % 16) * 16 + c / 4 == y
            &&& (c % 4) * 64 + d == z
        }),
{
    lemma_byte_div_mod_bounds(x, 4);
    lemma_byte_div_mod_bounds(y, 16);
    lemma_byte_div_mod_bounds(z, 64);
    let a = x / 4;
    let b = (x % 4) * 16 + y / 16;
    let c = (y % 16) * 4 + z / 64;
    lemma_mul_add_div_mod(x % 4, 16, y / 16);
    assert(b / 16 == x % 4);
    assert(b % 16 == y / 16);
    lemma_mul_add_div_mod(y % 16, 4, z / 64);
    assert(c / 4 == y % 16);
    assert(c % 4 == z / 64);
    vstd::arithmetic::div_mod::lemma_fundamental_div_mod(x, 4);
    vstd::arithmetic::div_mod::lemma_fundamental_div_mod(y, 16);
    vstd::arithmetic::div_mod::lemma_fundamental_div_mod(z, 64);
}

/// Law: decoding inverts encoding — for every byte sequence `b`,
/// `decode_spec(encode_spec(b)) == b`. An embed payload built by the encoder
/// therefore always decodes back to exactly the artifact bytes.
pub proof fn lemma_decode_encode_roundtrip(b: Seq<u8>)
    ensures
        decode_spec(encode_spec(b)) == b,
    decreases b.len(),
{
    let s = encode_spec(b);
    if b.len() == 0 {
        assert(decode_spec(s) =~= b);
    } else if b.len() == 1 {
        let x = b[0] as int;
        lemma_byte_div_mod_bounds(x, 4);
        lemma_b64_val_of_char(x / 4);
        lemma_b64_val_of_char((x % 4) * 16);
        lemma_b64_char_not_pad(x / 4);
        lemma_mul_add_div_mod(x % 4, 16, 0);
        vstd::arithmetic::div_mod::lemma_fundamental_div_mod(x, 4);
        assert(decode_spec(s) =~= b);
    } else if b.len() == 2 {
        let x = b[0] as int;
        let y = b[1] as int;
        lemma_group_roundtrip(x, y, 0);
        let a = x / 4;
        let bb = (x % 4) * 16 + y / 16;
        let c = (y % 16) * 4;
        lemma_b64_val_of_char(a);
        lemma_b64_val_of_char(bb);
        lemma_b64_val_of_char(c);
        lemma_b64_char_not_pad(a);
        lemma_b64_char_not_pad(bb);
        lemma_b64_char_not_pad(c);
        assert(decode_spec(s) =~= b);
    } else {
        let x = b[0] as int;
        let y = b[1] as int;
        let z = b[2] as int;
        lemma_group_roundtrip(x, y, z);
        let a = x / 4;
        let bb = (x % 4) * 16 + y / 16;
        let c = (y % 16) * 4 + z / 64;
        let d = z % 64;
        lemma_b64_val_of_char(a);
        lemma_b64_val_of_char(bb);
        lemma_b64_val_of_char(c);
        lemma_b64_val_of_char(d);
        lemma_b64_char_not_pad(a);
        lemma_b64_char_not_pad(bb);
        lemma_b64_char_not_pad(c);
        lemma_b64_char_not_pad(d);
        lemma_decode_encode_roundtrip(b.skip(3));
        assert(s.skip(4) =~= encode_spec(b.skip(3)));
        assert(decode_spec(s) =~= seq![b[0], b[1], b[2]] + decode_spec(s.skip(4)));
        assert(decode_spec(s) =~= b);
    }
}

} // verus!
