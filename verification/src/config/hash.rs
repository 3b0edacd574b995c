//! Configuration hash: SHA-256 of the canonical configuration text, and its
//! lowercase hexadecimal form.

use sha2::{Digest, Sha256};
use vstd::prelude::*;
use vstd::string::*;
use vstd::utf8::encode_utf8;

use crate::text::{push_char, str_trim, trimmed};
use crate::types::hex_char;

verus! {

/// The SHA-256 digest of a byte string.
pub uninterp spec fn sha256(data: Seq<u8>) -> Seq<u8>;

/// `sha2::Sha256::digest` on `data`: its 32-byte SHA-256 digest, a function
/// of the bytes alone.
#[verifier::external_body]
fn sha256_digest(data: &[u8]) -> (r: [u8; 32])
    ensures
        r@ == sha256(data@),
{
    let digest = Sha256::digest(data);
    let mut out = [0u8; 32];
    out.copy_from_slice(&digest);
    out
}

/// SHA-256 digest of canonical configuration bytes.
#[derive(Clone, Copy, Debug, PartialEq, Eq, Hash)]
pub struct ConfigHash(pub [u8; 32]);

/// Value of a lowercase hexadecimal digit byte, or -1.
pub open spec fn lower_hex_value(b: u8) -> int {
    if 0x30 <= b <= 0x39 {
        b - 0x30
    } else if 0x61 <= b <= 0x66 {
        b - 0x61 + 10
    } else {
        -1
    }
}

/// The digest bytes that 64 lowercase hexadecimal digits spell.
pub open spec fn hex_digest_bytes(b: Seq<u8>) -> Seq<u8> {
    Seq::new(32, |k: int| (lower_hex_value(b[2 * k]) * 16 + lower_hex_value(b[2 * k + 1])) as u8)
}

/// What `ConfigHash::from_hex` gives for a text: the digest when the trimmed
/// text is exactly 64 lowercase hexadecimal digits.
pub open spec fn hash_from_hex(text: Seq<char>) -> Option<Seq<u8>> {
    let b = encode_utf8(trimmed(text));
    if b.len() == 64 && forall|i: int| 0 <= i < 64 ==> lower_hex_value(#[trigger] b[i]) >= 0 {
        Some(hex_digest_bytes(b))
    } else {
        None
    }
}

/// Lowercase hexadecimal text of bytes, two digits per byte.
pub open spec fn hex_text(bytes: Seq<u8>) -> Seq<char>
    decreases bytes.len(),
{
    if bytes.len() == 0 {
        Seq::empty()
    } else {
        hex_text(bytes.drop_last()) + seq![
            hex_char(bytes.last() as int / 16),
            hex_char(bytes.last() as int % 16),
        ]
    }
}

fn hex_nibble(ch: u8) -> (r: Option<u8>)
    ensures
        lower_hex_value(ch) >= 0 ==> r == Some(lower_hex_value(ch) as u8),
        lower_hex_value(ch) < 0 ==> r is None,
{
    if 0x30 <= ch && ch <= 0x39 {
        Some(ch - 0x30)
    } else if 0x61 <= ch && ch <= 0x66 {
        Some(ch - 0x61 + 10)
    } else {
        None
    }
}

fn nibble_char(n: u8) -> (c: char)
    requires
        n < 16,
    ensures
        c == hex_char(n as int),
{
    if n < 10 {
        (0x30u8 + n) as char
    } else {
        (0x61u8 + (n - 10)) as char
    }
}

impl ConfigHash {
    /// Parses a lowercase hex-encoded SHA-256 digest, ignoring surrounding
    /// white space.
    pub fn from_hex(input: &str) -> (r: Option<Self>)
        ensures
            hash_from_hex(input@) matches Some(d) ==> r matches Some(h) && h.0@ == d,
            hash_from_hex(input@) is None ==> r is None,
    {
        let trimmed_text = str_trim(input);
        let b = trimmed_text.as_bytes();
        if b.len() != 64 {
            return None;
        }
        let ghost bs = b@;
        let mut out = [0u8; 32];
        let mut idx: usize = 0;
        while idx < 32
            invariant
                bs == b@,
                bs == encode_utf8(trimmed(input@)),
                bs.len() == 64,
                idx <= 32,
                forall|i: int| 0 <= i < 2 * idx ==> lower_hex_value(#[trigger] bs[i]) >= 0,
                forall|k: int| 0 <= k < idx ==> out@[k] == hex_digest_bytes(bs)[k],
            decreases 32 - idx,
        {
            let hi = match hex_nibble(b[2 * idx]) {
                Some(v) => v,
                None => {
                    return None;
                },
            };
            let lo = match hex_nibble(b[2 * idx + 1]) {
                Some(v) => v,
                None => {
                    return None;
                },
            };
            let byte: u8 = hi * 16 + lo;
            out[idx] = byte;
            idx = idx + 1;
        }
        proof {
            assert(out@ =~= hex_digest_bytes(bs));
        }
        Some(ConfigHash(out))
    }

    /// Computes the configuration hash from canonical bytes.
    pub fn compute(canonical_bytes: &[u8]) -> (r: Self)
        ensures
            r.0@ == sha256(canonical_bytes@),
    {
        ConfigHash(sha256_digest(canonical_bytes))
    }

    /// Returns the digest bytes.
    pub fn bytes(self) -> (r: [u8; 32])
        ensures
            r == self.0,
    {
        self.0
    }

    /// Encodes the digest as lowercase hex.
    pub fn to_hex(self) -> (r: String)
        ensures
            r@ == hex_text(self.0@),
    {
        let mut out = String::new();
        let mut i: usize = 0;
        while i < 32
            invariant
                i <= 32,
                self.0@.len() == 32,
                out@ == hex_text(self.0@.take(i as int)),
            decreases 32 - i,
        {
            let byte = self.0[i];
            push_char(&mut out, nibble_char(byte / 16));
            push_char(&mut out, nibble_char(byte % 16));
            proof {
                assert(self.0@.take(i + 1).drop_last() =~= self.0@.take(i as int));
                assert(out@ =~= hex_text(self.0@.take(i + 1)));
            }
            i = i + 1;
        }
        proof {
            assert(self.0@.take(32) =~= self.0@);
        }
        out
    }

    /// Debug text: the hex digest inside `ConfigHash(..)`.
    pub fn debug_text(self) -> (r: String)
        ensures
            r@ == "ConfigHash("@ + hex_text(self.0@) + ")"@,
    {
        let mut out = String::from_str("ConfigHash(");
        let hex = self.to_hex();
        out.append(hex.as_str());
        out.append(")");
        out
    }
}

proof fn lemma_hex_text(bytes: Seq<u8>)
    ensures
        hex_text(bytes).len() == 2 * bytes.len(),
        forall|k: int|
            0 <= k < bytes.len() ==> hex_text(bytes)[2 * k] == hex_char(bytes[k] as int / 16)
                && hex_text(bytes)[2 * k + 1] == hex_char(bytes[k] as int % 16),
    decreases bytes.len(),
{
    if bytes.len() > 0 {
        lemma_hex_text(bytes.drop_last());
        assert forall|k: int| 0 <= k < bytes.len() implies hex_text(bytes)[2 * k] == hex_char(bytes[k] as int / 16)
            && hex_text(bytes)[2 * k + 1] == hex_char(bytes[k] as int % 16) by {
            if k < bytes.len() - 1 {
                assert(bytes.drop_last()[k] == bytes[k]);
            }
        }
    }
}

proof fn lemma_hex_char_value(n: int)
    requires
        0 <= n < 16,
    ensures
        lower_hex_value(hex_char(n) as u8) == n,
        '\0' <= hex_char(n) <= '\u{7f}',
        !crate::text::is_white_space(hex_char(n)),
{
}

/// Hex round trip: the lowercase hexadecimal text of a 32-byte digest parses
/// back to the same digest.
pub proof fn hex_round_trip(bytes: Seq<u8>)
    requires
        bytes.len() == 32,
    ensures
        hash_from_hex(hex_text(bytes)) == Some(bytes),
{
    let t = hex_text(bytes);
    lemma_hex_text(bytes);
    assert forall|i: int| 0 <= i < t.len() implies '\0' <= #[trigger] t[i] <= '\u{7f}' && !crate::text::is_white_space(t[i])
        && lower_hex_value(t[i] as u8) >= 0 by {
        let k = i / 2;
        if i % 2 == 0 {
            assert(i == 2 * k);
            lemma_hex_char_value(bytes[k] as int / 16);
        } else {
            assert(i == 2 * k + 1);
            lemma_hex_char_value(bytes[k] as int % 16);
        }
    }
    assert(crate::text::trim_start(t) == t);
    assert(crate::text::trim_end(t) == t);
    assert(vstd::utf8::is_ascii_chars(t));
    vstd::utf8::is_ascii_chars_encode_utf8(t);
    let b = encode_utf8(t);
    assert forall|i: int| 0 <= i < 64 implies lower_hex_value(#[trigger] b[i]) >= 0 by {
        assert(b[i] == t[i] as u8);
    }
    assert forall|k: int| 0 <= k < 32 implies #[trigger] hex_digest_bytes(b)[k] == bytes[k] by {
        assert(b[2 * k] == t[2 * k] as u8);
        assert(b[2 * k + 1] == t[2 * k + 1] as u8);
        lemma_hex_char_value(bytes[k] as int / 16);
        lemma_hex_char_value(bytes[k] as int % 16);
    }
    assert(hex_digest_bytes(b) =~= bytes);
}

/// A text whose UTF-8 encoding is all ASCII bytes is ASCII text.
proof fn lemma_ascii_bytes_ascii_chars(t: Seq<char>)
    requires
        forall|i: int| 0 <= i < encode_utf8(t).len() ==> #[trigger] encode_utf8(t)[i] < 0x80,
    ensures
        vstd::utf8::is_ascii_chars(t),
    decreases t.len(),
{
    if t.len() > 0 {
        let c = t[0] as u32;
        vstd::utf8::char_is_scalar(t[0]);
        let e = vstd::utf8::encode_scalar(c);
        assert(encode_utf8(t) == e + encode_utf8(t.drop_first()));
        assert(e.len() >= 1);
        assert(encode_utf8(t)[0] == e[0]);
        if c > 0x7f {
            assert(0x80 <= c <= 0x7FF ==> vstd::utf8::leading_byte_width_2(c) >= 0x80) by (bit_vector);
            assert(0x800 <= c <= 0xFFFF ==> vstd::utf8::leading_byte_width_3(c) >= 0x80) by (bit_vector);
            assert(0x10000 <= c ==> vstd::utf8::leading_byte_width_4(c) >= 0x80) by (bit_vector);
            assert(false);
        }
        assert(t[0] as u32 <= 0x7f);
        assert forall|i: int| 0 <= i < encode_utf8(t.drop_first()).len() implies #[trigger] encode_utf8(
            t.drop_first(),
        )[i] < 0x80 by {
            assert(encode_utf8(t)[e.len() + i] == encode_utf8(t.drop_first())[i]);
        }
        lemma_ascii_bytes_ascii_chars(t.drop_first());
        assert forall|i: int| 0 <= i < t.len() implies '\0' <= #[trigger] t[i] <= '\u{7f}' by {
            if i > 0 {
                assert(t[i] == t.drop_first()[i - 1]);
            } else {
                let u = t[0] as u32;
                vstd::utf8::char_u32_cast(t[0], u);
                assert((u as char) == t[0]);
                assert(u <= 0x7f);
            }
        }
    }
}

/// A lowercase hexadecimal digit byte is the digit character of its value.
proof fn lemma_hex_digit_char(b: u8)
    requires
        lower_hex_value(b) >= 0,
    ensures
        hex_char(lower_hex_value(b)) == b as char,
{
}

/// Text round trip: whenever a text parses as a digest, the digest's
/// lowercase hexadecimal text is the parsed text without its surrounding
/// white space.
pub proof fn parsed_hex_round_trip(text: Seq<char>, d: Seq<u8>)
    requires
        hash_from_hex(text) == Some(d),
    ensures
        hex_text(d) == trimmed(text),
{
    let t = trimmed(text);
    let b = encode_utf8(t);
    assert forall|i: int| 0 <= i < b.len() implies #[trigger] b[i] < 0x80 by {
        assert(lower_hex_value(b[i]) >= 0);
    }
    lemma_ascii_bytes_ascii_chars(t);
    vstd::utf8::is_ascii_chars_encode_utf8(t);
    lemma_hex_text(d);
    let h = hex_text(d);
    assert forall|i: int| 0 <= i < 64 implies #[trigger] h[i] == t[i] by {
        let k = i / 2;
        let hi = lower_hex_value(b[2 * k]);
        let lo = lower_hex_value(b[2 * k + 1]);
        assert(d[k] == (hi * 16 + lo) as u8);
        assert(0 <= hi < 16 && 0 <= lo < 16);
        assert(d[k] as int / 16 == hi && d[k] as int % 16 == lo) by (nonlinear_arith)
            requires
                0 <= hi < 16,
                0 <= lo < 16,
                d[k] as int == hi * 16 + lo,
        ;
        lemma_hex_digit_char(b[2 * k]);
        lemma_hex_digit_char(b[2 * k + 1]);
        assert(t[2 * k] as u8 == b[2 * k] && t[2 * k + 1] as u8 == b[2 * k + 1]);
        assert('\0' <= t[2 * k] <= '\u{7f}' && '\0' <= t[2 * k + 1] <= '\u{7f}');
        if i % 2 == 0 {
            assert(i == 2 * k);
        } else {
            assert(i == 2 * k + 1);
        }
    }
    assert(h =~= t);
}

} // verus!
