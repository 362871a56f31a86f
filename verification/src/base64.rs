//! Standard base64 with padding, as used to show byte sequences as text.

use vstd::prelude::*;

verus! {

/// The character that stands for the six-bit value `v` in the standard alphabet.
pub open spec fn sextet_char(v: int) -> char {
    if 0 <= v < 26 {
        (('A' as int) + v) as char
    } else if 26 <= v < 52 {
        (('a' as int) + (v - 26)) as char
    } else if 52 <= v < 62 {
        (('0' as int) + (v - 52)) as char
    } else if v == 62 {
        '+'
    } else {
        '/'
    }
}

/// The byte at position `i`, or zero past the end of the input.
pub open spec fn byte_or_zero(bytes: Seq<u8>, i: int) -> int {
    if 0 <= i < bytes.len() {
        bytes[i] as int
    } else {
        0
    }
}

/// The character at position `i` of the encoding of `bytes`.
///
/// Every three input bytes give four characters. A final group of one or
/// two bytes is filled with zero bits and closed with `=` padding.
pub open spec fn base64_char_at(bytes: Seq<u8>, i: int) -> char {
    let group = i / 4;
    let b0 = byte_or_zero(bytes, 3 * group);
    let b1 = byte_or_zero(bytes, 3 * group + 1);
    let b2 = byte_or_zero(bytes, 3 * group + 2);
    if i % 4 == 0 {
        sextet_char(b0 / 4)
    } else if i % 4 == 1 {
        sextet_char((b0 % 4) * 16 + b1 / 16)
    } else if i % 4 == 2 {
        if 3 * group + 1 < bytes.len() {
            sextet_char((b1 % 16) * 4 + b2 / 64)
        } else {
            '='
        }
    } else {
        if 3 * group + 2 < bytes.len() {
            sextet_char(b2 % 64)
        } else {
            '='
        }
    }
}

/// Length of the encoding of `n` bytes: four characters for every started
/// group of three.
pub open spec fn base64_len(n: nat) -> nat {
    (4 * ((n + 2) / 3)) as nat
}

/// The padded base64 encoding of `bytes`.
pub open spec fn base64_text(bytes: Seq<u8>) -> Seq<char> {
    Seq::new(base64_len(bytes.len()), |i: int| base64_char_at(bytes, i))
}

fn alphabet_char(v: u8) -> (c: char)
    requires
        v < 64,
    ensures
        c == sextet_char(v as int),
{
    if v < 26 {
        (65u8 + v) as char
    } else if v < 52 {
        (97u8 + (v - 26)) as char
    } else if v < 62 {
        (48u8 + (v - 52)) as char
    } else if v == 62 {
        '+'
    } else {
        '/'
    }
}

proof fn lemma_sextets(b0: u8, b1: u8, b2: u8)
    ensures
        (b0 >> 2) == b0 / 4,
        (((b0 & 0x03) << 4) | (b1 >> 4)) == (b0 % 4) * 16 + b1 / 16,
        (((b1 & 0x0f) << 2) | (b2 >> 6)) == (b1 % 16) * 4 + b2 / 64,
        (b2 & 0x3f) == b2 % 64,
        (b0 >> 2) < 64,
        (((b0 & 0x03) << 4) | (b1 >> 4)) < 64,
        (((b1 & 0x0f) << 2) | (b2 >> 6)) < 64,
        (b2 & 0x3f) < 64,
{
    assert((b0 >> 2) == b0 / 4 && (b0 >> 2) < 64) by (bit_vector);
    assert((((b0 & 0x03) << 4) | (b1 >> 4)) == (b0 % 4) * 16 + b1 / 16 && (((b0 & 0x03) << 4) | (b1
        >> 4)) < 64) by (bit_vector);
    assert((((b1 & 0x0f) << 2) | (b2 >> 6)) == (b1 % 16) * 4 + b2 / 64 && (((b1 & 0x0f) << 2) | (b2
        >> 6)) < 64) by (bit_vector);
    assert((b2 & 0x3f) == b2 % 64 && (b2 & 0x3f) < 64) by (bit_vector);
}

/// Encodes `bytes` as padded base64 text.
pub fn base64_encode(bytes: &[u8]) -> (result: String)
    ensures
        result@ == base64_text(bytes@),
{
    let n = bytes.len();
    let mut result = String::new();
    let mut pos: usize = 0;
    while pos < n
        invariant
            n == bytes@.len(),
            pos <= n + 2,
            pos % 3 == 0,
            result@.len() == 4 * (pos / 3),
            forall|i: int| 0 <= i < result@.len() ==> result@[i] == base64_char_at(bytes@, i),
        decreases n + 2 - pos,
    {
        let b0 = bytes[pos];
        let b1 = if n - pos > 1 { bytes[pos + 1] } else { 0 };
        let b2 = if n - pos > 2 { bytes[pos + 2] } else { 0 };
        proof {
            lemma_sextets(b0, b1, b2);
        }
        let ghost before = result@;
        let ghost group = (pos / 3) as int;
        result.push(alphabet_char(b0 >> 2));
        result.push(alphabet_char(((b0 & 0x03) << 4) | (b1 >> 4)));
        if n - pos > 1 {
            result.push(alphabet_char(((b1 & 0x0f) << 2) | (b2 >> 6)));
        } else {
            result.push('=');
        }
        if n - pos > 2 {
            result.push(alphabet_char(b2 & 0x3f));
        } else {
            result.push('=');
        }
        proof {
            assert(result@.len() == 4 * group + 4);
            assert forall|i: int| 0 <= i < result@.len() implies result@[i] == base64_char_at(
                bytes@,
                i,
            ) by {
                if i < 4 * group {
                    assert(result@[i] == before[i]);
                } else {
                    assert(i / 4 == group);
                    assert(3 * group == pos);
                }
            }
        }
        pos = if n - pos > 2 { pos + 3 } else { n - n % 3 + 3 };
        proof {
            assert(pos == 3 * group + 3);
        }
    }
    proof {
        assert(result@.len() == base64_len(bytes@.len()));
        assert(result@ =~= base64_text(bytes@));
    }
    result
}

} // verus!
