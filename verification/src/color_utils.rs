//! The colour a field key is shown in: the first three bytes of the key's
//! SHA-256 digest, written as `#rrggbb`.

use vstd::prelude::*;
use vstd::utf8::encode_utf8;

verus! {

/// The SHA-256 digest of `bytes`.
pub uninterp spec fn sha256_of(bytes: Seq<u8>) -> Seq<u8>;

/// Calls `sha2::Sha256::digest` (new, update, finalize in one step). The
/// digest is a function of the bytes hashed and is 32 bytes long, the output
/// size that `Sha256` is declared with.
#[verifier::external_body]
fn sha256(bytes: &[u8]) -> (digest: Vec<u8>)
    ensures
        digest@ == sha256_of(bytes@),
        digest@.len() == 32,
{
    <sha2::Sha256 as sha2::Digest>::digest(bytes).to_vec()
}

/// The lower-case hexadecimal digit for `v`.
pub open spec fn hex_digit(v: int) -> char {
    if v < 10 {
        (('0' as int) + v) as char
    } else {
        (('a' as int) + (v - 10)) as char
    }
}

/// The two hexadecimal digits of `b`.
pub open spec fn hex_pair(b: u8) -> Seq<char> {
    seq![hex_digit(b as int / 16), hex_digit(b as int % 16)]
}

/// The colour that a digest gives: `#` and its first three bytes in hexadecimal.
pub open spec fn color_of_digest(digest: Seq<u8>) -> Seq<char> {
    seq!['#'] + hex_pair(digest[0]) + hex_pair(digest[1]) + hex_pair(digest[2])
}

/// The colour of `input`: that of the SHA-256 digest of its UTF-8 bytes.
pub open spec fn color_text(input: Seq<char>) -> Seq<char> {
    color_of_digest(sha256_of(encode_utf8(input)))
}

fn hex_char(v: u8) -> (c: char)
    requires
        v < 16,
    ensures
        c == hex_digit(v as int),
{
    if v < 10 {
        (48u8 + v) as char
    } else {
        (97u8 + (v - 10)) as char
    }
}

/// Writes the colour that `digest` gives.
pub fn color_from_digest(digest: &[u8]) -> (color: String)
    requires
        digest@.len() >= 3,
    ensures
        color@ == color_of_digest(digest@),
        color@.len() == 7,
        color@[0] == '#',
{
    let mut color = String::new();
    color.push('#');
    let mut i: usize = 0;
    while i < 3
        invariant
            i <= 3,
            digest@.len() >= 3,
            color@.len() == 1 + 2 * i,
            color@[0] == '#',
            i == 0 ==> color@ == seq!['#'],
            i == 1 ==> color@ == seq!['#'] + hex_pair(digest@[0]),
            i == 2 ==> color@ == seq!['#'] + hex_pair(digest@[0]) + hex_pair(digest@[1]),
            i == 3 ==> color@ == color_of_digest(digest@),
        decreases 3 - i,
    {
        let b = digest[i];
        let ghost before = color@;
        color.push(hex_char(b / 16));
        color.push(hex_char(b % 16));
        assert(color@ =~= before + hex_pair(b));
        i += 1;
    }
    color
}

/// The colour that the text `input` is shown in.
pub fn color_for_string(input: &str) -> (color: String)
    ensures
        color@ == color_text(input@),
        color@.len() == 7,
        color@[0] == '#',
{
    let digest = sha256(input.as_bytes());
    color_from_digest(digest.as_slice())
}

} // verus!
