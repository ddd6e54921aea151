use vstd::prelude::*;
use crate::text::push_char;
use sha2::Digest;

verus! {

/// The 32-byte SHA-256 digest of a byte sequence: a fixed function of the
/// input bytes alone, left uninterpreted.
pub uninterp spec fn sha256_digest(data: Seq<u8>) -> Seq<u8>;

/// Relies on sha2::Sha256 (a Digest implementation): the digest is 32 bytes
/// long and depends on the input bytes alone.
#[verifier::external_body]
fn sha256_bytes(data: &[u8]) -> (r: Vec<u8>)
    ensures
        r@ == sha256_digest(data@),
        r@.len() == 32,
{
    sha2::Sha256::digest(data).to_vec()
}

/// The lowercase hex character for one value below 16.
pub open spec fn hex_digit(d: u8) -> char
    recommends
        d < 16,
{
    if d < 10 {
        (48 + d) as char
    } else {
        (87 + d) as char
    }
}

/// Lowercase hex encoding: two digits per byte, high nibble first.
pub open spec fn hex_of(bytes: Seq<u8>) -> Seq<char>
    decreases bytes.len(),
{
    if bytes.len() == 0 {
        Seq::empty()
    } else {
        hex_of(bytes.drop_last()) + seq![
            hex_digit(bytes.last() / 16),
            hex_digit(bytes.last() % 16),
        ]
    }
}

/// The content fingerprint of a byte sequence: the SHA-256 digest written as
/// 64 lowercase hex characters.
pub open spec fn sha256_hex(data: Seq<u8>) -> Seq<char> {
    hex_of(sha256_digest(data))
}

/// The character is a lowercase hex digit.
pub open spec fn is_lower_hex_char(c: char) -> bool {
    (48 <= c as u32 && c as u32 <= 57) || (97 <= c as u32 && c as u32 <= 102)
}

/// Law: a hex encoding is two characters per byte, all of them lowercase
/// hex digits; in particular every fingerprint is lowercase hex.
pub proof fn lemma_hex_of_digits(bytes: Seq<u8>)
    ensures
        hex_of(bytes).len() == 2 * bytes.len(),
        forall|i: int|
            0 <= i < hex_of(bytes).len() ==> is_lower_hex_char(#[trigger] hex_of(bytes)[i]),
    decreases bytes.len(),
{
    if bytes.len() > 0 {
        lemma_hex_of_digits(bytes.drop_last());
        let hi = hex_digit(bytes.last() / 16);
        let lo = hex_digit(bytes.last() % 16);
        assert(is_lower_hex_char(hi));
        assert(is_lower_hex_char(lo));
    }
}

fn hex_digit_char(d: u8) -> (c: char)
    requires
        d < 16,
    ensures
        c == hex_digit(d),
{
    if d < 10 {
        (48 + d) as char
    } else {
        (87 + d) as char
    }
}

/// Deterministic content fingerprint used for identity and dedup: the
/// lowercase hex form of the SHA-256 digest. Total over byte sequences,
/// including the empty one.
pub fn hash_content(data: &[u8]) -> (r: String)
    ensures
        r@ == sha256_hex(data@),
        r@.len() == 64,
        forall|i: int| 0 <= i < r@.len() ==> is_lower_hex_char(#[trigger] r@[i]),
{
    let bytes = sha256_bytes(data);
    let mut r = String::new();
    let mut i: usize = 0;
    while i < bytes.len()
        invariant
            bytes@.len() == 32,
            bytes@ == sha256_digest(data@),
            i <= 32,
            r@.len() == 2 * i,
            r@ == hex_of(bytes@.subrange(0, i as int)),
        decreases 32 - i,
    {
        let b = bytes[i];
        push_char(&mut r, hex_digit_char(b / 16));
        push_char(&mut r, hex_digit_char(b % 16));
        proof {
            let pre = bytes@.subrange(0, i as int);
            let cur = bytes@.subrange(0, i + 1);
            assert(cur.drop_last() =~= pre);
            assert(cur.last() == bytes@[i as int]);
            assert(r@ =~= hex_of(cur));
        }
        i = i + 1;
    }
    proof {
        assert(bytes@.subrange(0, 32) =~= bytes@);
        lemma_hex_of_digits(bytes@);
    }
    r
}

/// Name of the side file an image clip is stored under: the first 16 hex
/// characters of the fingerprint with the image extension.
pub fn side_file_name(hash: &str) -> (r: String)
    requires
        hash@.len() >= 16,
    ensures
        r@ == hash@.subrange(0, 16) + ".png"@,
{
    let mut r = hash.substring_char(0, 16).to_owned();
    r.append(".png");
    r
}

} // verus!
