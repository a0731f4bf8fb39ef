//! Piece digests: SHA-1 of the bytes of a piece, and their hexadecimal form.

use vstd::prelude::*;
use vstd::utf8::encode_utf8;

verus! {

/// The SHA-1 digest of `data`, as the `sha1` crate computes it.
pub uninterp spec fn sha1_digest(data: Seq<u8>) -> Seq<u8>;

/// Calls `sha1::Sha1::digest` (the `Digest` trait of the `digest` crate, for
/// `Sha1`). Claimed: the twenty bytes returned are the SHA-1 digest of `data`,
/// a function of the bytes of `data` alone.
#[verifier::external_body]
pub(crate) fn get_sha1(data: &[u8]) -> (digest: [u8; 20])
    ensures
        digest@ == sha1_digest(data@),
{
    <sha1::Sha1 as sha1::Digest>::digest(data).into()
}

/// The error of `hex::decode`.
#[verifier::external_type_specification]
#[verifier::external_body]
pub struct ExFromHexError(hex::FromHexError);

/// Why a text is not the digest of a piece.
#[derive(Debug, Clone, Copy, PartialEq, Eq, Structural)]
pub enum HashError {
    /// The text has an odd number of bytes, or a byte that is no hexadecimal
    /// digit.
    InvalidHex,
    /// The text is hexadecimal, but not of twenty bytes.
    InvalidLength,
}

/// The value of a hexadecimal digit, upper or lower case.
pub open spec fn hex_value(c: u8) -> Option<u8> {
    if 0x30 <= c <= 0x39 {
        Some((c - 0x30) as u8)
    } else if 0x41 <= c <= 0x46 {
        Some((c - 0x41 + 10) as u8)
    } else if 0x61 <= c <= 0x66 {
        Some((c - 0x61 + 10) as u8)
    } else {
        None
    }
}

/// `text` is an even number of hexadecimal digits.
pub open spec fn is_hex(text: Seq<u8>) -> bool {
    &&& text.len() % 2 == 0
    &&& forall|i: int| 0 <= i < text.len() ==> hex_value(#[trigger] text[i]) is Some
}

/// The bytes that the digit pairs of `text` spell, high digit first.
pub open spec fn hex_bytes(text: Seq<u8>) -> Seq<u8> {
    Seq::new(
        text.len() / 2,
        |i: int| (hex_value(text[2 * i])->0 * 16 + hex_value(text[2 * i + 1])->0) as u8,
    )
}

/// Calls `hex::decode` on the UTF-8 bytes of `text`. Claimed: it succeeds
/// exactly on an even number of hexadecimal digits of either case, and then
/// returns one byte for each pair of digits, the first digit of a pair being
/// the high half of the byte.
#[verifier::external_body]
fn decode_hex(text: &str) -> (decoded: Result<Vec<u8>, hex::FromHexError>)
    ensures
        decoded is Ok <==> is_hex(encode_utf8(text@)),
        decoded matches Ok(bytes) ==> bytes@ == hex_bytes(encode_utf8(text@)),
{
    hex::decode(text)
}

/// What `text` is as a piece digest.
pub open spec fn parsed_hash(text: Seq<char>) -> Result<Seq<u8>, HashError> {
    let bytes = encode_utf8(text);
    if !is_hex(bytes) {
        Err(HashError::InvalidHex)
    } else if bytes.len() != 40 {
        Err(HashError::InvalidLength)
    } else {
        Ok(hex_bytes(bytes))
    }
}

/// Reads a piece digest from its hexadecimal form: forty digits of either
/// case.
pub fn parse_piece_hash(text: &str) -> (parsed: Result<[u8; 20], HashError>)
    ensures
        match parsed_hash(text@) {
            Ok(digest) => parsed matches Ok(d) && d@ == digest,
            Err(e) => parsed matches Err(f) && f == e,
        },
{
    let bytes = match decode_hex(text) {
        Ok(bytes) => bytes,
        Err(_) => {
            return Err(HashError::InvalidHex);
        },
    };
    if bytes.len() != 20 {
        return Err(HashError::InvalidLength);
    }
    let mut digest: [u8; 20] = [0u8; 20];
    let mut i: usize = 0;
    while i < 20
        invariant
            i <= 20,
            bytes@.len() == 20,
            forall|j: int| 0 <= j < i ==> digest@[j] == bytes@[j],
        decreases 20 - i,
    {
        digest[i] = bytes[i];
        i += 1;
    }
    Ok(digest)
}

/// The first text of `texts` that is no piece digest.
pub open spec fn first_bad_hash(texts: Seq<String>, i: int) -> bool {
    &&& 0 <= i < texts.len()
    &&& parsed_hash(texts[i]@) is Err
    &&& forall|j: int| 0 <= j < i ==> parsed_hash(#[trigger] texts[j]@) is Ok
}

/// Reads the digests of all pieces of a job from their hexadecimal forms. It
/// fails on the first text that is no digest, with that text's error.
pub fn parse_piece_hashes(texts: &Vec<String>) -> (parsed: Result<Vec<[u8; 20]>, HashError>)
    ensures
        match parsed {
            Ok(digests) => {
                &&& digests@.len() == texts@.len()
                &&& forall|i: int|
                    0 <= i < texts@.len() ==> parsed_hash(#[trigger] texts@[i]@) == Ok::<
                        Seq<u8>,
                        HashError,
                    >(digests@[i]@)
            },
            Err(e) => exists|i: int|
                first_bad_hash(texts@, i) && parsed_hash(texts@[i]@) == Err::<Seq<u8>, HashError>(e),
        },
{
    let mut digests: Vec<[u8; 20]> = Vec::new();
    let mut i: usize = 0;
    while i < texts.len()
        invariant
            i <= texts.len(),
            digests@.len() == i,
            forall|j: int|
                0 <= j < i ==> parsed_hash(#[trigger] texts@[j]@) == Ok::<Seq<u8>, HashError>(
                    digests@[j]@,
                ),
        decreases texts.len() - i,
    {
        match parse_piece_hash(texts[i].as_str()) {
            Ok(digest) => {
                digests.push(digest);
            },
            Err(e) => {
                assert(first_bad_hash(texts@, i as int));
                return Err(e);
            },
        }
        i += 1;
    }
    Ok(digests)
}

/// Whether two digests are the same twenty bytes.
pub fn same_digest(a: &[u8; 20], b: &[u8; 20]) -> (same: bool)
    ensures
        same == (a@ == b@),
{
    let mut i: usize = 0;
    while i < 20
        invariant
            i <= 20,
            forall|j: int| 0 <= j < i ==> a@[j] == b@[j],
        decreases 20 - i,
    {
        if a[i] != b[i] {
            return false;
        }
        i += 1;
    }
    assert(a@ =~= b@);
    true
}

/// Whether `data` hashes to `expected`.
pub fn digest_matches(data: &[u8], expected: &[u8; 20]) -> (matches: bool)
    ensures
        matches == (sha1_digest(data@) == expected@),
{
    let computed = get_sha1(data);
    same_digest(&computed, expected)
}

} // verus!
