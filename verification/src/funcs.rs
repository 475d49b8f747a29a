//! Codes, blob identities and the hexadecimal text that names them.
use vstd::prelude::*;
use sha2::Digest;
use crate::types::{BlobId, Status};
use crate::wire::u64_bytes;

verus! {

/// The little-endian value of eight bytes.
pub open spec fn le_u64(b: Seq<u8>) -> int
    recommends
        b.len() == 8,
{
    b[0] + 0x100 * b[1] + 0x10000 * b[2] + 0x1000000 * b[3] + 0x100000000 * b[4]
        + 0x10000000000 * b[5] + 0x1000000000000 * b[6] + 0x100000000000000 * b[7]
}

/// Reads eight bytes as a little-endian code, the form in which the
/// protocol writes every enumerant.
pub fn code8(bytes: &[u8; 8]) -> (c: u64)
    ensures
        c == le_u64(bytes@),
{
    let b0 = bytes[0] as u64;
    let b1 = bytes[1] as u64;
    let b2 = bytes[2] as u64;
    let b3 = bytes[3] as u64;
    let b4 = bytes[4] as u64;
    let b5 = bytes[5] as u64;
    let b6 = bytes[6] as u64;
    let b7 = bytes[7] as u64;
    b0 + 0x100 * b1 + 0x10000 * b2 + 0x1000000 * b3 + 0x100000000 * b4 + 0x10000000000 * b5
        + 0x1000000000000 * b6 + 0x100000000000000 * b7
}


/// The sha256 digest of `data`, as `sha2` computes it.
pub uninterp spec fn sha256(data: Seq<u8>) -> Seq<u8>;

/// `sha2::Sha256::digest`: the 32-byte sha256 digest of `data`, a function
/// of `data` alone. What the digest is on given bytes is not stated.
#[verifier::external_body]
fn sha256_digest(data: &[u8]) -> (digest: [u8; 32])
    ensures
        digest@ == sha256(data@),
{
    sha2::Sha256::digest(data).into()
}

/// The identity of a blob: the sha256 digest of its contents.
pub fn blob_hash(blob: &[u8]) -> (id: BlobId)
    ensures
        id@ == sha256(blob@),
{
    BlobId(sha256_digest(blob))
}

/// The text of a blob identity.
pub type BlobIdStr = [u8; 64];

/// The lowercase hexadecimal digit of a nibble.
pub open spec fn hex_digit(nibble: int) -> u8 {
    if nibble < 10 {
        (nibble + 0x30) as u8
    } else {
        (nibble - 10 + 0x61) as u8
    }
}

/// The value of a lowercase hexadecimal digit, if it is one.
pub open spec fn hex_value(digit: u8) -> Option<int> {
    if 0x30 <= digit <= 0x39 {
        Some(digit - 0x30)
    } else if 0x61 <= digit <= 0x66 {
        Some(digit - 0x61 + 10)
    } else {
        None
    }
}

/// The lowercase hexadecimal text of bytes: two digits per byte, the high
/// nibble first.
pub open spec fn hex_text(bytes: Seq<u8>) -> Seq<u8> {
    Seq::new(
        2 * bytes.len(),
        |i: int|
            if i % 2 == 0 {
                hex_digit(bytes[i / 2] as int / 16)
            } else {
                hex_digit(bytes[i / 2] as int % 16)
            },
    )
}

/// Every character of `text` is a lowercase hexadecimal digit.
pub open spec fn all_hex(text: Seq<u8>) -> bool {
    forall|i: int| 0 <= i < text.len() ==> (#[trigger] hex_value(text[i])) is Some
}

/// The bytes that a text of an even number of lowercase hexadecimal digits
/// stands for.
pub open spec fn hex_bytes(text: Seq<u8>) -> Seq<u8> {
    Seq::new(
        text.len() / 2,
        |i: int| (16 * hex_value(text[2 * i]).unwrap() + hex_value(text[2 * i + 1]).unwrap()) as u8,
    )
}

/// The identity that a text names: 64 lowercase hexadecimal digits, or
/// nothing.
pub open spec fn parse_hash_text(text: Seq<u8>) -> Option<Seq<u8>> {
    if text.len() == 64 && all_hex(text) {
        Some(hex_bytes(text))
    } else {
        None
    }
}

fn nibble_to_hex_digit(nibble: u8) -> (digit: u8)
    requires
        nibble < 16,
    ensures
        digit == hex_digit(nibble as int),
{
    if nibble < 10 {
        nibble + 0x30
    } else {
        nibble - 10 + 0x61
    }
}

fn hex_digit_to_nibble(digit: u8) -> (r: Result<u8, Status>)
    ensures
        match hex_value(digit) {
            Some(v) => r == Ok::<u8, Status>(v as u8),
            None => r == Err::<u8, Status>(Status::InternalError),
        },
{
    if 0x30 <= digit && digit <= 0x39 {
        Ok(digit - 0x30)
    } else if 0x61 <= digit && digit <= 0x66 {
        Ok(digit - 0x61 + 10)
    } else {
        Err(Status::InternalError)
    }
}

/// The text of a blob identity: 64 lowercase hexadecimal digits, the form
/// in which blobs are named on disk.
pub fn hash_to_str(blob_id: &BlobId) -> (text: BlobIdStr)
    ensures
        text@ == hex_text(blob_id@),
{
    let mut text = [0u8; 64];
    let mut i: usize = 0;
    while i < 32
        invariant
            i <= 32,
            blob_id@.len() == 32,
            forall|j: int| 0 <= j < 2 * i ==> text@[j] == #[trigger] hex_text(blob_id@)[j],
        decreases 32 - i,
    {
        let byte = blob_id.0[i];
        text[2 * i] = nibble_to_hex_digit(byte / 16);
        text[2 * i + 1] = nibble_to_hex_digit(byte % 16);
        assert forall|j: int| 0 <= j < 2 * (i + 1) implies text@[j] == #[trigger] hex_text(
            blob_id@,
        )[j] by {
            if j >= 2 * i {
                assert(j / 2 == i);
            }
        }
        i = i + 1;
    }
    assert(text@ =~= hex_text(blob_id@));
    text
}

/// The blob identity that a text names; `InternalError` unless the text is
/// 64 lowercase hexadecimal digits.
pub fn str_to_hash(string: &[u8]) -> (r: Result<BlobId, Status>)
    ensures
        match parse_hash_text(string@) {
            Some(bytes) => r matches Ok(id) && id@ == bytes,
            None => r == Err::<BlobId, Status>(Status::InternalError),
        },
{
    if string.len() != 64 {
        return Err(Status::InternalError);
    }
    let mut hash = [0u8; 32];
    let mut i: usize = 0;
    while i < 32
        invariant
            i <= 32,
            string@.len() == 64,
            forall|j: int| 0 <= j < 2 * i ==> (#[trigger] hex_value(string@[j])) is Some,
            forall|j: int| 0 <= j < i ==> hash@[j] == #[trigger] hex_bytes(string@)[j],
        decreases 32 - i,
    {
        let hi = match hex_digit_to_nibble(string[2 * i]) {
            Ok(v) => v,
            Err(e) => {
                assert(!all_hex(string@));
                return Err(e);
            },
        };
        let lo = match hex_digit_to_nibble(string[2 * i + 1]) {
            Ok(v) => v,
            Err(e) => {
                assert(!all_hex(string@));
                return Err(e);
            },
        };
        hash[i] = hi * 16 + lo;
        assert forall|j: int| 0 <= j < 2 * (i + 1) implies (#[trigger] hex_value(
            string@[j],
        )) is Some by {
            if j >= 2 * i {
                assert(j == 2 * i || j == 2 * i + 1);
            }
        }
        i = i + 1;
    }
    assert(hash@ =~= hex_bytes(string@));
    Ok(BlobId(hash))
}

/// The text of an identity names it: reading it back gives the identity.
pub proof fn lemma_hash_text_roundtrip(id: Seq<u8>)
    requires
        id.len() == 32,
    ensures
        parse_hash_text(hex_text(id)) == Some(id),
{
    let t = hex_text(id);
    assert forall|i: int| 0 <= i < t.len() implies (#[trigger] hex_value(t[i])) is Some by {
        let b = id[i / 2] as int;
        assert(0 <= b / 16 < 16 && 0 <= b % 16 < 16);
    }
    assert forall|i: int| 0 <= i < 32 implies #[trigger] hex_bytes(t)[i] == id[i] by {
        let b = id[i] as int;
        assert((2 * i) / 2 == i && (2 * i + 1) / 2 == i);
        assert((2 * i) % 2 == 0 && (2 * i + 1) % 2 == 1);
        assert(hex_value(hex_digit(b / 16)) == Some(b / 16));
        assert(hex_value(hex_digit(b % 16)) == Some(b % 16));
        assert(16 * (b / 16) + b % 16 == b);
    }
    assert(hex_bytes(t) =~= id);
}

/// Only the text of an identity names it: a text that is read as an
/// identity is that identity's text.
pub proof fn lemma_hash_text_canonical(text: Seq<u8>)
    requires
        parse_hash_text(text) is Some,
    ensures
        hex_text(parse_hash_text(text).unwrap()) == text,
{
    let id = hex_bytes(text);
    assert forall|i: int| 0 <= i < 64 implies #[trigger] hex_text(id)[i] == text[i] by {
        let k = i / 2;
        assert(0 <= k < 32);
        let hi = hex_value(text[2 * k]).unwrap();
        let lo = hex_value(text[2 * k + 1]).unwrap();
        assert(hex_value(text[2 * k]) is Some);
        assert(hex_value(text[2 * k + 1]) is Some);
        assert(0 <= hi < 16 && 0 <= lo < 16);
        assert(id[k] == 16 * hi + lo);
        assert((16 * hi + lo) / 16 == hi) by (nonlinear_arith)
            requires
                0 <= hi < 16,
                0 <= lo < 16,
        ;
        assert((16 * hi + lo) % 16 == lo) by (nonlinear_arith)
            requires
                0 <= hi < 16,
                0 <= lo < 16,
        ;
        if i % 2 == 0 {
            assert(i == 2 * k);
        } else {
            assert(i == 2 * k + 1);
        }
    }
    assert(hex_text(id) =~= text);
}

/// The little-endian value of eight bytes fits a `u64`, and its
/// little-endian bytes are the bytes it was read from.
proof fn lemma_le_u64_bytes(b: Seq<u8>)
    requires
        b.len() == 8,
    ensures
        0 <= le_u64(b) <= u64::MAX,
        u64_bytes(le_u64(b) as u64) == b,
{
    let w0 = b[0] as u64;
    let w1 = b[1] as u64;
    let w2 = b[2] as u64;
    let w3 = b[3] as u64;
    let w4 = b[4] as u64;
    let w5 = b[5] as u64;
    let w6 = b[6] as u64;
    let w7 = b[7] as u64;
    let v = le_u64(b) as u64;
    assert(v == w0 + 0x100 * w1 + 0x10000 * w2 + 0x1000000 * w3 + 0x100000000 * w4
        + 0x10000000000 * w5 + 0x1000000000000 * w6 + 0x100000000000000 * w7);
    assert(v % 0x100 == w0 && v / 0x100 % 0x100 == w1 && v / 0x10000 % 0x100 == w2
        && v / 0x1000000 % 0x100 == w3 && v / 0x100000000 % 0x100 == w4 && v / 0x10000000000
        % 0x100 == w5 && v / 0x1000000000000 % 0x100 == w6 && v / 0x100000000000000 == w7)
        by (bit_vector)
        requires
            w0 < 0x100,
            w1 < 0x100,
            w2 < 0x100,
            w3 < 0x100,
            w4 < 0x100,
            w5 < 0x100,
            w6 < 0x100,
            w7 < 0x100,
            v == w0 + 0x100 * w1 + 0x10000 * w2 + 0x1000000 * w3 + 0x100000000 * w4
                + 0x10000000000 * w5 + 0x1000000000000 * w6 + 0x100000000000000 * w7,
    ;
    assert(u64_bytes(v) =~= b);
}

/// A code is the eight bytes it was read from: written back little-endian
/// it gives those bytes again, and two byte strings give the same code just
/// when they are the same bytes.
pub proof fn lemma_code8_roundtrip(a: [u8; 8], b: [u8; 8])
    ensures
        0 <= le_u64(a@) <= u64::MAX,
        u64_bytes(le_u64(a@) as u64) == a@,
        le_u64(a@) == le_u64(b@) <==> a@ == b@,
{
    lemma_le_u64_bytes(a@);
    lemma_le_u64_bytes(b@);
}

} // verus!
