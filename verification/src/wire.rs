//! Little-endian integers and raw bytes at the front of a byte sequence.
use vstd::prelude::*;
use crate::funcs::le_u64;
use crate::types::Status;

verus! {

/// Why a frame could not be read from the bytes at hand.
#[derive(Debug, Copy, Clone, PartialEq, Eq, Structural)]
pub enum RecvError {
    /// The bytes end before the frame does: more must be read.
    Truncated,
    /// The bytes can never start a valid frame; the status says how the
    /// peer is answered.
    Failed(Status),
}

/// What reading a frame from a byte sequence gives: the number of bytes
/// that the frame takes and its value, or why there is none.
pub type Parsed<T> = Result<(int, T), RecvError>;

/// `parse` refuses `buf` once it has read the first `n` bytes of it: those
/// bytes are at hand and give the same answer as the whole of `buf`, and
/// any fewer bytes give `Truncated`. A reader that refuses `buf` has taken
/// these `n` bytes.
pub open spec fn refused_after<T>(parse: spec_fn(Seq<u8>) -> Parsed<T>, buf: Seq<u8>, n: int) -> bool {
    &&& 0 <= n <= buf.len()
    &&& parse(buf.take(n)) == parse(buf)
    &&& forall|k: int|
        0 <= k < n ==> #[trigger] parse(buf.take(k)) == Err::<(int, T), RecvError>(
            RecvError::Truncated,
        )
}

/// The two little-endian bytes of a `u16`.
pub open spec fn u16_bytes(v: u16) -> Seq<u8> {
    seq![(v % 0x100) as u8, (v / 0x100) as u8]
}

/// The value of two little-endian bytes.
pub open spec fn u16_value(b: Seq<u8>) -> u16 {
    (b[0] + 0x100 * b[1]) as u16
}

/// The four little-endian bytes of a `u32`.
pub open spec fn u32_bytes(v: u32) -> Seq<u8> {
    seq![
        (v % 0x100) as u8,
        (v / 0x100 % 0x100) as u8,
        (v / 0x10000 % 0x100) as u8,
        (v / 0x1000000) as u8,
    ]
}

/// The value of four little-endian bytes.
pub open spec fn u32_value(b: Seq<u8>) -> u32 {
    (b[0] + 0x100 * b[1] + 0x10000 * b[2] + 0x1000000 * b[3]) as u32
}

/// The eight little-endian bytes of a `u64`.
pub open spec fn u64_bytes(v: u64) -> Seq<u8> {
    seq![
        (v % 0x100) as u8,
        (v / 0x100 % 0x100) as u8,
        (v / 0x10000 % 0x100) as u8,
        (v / 0x1000000 % 0x100) as u8,
        (v / 0x100000000 % 0x100) as u8,
        (v / 0x10000000000 % 0x100) as u8,
        (v / 0x1000000000000 % 0x100) as u8,
        (v / 0x100000000000000) as u8,
    ]
}

/// The value of eight little-endian bytes.
pub open spec fn u64_value(b: Seq<u8>) -> u64 {
    le_u64(b) as u64
}

/// Reads a `u16` from the front of `buf`.
pub open spec fn parse_u16(buf: Seq<u8>) -> Parsed<u16> {
    if buf.len() < 2 {
        Err(RecvError::Truncated)
    } else {
        Ok((2, u16_value(buf)))
    }
}

/// Reads a `u32` from the front of `buf`.
pub open spec fn parse_u32(buf: Seq<u8>) -> Parsed<u32> {
    if buf.len() < 4 {
        Err(RecvError::Truncated)
    } else {
        Ok((4, u32_value(buf)))
    }
}

/// Reads a `u64` from the front of `buf`.
pub open spec fn parse_u64(buf: Seq<u8>) -> Parsed<u64> {
    if buf.len() < 8 {
        Err(RecvError::Truncated)
    } else {
        Ok((8, u64_value(buf)))
    }
}

/// Reads `n` raw bytes from the front of `buf`.
pub open spec fn parse_raw(buf: Seq<u8>, n: nat) -> Parsed<Seq<u8>> {
    if buf.len() < n {
        Err(RecvError::Truncated)
    } else {
        Ok((n as int, buf.take(n as int)))
    }
}

/// Decoding the bytes of a `u16` gives it back.
pub proof fn lemma_u16_roundtrip(v: u16)
    ensures
        u16_bytes(v).len() == 2,
        u16_value(u16_bytes(v)) == v,
{
}

/// Decoding the bytes of a `u32` gives it back.
pub proof fn lemma_u32_roundtrip(v: u32)
    ensures
        u32_bytes(v).len() == 4,
        u32_value(u32_bytes(v)) == v,
{
    assert(v == (v % 0x100) + 0x100 * (v / 0x100 % 0x100) + 0x10000 * (v / 0x10000 % 0x100)
        + 0x1000000 * (v / 0x1000000)) by (bit_vector);
}

/// Decoding the bytes of a `u64` gives it back.
pub proof fn lemma_u64_roundtrip(v: u64)
    ensures
        u64_bytes(v).len() == 8,
        u64_value(u64_bytes(v)) == v,
{
    assert(v == (v % 0x100) + 0x100 * (v / 0x100 % 0x100) + 0x10000 * (v / 0x10000 % 0x100)
        + 0x1000000 * (v / 0x1000000 % 0x100) + 0x100000000 * (v / 0x100000000 % 0x100)
        + 0x10000000000 * (v / 0x10000000000 % 0x100) + 0x1000000000000 * (v / 0x1000000000000
        % 0x100) + 0x100000000000000 * (v / 0x100000000000000)) by (bit_vector);
}

/// Appends the bytes of a `u16`.
pub fn push_u16(out: &mut Vec<u8>, v: u16)
    ensures
        final(out)@ == old(out)@ + u16_bytes(v),
{
    out.push((v % 0x100) as u8);
    out.push((v / 0x100) as u8);
    assert(final(out)@ =~= old(out)@ + u16_bytes(v));
}

/// Appends the bytes of a `u32`.
pub fn push_u32(out: &mut Vec<u8>, v: u32)
    ensures
        final(out)@ == old(out)@ + u32_bytes(v),
{
    out.push((v % 0x100) as u8);
    out.push((v / 0x100 % 0x100) as u8);
    out.push((v / 0x10000 % 0x100) as u8);
    out.push((v / 0x1000000) as u8);
    assert(final(out)@ =~= old(out)@ + u32_bytes(v));
}

/// Appends the bytes of a `u64`.
pub fn push_u64(out: &mut Vec<u8>, v: u64)
    ensures
        final(out)@ == old(out)@ + u64_bytes(v),
{
    out.push((v % 0x100) as u8);
    out.push((v / 0x100 % 0x100) as u8);
    out.push((v / 0x10000 % 0x100) as u8);
    out.push((v / 0x1000000 % 0x100) as u8);
    out.push((v / 0x100000000 % 0x100) as u8);
    out.push((v / 0x10000000000 % 0x100) as u8);
    out.push((v / 0x1000000000000 % 0x100) as u8);
    out.push((v / 0x100000000000000) as u8);
    assert(final(out)@ =~= old(out)@ + u64_bytes(v));
}

/// Appends raw bytes.
pub fn push_bytes(out: &mut Vec<u8>, bytes: &[u8])
    ensures
        final(out)@ == old(out)@ + bytes@,
{
    let mut i: usize = 0;
    while i < bytes.len()
        invariant
            i <= bytes.len(),
            out@ == old(out)@ + bytes@.take(i as int),
        decreases bytes.len() - i,
    {
        out.push(bytes[i]);
        i = i + 1;
        assert(out@ =~= old(out)@ + bytes@.take(i as int));
    }
    assert(bytes@.take(i as int) =~= bytes@);
}

/// Reads a `u16` from the front of `buf`.
pub fn read_u16(buf: &[u8]) -> (r: Result<(usize, u16), RecvError>)
    ensures
        match r {
            Ok((n, v)) => parse_u16(buf@) == Ok::<(int, u16), RecvError>((n as int, v)),
            Err(e) => parse_u16(buf@) == Err::<(int, u16), RecvError>(e),
        },
{
    if buf.len() < 2 {
        Err(RecvError::Truncated)
    } else {
        let v = buf[0] as u16 + 0x100 * buf[1] as u16;
        Ok((2, v))
    }
}

/// Reads a `u32` from the front of `buf`.
pub fn read_u32(buf: &[u8]) -> (r: Result<(usize, u32), RecvError>)
    ensures
        match r {
            Ok((n, v)) => parse_u32(buf@) == Ok::<(int, u32), RecvError>((n as int, v)),
            Err(e) => parse_u32(buf@) == Err::<(int, u32), RecvError>(e),
        },
{
    if buf.len() < 4 {
        Err(RecvError::Truncated)
    } else {
        let v = buf[0] as u32 + 0x100 * buf[1] as u32 + 0x10000 * buf[2] as u32 + 0x1000000
            * buf[3] as u32;
        Ok((4, v))
    }
}

/// Reads a `u64` from the front of `buf`.
pub fn read_u64(buf: &[u8]) -> (r: Result<(usize, u64), RecvError>)
    ensures
        match r {
            Ok((n, v)) => parse_u64(buf@) == Ok::<(int, u64), RecvError>((n as int, v)),
            Err(e) => parse_u64(buf@) == Err::<(int, u64), RecvError>(e),
        },
{
    if buf.len() < 8 {
        Err(RecvError::Truncated)
    } else {
        let v = buf[0] as u64 + 0x100 * buf[1] as u64 + 0x10000 * buf[2] as u64 + 0x1000000
            * buf[3] as u64 + 0x100000000 * buf[4] as u64 + 0x10000000000 * buf[5] as u64
            + 0x1000000000000 * buf[6] as u64 + 0x100000000000000 * buf[7] as u64;
        Ok((8, v))
    }
}

} // verus!
