//! The wire format of protocol fields: VarInts, big-endian integers, booleans
//! and length-prefixed strings, written to and read from byte buffers.

use vstd::prelude::*;
use vstd::string::StringSliceAdditionalSpecFns;

verus! {

/// Why reading a field from a buffer failed.
#[derive(Debug, Clone, Copy, PartialEq, Eq, Structural)]
pub enum ReadError {
    /// The buffer ended inside the field.
    UnexpectedEnd,
    /// A VarInt ran over five bytes.
    VarIntTooLong,
    /// The field was read but names no value of its type (the value read is kept).
    InvalidValue(i32),
}

/// `128` to the power `i`.
pub open spec fn pow128(i: int) -> nat
    decreases i,
{
    if i <= 0 {
        1
    } else {
        128 * pow128(i - 1)
    }
}

/// The little-endian base-128 bytes of `x`: seven bits per byte, the high bit
/// set on every byte but the last.
pub open spec fn leb128(x: nat) -> Seq<u8>
    decreases x,
{
    if x < 128 {
        seq![x as u8]
    } else {
        seq![(x % 128 + 128) as u8] + leb128(x / 128)
    }
}

/// The bytes of a VarInt: the base-128 bytes of the value's 32 bits.
pub open spec fn varint_bytes(v: i32) -> Seq<u8> {
    leb128(v as u32 as nat)
}

/// Reading the VarInt that starts at `pos`, from its byte `i` on: the value of
/// bytes `i..` (weighted by their position) and the position after the VarInt.
pub open spec fn varint_read(buf: Seq<u8>, pos: int, i: int) -> Result<(nat, int), ReadError>
    decreases 5 - i,
{
    if i < 0 || i >= 5 {
        Err(ReadError::VarIntTooLong)
    } else if pos + i < 0 || pos + i >= buf.len() {
        Err(ReadError::UnexpectedEnd)
    } else {
        let b = buf[pos + i];
        if b < 128 {
            Ok(((b as nat) * pow128(i), pos + i + 1))
        } else {
            match varint_read(buf, pos, i + 1) {
                Ok((v, e)) => Ok((((b - 128) as nat) * pow128(i) + v, e)),
                Err(er) => Err(er),
            }
        }
    }
}

/// The VarInt at `pos`: its value (the low 32 bits of what its bytes hold) and
/// the position after it.
pub open spec fn varint_at(buf: Seq<u8>, pos: int) -> Result<(i32, int), ReadError> {
    match varint_read(buf, pos, 0) {
        Ok((v, e)) => Ok(((v as u32) as i32, e)),
        Err(er) => Err(er),
    }
}

/// The two big-endian bytes of a 16-bit value.
pub open spec fn be16(x: u16) -> Seq<u8> {
    seq![(x / 0x100) as u8, (x % 0x100) as u8]
}

/// The four big-endian bytes of a 32-bit value.
pub open spec fn be32(x: u32) -> Seq<u8> {
    be16((x / 0x1_0000) as u16) + be16((x % 0x1_0000) as u16)
}

/// The eight big-endian bytes of a 64-bit value.
pub open spec fn be64(x: u64) -> Seq<u8> {
    be32((x / 0x1_0000_0000) as u32) + be32((x % 0x1_0000_0000) as u32)
}

/// The sixteen big-endian bytes of a 128-bit value (a UUID on the wire).
pub open spec fn be128(x: u128) -> Seq<u8> {
    be64((x / 0x1_0000_0000_0000_0000) as u64) + be64((x % 0x1_0000_0000_0000_0000) as u64)
}

/// The byte of a boolean.
pub open spec fn bool_byte(b: bool) -> u8 {
    if b {
        1
    } else {
        0
    }
}

/// A string on the wire: the VarInt count of its UTF-8 bytes, then the bytes.
pub open spec fn prefixed_bytes(bytes: Seq<u8>) -> Seq<u8> {
    varint_bytes(bytes.len() as i32) + bytes
}

proof fn lemma_leb128_len(x: nat, k: int)
    requires
        0 <= k,
        x < pow128(k),
    ensures
        1 <= leb128(x).len() <= if k >= 1 { k } else { 1 },
    decreases x,
{
    if x >= 128 {
        assert(k >= 2) by {
            if k <= 1 {
                assert(pow128(k) <= 128) by {
                    if k == 1 {
                        assert(pow128(0) == 1);
                    }
                }
            }
        }
        assert(x / 128 < pow128(k - 1)) by (nonlinear_arith)
            requires
                x < pow128(k),
                pow128(k) == 128 * pow128(k - 1),
        ;
        lemma_leb128_len(x / 128, k - 1);
    }
}

/// A VarInt takes one to five bytes.
pub proof fn lemma_varint_len(v: i32)
    ensures
        1 <= varint_bytes(v).len() <= 5,
{
    reveal_with_fuel(pow128, 6);
    lemma_leb128_len(v as u32 as nat, 5);
}

proof fn lemma_leb128_read(buf: Seq<u8>, pos: int, i: int, x: nat)
    requires
        0 <= i <= 4,
        0 <= pos,
        x < pow128(5 - i),
        pos + i + leb128(x).len() <= buf.len(),
        buf.subrange(pos + i, pos + i + leb128(x).len()) == leb128(x),
    ensures
        varint_read(buf, pos, i) == Ok::<(nat, int), ReadError>(
            (x * pow128(i), pos + i + leb128(x).len()),
        ),
    decreases x,
{
    let l = leb128(x);
    assert(buf[pos + i] == l[0]);
    if x < 128 {
        assert(l == seq![x as u8]);
    } else {
        let rest = leb128(x / 128);
        assert(l == seq![(x % 128 + 128) as u8] + rest);
        assert(i < 4) by {
            if i == 4 {
                assert(pow128(1) == 128) by {
                    assert(pow128(0) == 1);
                }
            }
        }
        assert(pow128(5 - i) == 128 * pow128(4 - i));
        assert(x / 128 < pow128(4 - i)) by (nonlinear_arith)
            requires
                x < pow128(5 - i),
                pow128(5 - i) == 128 * pow128(4 - i),
        ;
        assert(buf.subrange(pos + i + 1, pos + i + 1 + rest.len()) == rest) by {
            assert forall|j: int| 0 <= j < rest.len() implies buf.subrange(
                pos + i + 1,
                pos + i + 1 + rest.len(),
            )[j] == rest[j] by {
                assert(buf.subrange(pos + i, pos + i + l.len())[j + 1] == l[j + 1]);
            }
        }
        lemma_leb128_read(buf, pos, i + 1, x / 128);
        assert(pow128(i + 1) == 128 * pow128(i));
        assert((x % 128) * pow128(i) + (x / 128) * pow128(i + 1) == x * pow128(i)) by (nonlinear_arith)
            requires
                pow128(i + 1) == 128 * pow128(i),
        ;
    }
}

/// What a VarInt's bytes are read back as: a VarInt written into a buffer is
/// read back as the same value, and the reading ends right after its bytes.
pub proof fn lemma_varint_roundtrip(v: i32, prefix: Seq<u8>, rest: Seq<u8>)
    ensures
        varint_at(prefix + varint_bytes(v) + rest, prefix.len() as int) == Ok::<(i32, int), ReadError>(
            (v, prefix.len() + varint_bytes(v).len() as int),
        ),
{
    let buf = prefix + varint_bytes(v) + rest;
    let x = v as u32 as nat;
    reveal_with_fuel(pow128, 6);
    assert(buf.subrange(prefix.len() as int, prefix.len() + varint_bytes(v).len() as int) == varint_bytes(v));
    lemma_leb128_read(buf, prefix.len() as int, 0, x);
    assert(pow128(0) == 1);
    assert(x * pow128(0) == x);
    assert(x as u32 == v as u32);
    assert(((v as u32) as i32) == v) by (bit_vector);
}

proof fn lemma_varint_read_bound(buf: Seq<u8>, pos: int, i: int)
    ensures
        varint_read(buf, pos, i) matches Ok((v, e)) ==> pos + i < e <= buf.len(),
    decreases 5 - i,
{
    if 0 <= i < 5 && 0 <= pos + i < buf.len() && buf[pos + i] >= 128 {
        lemma_varint_read_bound(buf, pos, i + 1);
    }
}

/// Appends the bytes of a VarInt.
pub fn write_varint(buf: &mut Vec<u8>, v: i32)
    ensures
        final(buf)@ == old(buf)@ + varint_bytes(v),
{
    let mut x: u32 = v as u32;
    loop
        invariant
            old(buf)@ + varint_bytes(v) == buf@ + leb128(x as nat),
        decreases x,
    {
        if x < 128 {
            buf.push(x as u8);
            return;
        }
        let ghost before = buf@;
        buf.push((x % 128 + 128) as u8);
        assert(leb128(x as nat) == seq![(x % 128 + 128) as u8] + leb128((x / 128) as nat));
        assert(before + leb128(x as nat) == buf@ + leb128((x / 128) as nat));
        x = x / 128;
    }
}

/// Reads the VarInt at `pos`: its value and the position after it.
pub fn read_varint(buf: &[u8], pos: usize) -> (r: Result<(i32, usize), ReadError>)
    ensures
        match varint_at(buf@, pos as int) {
            Ok((v, e)) => r == Ok::<(i32, usize), ReadError>((v, e as usize)) && pos < e <= buf@.len(),
            Err(er) => r == Err::<(i32, usize), ReadError>(er),
        },
{
    proof {
        lemma_varint_read_bound(buf@, pos as int, 0);
    }
    let mut i: usize = 0;
    let mut acc: u64 = 0;
    let mut mult: u64 = 1;
    loop
        invariant
            i <= 5,
            mult == pow128(i as int),
            acc < mult,
            varint_read(buf@, pos as int, 0) == match varint_read(buf@, pos as int, i as int) {
                Ok((v, e)) => Ok::<(nat, int), ReadError>(((acc + v) as nat, e)),
                Err(er) => Err(er),
            },
        decreases 5 - i,
    {
        if i >= 5 {
            return Err(ReadError::VarIntTooLong);
        }
        if pos >= buf.len() || i >= buf.len() - pos {
            return Err(ReadError::UnexpectedEnd);
        }
        assert(mult <= 0x1000_0000) by {
            reveal_with_fuel(pow128, 5);
            if i == 0 {} else if i == 1 {} else if i == 2 {} else if i == 3 {} else {}
        }
        let b = buf[pos + i];
        if b < 128 {
            assert((b as u64) * mult <= 127 * 0x1000_0000) by (nonlinear_arith)
                requires
                    b < 128,
                    mult <= 0x1000_0000,
            ;
            let total: u64 = acc + (b as u64) * mult;
            return Ok(((total as u32) as i32, pos + i + 1));
        }
        assert(((b - 128) as u64) * mult < 128 * mult) by (nonlinear_arith)
            requires
                128 <= b < 256,
                mult > 0,
        ;
        assert(((b - 128) as u64) * mult <= 127 * 0x1000_0000) by (nonlinear_arith)
            requires
                128 <= b < 256,
                mult <= 0x1000_0000,
        ;
        assert(acc + ((b - 128) as u64) * mult < 128 * mult) by (nonlinear_arith)
            requires
                acc < mult,
                ((b - 128) as u64) * mult < 128 * mult,
                128 <= b < 256,
        ;
        acc = acc + ((b - 128) as u64) * mult;
        mult = mult * 128;
        i += 1;
    }
}

/// Appends one byte.
pub fn write_u8(buf: &mut Vec<u8>, x: u8)
    ensures
        final(buf)@ == old(buf)@.push(x),
{
    buf.push(x);
}

/// Appends a signed byte (its two's-complement bits).
pub fn write_i8(buf: &mut Vec<u8>, x: i8)
    ensures
        final(buf)@ == old(buf)@.push(x as u8),
{
    buf.push(x as u8);
}

/// Appends a boolean as one byte, `1` or `0`.
pub fn write_bool(buf: &mut Vec<u8>, b: bool)
    ensures
        final(buf)@ == old(buf)@.push(bool_byte(b)),
{
    buf.push(if b { 1 } else { 0 });
}

/// Appends a 16-bit value, big-endian.
pub fn write_u16(buf: &mut Vec<u8>, x: u16)
    ensures
        final(buf)@ == old(buf)@ + be16(x),
{
    buf.push((x / 0x100) as u8);
    buf.push((x % 0x100) as u8);
}

/// Appends a 32-bit value, big-endian.
pub fn write_u32(buf: &mut Vec<u8>, x: u32)
    ensures
        final(buf)@ == old(buf)@ + be32(x),
{
    write_u16(buf, (x / 0x1_0000) as u16);
    write_u16(buf, (x % 0x1_0000) as u16);
}

/// Appends a 64-bit value, big-endian.
pub fn write_u64(buf: &mut Vec<u8>, x: u64)
    ensures
        final(buf)@ == old(buf)@ + be64(x),
{
    write_u32(buf, (x / 0x1_0000_0000) as u32);
    write_u32(buf, (x % 0x1_0000_0000) as u32);
}

/// Appends a 128-bit value (a UUID), big-endian.
pub fn write_u128(buf: &mut Vec<u8>, x: u128)
    ensures
        final(buf)@ == old(buf)@ + be128(x),
{
    write_u64(buf, (x / 0x1_0000_0000_0000_0000) as u64);
    write_u64(buf, (x % 0x1_0000_0000_0000_0000) as u64);
}

/// Appends a 16-bit signed value, big-endian.
pub fn write_i16(buf: &mut Vec<u8>, x: i16)
    ensures
        final(buf)@ == old(buf)@ + be16(x as u16),
{
    write_u16(buf, x as u16);
}

/// Appends a 32-bit signed value, big-endian.
pub fn write_i32(buf: &mut Vec<u8>, x: i32)
    ensures
        final(buf)@ == old(buf)@ + be32(x as u32),
{
    write_u32(buf, x as u32);
}

/// Appends bytes.
pub fn write_bytes(buf: &mut Vec<u8>, bytes: &[u8])
    ensures
        final(buf)@ == old(buf)@ + bytes@,
{
    let mut i: usize = 0;
    while i < bytes.len()
        invariant
            i <= bytes@.len(),
            buf@ == old(buf)@ + bytes@.take(i as int),
        decreases bytes@.len() - i,
    {
        buf.push(bytes[i]);
        assert(bytes@.take(i + 1) == bytes@.take(i as int).push(bytes@[i as int]));
        i += 1;
    }
    assert(bytes@.take(bytes@.len() as int) == bytes@);
}

/// Appends a string: the VarInt count of its UTF-8 bytes, then the bytes.
pub fn write_string(buf: &mut Vec<u8>, s: &str)
    ensures
        final(buf)@ == old(buf)@ + prefixed_bytes(s.spec_bytes()),
{
    let bytes = s.as_bytes();
    write_varint(buf, bytes.len() as i32);
    write_bytes(buf, bytes);
}

/// Reads one byte at `pos`.
pub fn read_u8(buf: &[u8], pos: usize) -> (r: Result<(u8, usize), ReadError>)
    ensures
        pos < buf@.len() ==> r == Ok::<(u8, usize), ReadError>((buf@[pos as int], (pos + 1) as usize)),
        pos >= buf@.len() ==> r == Err::<(u8, usize), ReadError>(ReadError::UnexpectedEnd),
{
    if pos < buf.len() {
        Ok((buf[pos], pos + 1))
    } else {
        Err(ReadError::UnexpectedEnd)
    }
}

/// Reads a boolean at `pos`: any byte but `0` is `true`.
pub fn read_bool(buf: &[u8], pos: usize) -> (r: Result<(bool, usize), ReadError>)
    ensures
        pos < buf@.len() ==> r == Ok::<(bool, usize), ReadError>(
            (buf@[pos as int] != 0, (pos + 1) as usize),
        ),
        pos >= buf@.len() ==> r == Err::<(bool, usize), ReadError>(ReadError::UnexpectedEnd),
{
    if pos < buf.len() {
        Ok((buf[pos] != 0, pos + 1))
    } else {
        Err(ReadError::UnexpectedEnd)
    }
}

/// The 32-bit big-endian value at `pos` and the position after it.
pub open spec fn u32_at(buf: Seq<u8>, pos: int) -> Result<(u32, int), ReadError> {
    if 0 <= pos && pos + 4 <= buf.len() {
        Ok(
            (
                (buf[pos] as int * 0x100_0000 + buf[pos + 1] as int * 0x1_0000 + buf[pos + 2] as int
                    * 0x100 + buf[pos + 3] as int) as u32,
                pos + 4,
            ),
        )
    } else {
        Err(ReadError::UnexpectedEnd)
    }
}

/// What a 32-bit value's bytes are read back as: four big-endian bytes
/// written into a buffer are read back as the same value, and the reading
/// ends right after them.
pub proof fn lemma_be32_roundtrip(x: u32, prefix: Seq<u8>, rest: Seq<u8>)
    ensures
        be32(x).len() == 4,
        u32_at(prefix + be32(x) + rest, prefix.len() as int) == Ok::<(u32, int), ReadError>(
            (x, prefix.len() + 4int),
        ),
{
    let buf = prefix + be32(x) + rest;
    let p = prefix.len() as int;
    let hi = x / 0x1_0000;
    let lo = x % 0x1_0000;
    assert(x == hi * 0x1_0000 + lo);
    assert(hi == (hi / 0x100) * 0x100 + hi % 0x100);
    assert(lo == (lo / 0x100) * 0x100 + lo % 0x100);
    assert(buf[p] == hi / 0x100);
    assert(buf[p + 1] == hi % 0x100);
    assert(buf[p + 2] == lo / 0x100);
    assert(buf[p + 3] == lo % 0x100);
    let v: int = buf[p] as int * 0x100_0000 + buf[p + 1] as int * 0x1_0000 + buf[p + 2] as int
        * 0x100 + buf[p + 3] as int;
    assert(v == x);
}

/// Reads a 32-bit big-endian value at `pos`.
pub fn read_u32(buf: &[u8], pos: usize) -> (r: Result<(u32, usize), ReadError>)
    ensures
        match u32_at(buf@, pos as int) {
            Ok((x, e)) => r == Ok::<(u32, usize), ReadError>((x, e as usize)) && be32(x)
                == buf@.subrange(pos as int, pos + 4),
            Err(er) => r == Err::<(u32, usize), ReadError>(er),
        },
{
    if pos >= buf.len() || buf.len() - pos < 4 {
        return Err(ReadError::UnexpectedEnd);
    }
    let b0 = buf[pos] as u32;
    let b1 = buf[pos + 1] as u32;
    let b2 = buf[pos + 2] as u32;
    let b3 = buf[pos + 3] as u32;
    let x: u32 = b0 * 0x100_0000 + b1 * 0x1_0000 + b2 * 0x100 + b3;
    assert(be32(x) == buf@.subrange(pos as int, pos + 4)) by {
        assert(x / 0x1_0000 == b0 * 0x100 + b1);
        assert(x % 0x1_0000 == b2 * 0x100 + b3);
    }
    Ok((x, pos + 4))
}

} // verus!
