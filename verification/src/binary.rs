//! Stateless codec functions: fixed-width integers in a chosen byte order,
//! the 3-byte unsigned "triad", and LEB128-style variable-length integers
//! with zigzag mapping for signed values.
//!
//! Signed triads are not supported: their bit layout would need explicit
//! sign propagation through the discarded high byte, and this codec keeps
//! the triad unsigned only.

use vstd::prelude::*;
use crate::bytes::{
    pow256, le_val, le_bytes, le_encode, le_decode, rev_bytes, take_bytes, lemma_le_val_bound,
    lemma_le_bytes_val, lemma_le_bytes_len, lemma_pow256_monotone,
};
use crate::varint::{
    uvarint, uvarint_decode, zigzag_encode, zigzag_decode, decode_uvarint_raw, lemma_uvarint_shape,
};

verus! {

/// Byte order of a fixed-width encoding: `Big` places the most significant
/// byte first, `Little` places it last.
#[derive(Clone, Copy, PartialEq, Eq, Structural, Debug)]
pub enum Endian {
    Big,
    Little,
}

/// The two failure kinds of this codec. Both are hard failures of the
/// current decode: the bytes at hand cannot be retried.
#[derive(Clone, Copy, PartialEq, Eq, Structural, Debug)]
pub enum BinaryError {
    /// A read asked for more bytes than remain in the buffer.
    BufferUnderrun,
    /// A variable-length integer still had its continuation bit set after
    /// the maximum number of groups for the target width.
    MalformedVarInt,
}

/// The unsigned value of a byte sequence read in the given byte order.
pub open spec fn val_of(s: Seq<u8>, endian: Endian) -> nat {
    match endian {
        Endian::Little => le_val(s),
        Endian::Big => le_val(s.reverse()),
    }
}

/// The `n` bytes of `v` in the given byte order.
pub open spec fn bytes_of(v: nat, n: nat, endian: Endian) -> Seq<u8> {
    match endian {
        Endian::Little => le_bytes(v, n),
        Endian::Big => le_bytes(v, n).reverse(),
    }
}

/// Round trip for every fixed-width encoding: reading back the `n`-byte
/// encoding of an in-range value, in the same byte order, yields the value.
pub proof fn lemma_fixed_round_trip(v: nat, n: nat, endian: Endian)
    requires
        v < pow256(n),
    ensures
        bytes_of(v, n, endian).len() == n,
        val_of(bytes_of(v, n, endian), endian) == v,
{
    lemma_le_bytes_len(v, n);
    lemma_le_bytes_val(v, n);
    match endian {
        Endian::Little => {},
        Endian::Big => {
            assert(le_bytes(v, n).reverse().reverse() =~= le_bytes(v, n));
        },
    }
}

/// The unsigned reading of a two's-complement 16-bit value.
pub open spec fn u16_of_i16(v: i16) -> nat {
    if v >= 0 {
        v as nat
    } else {
        (v + 0x1_0000) as nat
    }
}

/// The two's-complement reading of an unsigned 16-bit value.
pub open spec fn i16_of_u16(n: nat) -> int {
    if n < 0x8000 {
        n as int
    } else {
        n - 0x1_0000
    }
}

pub open spec fn u32_of_i32(v: i32) -> nat {
    if v >= 0 {
        v as nat
    } else {
        (v + 0x1_0000_0000) as nat
    }
}

pub open spec fn i32_of_u32(n: nat) -> int {
    if n < 0x8000_0000 {
        n as int
    } else {
        n - 0x1_0000_0000
    }
}

pub open spec fn u64_of_i64(v: i64) -> nat {
    if v >= 0 {
        v as nat
    } else {
        (v + 0x1_0000_0000_0000_0000) as nat
    }
}

pub open spec fn i64_of_u64(n: nat) -> int {
    if n < 0x8000_0000_0000_0000 {
        n as int
    } else {
        n - 0x1_0000_0000_0000_0000
    }
}

/// The signed reading of the unsigned reading of a 16-bit value is the
/// value itself, so signed round trips reduce to unsigned ones.
pub proof fn lemma_i16_round_trip(v: i16)
    ensures
        u16_of_i16(v) < pow256(2),
        i16_of_u16(u16_of_i16(v)) == v as int,
{
    reveal_with_fuel(pow256, 3);
}

pub proof fn lemma_i32_round_trip(v: i32)
    ensures
        u32_of_i32(v) < pow256(4),
        i32_of_u32(u32_of_i32(v)) == v as int,
{
    reveal_with_fuel(pow256, 5);
}

pub proof fn lemma_i64_round_trip(v: i64)
    ensures
        u64_of_i64(v) < pow256(8),
        i64_of_u64(u64_of_i64(v)) == v as int,
{
    reveal_with_fuel(pow256, 9);
}

/// The unsigned value of the first `n` bytes of `bytes`, in the given order.
fn decode_fixed(bytes: &Vec<u8>, n: usize, endian: Endian) -> (r: u64)
    requires
        n <= 8,
        n <= bytes@.len(),
    ensures
        r as nat == val_of(bytes@.take(n as int), endian),
        r < pow256(n as nat),
{
    match endian {
        Endian::Little => {
            proof {
                lemma_le_val_bound(bytes@.take(n as int));
            }
            le_decode(bytes, n)
        },
        Endian::Big => {
            let t = take_bytes(bytes, n);
            let rv = rev_bytes(&t);
            proof {
                assert(rv@.take(n as int) =~= rv@);
                lemma_le_val_bound(rv@);
            }
            le_decode(&rv, n)
        },
    }
}

/// The `n` bytes of `v` in the given order.
fn encode_fixed(v: u64, n: usize, endian: Endian) -> (r: Vec<u8>)
    ensures
        r@ == bytes_of(v as nat, n as nat, endian),
        r@.len() == n,
{
    let le = le_encode(v, n);
    match endian {
        Endian::Little => le,
        Endian::Big => rev_bytes(&le),
    }
}

pub fn read_unsigned_short(bytes: Vec<u8>, endian: Endian) -> (r: u16)
    requires
        bytes@.len() >= 2,
    ensures
        r as nat == val_of(bytes@.take(2), endian),
{
    proof {
        reveal_with_fuel(pow256, 3);
    }
    decode_fixed(&bytes, 2, endian) as u16
}

pub fn read_short(bytes: Vec<u8>, endian: Endian) -> (r: i16)
    requires
        bytes@.len() >= 2,
    ensures
        r as int == i16_of_u16(val_of(bytes@.take(2), endian)),
{
    proof {
        reveal_with_fuel(pow256, 3);
    }
    let n = decode_fixed(&bytes, 2, endian);
    if n < 0x8000 {
        n as i16
    } else {
        ((n as i32) - 0x1_0000) as i16
    }
}

pub fn write_unsigned_short(v: u16, endian: Endian) -> (r: Vec<u8>)
    ensures
        r@ == bytes_of(v as nat, 2, endian),
        r@.len() == 2,
{
    encode_fixed(v as u64, 2, endian)
}

pub fn write_short(v: i16, endian: Endian) -> (r: Vec<u8>)
    ensures
        r@ == bytes_of(u16_of_i16(v), 2, endian),
        r@.len() == 2,
{
    let u: u16 = if v >= 0 {
        v as u16
    } else {
        (v as i32 + 0x1_0000) as u16
    };
    write_unsigned_short(u, endian)
}

pub fn read_unsigned_triad(bytes: Vec<u8>, endian: Endian) -> (r: u32)
    requires
        bytes@.len() >= 3,
    ensures
        r as nat == val_of(bytes@.take(3), endian),
        r < 0x100_0000,
{
    proof {
        reveal_with_fuel(pow256, 4);
    }
    decode_fixed(&bytes, 3, endian) as u32
}

pub fn write_unsigned_triad(v: u32, endian: Endian) -> (r: Vec<u8>)
    requires
        v < 0x100_0000,
    ensures
        r@ == bytes_of(v as nat, 3, endian),
        r@.len() == 3,
{
    encode_fixed(v as u64, 3, endian)
}

pub fn read_unsigned_int(bytes: Vec<u8>, endian: Endian) -> (r: u32)
    requires
        bytes@.len() >= 4,
    ensures
        r as nat == val_of(bytes@.take(4), endian),
{
    proof {
        reveal_with_fuel(pow256, 5);
    }
    decode_fixed(&bytes, 4, endian) as u32
}

pub fn read_int(bytes: Vec<u8>, endian: Endian) -> (r: i32)
    requires
        bytes@.len() >= 4,
    ensures
        r as int == i32_of_u32(val_of(bytes@.take(4), endian)),
{
    proof {
        reveal_with_fuel(pow256, 5);
    }
    let n = decode_fixed(&bytes, 4, endian);
    if n < 0x8000_0000 {
        n as i32
    } else {
        (n as i64 - 0x1_0000_0000) as i32
    }
}

pub fn write_unsigned_int(v: u32, endian: Endian) -> (r: Vec<u8>)
    ensures
        r@ == bytes_of(v as nat, 4, endian),
        r@.len() == 4,
{
    encode_fixed(v as u64, 4, endian)
}

pub fn write_int(v: i32, endian: Endian) -> (r: Vec<u8>)
    ensures
        r@ == bytes_of(u32_of_i32(v), 4, endian),
        r@.len() == 4,
{
    let u: u32 = if v >= 0 {
        v as u32
    } else {
        (v as i64 + 0x1_0000_0000) as u32
    };
    write_unsigned_int(u, endian)
}

pub fn read_unsigned_long(bytes: Vec<u8>, endian: Endian) -> (r: u64)
    requires
        bytes@.len() >= 8,
    ensures
        r as nat == val_of(bytes@.take(8), endian),
{
    decode_fixed(&bytes, 8, endian)
}

pub fn read_long(bytes: Vec<u8>, endian: Endian) -> (r: i64)
    requires
        bytes@.len() >= 8,
    ensures
        r as int == i64_of_u64(val_of(bytes@.take(8), endian)),
{
    proof {
        reveal_with_fuel(pow256, 9);
    }
    let n = decode_fixed(&bytes, 8, endian);
    if n < 0x8000_0000_0000_0000 {
        n as i64
    } else {
        let low: u64 = n - 0x8000_0000_0000_0000;
        ((low as i64) - 0x4000_0000_0000_0000) - 0x4000_0000_0000_0000
    }
}

pub fn write_unsigned_long(v: u64, endian: Endian) -> (r: Vec<u8>)
    ensures
        r@ == bytes_of(v as nat, 8, endian),
        r@.len() == 8,
{
    encode_fixed(v, 8, endian)
}

pub fn write_long(v: i64, endian: Endian) -> (r: Vec<u8>)
    ensures
        r@ == bytes_of(u64_of_i64(v), 8, endian),
        r@.len() == 8,
{
    let u: u64 = if v >= 0 {
        v as u64
    } else {
        // two's complement: the high half plus the remaining magnitude
        let low: u64 = ((v + 0x4000_0000_0000_0000) + 0x4000_0000_0000_0000) as u64;
        proof {
            assert(low == v + 0x1_0000_0000_0000_0000 - 0x8000_0000_0000_0000);
        }
        low + 0x8000_0000_0000_0000
    };
    proof {
        assert(u == u64_of_i64(v));
    }
    write_unsigned_long(u, endian)
}

fn zigzag_encode32(v: i32) -> (r: u32)
    ensures
        r as nat == zigzag_encode(v as int),
{
    if v >= 0 {
        (v as u32) * 2
    } else {
        ((-(v + 1)) as u32) * 2 + 1
    }
}

fn zigzag_decode32(n: u32) -> (r: i32)
    ensures
        r as int == zigzag_decode(n as nat),
{
    if n % 2 == 0 {
        (n / 2) as i32
    } else {
        -((n / 2) as i32) - 1
    }
}

fn zigzag_encode64(v: i64) -> (r: u64)
    ensures
        r as nat == zigzag_encode(v as int),
{
    if v >= 0 {
        (v as u64) * 2
    } else {
        ((-(v + 1)) as u64) * 2 + 1
    }
}

fn zigzag_decode64(n: u64) -> (r: i64)
    ensures
        r as int == zigzag_decode(n as nat),
{
    if n % 2 == 0 {
        (n / 2) as i64
    } else {
        -((n / 2) as i64) - 1
    }
}

/// The canonical variable-length bytes of `v`: minimum groups, least
/// significant first.
fn write_uvarint(v: u64) -> (r: Vec<u8>)
    ensures
        r@ == uvarint(v as nat),
{
    let mut buf: Vec<u8> = Vec::new();
    let mut x: u64 = v;
    proof {
        assert(uvarint(v as nat) =~= buf@ + uvarint(v as nat));
    }
    while x >= 0x80
        invariant
            uvarint(v as nat) == buf@ + uvarint(x as nat),
        decreases x,
    {
        let ghost pre = buf@;
        let ghost xg = x as nat;
        buf.push(((x % 0x80) + 0x80) as u8);
        x = x / 0x80;
        proof {
            assert(uvarint(xg) == seq![(xg % 0x80 + 0x80) as u8] + uvarint(xg / 0x80));
            assert(pre.push((xg % 0x80 + 0x80) as u8) + uvarint(xg / 0x80) =~= pre + uvarint(xg));
        }
    }
    let ghost pre = buf@;
    buf.push(x as u8);
    proof {
        assert(uvarint(x as nat) =~= seq![x as u8]);
        assert(pre.push(x as u8) =~= pre + uvarint(x as nat));
    }
    buf
}

pub fn write_unsigned_var_int(v: u32) -> (r: Vec<u8>)
    ensures
        r@ == uvarint(v as nat),
        1 <= r@.len() <= 5,
{
    proof {
        lemma_uvarint_shape(v as nat);
        crate::varint::lemma_uvarint_fits32(v as nat);
    }
    write_uvarint(v as u64)
}

pub fn write_var_int(v: i32) -> (r: Vec<u8>)
    ensures
        r@ == uvarint(zigzag_encode(v as int)),
        1 <= r@.len() <= 5,
{
    let z = zigzag_encode32(v);
    proof {
        lemma_uvarint_shape(z as nat);
        crate::varint::lemma_uvarint_fits32(z as nat);
    }
    write_uvarint(z as u64)
}

pub fn write_unsigned_var_long(v: u64) -> (r: Vec<u8>)
    ensures
        r@ == uvarint(v as nat),
        1 <= r@.len() <= 10,
{
    proof {
        lemma_uvarint_shape(v as nat);
        crate::varint::lemma_uvarint_fits64(v as nat);
    }
    write_uvarint(v)
}

pub fn write_var_long(v: i64) -> (r: Vec<u8>)
    ensures
        r@ == uvarint(zigzag_encode(v as int)),
        1 <= r@.len() <= 10,
{
    let z = zigzag_encode64(v);
    proof {
        lemma_uvarint_shape(z as nat);
        crate::varint::lemma_uvarint_fits64(z as nat);
    }
    write_uvarint(z)
}

pub fn read_unsigned_var_int(buffer: &Vec<u8>, offset: &mut usize) -> (r: Result<u32, BinaryError>)
    ensures
        *old(offset) > buffer@.len() ==> (r == Err::<u32, BinaryError>(BinaryError::BufferUnderrun)
            && *final(offset) == *old(offset)),
        *old(offset) <= buffer@.len() ==> (match uvarint_decode(
            buffer@.skip(*old(offset) as int),
            5,
        ) {
            Ok(vk) => {
                &&& r == Ok::<u32, BinaryError>((vk.0 % 0x1_0000_0000) as u32)
                &&& *final(offset) == *old(offset) + vk.1
                &&& *final(offset) <= buffer@.len()
            },
            Err(e) => r == Err::<u32, BinaryError>(e) && *final(offset) == *old(offset),
        }),
{
    if *offset > buffer.len() {
        return Err(BinaryError::BufferUnderrun);
    }
    match decode_uvarint_raw(buffer, *offset, 5) {
        Ok((v, k)) => {
            *offset = *offset + k;
            Ok((v % 0x1_0000_0000) as u32)
        },
        Err(e) => Err(e),
    }
}

pub fn read_var_int(buffer: &Vec<u8>, offset: &mut usize) -> (r: Result<i32, BinaryError>)
    ensures
        *old(offset) > buffer@.len() ==> (r == Err::<i32, BinaryError>(BinaryError::BufferUnderrun)
            && *final(offset) == *old(offset)),
        *old(offset) <= buffer@.len() ==> (match uvarint_decode(
            buffer@.skip(*old(offset) as int),
            5,
        ) {
            Ok(vk) => {
                &&& (r matches Ok(x) && x as int == zigzag_decode((vk.0 % 0x1_0000_0000) as nat))
                &&& *final(offset) == *old(offset) + vk.1
                &&& *final(offset) <= buffer@.len()
            },
            Err(e) => r == Err::<i32, BinaryError>(e) && *final(offset) == *old(offset),
        }),
{
    let raw = match read_unsigned_var_int(buffer, offset) {
        Ok(v) => v,
        Err(e) => {
            return Err(e);
        },
    };
    Ok(zigzag_decode32(raw))
}

pub fn read_unsigned_var_long(buffer: &Vec<u8>, offset: &mut usize) -> (r: Result<
    u64,
    BinaryError,
>)
    ensures
        *old(offset) > buffer@.len() ==> (r == Err::<u64, BinaryError>(BinaryError::BufferUnderrun)
            && *final(offset) == *old(offset)),
        *old(offset) <= buffer@.len() ==> (match uvarint_decode(
            buffer@.skip(*old(offset) as int),
            10,
        ) {
            Ok(vk) => {
                &&& r == Ok::<u64, BinaryError>((vk.0 % 0x1_0000_0000_0000_0000) as u64)
                &&& *final(offset) == *old(offset) + vk.1
                &&& *final(offset) <= buffer@.len()
            },
            Err(e) => r == Err::<u64, BinaryError>(e) && *final(offset) == *old(offset),
        }),
{
    if *offset > buffer.len() {
        return Err(BinaryError::BufferUnderrun);
    }
    match decode_uvarint_raw(buffer, *offset, 10) {
        Ok((v, k)) => {
            *offset = *offset + k;
            Ok((v % 0x1_0000_0000_0000_0000) as u64)
        },
        Err(e) => Err(e),
    }
}

pub fn read_var_long(buffer: &Vec<u8>, offset: &mut usize) -> (r: Result<i64, BinaryError>)
    ensures
        *old(offset) > buffer@.len() ==> (r == Err::<i64, BinaryError>(BinaryError::BufferUnderrun)
            && *final(offset) == *old(offset)),
        *old(offset) <= buffer@.len() ==> (match uvarint_decode(
            buffer@.skip(*old(offset) as int),
            10,
        ) {
            Ok(vk) => {
                &&& (r matches Ok(x) && x as int == zigzag_decode(
                    (vk.0 % 0x1_0000_0000_0000_0000) as nat,
                ))
                &&& *final(offset) == *old(offset) + vk.1
                &&& *final(offset) <= buffer@.len()
            },
            Err(e) => r == Err::<i64, BinaryError>(e) && *final(offset) == *old(offset),
        }),
{
    let raw = match read_unsigned_var_long(buffer, offset) {
        Ok(v) => v,
        Err(e) => {
            return Err(e);
        },
    };
    Ok(zigzag_decode64(raw))
}

} // verus!
