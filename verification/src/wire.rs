//! Fixed-width binary fields in either byte order.
//!
//! The bytes themselves are produced by the `byteorder` crate; this module
//! states what they are and chooses the call.

use byteorder::{BigEndian, LittleEndian, WriteBytesExt};
use vstd::prelude::*;

verus! {

/// Byte order of a binary payload.
#[derive(Clone, Copy, Debug, PartialEq, Eq, Structural)]
pub enum Endian {
    Big,
    Little,
}

/// The `width` low base-256 digits of `v`, most significant first.
pub open spec fn be_bytes(v: nat, width: nat) -> Seq<u8>
    decreases width,
{
    if width == 0 {
        Seq::empty()
    } else {
        be_bytes(v / 256, (width - 1) as nat).push((v % 256) as u8)
    }
}

/// The `width` low base-256 digits of `v`, least significant first.
pub open spec fn le_bytes(v: nat, width: nat) -> Seq<u8>
    decreases width,
{
    if width == 0 {
        Seq::empty()
    } else {
        seq![(v % 256) as u8] + le_bytes(v / 256, (width - 1) as nat)
    }
}

/// An unsigned value as a field of `width` bytes in the given order.
pub open spec fn unsigned_field(v: nat, width: nat, order: Endian) -> Seq<u8> {
    match order {
        Endian::Big => be_bytes(v, width),
        Endian::Little => le_bytes(v, width),
    }
}

/// 256 to the power `width`: the number of values that fit in `width`
/// bytes.
pub open spec fn pow256(width: nat) -> nat
    decreases width,
{
    if width == 0 {
        1
    } else {
        256 * pow256((width - 1) as nat)
    }
}

/// The ranges of the fields in use.
pub proof fn lemma_pow256()
    ensures
        pow256(1) == 0x100,
        pow256(2) == 0x1_0000,
        pow256(4) == 0x1_0000_0000,
        pow256(8) == 0x1_0000_0000_0000_0000,
{
    reveal_with_fuel(pow256, 9);
}

/// The unsigned value whose bits are the two's complement form of `v`.
pub open spec fn twos_complement(v: int, width: nat) -> nat {
    if v < 0 {
        (v + pow256(width)) as nat
    } else {
        v as nat
    }
}

/// A signed value as a two's complement field of `width` bytes.
pub open spec fn signed_field(v: int, width: nat, order: Endian) -> Seq<u8> {
    unsigned_field(twos_complement(v, width), width, order)
}

/// `byteorder::WriteBytesExt::write_u8` on a byte vector: the vector grows
/// by exactly the given byte. Writing to a `Vec<u8>` cannot fail.
#[verifier::external_body]
fn write_u8(out: &mut Vec<u8>, v: u8)
    ensures
        final(out)@ == old(out)@.push(v),
{
    let _ = WriteBytesExt::write_u8(out, v);
}

/// `byteorder::WriteBytesExt::write_u16::<BigEndian>` on a byte vector:
/// the vector grows by the two bytes of `v`, high byte first.
#[verifier::external_body]
fn write_u16_be(out: &mut Vec<u8>, v: u16)
    ensures
        final(out)@ == old(out)@ + be_bytes(v as nat, 2),
{
    let _ = WriteBytesExt::write_u16::<BigEndian>(out, v);
}

/// `byteorder::WriteBytesExt::write_u16::<LittleEndian>` on a byte vector:
/// the vector grows by the two bytes of `v`, low byte first.
#[verifier::external_body]
fn write_u16_le(out: &mut Vec<u8>, v: u16)
    ensures
        final(out)@ == old(out)@ + le_bytes(v as nat, 2),
{
    let _ = WriteBytesExt::write_u16::<LittleEndian>(out, v);
}

/// `byteorder::WriteBytesExt::write_u32::<BigEndian>` on a byte vector:
/// the vector grows by the four bytes of `v`, high byte first.
#[verifier::external_body]
fn write_u32_be(out: &mut Vec<u8>, v: u32)
    ensures
        final(out)@ == old(out)@ + be_bytes(v as nat, 4),
{
    let _ = WriteBytesExt::write_u32::<BigEndian>(out, v);
}

/// `byteorder::WriteBytesExt::write_u32::<LittleEndian>` on a byte vector:
/// the vector grows by the four bytes of `v`, low byte first.
#[verifier::external_body]
fn write_u32_le(out: &mut Vec<u8>, v: u32)
    ensures
        final(out)@ == old(out)@ + le_bytes(v as nat, 4),
{
    let _ = WriteBytesExt::write_u32::<LittleEndian>(out, v);
}

/// `byteorder::WriteBytesExt::write_u64::<BigEndian>` on a byte vector:
/// the vector grows by the eight bytes of `v`, high byte first.
#[verifier::external_body]
fn write_u64_be(out: &mut Vec<u8>, v: u64)
    ensures
        final(out)@ == old(out)@ + be_bytes(v as nat, 8),
{
    let _ = WriteBytesExt::write_u64::<BigEndian>(out, v);
}

/// `byteorder::WriteBytesExt::write_u64::<LittleEndian>` on a byte vector:
/// the vector grows by the eight bytes of `v`, low byte first.
#[verifier::external_body]
fn write_u64_le(out: &mut Vec<u8>, v: u64)
    ensures
        final(out)@ == old(out)@ + le_bytes(v as nat, 8),
{
    let _ = WriteBytesExt::write_u64::<LittleEndian>(out, v);
}

/// A one-byte field is the byte itself in either order.
pub proof fn lemma_single_byte(v: nat, order: Endian)
    requires
        v < 256,
    ensures
        unsigned_field(v, 1, order) == seq![v as u8],
{
    reveal_with_fuel(be_bytes, 2);
    reveal_with_fuel(le_bytes, 2);
    assert(be_bytes(v, 1) =~= seq![v as u8]);
    assert(le_bytes(v, 1) =~= seq![v as u8]);
}

/// Appends an unsigned one-byte field.
pub fn put_u8(out: &mut Vec<u8>, v: u8, order: Endian)
    ensures
        final(out)@ == old(out)@ + unsigned_field(v as nat, 1, order),
{
    proof {
        lemma_single_byte(v as nat, order);
        assert(out@.push(v) =~= out@ + seq![v]);
    }
    write_u8(out, v);
}

/// Appends an unsigned two-byte field.
pub fn put_u16(out: &mut Vec<u8>, v: u16, order: Endian)
    ensures
        final(out)@ == old(out)@ + unsigned_field(v as nat, 2, order),
{
    match order {
        Endian::Big => write_u16_be(out, v),
        Endian::Little => write_u16_le(out, v),
    }
}

/// Appends an unsigned four-byte field.
pub fn put_u32(out: &mut Vec<u8>, v: u32, order: Endian)
    ensures
        final(out)@ == old(out)@ + unsigned_field(v as nat, 4, order),
{
    match order {
        Endian::Big => write_u32_be(out, v),
        Endian::Little => write_u32_le(out, v),
    }
}

/// Appends an unsigned eight-byte field.
pub fn put_u64(out: &mut Vec<u8>, v: u64, order: Endian)
    ensures
        final(out)@ == old(out)@ + unsigned_field(v as nat, 8, order),
{
    match order {
        Endian::Big => write_u64_be(out, v),
        Endian::Little => write_u64_le(out, v),
    }
}

/// Appends a signed one-byte field in two's complement.
pub fn put_i8(out: &mut Vec<u8>, v: i8, order: Endian)
    ensures
        final(out)@ == old(out)@ + signed_field(v as int, 1, order),
{
    proof {
        lemma_pow256();
    }
    let bits: u8 = if v < 0 {
        (v as i16 + 0x100) as u8
    } else {
        v as u8
    };
    put_u8(out, bits, order);
}

/// Appends a signed two-byte field in two's complement.
pub fn put_i16(out: &mut Vec<u8>, v: i16, order: Endian)
    ensures
        final(out)@ == old(out)@ + signed_field(v as int, 2, order),
{
    proof {
        lemma_pow256();
    }
    let bits: u16 = if v < 0 {
        (v as i32 + 0x1_0000) as u16
    } else {
        v as u16
    };
    put_u16(out, bits, order);
}

/// Appends a signed four-byte field in two's complement.
pub fn put_i32(out: &mut Vec<u8>, v: i32, order: Endian)
    ensures
        final(out)@ == old(out)@ + signed_field(v as int, 4, order),
{
    proof {
        lemma_pow256();
    }
    let bits: u32 = if v < 0 {
        (v as i64 + 0x1_0000_0000) as u32
    } else {
        v as u32
    };
    put_u32(out, bits, order);
}

/// The number that `bytes` spell in base 256, most significant first.
pub open spec fn be_value(bytes: Seq<u8>) -> nat
    decreases bytes.len(),
{
    if bytes.len() == 0 {
        0
    } else {
        be_value(bytes.drop_last()) * 256 + bytes.last() as nat
    }
}

/// A big-endian field has `width` bytes, and they spell the value, most
/// significant byte first.
pub proof fn lemma_be_bytes(v: nat, width: nat)
    ensures
        be_bytes(v, width).len() == width,
        pow256(width) > 0,
        be_value(be_bytes(v, width)) == v % pow256(width),
    decreases width,
{
    if width > 0 {
        let rest = (width - 1) as nat;
        lemma_be_bytes(v / 256, rest);
        let bytes = be_bytes(v, width);
        assert(bytes.drop_last() =~= be_bytes(v / 256, rest));
        assert(bytes.last() == (v % 256) as u8);
        vstd::arithmetic::div_mod::lemma_mod_breakdown(v as int, 256, pow256(rest) as int);
    }
}

/// A little-endian field holds the bytes of the big-endian field in
/// reverse.
pub proof fn lemma_le_bytes(v: nat, width: nat)
    ensures
        le_bytes(v, width).len() == width,
        le_bytes(v, width) == be_bytes(v, width).reverse(),
    decreases width,
{
    if width > 0 {
        lemma_le_bytes(v / 256, (width - 1) as nat);
        lemma_be_bytes(v / 256, (width - 1) as nat);
        assert(le_bytes(v, width) =~= be_bytes(v, width).reverse());
    }
}

} // verus!
