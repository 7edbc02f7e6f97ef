//! Pixel data of integer type, decoded from the big-endian bytes that follow
//! a header.
use byteorder::{BigEndian, ByteOrder};
use vstd::prelude::*;

verus! {

/// The unsigned number that the bytes `b` spell, most significant first.
pub open spec fn be_value(b: Seq<u8>) -> int
    decreases b.len(),
{
    if b.len() == 0 {
        0
    } else {
        be_value(b.drop_last()) * 256 + b.last()
    }
}

/// The two's-complement reading of the `bits`-bit pattern `v`.
pub open spec fn signed(v: int, bits: nat) -> int {
    if v >= vstd::arithmetic::power2::pow2((bits - 1) as nat) {
        v - vstd::arithmetic::power2::pow2(bits)
    } else {
        v
    }
}

/// Element `i` of `bytes` read as `width`-byte big-endian integers.
pub open spec fn be_element(bytes: Seq<u8>, width: int, i: int) -> int {
    signed(be_value(bytes.subrange(width * i, width * i + width)), (8 * width) as nat)
}

/// Reads big-endian 16-bit integers.
/// Wraps `byteorder::BigEndian::read_i16_into`, which fills `dst` with the
/// consecutive 2-byte big-endian integers of `src` and panics unless `src`
/// holds exactly two bytes per element of `dst`.
#[verifier::external_body]
fn read_i16_into(src: &[u8], dst: &mut Vec<i16>)
    requires
        src@.len() == 2 * old(dst)@.len(),
    ensures
        final(dst)@.len() == old(dst)@.len(),
        forall|i: int| 0 <= i < final(dst)@.len() ==> #[trigger] final(dst)@[i] == be_element(src@, 2, i),
{
    BigEndian::read_i16_into(src, dst.as_mut_slice())
}

/// Reads big-endian 32-bit integers.
/// Wraps `byteorder::BigEndian::read_i32_into`, which fills `dst` with the
/// consecutive 4-byte big-endian integers of `src` and panics unless `src`
/// holds exactly four bytes per element of `dst`.
#[verifier::external_body]
fn read_i32_into(src: &[u8], dst: &mut Vec<i32>)
    requires
        src@.len() == 4 * old(dst)@.len(),
    ensures
        final(dst)@.len() == old(dst)@.len(),
        forall|i: int| 0 <= i < final(dst)@.len() ==> #[trigger] final(dst)@[i] == be_element(src@, 4, i),
{
    BigEndian::read_i32_into(src, dst.as_mut_slice())
}

/// Reads big-endian 64-bit integers.
/// Wraps `byteorder::BigEndian::read_i64_into`, which fills `dst` with the
/// consecutive 8-byte big-endian integers of `src` and panics unless `src`
/// holds exactly eight bytes per element of `dst`.
#[verifier::external_body]
fn read_i64_into(src: &[u8], dst: &mut Vec<i64>)
    requires
        src@.len() == 8 * old(dst)@.len(),
    ensures
        final(dst)@.len() == old(dst)@.len(),
        forall|i: int| 0 <= i < final(dst)@.len() ==> #[trigger] final(dst)@[i] == be_element(src@, 8, i),
{
    BigEndian::read_i64_into(src, dst.as_mut_slice())
}

/// The pixels of BITPIX 8 data: the bytes themselves.
pub fn decode_u8(bytes: &[u8]) -> (v: Vec<u8>)
    ensures
        v@ == bytes@,
{
    let mut v: Vec<u8> = Vec::new();
    let mut i: usize = 0;
    while i < bytes.len()
        invariant
            i <= bytes@.len(),
            v@ == bytes@.take(i as int),
        decreases bytes@.len() - i,
    {
        v.push(bytes[i]);
        i = i + 1;
        assert(v@ =~= bytes@.take(i as int));
    }
    assert(bytes@.take(i as int) =~= bytes@);
    v
}

/// The pixels of BITPIX 16 data: one signed integer per two bytes.
pub fn decode_i16(bytes: &[u8]) -> (v: Vec<i16>)
    requires
        bytes@.len() % 2 == 0,
    ensures
        v@.len() == bytes@.len() / 2,
        forall|i: int| 0 <= i < v@.len() ==> #[trigger] v@[i] == be_element(bytes@, 2, i),
{
    let n = bytes.len() / 2;
    let mut v: Vec<i16> = Vec::new();
    while v.len() < n
        invariant
            v@.len() <= n,
        decreases n - v@.len(),
    {
        v.push(0);
    }
    read_i16_into(bytes, &mut v);
    v
}

/// The pixels of BITPIX 32 data: one signed integer per four bytes.
pub fn decode_i32(bytes: &[u8]) -> (v: Vec<i32>)
    requires
        bytes@.len() % 4 == 0,
    ensures
        v@.len() == bytes@.len() / 4,
        forall|i: int| 0 <= i < v@.len() ==> #[trigger] v@[i] == be_element(bytes@, 4, i),
{
    let n = bytes.len() / 4;
    let mut v: Vec<i32> = Vec::new();
    while v.len() < n
        invariant
            v@.len() <= n,
        decreases n - v@.len(),
    {
        v.push(0);
    }
    read_i32_into(bytes, &mut v);
    v
}

/// The pixels of BITPIX 64 data: one signed integer per eight bytes.
pub fn decode_i64(bytes: &[u8]) -> (v: Vec<i64>)
    requires
        bytes@.len() % 8 == 0,
    ensures
        v@.len() == bytes@.len() / 8,
        forall|i: int| 0 <= i < v@.len() ==> #[trigger] v@[i] == be_element(bytes@, 8, i),
{
    let n = bytes.len() / 8;
    let mut v: Vec<i64> = Vec::new();
    while v.len() < n
        invariant
            v@.len() <= n,
        decreases n - v@.len(),
    {
        v.push(0);
    }
    read_i64_into(bytes, &mut v);
    v
}

} // verus!
