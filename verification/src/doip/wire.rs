//! Big-endian integers and the byte buffer that messages are written into.

use bytes::{BufMut, BytesMut};
use vstd::prelude::*;

verus! {

/// The number that two bytes stand for, most significant byte first.
pub open spec fn be16(bytes: Seq<u8>) -> u16 {
    (bytes[0] * 0x100 + bytes[1]) as u16
}

/// The number that four bytes stand for, most significant byte first.
pub open spec fn be32(bytes: Seq<u8>) -> u32 {
    (bytes[0] * 0x100_0000 + bytes[1] * 0x1_0000 + bytes[2] * 0x100 + bytes[3]) as u32
}

/// The two bytes of a number, most significant byte first.
pub open spec fn be16_bytes(value: u16) -> Seq<u8> {
    seq![(value / 0x100) as u8, (value % 0x100) as u8]
}

/// The four bytes of a number, most significant byte first.
pub open spec fn be32_bytes(value: u32) -> Seq<u8> {
    seq![
        (value / 0x100_0000) as u8,
        (value / 0x1_0000 % 0x100) as u8,
        (value / 0x100 % 0x100) as u8,
        (value % 0x100) as u8,
    ]
}

/// Reading back the two bytes of a number gives that number.
pub proof fn lemma_be16_round_trip(value: u16)
    ensures
        be16(be16_bytes(value)) == value,
{
}

/// Reading back the four bytes of a number gives that number.
pub proof fn lemma_be32_round_trip(value: u32)
    ensures
        be32(be32_bytes(value)) == value,
{
}

/// Joins two bytes into a number, most significant byte first.
pub fn join_be16(hi: u8, lo: u8) -> (value: u16)
    ensures
        value == be16(seq![hi, lo]),
{
    hi as u16 * 0x100 + lo as u16
}

/// Joins four bytes into a number, most significant byte first.
pub fn join_be32(b0: u8, b1: u8, b2: u8, b3: u8) -> (value: u32)
    ensures
        value == be32(seq![b0, b1, b2, b3]),
{
    b0 as u32 * 0x100_0000 + b1 as u32 * 0x1_0000 + b2 as u32 * 0x100 + b3 as u32
}

/// The more significant byte of a number.
pub fn high_byte(value: u16) -> (byte: u8)
    ensures
        byte == be16_bytes(value)[0],
{
    (value / 0x100) as u8
}

/// The less significant byte of a number.
pub fn low_byte(value: u16) -> (byte: u8)
    ensures
        byte == be16_bytes(value)[1],
{
    (value % 0x100) as u8
}

/// Copies the bytes at `start..end`.
pub fn copy_bytes(data: &[u8], start: usize, end: usize) -> (copy: Vec<u8>)
    requires
        start <= end <= data@.len(),
    ensures
        copy@ == data@.subrange(start as int, end as int),
{
    let mut copy: Vec<u8> = Vec::new();
    copy.extend_from_slice(vstd::slice::slice_subrange(data, start, end));
    copy
}

/// `bytes::BytesMut`, the growable buffer that a message is serialised into.
#[verifier::external_type_specification]
#[verifier::external_body]
pub struct ExBytesMut(BytesMut);

/// The bytes written into a buffer so far, first byte first.
pub uninterp spec fn buffered(buf: BytesMut) -> Seq<u8>;

/// `BytesMut::with_capacity`: a buffer that holds no byte yet. The capacity
/// has no effect on the contents.
#[verifier::external_body]
pub(crate) fn buffer_with_capacity(capacity: usize) -> (buf: BytesMut)
    requires
        capacity <= isize::MAX,
    ensures
        buffered(buf) == Seq::<u8>::empty(),
{
    BytesMut::with_capacity(capacity)
}

/// `BufMut::put_u8` on a `BytesMut`: appends one byte.
#[verifier::external_body]
pub(crate) fn put_u8(buf: &mut BytesMut, value: u8)
    requires
        buffered(*old(buf)).len() + 1 <= isize::MAX,
    ensures
        buffered(*final(buf)) == buffered(*old(buf)).push(value),
{
    buf.put_u8(value)
}

/// `BufMut::put_u16` on a `BytesMut`: appends two bytes, most significant
/// first.
#[verifier::external_body]
pub(crate) fn put_u16(buf: &mut BytesMut, value: u16)
    requires
        buffered(*old(buf)).len() + 2 <= isize::MAX,
    ensures
        buffered(*final(buf)) == buffered(*old(buf)) + be16_bytes(value),
{
    buf.put_u16(value)
}

/// `BufMut::put_u32` on a `BytesMut`: appends four bytes, most significant
/// first.
#[verifier::external_body]
pub(crate) fn put_u32(buf: &mut BytesMut, value: u32)
    requires
        buffered(*old(buf)).len() + 4 <= isize::MAX,
    ensures
        buffered(*final(buf)) == buffered(*old(buf)) + be32_bytes(value),
{
    buf.put_u32(value)
}

/// `BufMut::put_slice` on a `BytesMut`: appends the bytes of a slice in order.
#[verifier::external_body]
pub(crate) fn put_slice(buf: &mut BytesMut, bytes: &[u8])
    requires
        buffered(*old(buf)).len() + bytes@.len() <= isize::MAX,
    ensures
        buffered(*final(buf)) == buffered(*old(buf)) + bytes@,
{
    buf.put_slice(bytes)
}

/// `to_vec` on the slice that a `BytesMut` dereferences to: a copy of the
/// bytes written so far.
#[verifier::external_body]
pub(crate) fn buffer_to_vec(buf: &BytesMut) -> (bytes: Vec<u8>)
    ensures
        bytes@ == buffered(*buf),
{
    buf.to_vec()
}

} // verus!
