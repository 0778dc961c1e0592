//! Fixed-width integer fields of the byte formats, in both byte orders.

use vstd::prelude::*;

verus! {

/// The four bytes of `value`, least significant first.
pub open spec fn le_bytes_u32(value: u32) -> Seq<u8> {
    seq![
        (value & 0xff) as u8,
        ((value >> 8) & 0xff) as u8,
        ((value >> 16) & 0xff) as u8,
        ((value >> 24) & 0xff) as u8,
    ]
}

/// The eight bytes of `value`, least significant first.
pub open spec fn le_bytes_u64(value: u64) -> Seq<u8> {
    seq![
        (value & 0xff) as u8,
        ((value >> 8) & 0xff) as u8,
        ((value >> 16) & 0xff) as u8,
        ((value >> 24) & 0xff) as u8,
        ((value >> 32) & 0xff) as u8,
        ((value >> 40) & 0xff) as u8,
        ((value >> 48) & 0xff) as u8,
        ((value >> 56) & 0xff) as u8,
    ]
}

/// The four bytes of `value`, most significant first.
pub open spec fn be_bytes_u32(value: u32) -> Seq<u8> {
    le_bytes_u32(value).reverse()
}

/// The eight bytes of `value`, most significant first.
pub open spec fn be_bytes_u64(value: u64) -> Seq<u8> {
    le_bytes_u64(value).reverse()
}

/// The number four bytes stand for, least significant first.
pub open spec fn le_value_u32(bytes: Seq<u8>) -> u32 {
    (bytes[0] as u32) | (bytes[1] as u32) << 8 | (bytes[2] as u32) << 16 | (bytes[3] as u32) << 24
}

/// The number eight bytes stand for, least significant first.
pub open spec fn le_value_u64(bytes: Seq<u8>) -> u64 {
    (bytes[0] as u64) | (bytes[1] as u64) << 8 | (bytes[2] as u64) << 16 | (bytes[3] as u64) << 24
        | (bytes[4] as u64) << 32 | (bytes[5] as u64) << 40 | (bytes[6] as u64) << 48 | (
    bytes[7] as u64) << 56
}

/// A `u32` field read back is the number that was written.
pub broadcast proof fn lemma_le_u32_round_trip(value: u32)
    ensures
        le_value_u32(#[trigger] le_bytes_u32(value)) == value,
{
    assert(({
        let b0: u8 = (value & 0xff) as u8;
        let b1: u8 = ((value >> 8) & 0xff) as u8;
        let b2: u8 = ((value >> 16) & 0xff) as u8;
        let b3: u8 = ((value >> 24) & 0xff) as u8;
        (b0 as u32) | (b1 as u32) << 8 | (b2 as u32) << 16 | (b3 as u32) << 24
    }) == value) by (bit_vector);
}

/// A `u64` field read back is the number that was written.
pub broadcast proof fn lemma_le_u64_round_trip(value: u64)
    ensures
        le_value_u64(#[trigger] le_bytes_u64(value)) == value,
{
    assert(({
        let b0: u8 = (value & 0xff) as u8;
        let b1: u8 = ((value >> 8) & 0xff) as u8;
        let b2: u8 = ((value >> 16) & 0xff) as u8;
        let b3: u8 = ((value >> 24) & 0xff) as u8;
        let b4: u8 = ((value >> 32) & 0xff) as u8;
        let b5: u8 = ((value >> 40) & 0xff) as u8;
        let b6: u8 = ((value >> 48) & 0xff) as u8;
        let b7: u8 = ((value >> 56) & 0xff) as u8;
        (b0 as u64) | (b1 as u64) << 8 | (b2 as u64) << 16 | (b3 as u64) << 24 | (b4 as u64) << 32
            | (b5 as u64) << 40 | (b6 as u64) << 48 | (b7 as u64) << 56
    }) == value) by (bit_vector);
}

/// A signed number survives its trip through the unsigned field that carries it.
pub broadcast proof fn lemma_i64_round_trip(value: i64)
    ensures
        (#[trigger] (value as u64)) as i64 == value,
{
    assert((value as u64) as i64 == value) by (bit_vector);
}

/// Appends a little-endian `u32` field.
pub fn put_le_u32(bytes: &mut Vec<u8>, value: u32)
    ensures
        final(bytes)@ == old(bytes)@ + le_bytes_u32(value),
{
    bytes.push((value & 0xff) as u8);
    bytes.push(((value >> 8) & 0xff) as u8);
    bytes.push(((value >> 16) & 0xff) as u8);
    bytes.push(((value >> 24) & 0xff) as u8);
    assert(bytes@ =~= old(bytes)@ + le_bytes_u32(value));
}

/// Appends a little-endian `u64` field.
pub fn put_le_u64(bytes: &mut Vec<u8>, value: u64)
    ensures
        final(bytes)@ == old(bytes)@ + le_bytes_u64(value),
{
    bytes.push((value & 0xff) as u8);
    bytes.push(((value >> 8) & 0xff) as u8);
    bytes.push(((value >> 16) & 0xff) as u8);
    bytes.push(((value >> 24) & 0xff) as u8);
    bytes.push(((value >> 32) & 0xff) as u8);
    bytes.push(((value >> 40) & 0xff) as u8);
    bytes.push(((value >> 48) & 0xff) as u8);
    bytes.push(((value >> 56) & 0xff) as u8);
    assert(bytes@ =~= old(bytes)@ + le_bytes_u64(value));
}

/// Four bytes are the field of the number they stand for.
pub proof fn lemma_le_u32_bytes(bytes: Seq<u8>)
    requires
        bytes.len() == 4,
    ensures
        le_bytes_u32(le_value_u32(bytes)) == bytes,
{
    let b0 = bytes[0];
    let b1 = bytes[1];
    let b2 = bytes[2];
    let b3 = bytes[3];
    assert(({
        let v: u32 = (b0 as u32) | (b1 as u32) << 8 | (b2 as u32) << 16 | (b3 as u32) << 24;
        &&& (v & 0xff) as u8 == b0
        &&& ((v >> 8) & 0xff) as u8 == b1
        &&& ((v >> 16) & 0xff) as u8 == b2
        &&& ((v >> 24) & 0xff) as u8 == b3
    })) by (bit_vector);
    assert(le_bytes_u32(le_value_u32(bytes)) =~= bytes);
}

/// Eight bytes are the field of the number they stand for.
pub proof fn lemma_le_u64_bytes(bytes: Seq<u8>)
    requires
        bytes.len() == 8,
    ensures
        le_bytes_u64(le_value_u64(bytes)) == bytes,
{
    let b0 = bytes[0];
    let b1 = bytes[1];
    let b2 = bytes[2];
    let b3 = bytes[3];
    let b4 = bytes[4];
    let b5 = bytes[5];
    let b6 = bytes[6];
    let b7 = bytes[7];
    assert(({
        let v: u64 = (b0 as u64) | (b1 as u64) << 8 | (b2 as u64) << 16 | (b3 as u64) << 24 | (
        b4 as u64) << 32 | (b5 as u64) << 40 | (b6 as u64) << 48 | (b7 as u64) << 56;
        &&& (v & 0xff) as u8 == b0
        &&& ((v >> 8) & 0xff) as u8 == b1
        &&& ((v >> 16) & 0xff) as u8 == b2
        &&& ((v >> 24) & 0xff) as u8 == b3
        &&& ((v >> 32) & 0xff) as u8 == b4
        &&& ((v >> 40) & 0xff) as u8 == b5
        &&& ((v >> 48) & 0xff) as u8 == b6
        &&& ((v >> 56) & 0xff) as u8 == b7
    })) by (bit_vector);
    assert(le_bytes_u64(le_value_u64(bytes)) =~= bytes);
}

/// An unsigned number survives its trip through the signed field it carries.
pub proof fn lemma_u64_round_trip(value: u64)
    ensures
        (value as i64) as u64 == value,
{
    assert((value as i64) as u64 == value) by (bit_vector);
}

/// The little-endian `u32` field at position `at`.
pub open spec fn u32_at(bytes: Seq<u8>, at: int) -> u32 {
    le_value_u32(bytes.subrange(at, at + 4))
}

/// The little-endian `u64` field at position `at`.
pub open spec fn u64_at(bytes: Seq<u8>, at: int) -> u64 {
    le_value_u64(bytes.subrange(at, at + 8))
}

/// The little-endian `i64` field at position `at`.
pub open spec fn i64_at(bytes: Seq<u8>, at: int) -> i64 {
    u64_at(bytes, at) as i64
}

/// The field of a signed number.
pub open spec fn le_bytes_i64(value: i64) -> Seq<u8> {
    le_bytes_u64(value as u64)
}

/// A field that stands at `at` is read back, and is the bytes that stand there.
pub proof fn lemma_u32_at(bytes: Seq<u8>, at: int)
    requires
        0 <= at,
        at + 4 <= bytes.len(),
    ensures
        bytes.subrange(at, at + 4) == le_bytes_u32(u32_at(bytes, at)),
{
    lemma_le_u32_bytes(bytes.subrange(at, at + 4));
}

/// A field that stands at `at` is read back, and is the bytes that stand there.
pub proof fn lemma_u64_at(bytes: Seq<u8>, at: int)
    requires
        0 <= at,
        at + 8 <= bytes.len(),
    ensures
        bytes.subrange(at, at + 8) == le_bytes_u64(u64_at(bytes, at)),
        bytes.subrange(at, at + 8) == le_bytes_i64(i64_at(bytes, at)),
{
    lemma_le_u64_bytes(bytes.subrange(at, at + 8));
    lemma_u64_round_trip(u64_at(bytes, at));
}

/// A field written at `at` is read back.
pub proof fn lemma_u32_written(bytes: Seq<u8>, at: int, value: u32)
    requires
        0 <= at,
        at + 4 <= bytes.len(),
        bytes.subrange(at, at + 4) =~= le_bytes_u32(value),
    ensures
        u32_at(bytes, at) == value,
{
    lemma_le_u32_round_trip(value);
}

/// A field written at `at` is read back.
pub proof fn lemma_u64_written(bytes: Seq<u8>, at: int, value: u64)
    requires
        0 <= at,
        at + 8 <= bytes.len(),
        bytes.subrange(at, at + 8) =~= le_bytes_u64(value),
    ensures
        u64_at(bytes, at) == value,
{
    lemma_le_u64_round_trip(value);
}

/// A signed field written at `at` is read back.
pub proof fn lemma_i64_written(bytes: Seq<u8>, at: int, value: i64)
    requires
        0 <= at,
        at + 8 <= bytes.len(),
        bytes.subrange(at, at + 8) =~= le_bytes_i64(value),
    ensures
        i64_at(bytes, at) == value,
{
    lemma_le_u64_round_trip(value as u64);
    lemma_i64_round_trip(value);
}

/// Reads a little-endian `u32` field.
pub fn get_le_u32(bytes: &[u8], at: usize) -> (r: u32)
    requires
        at + 4 <= bytes@.len(),
    ensures
        r == u32_at(bytes@, at as int),
{
    (bytes[at] as u32) | (bytes[at + 1] as u32) << 8 | (bytes[at + 2] as u32) << 16 | (
    bytes[at + 3] as u32) << 24
}

/// Reads a little-endian `u64` field.
pub fn get_le_u64(bytes: &[u8], at: usize) -> (r: u64)
    requires
        at + 8 <= bytes@.len(),
    ensures
        r == u64_at(bytes@, at as int),
{
    (bytes[at] as u64) | (bytes[at + 1] as u64) << 8 | (bytes[at + 2] as u64) << 16 | (
    bytes[at + 3] as u64) << 24 | (bytes[at + 4] as u64) << 32 | (bytes[at + 5] as u64) << 40 | (
    bytes[at + 6] as u64) << 48 | (bytes[at + 7] as u64) << 56
}

/// Reads a little-endian `i64` field.
pub fn get_le_i64(bytes: &[u8], at: usize) -> (r: i64)
    requires
        at + 8 <= bytes@.len(),
    ensures
        r == i64_at(bytes@, at as int),
{
    get_le_u64(bytes, at) as i64
}

/// Appends a little-endian `i64` field.
pub fn put_le_i64(bytes: &mut Vec<u8>, value: i64)
    ensures
        final(bytes)@ == old(bytes)@ + le_bytes_i64(value),
{
    put_le_u64(bytes, value as u64);
}

/// A part of a piece that stands at `at` stands where its offset says.
pub proof fn lemma_part(bytes: Seq<u8>, at: int, piece: Seq<u8>, from: int, to: int)
    requires
        0 <= at,
        at + piece.len() <= bytes.len(),
        bytes.subrange(at, at + piece.len()) == piece,
        0 <= from <= to <= piece.len(),
    ensures
        bytes.subrange(at + from, at + to) == piece.subrange(from, to),
{
    assert(bytes.subrange(at + from, at + to) =~= bytes.subrange(at, at + piece.len()).subrange(
        from,
        to,
    ));
}

/// The big-endian `u32` field at `at`.
pub open spec fn be_u32_at(bytes: Seq<u8>, at: int) -> u32 {
    le_value_u32(bytes.subrange(at, at + 4).reverse())
}

/// The big-endian `u64` field at `at`.
pub open spec fn be_u64_at(bytes: Seq<u8>, at: int) -> u64 {
    le_value_u64(bytes.subrange(at, at + 8).reverse())
}

/// A big-endian field written at `at` is read back.
pub proof fn lemma_be_u32_written(bytes: Seq<u8>, at: int, value: u32)
    requires
        0 <= at,
        at + 4 <= bytes.len(),
        bytes.subrange(at, at + 4) =~= be_bytes_u32(value),
    ensures
        be_u32_at(bytes, at) == value,
{
    lemma_le_u32_round_trip(value);
    assert(be_bytes_u32(value).reverse() =~= le_bytes_u32(value));
}

/// A big-endian field written at `at` is read back.
pub proof fn lemma_be_u64_written(bytes: Seq<u8>, at: int, value: u64)
    requires
        0 <= at,
        at + 8 <= bytes.len(),
        bytes.subrange(at, at + 8) =~= be_bytes_u64(value),
    ensures
        be_u64_at(bytes, at) == value,
{
    lemma_le_u64_round_trip(value);
    assert(be_bytes_u64(value).reverse() =~= le_bytes_u64(value));
}

/// Appends a big-endian `u32` field.
pub fn put_be_u32(bytes: &mut Vec<u8>, value: u32)
    ensures
        final(bytes)@ == old(bytes)@ + be_bytes_u32(value),
{
    bytes.push(((value >> 24) & 0xff) as u8);
    bytes.push(((value >> 16) & 0xff) as u8);
    bytes.push(((value >> 8) & 0xff) as u8);
    bytes.push((value & 0xff) as u8);
    assert(bytes@ =~= old(bytes)@ + be_bytes_u32(value));
}

/// Appends a big-endian `u64` field.
pub fn put_be_u64(bytes: &mut Vec<u8>, value: u64)
    ensures
        final(bytes)@ == old(bytes)@ + be_bytes_u64(value),
{
    bytes.push(((value >> 56) & 0xff) as u8);
    bytes.push(((value >> 48) & 0xff) as u8);
    bytes.push(((value >> 40) & 0xff) as u8);
    bytes.push(((value >> 32) & 0xff) as u8);
    bytes.push(((value >> 24) & 0xff) as u8);
    bytes.push(((value >> 16) & 0xff) as u8);
    bytes.push(((value >> 8) & 0xff) as u8);
    bytes.push((value & 0xff) as u8);
    assert(bytes@ =~= old(bytes)@ + be_bytes_u64(value));
}

/// Reads a big-endian `u32` field.
pub fn get_be_u32(bytes: &[u8], at: usize) -> (r: u32)
    requires
        at + 4 <= bytes@.len(),
    ensures
        r == be_u32_at(bytes@, at as int),
{
    assert(at + 4 <= bytes.len());
    (bytes[at + 3] as u32) | (bytes[at + 2] as u32) << 8 | (bytes[at + 1] as u32) << 16 | (
    bytes[at] as u32) << 24
}

/// Reads a big-endian `u64` field.
pub fn get_be_u64(bytes: &[u8], at: usize) -> (r: u64)
    requires
        at + 8 <= bytes@.len(),
    ensures
        r == be_u64_at(bytes@, at as int),
{
    assert(at + 8 <= bytes.len());
    (bytes[at + 7] as u64) | (bytes[at + 6] as u64) << 8 | (bytes[at + 5] as u64) << 16 | (
    bytes[at + 4] as u64) << 24 | (bytes[at + 3] as u64) << 32 | (bytes[at + 2] as u64) << 40 | (
    bytes[at + 1] as u64) << 48 | (bytes[at] as u64) << 56
}

} // verus!
