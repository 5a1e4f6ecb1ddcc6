//! Plain data: values that are read from and written to the target as a
//! fixed number of bytes, least significant byte first.

use byteorder::{ByteOrder, LittleEndian};
use vstd::prelude::*;

verus! {

/// The number that `bytes` spell, least significant byte first.
pub open spec fn le_value(bytes: Seq<u8>) -> int
    decreases bytes.len(),
{
    if bytes.len() == 0 {
        0
    } else {
        bytes[0] as int + 256 * le_value(bytes.drop_first())
    }
}

/// The `n` bytes that spell `v`, least significant byte first.
pub open spec fn le_bytes(v: int, n: nat) -> Seq<u8>
    decreases n,
{
    if n == 0 {
        Seq::empty()
    } else {
        seq![(v % 256) as u8] + le_bytes(v / 256, (n - 1) as nat)
    }
}

/// Two to the power of eight times `n`.
pub open spec fn byte_range(n: nat) -> int
    decreases n,
{
    if n == 0 {
        1
    } else {
        256 * byte_range((n - 1) as nat)
    }
}

/// The bytes of a number spell that number again, and there are as many of
/// them as were asked for.
pub proof fn lemma_le_round_trip(v: int, n: nat)
    requires
        0 <= v < byte_range(n),
    ensures
        le_bytes(v, n).len() == n,
        le_value(le_bytes(v, n)) == v,
    decreases n,
{
    if n > 0 {
        lemma_le_round_trip(v / 256, (n - 1) as nat);
        let bytes = le_bytes(v, n);
        assert(bytes.drop_first() =~= le_bytes(v / 256, (n - 1) as nat));
        assert(bytes[0] == (v % 256) as u8);
    }
}

/// A number spelled by `n` bytes is below two to the power of eight times
/// `n`, and its bytes are those that spell it.
pub proof fn lemma_le_value_bytes(bytes: Seq<u8>)
    ensures
        0 <= le_value(bytes) < byte_range(bytes.len()),
        le_bytes(le_value(bytes), bytes.len()) == bytes,
    decreases bytes.len(),
{
    if bytes.len() > 0 {
        let rest = bytes.drop_first();
        lemma_le_value_bytes(rest);
        let v = le_value(bytes);
        assert(v % 256 == bytes[0] as int && v / 256 == le_value(rest)) by {
            assert(v == bytes[0] as int + 256 * le_value(rest));
        }
        assert(le_bytes(v, bytes.len()) =~= bytes);
    } else {
        assert(le_bytes(0, 0) =~= bytes);
    }
}

/// Reads the first two bytes of `buf` as a little-endian number.
///
/// Wraps `byteorder::LittleEndian::read_u16`, which returns
/// `u16::from_le_bytes` of the first two bytes and panics on a shorter
/// buffer.
#[verifier::external_body]
pub(crate) fn read_u16_le(buf: &[u8]) -> (v: u16)
    requires
        buf@.len() >= 2,
    ensures
        v == le_value(buf@.subrange(0, 2)),
{
    LittleEndian::read_u16(buf)
}

/// Reads the first four bytes of `buf` as a little-endian number.
///
/// Wraps `byteorder::LittleEndian::read_u32`, which returns
/// `u32::from_le_bytes` of the first four bytes and panics on a shorter
/// buffer.
#[verifier::external_body]
pub(crate) fn read_u32_le(buf: &[u8]) -> (v: u32)
    requires
        buf@.len() >= 4,
    ensures
        v == le_value(buf@.subrange(0, 4)),
{
    LittleEndian::read_u32(buf)
}

/// Reads the first eight bytes of `buf` as a little-endian number.
///
/// Wraps `byteorder::LittleEndian::read_u64`, which returns
/// `u64::from_le_bytes` of the first eight bytes and panics on a shorter
/// buffer.
#[verifier::external_body]
pub(crate) fn read_u64_le(buf: &[u8]) -> (v: u64)
    requires
        buf@.len() >= 8,
    ensures
        v == le_value(buf@.subrange(0, 8)),
{
    LittleEndian::read_u64(buf)
}

/// Stores `n` in the first four bytes of `buf`, least significant byte
/// first.
///
/// Wraps `byteorder::LittleEndian::write_u32`, which copies
/// `n.to_le_bytes()` over the first four bytes, leaves the others as they
/// are, and panics on a shorter buffer.
#[verifier::external_body]
pub(crate) fn write_u32_le(buf: &mut Vec<u8>, n: u32)
    requires
        old(buf)@.len() >= 4,
    ensures
        final(buf)@ == le_bytes(n as int, 4) + old(buf)@.subrange(4, old(buf)@.len() as int),
{
    LittleEndian::write_u32(buf, n)
}

/// Stores `n` in the first eight bytes of `buf`, least significant byte
/// first.
///
/// Wraps `byteorder::LittleEndian::write_u64`, which copies
/// `n.to_le_bytes()` over the first eight bytes, leaves the others as they
/// are, and panics on a shorter buffer.
#[verifier::external_body]
pub(crate) fn write_u64_le(buf: &mut Vec<u8>, n: u64)
    requires
        old(buf)@.len() >= 8,
    ensures
        final(buf)@ == le_bytes(n as int, 8) + old(buf)@.subrange(8, old(buf)@.len() as int),
{
    LittleEndian::write_u64(buf, n)
}

/// A value with a fixed size in the target's memory, which is not zero, and
/// a fixed way of being spelled there.
pub trait Pod: Sized {
    /// How many bytes spell a value.
    spec fn spec_size() -> nat;

    /// The value that `bytes` spell.
    spec fn decode(bytes: Seq<u8>) -> Self;

    /// The bytes that spell the value.
    spec fn encode(&self) -> Seq<u8>;

    /// A value is spelled by `spec_size` bytes, and they spell it again.
    proof fn lemma_round_trip(&self)
        ensures
            self.encode().len() == Self::spec_size(),
            Self::decode(self.encode()) == *self,
    ;

    /// How many bytes spell a value.
    fn size() -> (n: usize)
        ensures
            n == Self::spec_size(),
            n > 0,
    ;

    /// The value that `bytes` spell.
    fn from_bytes(bytes: &Vec<u8>) -> (v: Self)
        requires
            bytes@.len() == Self::spec_size(),
        ensures
            v == Self::decode(bytes@),
    ;

    /// The bytes that spell the value.
    fn to_bytes(&self) -> (bytes: Vec<u8>)
        ensures
            bytes@ == self.encode(),
            bytes@.len() == Self::spec_size(),
    ;
}

impl Pod for u8 {
    open spec fn spec_size() -> nat {
        1
    }

    open spec fn decode(bytes: Seq<u8>) -> u8 {
        bytes[0]
    }

    open spec fn encode(&self) -> Seq<u8> {
        seq![*self]
    }

    proof fn lemma_round_trip(&self) {
    }

    fn size() -> (n: usize) {
        1
    }

    fn from_bytes(bytes: &Vec<u8>) -> (v: u8) {
        bytes[0]
    }

    fn to_bytes(&self) -> (bytes: Vec<u8>) {
        let mut bytes: Vec<u8> = Vec::new();
        bytes.push(*self);
        assert(bytes@ =~= seq![*self]);
        bytes
    }
}

impl Pod for u32 {
    open spec fn spec_size() -> nat {
        4
    }

    open spec fn decode(bytes: Seq<u8>) -> u32 {
        le_value(bytes) as u32
    }

    open spec fn encode(&self) -> Seq<u8> {
        le_bytes(*self as int, 4)
    }

    proof fn lemma_round_trip(&self) {
        reveal_with_fuel(byte_range, 5);
        lemma_le_round_trip(*self as int, 4);
    }

    fn size() -> (n: usize) {
        4
    }

    fn from_bytes(bytes: &Vec<u8>) -> (v: u32) {
        assert(bytes@.subrange(0, 4) =~= bytes@);
        read_u32_le(bytes.as_slice())
    }

    fn to_bytes(&self) -> (bytes: Vec<u8>) {
        let mut bytes: Vec<u8> = vec![0u8; 4];
        write_u32_le(&mut bytes, *self);
        proof {
            reveal_with_fuel(byte_range, 5);
            lemma_le_round_trip(*self as int, 4);
            assert(bytes@ =~= le_bytes(*self as int, 4));
        }
        bytes
    }
}

impl Pod for u64 {
    open spec fn spec_size() -> nat {
        8
    }

    open spec fn decode(bytes: Seq<u8>) -> u64 {
        le_value(bytes) as u64
    }

    open spec fn encode(&self) -> Seq<u8> {
        le_bytes(*self as int, 8)
    }

    proof fn lemma_round_trip(&self) {
        reveal_with_fuel(byte_range, 9);
        lemma_le_round_trip(*self as int, 8);
    }

    fn size() -> (n: usize) {
        8
    }

    fn from_bytes(bytes: &Vec<u8>) -> (v: u64) {
        assert(bytes@.subrange(0, 8) =~= bytes@);
        read_u64_le(bytes.as_slice())
    }

    fn to_bytes(&self) -> (bytes: Vec<u8>) {
        let mut bytes: Vec<u8> = vec![0u8; 8];
        write_u64_le(&mut bytes, *self);
        proof {
            reveal_with_fuel(byte_range, 9);
            lemma_le_round_trip(*self as int, 8);
            assert(bytes@ =~= le_bytes(*self as int, 8));
        }
        bytes
    }
}

/// A value whose bytes can be put in the opposite order, for targets that
/// store numbers most significant byte first.
pub trait ByteSwap: Sized {
    /// The value with its bytes in the opposite order.
    spec fn swapped(&self) -> Self;

    /// Puts the bytes of the value in the opposite order.
    fn byte_swap(&mut self)
        ensures
            *final(self) == old(self).swapped(),
    ;
}

/// `bytes` in the opposite order.
fn reversed(bytes: &Vec<u8>) -> (out: Vec<u8>)
    ensures
        out@ == bytes@.reverse(),
{
    let mut out: Vec<u8> = Vec::new();
    let n = bytes.len();
    let mut i: usize = 0;
    while i < n
        invariant
            i <= n,
            n == bytes@.len(),
            out@.len() == i,
            forall|j: int| 0 <= j < i ==> out@[j] == bytes@[n - 1 - j],
        decreases n - i,
    {
        out.push(bytes[n - 1 - i]);
        i += 1;
    }
    assert(out@ =~= bytes@.reverse());
    out
}

/// The number spelled by the `n` bytes of `v` in the opposite order.
pub open spec fn swapped_value(v: int, n: nat) -> int {
    le_value(le_bytes(v, n).reverse())
}

/// `v` with its four bytes in the opposite order.
pub fn swap_u32(v: u32) -> (r: u32)
    ensures
        r == swapped_value(v as int, 4),
{
    let bytes = reversed(&v.to_bytes());
    proof {
        reveal_with_fuel(byte_range, 5);
        lemma_le_value_bytes(bytes@);
    }
    u32::from_bytes(&bytes)
}

/// `v` with its eight bytes in the opposite order.
pub fn swap_u64(v: u64) -> (r: u64)
    ensures
        r == swapped_value(v as int, 8),
{
    let bytes = reversed(&v.to_bytes());
    proof {
        reveal_with_fuel(byte_range, 9);
        lemma_le_value_bytes(bytes@);
    }
    u64::from_bytes(&bytes)
}

impl ByteSwap for u32 {
    open spec fn swapped(&self) -> u32 {
        swapped_value(*self as int, 4) as u32
    }

    fn byte_swap(&mut self) {
        *self = swap_u32(*self);
    }
}

impl ByteSwap for u64 {
    open spec fn swapped(&self) -> u64 {
        swapped_value(*self as int, 8) as u64
    }

    fn byte_swap(&mut self) {
        *self = swap_u64(*self);
    }
}

} // verus!
