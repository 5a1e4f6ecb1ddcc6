//! Physical or virtual addresses of the target.

use crate::dataview::{
    byte_range, le_bytes, le_value, lemma_le_round_trip, swap_u64, swapped_value, ByteSwap, Pod,
};
use vstd::std_specs::ops::{AddSpecImpl, SubSpecImpl};
use vstd::prelude::*;

verus! {

/// Two to the power of 64: addresses live in the integers modulo this.
pub open spec fn address_space() -> int {
    0x1_0000_0000_0000_0000
}

/// An address in the target's memory. Zero is the null address.
#[derive(Clone, Copy, Debug, PartialEq, Eq, Structural, PartialOrd, Ord, Hash)]
pub struct Address(pub u64);

impl View for Address {
    type V = int;

    open spec fn view(&self) -> int {
        self.0 as int
    }
}

impl Address {
    /// The null address.
    pub fn null() -> (a: Address)
        ensures
            a@ == 0,
    {
        Address(0)
    }

    /// Whether this is the null address.
    pub fn is_null(self) -> (b: bool)
        ensures
            b <==> self@ == 0,
    {
        self.0 == 0
    }

    /// The address as a 64-bit integer.
    pub fn as_u64(self) -> (v: u64)
        ensures
            v == self@,
    {
        self.0
    }

    /// The address `len` bytes further on, wrapping at the end of the
    /// 64-bit address space.
    pub fn wrapping_add(self, len: u64) -> (a: Address)
        ensures
            a@ == (self@ + len) % address_space(),
    {
        Address(self.0.wrapping_add(len))
    }

    /// The address `len` bytes back, wrapping below zero.
    pub fn wrapping_sub(self, len: u64) -> (a: Address)
        ensures
            a@ == (self@ - len) % address_space(),
    {
        Address(self.0.wrapping_sub(len))
    }

    /// The address `len` bytes further on, or nothing if that leaves the
    /// 64-bit address space.
    pub fn checked_add(self, len: u64) -> (a: Option<Address>)
        ensures
            self@ + len < address_space() ==> a == Some(Address((self@ + len) as u64)),
            self@ + len >= address_space() ==> a.is_none(),
    {
        match self.0.checked_add(len) {
            Some(v) => Some(Address(v)),
            None => None,
        }
    }
}

/// `a + len` is the address `len` bytes further on, wrapping at the end of
/// the 64-bit address space.
impl core::ops::Add<usize> for Address {
    type Output = Address;

    fn add(self, len: usize) -> (a: Address) {
        Address(self.0.wrapping_add(len as u64))
    }
}

impl AddSpecImpl<usize> for Address {
    open spec fn obeys_add_spec() -> bool {
        true
    }

    open spec fn add_req(self, len: usize) -> bool {
        true
    }

    open spec fn add_spec(self, len: usize) -> Address {
        Address(((self@ + len) % address_space()) as u64)
    }
}

/// `a - len` is the address `len` bytes back, wrapping below zero.
impl core::ops::Sub<usize> for Address {
    type Output = Address;

    fn sub(self, len: usize) -> (a: Address) {
        Address(self.0.wrapping_sub(len as u64))
    }
}

impl SubSpecImpl<usize> for Address {
    open spec fn obeys_sub_spec() -> bool {
        true
    }

    open spec fn sub_req(self, len: usize) -> bool {
        true
    }

    open spec fn sub_spec(self, len: usize) -> Address {
        Address(((self@ - len) % address_space()) as u64)
    }
}

impl ByteSwap for Address {
    open spec fn swapped(&self) -> Address {
        Address(swapped_value(self@, 8) as u64)
    }

    fn byte_swap(&mut self) {
        self.0 = swap_u64(self.0);
    }
}

/// An address lies in the target's memory as eight bytes.
impl Pod for Address {
    open spec fn spec_size() -> nat {
        8
    }

    open spec fn decode(bytes: Seq<u8>) -> Address {
        Address(le_value(bytes) as u64)
    }

    open spec fn encode(&self) -> Seq<u8> {
        le_bytes(self.0 as int, 8)
    }

    proof fn lemma_round_trip(&self) {
        reveal_with_fuel(byte_range, 9);
        lemma_le_round_trip(self.0 as int, 8);
    }

    fn size() -> (n: usize) {
        8
    }

    fn from_bytes(bytes: &Vec<u8>) -> (v: Address) {
        Address(u64::from_bytes(bytes))
    }

    fn to_bytes(&self) -> (bytes: Vec<u8>) {
        self.0.to_bytes()
    }
}

} // verus!
