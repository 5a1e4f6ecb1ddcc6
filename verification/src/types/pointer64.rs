//! 64-bit pointers into the target, tagged with the type they point to.
//!
//! Pointer arithmetic wraps: every sum and difference is taken modulo two to
//! the power of 64, so no operation here can fail or overflow.

use crate::dataview::{
    byte_range, le_bytes, le_value, lemma_le_round_trip, swap_u64, swapped_value, ByteSwap, Pod,
};
use crate::error::{Error, PartialResult};
use crate::mem::phys::PhysicalMemory;
use crate::plugins::text::{format_hex, is_plain_hex, parse_unsigned};
use crate::error::PartialError;
use crate::mem::virt_mem::{
    typed_read_outcome, virt_read, virt_read_outcome, virt_read_prefix, VirtualFromPhysical,
};
use crate::mem::virt_translate::VirtualTranslate;
use crate::types::address::{address_space, Address};
use core::marker::PhantomData;
use vstd::prelude::*;
use vstd::std_specs::cmp::{PartialEqSpecImpl, PartialOrdSpecImpl};
use core::cmp::Ordering;
use vstd::std_specs::convert::{FromSpecImpl, TryFromSpecImpl};
use vstd::std_specs::ops::{AddSpecImpl, SubSpecImpl};

verus! {

/// A 64-bit address in the target together with the type of what lies there.
///
/// The tag takes no storage. Equality and ordering look at the address
/// alone; only pointer arithmetic depends on the tag, through the size of
/// the element type.
#[derive(Debug, Ord)]
pub struct Pointer64<T: ?Sized = ()> {
    pub address: u64,
    phantom_data: PhantomData<T>,
}

/// A pointer is viewed as the address it holds.
impl<T: ?Sized> View for Pointer64<T> {
    type V = int;

    closed spec fn view(&self) -> int {
        self.address as int
    }
}

/// The address `count` elements of `size` bytes after `address`, modulo two
/// to the power of 64.
pub open spec fn spec_offset(address: int, count: int, size: int) -> int {
    (address + count * size) % address_space()
}

impl<T: ?Sized> Pointer64<T> {
    /// The null pointer.
    pub fn null() -> (p: Self)
        ensures
            p@ == 0,
    {
        Pointer64 { address: 0, phantom_data: PhantomData }
    }

    /// Whether the pointer is null.
    pub fn is_null(self) -> (b: bool)
        ensures
            b <==> self@ == 0,
    {
        self.address == 0
    }

    /// The pointer itself unless it is null.
    pub fn non_null(self) -> (p: Option<Pointer64<T>>)
        ensures
            self@ == 0 ==> p.is_none(),
            self@ != 0 ==> p == Some(self),
    {
        if self.is_null() {
            None
        } else {
            Some(self)
        }
    }

    /// The low 32 bits of the address.
    pub fn as_u32(self) -> (v: u32)
        ensures
            v == self@ % 0x1_0000_0000,
    {
        let low: u64 = self.address % 0x1_0000_0000;
        low as u32
    }

    /// The address.
    pub fn as_u64(self) -> (v: u64)
        ensures
            v == self@,
    {
        self.address
    }

    /// The address, truncated to the low bits that fit `usize`.
    pub fn as_usize(self) -> (v: usize)
        ensures
            v == self@ as usize,
            self@ <= usize::MAX ==> v == self@,
    {
        let v: usize = #[verifier::truncate] (self.address as usize);
        v
    }

    /// The address in base 16, with lower-case digits and without leading
    /// zeros.
    pub fn to_hex_string(self) -> (s: String)
        ensures
            is_plain_hex(s@),
            parse_unsigned(s@, 16, u64::MAX as int) == Some(self@),
    {
        format_hex(self.address)
    }

    /// The address.
    pub fn into_raw(self) -> (v: u64)
        ensures
            v == self@,
    {
        self.address
    }
}

impl<T> Pointer64<[T]> {
    /// The pointer to the first element of the array.
    pub fn decay(self) -> (p: Pointer64<T>)
        ensures
            p@ == self@,
    {
        Pointer64 { address: self.address, phantom_data: PhantomData }
    }

    /// The pointer to element `i` of the array, wrapping modulo two to the
    /// power of 64.
    pub fn at(self, i: usize) -> (p: Pointer64<T>)
        ensures
            p@ == spec_offset(self@, i as int, vstd::layout::size_of::<T>() as int),
    {
        let size: usize = core::mem::size_of::<T>();
        let step: u64 = (i as u64).wrapping_mul(size as u64);
        let address: u64 = self.address.wrapping_add(step);
        proof {
            lemma_wrapping_offset(self.address, i as u64, size as u64);
        }
        Pointer64 { address, phantom_data: PhantomData }
    }
}

/// Where it does not leave the address space, the pointer to element
/// `count` of an array at `address` holds `address + count * size`.
pub proof fn lemma_offset_exact(address: int, count: int, size: int)
    requires
        0 <= address,
        0 <= count,
        0 <= size,
        address + count * size < address_space(),
    ensures
        spec_offset(address, count, size) == address + count * size,
{
    vstd::arithmetic::mul::lemma_mul_nonnegative(count, size);
    vstd::arithmetic::div_mod::lemma_small_mod((address + count * size) as nat, address_space() as nat);
}

/// Wrapping multiplication followed by wrapping addition computes the
/// offset modulo two to the power of 64.
pub proof fn lemma_wrapping_offset(address: u64, count: u64, size: u64)
    ensures
        address.wrapping_add(count.wrapping_mul(size)) == spec_offset(
            address as int,
            count as int,
            size as int,
        ),
{
    let m = address_space();
    let prod = count as int * size as int;
    assert(count.wrapping_mul(size) as int == prod % m) by {
        vstd::arithmetic::mul::lemma_mul_nonnegative(count as int, size as int);
    }
    vstd::arithmetic::div_mod::lemma_add_mod_noop_right(address as int, prod, m);
    vstd::arithmetic::mul::lemma_mul_nonnegative(count as int, size as int);
}

impl<T: ?Sized> Copy for Pointer64<T> {

}

impl<T: ?Sized> Clone for Pointer64<T> {
    fn clone(&self) -> (p: Pointer64<T>)
        ensures
            p == *self,
    {
        *self
    }
}

impl<T: ?Sized> Default for Pointer64<T> {
    fn default() -> (p: Pointer64<T>)
        ensures
            p@ == 0,
    {
        Pointer64 { address: 0, phantom_data: PhantomData }
    }
}

impl<T: ?Sized> PartialEq for Pointer64<T> {
    fn eq(&self, rhs: &Pointer64<T>) -> (b: bool) {
        self.address == rhs.address
    }
}

impl<T: ?Sized> PartialEqSpecImpl for Pointer64<T> {
    open spec fn obeys_eq_spec() -> bool {
        true
    }

    open spec fn eq_spec(&self, rhs: &Pointer64<T>) -> bool {
        self@ == rhs@
    }
}

impl<T: ?Sized> Eq for Pointer64<T> {

}

impl<T: ?Sized> PartialOrd for Pointer64<T> {
    fn partial_cmp(&self, rhs: &Pointer64<T>) -> (o: Option<Ordering>) {
        if self.address < rhs.address {
            Some(Ordering::Less)
        } else if self.address == rhs.address {
            Some(Ordering::Equal)
        } else {
            Some(Ordering::Greater)
        }
    }
}

impl<T: ?Sized> PartialOrdSpecImpl for Pointer64<T> {
    open spec fn obeys_partial_cmp_spec() -> bool {
        true
    }

    open spec fn partial_cmp_spec(&self, rhs: &Pointer64<T>) -> Option<Ordering> {
        if self@ < rhs@ {
            Some(Ordering::Less)
        } else if self@ == rhs@ {
            Some(Ordering::Equal)
        } else {
            Some(Ordering::Greater)
        }
    }
}

impl<T: ?Sized> From<u32> for Pointer64<T> {
    fn from(address: u32) -> (p: Pointer64<T>) {
        Pointer64 { address: address as u64, phantom_data: PhantomData }
    }
}

impl<T: ?Sized> FromSpecImpl<u32> for Pointer64<T> {
    open spec fn obeys_from_spec() -> bool {
        true
    }

    open spec fn from_spec(address: u32) -> Pointer64<T> {
        Pointer64::<T>::spec_new(address as int)
    }
}

impl<T: ?Sized> From<u64> for Pointer64<T> {
    fn from(address: u64) -> (p: Pointer64<T>) {
        Pointer64 { address, phantom_data: PhantomData }
    }
}

impl<T: ?Sized> FromSpecImpl<u64> for Pointer64<T> {
    open spec fn obeys_from_spec() -> bool {
        true
    }

    open spec fn from_spec(address: u64) -> Pointer64<T> {
        Pointer64::<T>::spec_new(address as int)
    }
}

impl<T: ?Sized> From<Address> for Pointer64<T> {
    fn from(address: Address) -> (p: Pointer64<T>) {
        Pointer64 { address: address.as_u64(), phantom_data: PhantomData }
    }
}

impl<T: ?Sized> FromSpecImpl<Address> for Pointer64<T> {
    open spec fn obeys_from_spec() -> bool {
        true
    }

    open spec fn from_spec(address: Address) -> Pointer64<T> {
        Pointer64::<T>::spec_new(address@)
    }
}

impl<T: ?Sized> From<Pointer64<T>> for Address {
    fn from(ptr: Pointer64<T>) -> (a: Address) {
        Address(ptr.address)
    }
}

impl<T: ?Sized> FromSpecImpl<Pointer64<T>> for Address {
    open spec fn obeys_from_spec() -> bool {
        true
    }

    open spec fn from_spec(ptr: Pointer64<T>) -> Address {
        Address(ptr@ as u64)
    }
}

impl<T: ?Sized> From<Pointer64<T>> for u64 {
    fn from(ptr: Pointer64<T>) -> (v: u64) {
        ptr.address
    }
}

impl<T: ?Sized> FromSpecImpl<Pointer64<T>> for u64 {
    open spec fn obeys_from_spec() -> bool {
        true
    }

    open spec fn from_spec(ptr: Pointer64<T>) -> u64 {
        ptr@ as u64
    }
}

/// The conversion succeeds exactly when the address fits 32 bits.
impl<T: ?Sized> TryFrom<Pointer64<T>> for u32 {
    type Error = Error;

    fn try_from(ptr: Pointer64<T>) -> (r: Result<u32, Error>) {
        if ptr.address <= 0xffff_ffff {
            Ok(ptr.address as u32)
        } else {
            Err(Error::Bounds)
        }
    }
}

impl<T: ?Sized> TryFromSpecImpl<Pointer64<T>> for u32 {
    open spec fn obeys_try_from_spec() -> bool {
        true
    }

    open spec fn try_from_spec(ptr: Pointer64<T>) -> Result<u32, Error> {
        if ptr@ <= 0xffff_ffff {
            Ok(ptr@ as u32)
        } else {
            Err(Error::Bounds)
        }
    }
}

/// `p + n` is the pointer `n` elements further on, wrapping modulo two to
/// the power of 64.
impl<T> core::ops::Add<usize> for Pointer64<T> {
    type Output = Pointer64<T>;

    fn add(self, other: usize) -> (p: Pointer64<T>) {
        let size: usize = core::mem::size_of::<T>();
        let step: u64 = (other as u64).wrapping_mul(size as u64);
        let address: u64 = self.address.wrapping_add(step);
        proof {
            lemma_wrapping_offset(self.address, other as u64, size as u64);
        }
        Pointer64 { address, phantom_data: PhantomData }
    }
}

impl<T> AddSpecImpl<usize> for Pointer64<T> {
    open spec fn obeys_add_spec() -> bool {
        true
    }

    open spec fn add_req(self, other: usize) -> bool {
        true
    }

    open spec fn add_spec(self, other: usize) -> Pointer64<T> {
        Pointer64::<T>::spec_new(
            spec_offset(self@, other as int, vstd::layout::size_of::<T>() as int),
        )
    }
}

/// `p - n` is the pointer `n` elements back, wrapping modulo two to the
/// power of 64.
impl<T> core::ops::Sub<usize> for Pointer64<T> {
    type Output = Pointer64<T>;

    fn sub(self, other: usize) -> (p: Pointer64<T>) {
        let size: usize = core::mem::size_of::<T>();
        let step: u64 = (other as u64).wrapping_mul(size as u64);
        let address: u64 = self.address.wrapping_sub(step);
        proof {
            lemma_wrapping_offset_back(self.address, other as u64, size as u64);
        }
        Pointer64 { address, phantom_data: PhantomData }
    }
}

impl<T> SubSpecImpl<usize> for Pointer64<T> {
    open spec fn obeys_sub_spec() -> bool {
        true
    }

    open spec fn sub_req(self, other: usize) -> bool {
        true
    }

    open spec fn sub_spec(self, other: usize) -> Pointer64<T> {
        Pointer64::<T>::spec_new(
            spec_offset(self@, -(other as int), vstd::layout::size_of::<T>() as int),
        )
    }
}

/// Wrapping multiplication followed by wrapping subtraction computes the
/// offset by a negated count modulo two to the power of 64.
pub proof fn lemma_wrapping_offset_back(address: u64, count: u64, size: u64)
    ensures
        address.wrapping_sub(count.wrapping_mul(size)) == spec_offset(
            address as int,
            -(count as int),
            size as int,
        ),
{
    let m = address_space();
    let prod = count as int * size as int;
    vstd::arithmetic::mul::lemma_mul_nonnegative(count as int, size as int);
    assert(count.wrapping_mul(size) as int == prod % m);
    assert((-(count as int)) * (size as int) == -prod) by (nonlinear_arith)
        requires
            prod == count as int * size as int,
    ;
    vstd::arithmetic::div_mod::lemma_sub_mod_noop_right(address as int, prod, m);
}

impl<T: ?Sized> Pointer64<T> {
    /// The pointer that holds `address`.
    pub closed spec fn spec_new(address: int) -> Pointer64<T> {
        Pointer64 { address: address as u64, phantom_data: PhantomData }
    }

    /// `spec_new` builds the pointer whose view is the given address, and a
    /// pointer is determined by its view.
    pub broadcast proof fn lemma_spec_new(address: int)
        requires
            0 <= address < address_space(),
        ensures
            (#[trigger] Self::spec_new(address))@ == address,
    {
    }

    /// A pointer made from an address is null exactly when the address is
    /// zero.
    pub proof fn lemma_null_iff_zero(address: u64)
        ensures
            Self::spec_new(address as int)@ == 0 <==> address == 0,
    {
    }

    /// Two pointers of one type with the same address are the same value.
    pub proof fn lemma_view_injective(self, other: Pointer64<T>)
        requires
            self@ == other@,
        ensures
            self == other,
    {
    }
}

/// A pointer lies in the target's memory as the eight bytes of its address.
impl<T: ?Sized> Pod for Pointer64<T> {
    open spec fn spec_size() -> nat {
        8
    }

    open spec fn decode(bytes: Seq<u8>) -> Pointer64<T> {
        Pointer64::<T>::spec_new(le_value(bytes) as u64 as int)
    }

    closed spec fn encode(&self) -> Seq<u8> {
        le_bytes(self.address as int, 8)
    }

    proof fn lemma_round_trip(&self) {
        reveal_with_fuel(byte_range, 9);
        lemma_le_round_trip(self.address as int, 8);
    }

    fn size() -> (n: usize) {
        8
    }

    fn from_bytes(bytes: &Vec<u8>) -> (v: Pointer64<T>) {
        Pointer64 { address: u64::from_bytes(bytes), phantom_data: PhantomData }
    }

    fn to_bytes(&self) -> (bytes: Vec<u8>) {
        self.address.to_bytes()
    }
}

impl<T: ?Sized> ByteSwap for Pointer64<T> {
    open spec fn swapped(&self) -> Pointer64<T> {
        Pointer64::<T>::spec_new(swapped_value(self@, 8) as u64 as int)
    }

    fn byte_swap(&mut self) {
        self.address = swap_u64(self.address);
    }
}

impl<T: ?Sized> AsRef<u64> for Pointer64<T> {
    fn as_ref(&self) -> (r: &u64)
        ensures
            *r == self@,
    {
        &self.address
    }
}

impl<T: ?Sized> AsMut<u64> for Pointer64<T> {
    fn as_mut(&mut self) -> (r: &mut u64)
        ensures
            *r == old(self)@,
            final(self)@ == *final(r),
    {
        &mut self.address
    }
}

/// A pointer is hashed as its address.
impl<T: ?Sized> core::hash::Hash for Pointer64<T> {
    /// Wraps `<u64 as Hash>::hash`, which feeds the address to the hasher.
    #[verifier::external_body]
    fn hash<H: core::hash::Hasher>(&self, state: &mut H) {
        self.address.hash(state)
    }
}

impl<T: Pod> Pointer64<T> {
    /// Reads the value that the pointer points to in `mem`.
    pub fn deref<M: PhysicalMemory, V: VirtualTranslate>(
        self,
        mem: &mut VirtualFromPhysical<M, V>,
    ) -> (res: PartialResult<T>)
        requires
            old(mem).inv(),
        ensures
            final(mem).inv(),
            final(mem).arch == old(mem).arch,
            final(mem).dtb == old(mem).dtb,
            final(mem).phys_mem.device() == old(mem).phys_mem.device(),
            final(mem).phys_mem.mem_map() == old(mem).phys_mem.mem_map(),
            final(mem).phys_mem.dependable() == old(mem).phys_mem.dependable(),
            old(mem).coherent() ==> final(mem).coherent() && typed_read_outcome(
                virt_read(
                    old(mem).phys_mem.device(),
                    old(mem).phys_mem.mem_map(),
                    old(mem).arch,
                    old(mem).dtb,
                    self@,
                    T::spec_size() as int,
                ),
                old(mem).phys_mem.dependable(),
                res,
            ),
    {
        mem.virt_read_ptr64(self)
    }

    /// Reads the value that the pointer points to in `mem` into `out`. On
    /// failure `out` keeps its value.
    pub fn deref_into<M: PhysicalMemory, V: VirtualTranslate>(
        self,
        mem: &mut VirtualFromPhysical<M, V>,
        out: &mut T,
    ) -> (res: PartialResult<()>)
        requires
            old(mem).inv(),
        ensures
            final(mem).inv(),
            final(mem).arch == old(mem).arch,
            final(mem).dtb == old(mem).dtb,
            final(mem).phys_mem.device() == old(mem).phys_mem.device(),
            final(mem).phys_mem.mem_map() == old(mem).phys_mem.mem_map(),
            final(mem).phys_mem.dependable() == old(mem).phys_mem.dependable(),
            res.is_err() ==> *final(out) == *old(out),
            old(mem).coherent() ==> final(mem).coherent() && typed_read_outcome(
                virt_read(
                    old(mem).phys_mem.device(),
                    old(mem).phys_mem.mem_map(),
                    old(mem).arch,
                    old(mem).dtb,
                    self@,
                    T::spec_size() as int,
                ),
                old(mem).phys_mem.dependable(),
                match res {
                    Ok(_) => Ok(*final(out)),
                    Err(e) => Err(e),
                },
            ),
    {
        match mem.virt_read_ptr64(self) {
            Ok(value) => {
                *out = value;
                Ok(())
            },
            Err(e) => Err(e),
        }
    }
}

impl Pointer64<[u8]> {
    /// Reads as many bytes as `out` holds from where the pointer points to
    /// in `mem` into `out`. Where the read fails in part, the bytes that
    /// were transferred stand at the front of `out` and the rest of `out`
    /// is as it was.
    pub fn deref_into<M: PhysicalMemory, V: VirtualTranslate>(
        self,
        mem: &mut VirtualFromPhysical<M, V>,
        out: &mut Vec<u8>,
    ) -> (res: PartialResult<()>)
        requires
            old(mem).inv(),
        ensures
            final(mem).inv(),
            final(mem).arch == old(mem).arch,
            final(mem).dtb == old(mem).dtb,
            final(mem).phys_mem.device() == old(mem).phys_mem.device(),
            final(mem).phys_mem.mem_map() == old(mem).phys_mem.mem_map(),
            final(mem).phys_mem.dependable() == old(mem).phys_mem.dependable(),
            final(out)@.len() == old(out)@.len(),
            old(mem).coherent() ==> final(mem).coherent() && virt_read_outcome(
                virt_read(
                    old(mem).phys_mem.device(),
                    old(mem).phys_mem.mem_map(),
                    old(mem).arch,
                    old(mem).dtb,
                    self@,
                    old(out)@.len() as int,
                ),
                old(mem).phys_mem.dependable(),
                match res {
                    Ok(_) => Ok(*final(out)),
                    Err(e) => Err(e),
                },
            ),
            old(mem).coherent() ==> (res matches Err(PartialError::Partial(n, _)) ==> {
                &&& n <= old(out)@.len()
                &&& n <= virt_read_prefix(
                    old(mem).phys_mem.device(),
                    old(mem).phys_mem.mem_map(),
                    old(mem).arch,
                    old(mem).dtb,
                    self@,
                    old(out)@.len() as int,
                ).len()
                &&& final(out)@ == virt_read_prefix(
                    old(mem).phys_mem.device(),
                    old(mem).phys_mem.mem_map(),
                    old(mem).arch,
                    old(mem).dtb,
                    self@,
                    old(out)@.len() as int,
                ).subrange(0, n as int) + old(out)@.subrange(n as int, old(out)@.len() as int)
            }),
    {
        mem.virt_read_raw_into(Address(self.address), out)
    }
}

} // verus!
