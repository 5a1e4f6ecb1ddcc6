//! Providers of physical memory.
//!
//! A provider is modelled by the bytes of the device behind it and by the
//! memory map, if any, that stands between a request and the device. A
//! transfer is all or nothing: a request with a byte that cannot be reached
//! fails as a whole and moves no data.

use crate::dataview::Pod;
use crate::error::{Error, Result};
use crate::mem::mem_map::{mapped, real_address, MemoryMap, MemoryMapping};
use crate::types::address::Address;
use vstd::prelude::*;

verus! {

/// Static properties of a provider.
#[derive(Clone, Copy, Debug, PartialEq, Eq, Structural)]
pub struct PhysicalMemoryMetadata {
    /// Bytes of the device.
    pub size: usize,
    /// Whether the provider refuses writes.
    pub readonly: bool,
}

/// One read of a batch: `len` bytes from `addr`.
#[derive(Clone, Copy, Debug, PartialEq, Eq, Structural)]
pub struct PhysicalReadData {
    pub addr: Address,
    pub len: usize,
}

/// One write of a batch: `data` to `addr`.
#[derive(Clone, Debug, PartialEq, Eq)]
pub struct PhysicalWriteData {
    pub addr: Address,
    pub data: Vec<u8>,
}

/// The mappings of an installed memory map; `None` where requests go to the
/// device as they are.
pub type MapView = Option<Seq<MemoryMapping>>;

/// Where on the device the address `a` of a request lies.
pub open spec fn real_of(map: MapView, a: int) -> Option<int> {
    match map {
        None => Some(a),
        Some(maps) => if mapped(maps, a) {
            Some(real_address(maps, a))
        } else {
            None
        },
    }
}

/// Whether the address `a` reaches a byte of a device of `size` bytes.
pub open spec fn accessible(size: int, map: MapView, a: int) -> bool {
    match real_of(map, a) {
        Some(r) => 0 <= r < size,
        None => false,
    }
}

/// Whether every byte of `[addr, addr + len)` reaches the device.
pub open spec fn readable(size: int, map: MapView, addr: int, len: int) -> bool {
    forall|j: int| 0 <= j < len ==> #[trigger] accessible(size, map, addr + j)
}

/// The places on the device of the bytes of `[addr, addr + len)`.
pub open spec fn real_seq(map: MapView, addr: int, len: int) -> Seq<int> {
    Seq::new(
        (if len > 0 {
            len
        } else {
            0
        }) as nat,
        |j: int|
            match real_of(map, addr + j) {
                Some(r) => r,
                None => 0,
            },
    )
}

/// The bytes of `device` at the places `addrs`.
pub open spec fn bytes_of(device: Seq<u8>, addrs: Seq<int>) -> Seq<u8> {
    Seq::new(addrs.len(), |j: int| device[addrs[j]])
}

/// What a read of `[addr, addr + len)` returns.
pub open spec fn bytes_at(device: Seq<u8>, map: MapView, addr: int, len: int) -> Seq<u8> {
    bytes_of(device, real_seq(map, addr, len))
}

/// `device` after `data[j]` has been stored at `addrs[j]` for each `j`, in
/// ascending order.
pub open spec fn scattered(device: Seq<u8>, addrs: Seq<int>, data: Seq<u8>) -> Seq<u8>
    decreases addrs.len(),
{
    if addrs.len() == 0 {
        device
    } else {
        scattered(device, addrs.drop_last(), data).update(addrs.last(), data[addrs.len() - 1])
    }
}

/// The device after `data` has been written to `addr`.
pub open spec fn written(device: Seq<u8>, map: MapView, addr: int, data: Seq<u8>) -> Seq<u8> {
    scattered(device, real_seq(map, addr, data.len() as int), data)
}

/// Bytes stored at places that differ from one another and lie within the
/// device are found there afterwards, and no other place has changed.
pub proof fn lemma_scattered(device: Seq<u8>, addrs: Seq<int>, data: Seq<u8>)
    requires
        addrs.len() <= data.len(),
        forall|j: int| 0 <= j < addrs.len() ==> 0 <= #[trigger] addrs[j] < device.len(),
        forall|i: int, j: int| 0 <= i < j < addrs.len() ==> addrs[i] != addrs[j],
    ensures
        scattered(device, addrs, data).len() == device.len(),
        forall|j: int| 0 <= j < addrs.len() ==> scattered(device, addrs, data)[#[trigger] addrs[j]] == data[j],
        forall|a: int|
            0 <= a < device.len() && !addrs.contains(a) ==> #[trigger] scattered(device, addrs, data)[a] == device[a],
    decreases addrs.len(),
{
    if addrs.len() > 0 {
        let front = addrs.drop_last();
        assert forall|j: int| 0 <= j < front.len() implies 0 <= #[trigger] front[j] < device.len() by {
            assert(front[j] == addrs[j]);
        }
        assert forall|i: int, j: int| 0 <= i < j < front.len() implies front[i] != front[j] by {
            assert(front[i] == addrs[i] && front[j] == addrs[j]);
        }
        lemma_scattered(device, front, data);
        let last = addrs.len() - 1;
        let before = scattered(device, front, data);
        assert(0 <= addrs[last] < device.len());
        assert forall|j: int| 0 <= j < addrs.len() implies scattered(device, addrs, data)[#[trigger] addrs[j]] == data[j] by {
            if j < last {
                assert(front[j] == addrs[j]);
                assert(addrs[j] != addrs[last]);
                assert(before[front[j]] == data[j]);
            }
        }
        assert forall|a: int| 0 <= a < device.len() && !addrs.contains(a) implies #[trigger] scattered(
            device,
            addrs,
            data,
        )[a] == device[a] by {
            assert(a != addrs[last]);
            if front.contains(a) {
                let j = choose|j: int| 0 <= j < front.len() && front[j] == a;
                assert(addrs[j] == a);
            }
        }
    }
}

/// Without a memory map no two addresses of a request reach the same byte.
pub proof fn lemma_unmapped_distinct(addr: int, len: int)
    ensures
        real_seq(None, addr, len).no_duplicates(),
{
}

/// A read of what was just written returns it: where every byte of a write
/// reaches the device and no two of them reach the same place, the bytes at
/// the written range are afterwards the data written.
pub proof fn lemma_read_after_write(device: Seq<u8>, map: MapView, addr: int, data: Seq<u8>)
    requires
        readable(device.len() as int, map, addr, data.len() as int),
        real_seq(map, addr, data.len() as int).no_duplicates(),
    ensures
        written(device, map, addr, data).len() == device.len(),
        readable(written(device, map, addr, data).len() as int, map, addr, data.len() as int),
        bytes_at(written(device, map, addr, data), map, addr, data.len() as int) == data,
{
    let addrs = real_seq(map, addr, data.len() as int);
    assert forall|j: int| 0 <= j < addrs.len() implies 0 <= #[trigger] addrs[j] < device.len() by {
        assert(accessible(device.len() as int, map, addr + j));
    }
    lemma_scattered(device, addrs, data);
    let after = written(device, map, addr, data);
    assert forall|j: int| 0 <= j < data.len() implies bytes_at(after, map, addr, data.len() as int)[j]
        == data[j] by {
        assert(after[addrs[j]] == data[j]);
    }
    assert(bytes_at(after, map, addr, data.len() as int) =~= data);
}

/// What may come of one read. Success returns the bytes of the request, and
/// is only possible where all of them can be reached. A dependable provider
/// fails only where they cannot, and then with `OutOfBounds`.
pub open spec fn read_outcome(
    device: Seq<u8>,
    map: MapView,
    dependable: bool,
    req: PhysicalReadData,
    res: Result<Vec<u8>>,
) -> bool {
    match res {
        Ok(bytes) => readable(device.len() as int, map, req.addr@, req.len as int) && bytes@
            == bytes_at(device, map, req.addr@, req.len as int),
        Err(e) => dependable ==> !readable(device.len() as int, map, req.addr@, req.len as int)
            && e == Error::OutOfBounds,
    }
}

/// What may come of one write: as `read_outcome`.
pub open spec fn write_outcome(
    size: int,
    map: MapView,
    dependable: bool,
    req: PhysicalWriteData,
    res: Result<()>,
) -> bool {
    match res {
        Ok(_) => readable(size, map, req.addr@, req.data@.len() as int),
        Err(e) => dependable ==> !readable(size, map, req.addr@, req.data@.len() as int) && e
            == Error::OutOfBounds,
    }
}

/// The device after the writes of a batch, each one that succeeded applied
/// in the order of the batch.
pub open spec fn after_writes(
    device: Seq<u8>,
    map: MapView,
    batch: Seq<PhysicalWriteData>,
    out: Seq<Result<()>>,
) -> Seq<u8>
    decreases batch.len(),
{
    if batch.len() == 0 {
        device
    } else {
        let before = after_writes(device, map, batch.drop_last(), out.drop_last());
        if out.last().is_ok() {
            written(before, map, batch.last().addr@, batch.last().data@)
        } else {
            before
        }
    }
}

/// A provider of physical memory: reads and writes in batches, whose
/// results stand at the positions of the requests.
pub trait PhysicalMemory {
    /// The bytes of the device.
    open spec fn device(&self) -> Seq<u8> {
        Seq::empty()
    }

    /// The installed memory map.
    open spec fn mem_map(&self) -> MapView {
        None
    }

    /// Whether a transfer fails only where a byte cannot be reached.
    open spec fn dependable(&self) -> bool {
        false
    }

    /// What the provider needs to hold of itself between calls. A provider
    /// that gives no model of itself holds nothing: nothing is proved of
    /// code that runs over it.
    open spec fn inv(&self) -> bool {
        false
    }

    /// Reads each request of the batch. `out[i]` is what came of
    /// `batch[i]`.
    fn phys_read_raw_list(&mut self, batch: &Vec<PhysicalReadData>) -> (out: Vec<Result<Vec<u8>>>)
        requires
            old(self).inv(),
        ensures
            final(self).inv(),
            final(self).device() == old(self).device(),
            final(self).mem_map() == old(self).mem_map(),
            final(self).dependable() == old(self).dependable(),
            out@.len() == batch@.len(),
            forall|i: int|
                0 <= i < batch@.len() ==> read_outcome(
                    old(self).device(),
                    old(self).mem_map(),
                    old(self).dependable(),
                    batch@[i],
                    #[trigger] out@[i],
                ),
    ;

    /// Writes each request of the batch, in order. `out[i]` is what came of
    /// `batch[i]`.
    fn phys_write_raw_list(&mut self, batch: &Vec<PhysicalWriteData>) -> (out: Vec<Result<()>>)
        requires
            old(self).inv(),
        ensures
            final(self).inv(),
            final(self).device() == after_writes(
                old(self).device(),
                old(self).mem_map(),
                batch@,
                out@,
            ),
            final(self).mem_map() == old(self).mem_map(),
            final(self).dependable() == old(self).dependable(),
            out@.len() == batch@.len(),
            forall|i: int|
                0 <= i < batch@.len() ==> write_outcome(
                    old(self).device().len() as int,
                    old(self).mem_map(),
                    old(self).dependable(),
                    batch@[i],
                    #[trigger] out@[i],
                ),
    ;

    /// The size of the device and whether it can be written.
    fn metadata(&self) -> (m: PhysicalMemoryMetadata)
        requires
            self.inv(),
        ensures
            m.size == self.device().len(),
    ;

    /// Whether a memory map is installed.
    fn has_mem_map(&self) -> (installed: bool)
        requires
            self.inv(),
        ensures
            installed == self.mem_map().is_some(),
    ;

    /// Installs a memory map: from now on requests are remapped through it,
    /// and what it does not map cannot be reached.
    fn set_mem_map(&mut self, map: MemoryMap)
        requires
            old(self).inv(),
        ensures
            final(self).inv(),
            final(self).device() == old(self).device(),
            final(self).mem_map() == Some(map@),
            final(self).dependable() == old(self).dependable(),
    ;
}

/// Reads `len` bytes from `addr`: a batch of one.
pub fn phys_read_raw<M: PhysicalMemory>(mem: &mut M, addr: Address, len: usize) -> (res: Result<
    Vec<u8>,
>)
    requires
        old(mem).inv(),
    ensures
        final(mem).inv(),
        final(mem).device() == old(mem).device(),
        final(mem).mem_map() == old(mem).mem_map(),
        final(mem).dependable() == old(mem).dependable(),
        read_outcome(
            old(mem).device(),
            old(mem).mem_map(),
            old(mem).dependable(),
            PhysicalReadData { addr, len },
            res,
        ),
{
    let mut batch: Vec<PhysicalReadData> = Vec::new();
    batch.push(PhysicalReadData { addr, len });
    let mut out = mem.phys_read_raw_list(&batch);
    assert(read_outcome(
        old(mem).device(),
        old(mem).mem_map(),
        old(mem).dependable(),
        batch@[0],
        out@[0],
    ));
    match out.pop() {
        Some(res) => res,
        None => Err(Error::Other("empty result")),
    }
}

/// What may come of one write of `data` to `addr`, and what it leaves of
/// the device: a write that succeeds leaves the device as written, one
/// that fails leaves it as it was.
pub open spec fn single_write_outcome(
    device: Seq<u8>,
    map: MapView,
    dependable: bool,
    addr: int,
    data: Seq<u8>,
    res: Result<()>,
    after: Seq<u8>,
) -> bool {
    match res {
        Ok(_) => readable(device.len() as int, map, addr, data.len() as int) && after == written(
            device,
            map,
            addr,
            data,
        ),
        Err(e) => after == device && (dependable ==> !readable(
            device.len() as int,
            map,
            addr,
            data.len() as int,
        ) && e == Error::OutOfBounds),
    }
}

/// Writes `data` to `addr`: a batch of one.
pub fn phys_write_raw<M: PhysicalMemory>(mem: &mut M, addr: Address, data: Vec<u8>) -> (res: Result<
    (),
>)
    requires
        old(mem).inv(),
    ensures
        final(mem).inv(),
        final(mem).mem_map() == old(mem).mem_map(),
        final(mem).dependable() == old(mem).dependable(),
        single_write_outcome(
            old(mem).device(),
            old(mem).mem_map(),
            old(mem).dependable(),
            addr@,
            data@,
            res,
            final(mem).device(),
        ),
{
    let mut batch: Vec<PhysicalWriteData> = Vec::new();
    batch.push(PhysicalWriteData { addr, data });
    let mut out = mem.phys_write_raw_list(&batch);
    proof {
        assert(batch@.drop_last() =~= Seq::<PhysicalWriteData>::empty());
        assert(out@.drop_last() =~= Seq::<Result<()>>::empty());
        assert(write_outcome(
            old(mem).device().len() as int,
            old(mem).mem_map(),
            old(mem).dependable(),
            batch@[0],
            out@[0],
        ));
        assert(after_writes(
            old(mem).device(),
            old(mem).mem_map(),
            batch@.drop_last(),
            out@.drop_last(),
        ) == old(mem).device());
    }
    match out.pop() {
        Some(res) => res,
        None => Err(Error::Other("empty result")),
    }
}

/// What may come of reading a value: as `read_outcome`, with the value that
/// the bytes spell in place of the bytes.
pub open spec fn typed_outcome<T: Pod>(
    device: Seq<u8>,
    map: MapView,
    dependable: bool,
    addr: Address,
    res: Result<T>,
) -> bool {
    match res {
        Ok(value) => readable(device.len() as int, map, addr@, T::spec_size() as int) && value
            == T::decode(bytes_at(device, map, addr@, T::spec_size() as int)),
        Err(e) => dependable ==> !readable(device.len() as int, map, addr@, T::spec_size() as int)
            && e == Error::OutOfBounds,
    }
}

/// Reads the value at `addr`.
pub fn phys_read<T: Pod, M: PhysicalMemory>(mem: &mut M, addr: Address) -> (res: Result<T>)
    requires
        old(mem).inv(),
    ensures
        final(mem).inv(),
        final(mem).device() == old(mem).device(),
        final(mem).mem_map() == old(mem).mem_map(),
        final(mem).dependable() == old(mem).dependable(),
        typed_outcome(old(mem).device(), old(mem).mem_map(), old(mem).dependable(), addr, res),
{
    match phys_read_raw(mem, addr, T::size()) {
        Ok(bytes) => Ok(T::from_bytes(&bytes)),
        Err(e) => Err(e),
    }
}

/// Writes `value` to `addr`.
pub fn phys_write<T: Pod, M: PhysicalMemory>(mem: &mut M, addr: Address, value: &T) -> (res:
    Result<()>)
    requires
        old(mem).inv(),
    ensures
        final(mem).inv(),
        final(mem).mem_map() == old(mem).mem_map(),
        final(mem).dependable() == old(mem).dependable(),
        single_write_outcome(
            old(mem).device(),
            old(mem).mem_map(),
            old(mem).dependable(),
            addr@,
            value.encode(),
            res,
            final(mem).device(),
        ),
{
    phys_write_raw(mem, addr, value.to_bytes())
}

} // verus!
