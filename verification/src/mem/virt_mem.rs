//! The virtual view of a target: reads and writes at virtual addresses,
//! carried out through a translator and a physical provider.
//!
//! A request is cut at page boundaries and each part is translated on its
//! own. Where a part fails, the request fails with the number of bytes of
//! the parts before it and the error of that part.

use crate::architecture::Architecture;
use crate::dataview::Pod;
use crate::types::pointer64::Pointer64;
use crate::error::{Error, PartialError, PartialResult, Result};
use crate::mem::phys::{
    after_writes, bytes_at, read_outcome, readable, write_outcome, written, MapView,
    PhysicalMemory, PhysicalReadData, PhysicalWriteData,
};
use crate::mem::virt_translate::{
    translate_outcome, translation, TranslateRequest, VirtualTranslate,
};
use crate::types::address::{address_space, Address};
use vstd::prelude::*;

verus! {

/// How many bytes of a request of `remaining` bytes at `addr` lie on the
/// page of `addr`.
pub open spec fn chunk_len(addr: int, remaining: int, page_size: int) -> int {
    if remaining <= page_size - addr % page_size {
        remaining
    } else {
        page_size - addr % page_size
    }
}

/// What a read of `len` bytes at the virtual address `addr` gives: the
/// bytes, or the number of bytes of the parts that could be read before the
/// first part that could not, with the error of that part.
pub open spec fn virt_read(
    device: Seq<u8>,
    map: MapView,
    arch: Architecture,
    dtb: Address,
    addr: int,
    len: int,
) -> core::result::Result<Seq<u8>, (int, Error)>
    decreases len,
{
    if len <= 0 {
        Ok(Seq::empty())
    } else if chunk_len(addr, len, arch.spec_page_size() as int) <= 0 {
        Err((0, Error::Other("page size")))
    } else {
        let take = chunk_len(addr, len, arch.spec_page_size() as int);
        match translation(device, map, arch, TranslateRequest { dtb, vaddr: Address(addr as u64) }) {
            Err(e) => Err((0, e)),
            Ok(p) => if !readable(device.len() as int, map, p@, take) {
                Err((0, Error::OutOfBounds))
            } else {
                match virt_read(device, map, arch, dtb, (addr + take) % address_space(), len - take) {
                    Ok(rest) => Ok(bytes_at(device, map, p@, take) + rest),
                    Err((n, e)) => Err((take + n, e)),
                }
            },
        }
    }
}

/// The bytes that a read of `len` bytes at the virtual address `addr`
/// transfers: all of them where it succeeds, those of the parts before the
/// first part that cannot be read where it fails.
pub open spec fn virt_read_prefix(
    device: Seq<u8>,
    map: MapView,
    arch: Architecture,
    dtb: Address,
    addr: int,
    len: int,
) -> Seq<u8>
    decreases len,
{
    if len <= 0 || chunk_len(addr, len, arch.spec_page_size() as int) <= 0 {
        Seq::empty()
    } else {
        let take = chunk_len(addr, len, arch.spec_page_size() as int);
        match translation(device, map, arch, TranslateRequest { dtb, vaddr: Address(addr as u64) }) {
            Err(_) => Seq::empty(),
            Ok(p) => if !readable(device.len() as int, map, p@, take) {
                Seq::empty()
            } else {
                bytes_at(device, map, p@, take) + virt_read_prefix(
                    device,
                    map,
                    arch,
                    dtb,
                    (addr + take) % address_space(),
                    len - take,
                )
            },
        }
    }
}

/// What a read has transferred, as a result: the bytes where nothing
/// failed, else their count with the error.
pub open spec fn parts_result(parts: (Vec<u8>, Option<Error>)) -> PartialResult<Vec<u8>> {
    match parts.1 {
        None => Ok(parts.0),
        Some(e) => Err(PartialError::Partial(parts.0@.len() as usize, e)),
    }
}

/// Where part `k` of a request starts, and how many bytes of the request
/// are left there.
pub open spec fn chunk_start(addr: int, len: int, page_size: int, k: int) -> (int, int)
    decreases k,
{
    if k <= 0 {
        (addr, len)
    } else {
        let before = chunk_start(addr, len, page_size, k - 1);
        let take = chunk_len(before.0, before.1, page_size);
        ((before.0 + take) % address_space(), before.1 - take)
    }
}

/// What may come of a read at a virtual address. Success returns the bytes
/// that the read gives. Over a dependable provider a failure is the one
/// that the read gives too.
pub open spec fn virt_read_outcome(
    expected: core::result::Result<Seq<u8>, (int, Error)>,
    dependable: bool,
    res: PartialResult<Vec<u8>>,
) -> bool {
    match res {
        Ok(bytes) => expected == Ok::<Seq<u8>, (int, Error)>(bytes@),
        Err(PartialError::Partial(n, e)) => dependable ==> expected == Err::<
            Seq<u8>,
            (int, Error),
        >((n as int, e)),
        Err(PartialError::Error(_)) => false,
    }
}

/// What a write of `data` at the virtual address `addr` does: the device
/// afterwards and, where a part could not be written, the number of bytes
/// of the parts before it with the error of that part. Every part goes
/// where the page tables on `tables` send it; the parts are written in
/// order, and the first that fails ends the write.
pub open spec fn virt_written(
    tables: Seq<u8>,
    device: Seq<u8>,
    map: MapView,
    arch: Architecture,
    dtb: Address,
    addr: int,
    data: Seq<u8>,
) -> (Seq<u8>, Option<(int, Error)>)
    decreases data.len(),
{
    if data.len() == 0 {
        (device, None)
    } else if chunk_len(addr, data.len() as int, arch.spec_page_size() as int) <= 0 {
        (device, Some((0, Error::Other("page size"))))
    } else {
        let take = chunk_len(addr, data.len() as int, arch.spec_page_size() as int);
        match translation(tables, map, arch, TranslateRequest { dtb, vaddr: Address(addr as u64) }) {
            Err(e) => (device, Some((0, e))),
            Ok(p) => if !readable(device.len() as int, map, p@, take) {
                (device, Some((0, Error::OutOfBounds)))
            } else {
                let rest = virt_written(
                    tables,
                    written(device, map, p@, data.subrange(0, take)),
                    map,
                    arch,
                    dtb,
                    (addr + take) % address_space(),
                    data.subrange(take, data.len() as int),
                );
                match rest.1 {
                    None => rest,
                    Some((n, e)) => (rest.0, Some((take + n, e))),
                }
            },
        }
    }
}

/// What may come of a write at a virtual address. Success leaves the device
/// as the write leaves it. Over a dependable provider a failure is the one
/// that the write gives, and the device is left as the write leaves it.
pub open spec fn virt_write_outcome(
    expected: (Seq<u8>, Option<(int, Error)>),
    dependable: bool,
    res: PartialResult<()>,
    device: Seq<u8>,
) -> bool {
    match res {
        Ok(_) => expected == (device, None::<(int, Error)>),
        Err(PartialError::Partial(n, e)) => dependable ==> expected == (
            device,
            Some((n as int, e)),
        ),
        Err(PartialError::Error(_)) => false,
    }
}

/// Whether a batch of writes went step by step as the writes say: the
/// device stood at `devices[i]` and the translator at `vats[i]` before
/// write `i`, and where the translator then agreed with the page tables,
/// `out[i]` and `devices[i + 1]` are what that write gives.
pub open spec fn write_steps<V: VirtualTranslate>(
    devices: Seq<Seq<u8>>,
    vats: Seq<V>,
    map: MapView,
    arch: Architecture,
    dtb: Address,
    dependable: bool,
    batch: Seq<(Address, Vec<u8>)>,
    out: Seq<PartialResult<()>>,
) -> bool {
    &&& devices.len() == batch.len() + 1
    &&& vats.len() == batch.len() + 1
    &&& out.len() == batch.len()
    &&& forall|i: int|
        0 <= i < batch.len() ==> ((#[trigger] vats[i]).coherent(devices[i], map, arch)
            ==> virt_write_outcome(
            virt_written(devices[i], devices[i], map, arch, dtb, batch[i].0@, batch[i].1@),
            dependable,
            out[i],
            devices[i + 1],
        ))
}

/// What may come of reading a value at a virtual address: as
/// `virt_read_outcome`, with the value that the bytes spell in place of the
/// bytes.
pub open spec fn typed_read_outcome<T: Pod>(
    expected: core::result::Result<Seq<u8>, (int, Error)>,
    dependable: bool,
    res: PartialResult<T>,
) -> bool {
    match res {
        Ok(value) => expected matches Ok(bytes) && value == T::decode(bytes),
        Err(PartialError::Partial(n, e)) => dependable ==> expected == Err::<
            Seq<u8>,
            (int, Error),
        >((n as int, e)),
        Err(PartialError::Error(_)) => false,
    }
}

/// The virtual memory of one address space, read through a translator and
/// a physical provider.
pub struct VirtualFromPhysical<M: PhysicalMemory, V: VirtualTranslate> {
    pub phys_mem: M,
    pub vat: V,
    pub arch: Architecture,
    pub dtb: Address,
}

impl<M: PhysicalMemory, V: VirtualTranslate> VirtualFromPhysical<M, V> {
    /// The parts fit together.
    pub open spec fn inv(&self) -> bool {
        &&& self.phys_mem.inv()
        &&& self.vat.inv()
        &&& self.arch.wf()
    }

    /// Whether the translator agrees with the page tables on the device.
    pub open spec fn coherent(&self) -> bool {
        self.vat.coherent(self.phys_mem.device(), self.phys_mem.mem_map(), self.arch)
    }

    /// The virtual memory of the address space whose top-level table `dtb`
    /// points to.
    pub fn new(phys_mem: M, vat: V, arch: Architecture, dtb: Address) -> (mem: Self)
        requires
            phys_mem.inv(),
            vat.inv(),
            arch.wf(),
        ensures
            mem.inv(),
            mem.phys_mem == phys_mem,
            mem.vat == vat,
            mem.arch == arch,
            mem.dtb == dtb,
    {
        VirtualFromPhysical { phys_mem, vat, arch, dtb }
    }

    /// Reads `len` bytes at the virtual address `addr`.
    pub fn virt_read_raw(&mut self, addr: Address, len: usize) -> (res: PartialResult<Vec<u8>>)
        requires
            old(self).inv(),
        ensures
            final(self).inv(),
            final(self).arch == old(self).arch,
            final(self).dtb == old(self).dtb,
            final(self).phys_mem.device() == old(self).phys_mem.device(),
            final(self).phys_mem.mem_map() == old(self).phys_mem.mem_map(),
            final(self).phys_mem.dependable() == old(self).phys_mem.dependable(),
            res matches Ok(bytes) ==> bytes@.len() == len,
            old(self).coherent() ==> final(self).coherent() && virt_read_outcome(
                virt_read(
                    old(self).phys_mem.device(),
                    old(self).phys_mem.mem_map(),
                    old(self).arch,
                    old(self).dtb,
                    addr@,
                    len as int,
                ),
                old(self).phys_mem.dependable(),
                res,
            ),
    {
        let (bytes, failure) = self.virt_read_partial(addr, len);
        match failure {
            None => Ok(bytes),
            Some(e) => Err(PartialError::Partial(bytes.len(), e)),
        }
    }

    /// Reads `len` bytes at the virtual address `addr` and hands out what
    /// was transferred: all the bytes, or those of the parts before the
    /// first part that failed together with its error.
    pub fn virt_read_partial(&mut self, addr: Address, len: usize) -> (parts: (
        Vec<u8>,
        Option<Error>,
    ))
        requires
            old(self).inv(),
        ensures
            final(self).inv(),
            final(self).arch == old(self).arch,
            final(self).dtb == old(self).dtb,
            final(self).phys_mem.device() == old(self).phys_mem.device(),
            final(self).phys_mem.mem_map() == old(self).phys_mem.mem_map(),
            final(self).phys_mem.dependable() == old(self).phys_mem.dependable(),
            parts.0@.len() <= len,
            parts.1.is_none() ==> parts.0@.len() == len,
            old(self).coherent() ==> final(self).coherent() && virt_read_outcome(
                virt_read(
                    old(self).phys_mem.device(),
                    old(self).phys_mem.mem_map(),
                    old(self).arch,
                    old(self).dtb,
                    addr@,
                    len as int,
                ),
                old(self).phys_mem.dependable(),
                parts_result(parts),
            ),
            old(self).coherent() ==> parts.0@.len() <= virt_read_prefix(
                old(self).phys_mem.device(),
                old(self).phys_mem.mem_map(),
                old(self).arch,
                old(self).dtb,
                addr@,
                len as int,
            ).len() && parts.0@ == virt_read_prefix(
                old(self).phys_mem.device(),
                old(self).phys_mem.mem_map(),
                old(self).arch,
                old(self).dtb,
                addr@,
                len as int,
            ).subrange(0, parts.0@.len() as int),
            old(self).coherent() && (parts.1.is_none() || old(self).phys_mem.dependable())
                ==> parts.0@ == virt_read_prefix(
                old(self).phys_mem.device(),
                old(self).phys_mem.mem_map(),
                old(self).arch,
                old(self).dtb,
                addr@,
                len as int,
            ),
    {
        let ghost device = self.phys_mem.device();
        let ghost map = self.phys_mem.mem_map();
        let ghost dependable = self.phys_mem.dependable();
        let ghost was_coherent = self.coherent();
        let ghost arch = self.arch;
        let dtb = self.dtb;
        let page_size = self.arch.page_size();
        let ghost ps = page_size as int;
        // cut the request at page boundaries
        let mut requests: Vec<TranslateRequest> = Vec::new();
        let mut lens: Vec<usize> = Vec::new();
        let mut cur: u64 = addr.0;
        let mut remaining: usize = len;
        while remaining > 0
            invariant
                1024 <= page_size <= 0x10000,
                ps == page_size,
                requests@.len() == lens@.len(),
                (cur as int, remaining as int) == chunk_start(
                    addr@,
                    len as int,
                    ps,
                    requests@.len() as int,
                ),
                forall|k: int|
                    0 <= k < requests@.len() ==> {
                        &&& (#[trigger] requests@[k]).dtb == dtb
                        &&& requests@[k].vaddr@ == chunk_start(addr@, len as int, ps, k).0
                        &&& lens@[k] == chunk_len(
                            chunk_start(addr@, len as int, ps, k).0,
                            chunk_start(addr@, len as int, ps, k).1,
                            ps,
                        )
                        &&& 0 < lens@[k] <= chunk_start(addr@, len as int, ps, k).1
                    },
            decreases remaining,
        {
            let room: u64 = page_size as u64 - cur % (page_size as u64);
            let take: usize = if remaining as u64 <= room {
                remaining
            } else {
                room as usize
            };
            requests.push(TranslateRequest { dtb, vaddr: Address(cur) });
            lens.push(take);
            cur = cur.wrapping_add(take as u64);
            remaining = remaining - take;
        }
        let n = requests.len();
        let translated = self.vat.virt_to_phys_list(&mut self.phys_mem, &self.arch, &requests);
        // read every part that has a physical address
        let mut reads: Vec<PhysicalReadData> = Vec::new();
        let mut i: usize = 0;
        while i < n
            invariant
                i <= n,
                n == requests@.len(),
                n == lens@.len(),
                n == translated@.len(),
                reads@.len() == i,
                forall|k: int|
                    0 <= k < i ==> (#[trigger] reads@[k]) == match translated@[k] {
                        Ok(p) => PhysicalReadData { addr: p, len: lens@[k] },
                        Err(_) => PhysicalReadData { addr: Address(0), len: 0 },
                    },
            decreases n - i,
        {
            let read = match translated[i] {
                Ok(p) => PhysicalReadData { addr: p, len: lens[i] },
                Err(_) => PhysicalReadData { addr: Address(0), len: 0 },
            };
            reads.push(read);
            i += 1;
        }
        let results = self.phys_mem.phys_read_raw_list(&reads);
        // put the parts together, up to the first that failed
        let mut out: Vec<u8> = Vec::new();
        let mut i: usize = 0;
        let ghost expected = virt_read(device, map, arch, dtb, addr@, len as int);
        let ghost prefix = virt_read_prefix(device, map, arch, dtb, addr@, len as int);
        while i < n
            invariant
                i <= n,
                n == requests@.len(),
                n == lens@.len(),
                n == translated@.len(),
                n == reads@.len(),
                n == results@.len(),
                ps == arch.spec_page_size(),
                self.inv(),
                self.arch == arch,
                self.arch == old(self).arch,
                self.dtb == old(self).dtb,
                self.phys_mem.device() == device,
                self.phys_mem.mem_map() == map,
                self.phys_mem.dependable() == dependable,
                device == old(self).phys_mem.device(),
                map == old(self).phys_mem.mem_map(),
                dependable == old(self).phys_mem.dependable(),
                dtb == old(self).dtb,
                was_coherent == old(self).coherent(),
                was_coherent ==> self.coherent(),
                expected == virt_read(device, map, arch, dtb, addr@, len as int),
                chunk_start(addr@, len as int, ps, n as int).1 == 0,
                forall|k: int|
                    0 <= k < n ==> {
                        &&& (#[trigger] requests@[k]).dtb == dtb
                        &&& requests@[k].vaddr@ == chunk_start(addr@, len as int, ps, k).0
                        &&& lens@[k] == chunk_len(
                            chunk_start(addr@, len as int, ps, k).0,
                            chunk_start(addr@, len as int, ps, k).1,
                            ps,
                        )
                        &&& 0 < lens@[k] <= chunk_start(addr@, len as int, ps, k).1
                    },
                was_coherent ==> forall|k: int|
                    0 <= k < n ==> translate_outcome(
                        device,
                        map,
                        dependable,
                        arch,
                        requests@[k],
                        #[trigger] translated@[k],
                    ),
                forall|k: int|
                    0 <= k < n ==> (#[trigger] reads@[k]) == match translated@[k] {
                        Ok(p) => PhysicalReadData { addr: p, len: lens@[k] },
                        Err(_) => PhysicalReadData { addr: Address(0), len: 0 },
                    },
                forall|k: int|
                    0 <= k < n ==> read_outcome(
                        device,
                        map,
                        dependable,
                        reads@[k],
                        #[trigger] results@[k],
                    ),
                out@.len() + chunk_start(addr@, len as int, ps, i as int).1 == len,
                was_coherent ==> prefix == out@ + virt_read_prefix(
                    device,
                    map,
                    arch,
                    dtb,
                    chunk_start(addr@, len as int, ps, i as int).0,
                    chunk_start(addr@, len as int, ps, i as int).1,
                ),
                prefix == virt_read_prefix(device, map, arch, dtb, addr@, len as int),
                was_coherent ==> expected == match virt_read(
                    device,
                    map,
                    arch,
                    dtb,
                    chunk_start(addr@, len as int, ps, i as int).0,
                    chunk_start(addr@, len as int, ps, i as int).1,
                ) {
                    Ok(rest) => Ok::<Seq<u8>, (int, Error)>(out@ + rest),
                    Err((m, e)) => Err::<Seq<u8>, (int, Error)>((out@.len() + m, e)),
                },
            decreases n - i,
        {
            let ghost start = chunk_start(addr@, len as int, ps, i as int);
            assert(requests@[i as int].vaddr@ == start.0);
            assert(chunk_start(addr@, len as int, ps, i + 1) == ((start.0 + lens@[i as int])
                % address_space(), start.1 - lens@[i as int]));
            assert(reads@[i as int] == match translated@[i as int] {
                Ok(p) => PhysicalReadData { addr: p, len: lens@[i as int] },
                Err(_) => PhysicalReadData { addr: Address(0), len: 0 },
            });
            assert(read_outcome(device, map, dependable, reads@[i as int], results@[i as int]));
            assert(requests@[i as int] == TranslateRequest { dtb, vaddr: Address(start.0 as u64) });
            let ghost rest_prefix = virt_read_prefix(device, map, arch, dtb, start.0, start.1);
            match translated[i] {
                Ok(_) => {},
                Err(e) => {
                    assert(was_coherent ==> (out@ + rest_prefix).subrange(0, out@.len() as int)
                        =~= out@);
                    assert(was_coherent && dependable ==> out@ + rest_prefix =~= out@);
                    return (out, Some(e));
                },
            }
            match &results[i] {
                Ok(bytes) => {
                    let ghost before = out@;
                    out.extend_from_slice(bytes.as_slice());
                    proof {
                        if was_coherent {
                            let next_prefix = virt_read_prefix(
                                device,
                                map,
                                arch,
                                dtb,
                                (start.0 + lens@[i as int]) % address_space(),
                                start.1 - lens@[i as int],
                            );
                            assert(before + (bytes@ + next_prefix) =~= out@ + next_prefix);
                            match virt_read(
                                device,
                                map,
                                arch,
                                dtb,
                                (start.0 + lens@[i as int]) % address_space(),
                                start.1 - lens@[i as int],
                            ) {
                                Ok(rest) => {
                                    assert(before + (bytes@ + rest) =~= out@ + rest);
                                },
                                Err(_) => {},
                            }
                        }
                    }
                },
                Err(e) => {
                    assert(was_coherent ==> (out@ + rest_prefix).subrange(0, out@.len() as int)
                        =~= out@);
                    assert(was_coherent && dependable ==> out@ + rest_prefix =~= out@);
                    return (out, Some(*e));
                },
            }
            i += 1;
        }
        assert(out@ + Seq::<u8>::empty() =~= out@);
        assert(out@.subrange(0, out@.len() as int) =~= out@);
        (out, None)
    }

    /// Reads as many bytes as `out` holds at the virtual address `addr`
    /// into `out`. Where the read fails in part, the bytes that were
    /// transferred stand at the front of `out` and the rest of `out` is as
    /// it was.
    pub fn virt_read_raw_into(&mut self, addr: Address, out: &mut Vec<u8>) -> (res: PartialResult<
        (),
    >)
        requires
            old(self).inv(),
        ensures
            final(self).inv(),
            final(self).arch == old(self).arch,
            final(self).dtb == old(self).dtb,
            final(self).phys_mem.device() == old(self).phys_mem.device(),
            final(self).phys_mem.mem_map() == old(self).phys_mem.mem_map(),
            final(self).phys_mem.dependable() == old(self).phys_mem.dependable(),
            final(out)@.len() == old(out)@.len(),
            old(self).coherent() ==> final(self).coherent() && virt_read_outcome(
                virt_read(
                    old(self).phys_mem.device(),
                    old(self).phys_mem.mem_map(),
                    old(self).arch,
                    old(self).dtb,
                    addr@,
                    old(out)@.len() as int,
                ),
                old(self).phys_mem.dependable(),
                match res {
                    Ok(_) => Ok(*final(out)),
                    Err(e) => Err(e),
                },
            ),
            old(self).coherent() ==> (res matches Err(PartialError::Partial(n, _)) ==> {
                &&& n <= old(out)@.len()
                &&& n <= virt_read_prefix(
                    old(self).phys_mem.device(),
                    old(self).phys_mem.mem_map(),
                    old(self).arch,
                    old(self).dtb,
                    addr@,
                    old(out)@.len() as int,
                ).len()
                &&& final(out)@ == virt_read_prefix(
                    old(self).phys_mem.device(),
                    old(self).phys_mem.mem_map(),
                    old(self).arch,
                    old(self).dtb,
                    addr@,
                    old(out)@.len() as int,
                ).subrange(0, n as int) + old(out)@.subrange(n as int, old(out)@.len() as int)
            }),
    {
        let len = out.len();
        let (bytes, failure) = self.virt_read_partial(addr, len);
        let got = bytes.len();
        let mut j: usize = 0;
        while j < got
            invariant
                j <= got,
                got == bytes@.len(),
                got <= len,
                len == out@.len(),
                len == old(out)@.len(),
                out@ == bytes@.subrange(0, j as int) + old(out)@.subrange(j as int, len as int),
            decreases got - j,
        {
            out.set(j, bytes[j]);
            assert(out@ =~= bytes@.subrange(0, j + 1) + old(out)@.subrange(j + 1, len as int));
            j += 1;
        }
        proof {
            assert(bytes@.subrange(0, got as int) =~= bytes@);
            if failure.is_none() {
                assert(out@ =~= bytes@);
            }
        }
        match failure {
            None => Ok(()),
            Some(e) => Err(PartialError::Partial(got, e)),
        }
    }

    /// Reads each request of the batch: `len` bytes at a virtual address.
    /// `out[i]` is what came of `batch[i]`; a request that fails does not
    /// keep the others from being read.
    pub fn virt_read_raw_list(&mut self, batch: &Vec<(Address, usize)>) -> (out: Vec<
        PartialResult<Vec<u8>>,
    >)
        requires
            old(self).inv(),
        ensures
            final(self).inv(),
            final(self).arch == old(self).arch,
            final(self).dtb == old(self).dtb,
            final(self).phys_mem.device() == old(self).phys_mem.device(),
            final(self).phys_mem.mem_map() == old(self).phys_mem.mem_map(),
            final(self).phys_mem.dependable() == old(self).phys_mem.dependable(),
            out@.len() == batch@.len(),
            old(self).coherent() ==> final(self).coherent() && forall|i: int|
                0 <= i < batch@.len() ==> virt_read_outcome(
                    virt_read(
                        old(self).phys_mem.device(),
                        old(self).phys_mem.mem_map(),
                        old(self).arch,
                        old(self).dtb,
                        batch@[i].0@,
                        batch@[i].1 as int,
                    ),
                    old(self).phys_mem.dependable(),
                    #[trigger] out@[i],
                ),
    {
        let mut out: Vec<PartialResult<Vec<u8>>> = Vec::new();
        let mut i: usize = 0;
        while i < batch.len()
            invariant
                i <= batch@.len(),
                out@.len() == i,
                self.inv(),
                self.arch == old(self).arch,
                self.dtb == old(self).dtb,
                self.phys_mem.device() == old(self).phys_mem.device(),
                self.phys_mem.mem_map() == old(self).phys_mem.mem_map(),
                self.phys_mem.dependable() == old(self).phys_mem.dependable(),
                old(self).coherent() ==> self.coherent() && forall|k: int|
                    0 <= k < i ==> virt_read_outcome(
                        virt_read(
                            old(self).phys_mem.device(),
                            old(self).phys_mem.mem_map(),
                            old(self).arch,
                            old(self).dtb,
                            batch@[k].0@,
                            batch@[k].1 as int,
                        ),
                        old(self).phys_mem.dependable(),
                        #[trigger] out@[k],
                    ),
            decreases batch@.len() - i,
        {
            let r = self.virt_read_raw(batch[i].0, batch[i].1);
            out.push(r);
            i += 1;
        }
        out
    }

    /// Writes each request of the batch, in order. `out[i]` is what came of
    /// `batch[i]`; a request that fails does not keep the others from being
    /// written. Each write finds the device as the writes before it left
    /// it, and does to it what `virt_write_raw` does.
    pub fn virt_write_raw_list(&mut self, batch: &Vec<(Address, Vec<u8>)>) -> (out: Vec<
        PartialResult<()>,
    >)
        requires
            old(self).inv(),
        ensures
            final(self).inv(),
            final(self).arch == old(self).arch,
            final(self).dtb == old(self).dtb,
            final(self).phys_mem.device().len() == old(self).phys_mem.device().len(),
            final(self).phys_mem.mem_map() == old(self).phys_mem.mem_map(),
            final(self).phys_mem.dependable() == old(self).phys_mem.dependable(),
            out@.len() == batch@.len(),
            exists|devices: Seq<Seq<u8>>, vats: Seq<V>|
                {
                    &&& #[trigger] write_steps(
                        devices,
                        vats,
                        old(self).phys_mem.mem_map(),
                        old(self).arch,
                        old(self).dtb,
                        old(self).phys_mem.dependable(),
                        batch@,
                        out@,
                    )
                    &&& devices[0] == old(self).phys_mem.device()
                    &&& devices[batch@.len() as int] == final(self).phys_mem.device()
                    &&& vats[0] == old(self).vat
                    &&& vats[batch@.len() as int] == final(self).vat
                },
    {
        let ghost map = self.phys_mem.mem_map();
        let ghost arch = self.arch;
        let ghost dtb = self.dtb;
        let ghost dependable = self.phys_mem.dependable();
        let ghost mut devices: Seq<Seq<u8>> = seq![self.phys_mem.device()];
        let ghost mut vats: Seq<V> = seq![self.vat];
        let mut out: Vec<PartialResult<()>> = Vec::new();
        let mut i: usize = 0;
        while i < batch.len()
            invariant
                i <= batch@.len(),
                out@.len() == i,
                self.inv(),
                self.arch == old(self).arch,
                self.dtb == old(self).dtb,
                self.phys_mem.device().len() == old(self).phys_mem.device().len(),
                self.phys_mem.mem_map() == old(self).phys_mem.mem_map(),
                self.phys_mem.dependable() == old(self).phys_mem.dependable(),
                map == old(self).phys_mem.mem_map(),
                arch == old(self).arch,
                dtb == old(self).dtb,
                dependable == old(self).phys_mem.dependable(),
                devices.len() == i + 1,
                vats.len() == i + 1,
                devices[0] == old(self).phys_mem.device(),
                vats[0] == old(self).vat,
                devices[i as int] == self.phys_mem.device(),
                vats[i as int] == self.vat,
                forall|k: int|
                    0 <= k < i ==> ((#[trigger] vats[k]).coherent(devices[k], map, arch)
                        ==> virt_write_outcome(
                        virt_written(
                            devices[k],
                            devices[k],
                            map,
                            arch,
                            dtb,
                            batch@[k].0@,
                            batch@[k].1@,
                        ),
                        dependable,
                        out@[k],
                        devices[k + 1],
                    )),
            decreases batch@.len() - i,
        {
            let ghost devices_before = devices;
            let ghost vats_before = vats;
            let ghost out_before = out@;
            let r = self.virt_write_raw(batch[i].0, &batch[i].1);
            out.push(r);
            proof {
                devices = devices.push(self.phys_mem.device());
                vats = vats.push(self.vat);
                assert forall|k: int| 0 <= k < i + 1 implies ((#[trigger] vats[k]).coherent(
                    devices[k],
                    map,
                    arch,
                ) ==> virt_write_outcome(
                    virt_written(
                        devices[k],
                        devices[k],
                        map,
                        arch,
                        dtb,
                        batch@[k].0@,
                        batch@[k].1@,
                    ),
                    dependable,
                    out@[k],
                    devices[k + 1],
                )) by {
                    assert(vats[k] == vats_before[k]);
                    assert(devices[k] == devices_before[k]);
                    if k < i {
                        assert(devices[k + 1] == devices_before[k + 1]);
                        assert(out@[k] == out_before[k]);
                    }
                }
            }
            i += 1;
        }
        proof {
            assert(write_steps(devices, vats, map, arch, dtb, dependable, batch@, out@));
        }
        out
    }

    /// Reads the value at the virtual address `addr`.
    pub fn virt_read<T: Pod>(&mut self, addr: Address) -> (res: PartialResult<T>)
        requires
            old(self).inv(),
        ensures
            final(self).inv(),
            final(self).arch == old(self).arch,
            final(self).dtb == old(self).dtb,
            final(self).phys_mem.device() == old(self).phys_mem.device(),
            final(self).phys_mem.mem_map() == old(self).phys_mem.mem_map(),
            final(self).phys_mem.dependable() == old(self).phys_mem.dependable(),
            old(self).coherent() ==> final(self).coherent() && typed_read_outcome(
                virt_read(
                    old(self).phys_mem.device(),
                    old(self).phys_mem.mem_map(),
                    old(self).arch,
                    old(self).dtb,
                    addr@,
                    T::spec_size() as int,
                ),
                old(self).phys_mem.dependable(),
                res,
            ),
    {
        match self.virt_read_raw(addr, T::size()) {
            Ok(bytes) => {
                Ok(T::from_bytes(&bytes))
            },
            Err(e) => Err(e),
        }
    }

    /// Reads the value that `ptr` points to.
    pub fn virt_read_ptr64<T: Pod>(&mut self, ptr: Pointer64<T>) -> (res: PartialResult<T>)
        requires
            old(self).inv(),
        ensures
            final(self).inv(),
            final(self).arch == old(self).arch,
            final(self).dtb == old(self).dtb,
            final(self).phys_mem.device() == old(self).phys_mem.device(),
            final(self).phys_mem.mem_map() == old(self).phys_mem.mem_map(),
            final(self).phys_mem.dependable() == old(self).phys_mem.dependable(),
            old(self).coherent() ==> final(self).coherent() && typed_read_outcome(
                virt_read(
                    old(self).phys_mem.device(),
                    old(self).phys_mem.mem_map(),
                    old(self).arch,
                    old(self).dtb,
                    ptr@,
                    T::spec_size() as int,
                ),
                old(self).phys_mem.dependable(),
                res,
            ),
    {
        self.virt_read(Address(ptr.as_u64()))
    }

    /// Writes `data` at the virtual address `addr`. All parts are
    /// translated first; then they are written one after another, up to the
    /// first that fails.
    pub fn virt_write_raw(&mut self, addr: Address, data: &Vec<u8>) -> (res: PartialResult<()>)
        requires
            old(self).inv(),
        ensures
            final(self).inv(),
            final(self).arch == old(self).arch,
            final(self).dtb == old(self).dtb,
            final(self).phys_mem.device().len() == old(self).phys_mem.device().len(),
            final(self).phys_mem.mem_map() == old(self).phys_mem.mem_map(),
            final(self).phys_mem.dependable() == old(self).phys_mem.dependable(),
            old(self).coherent() ==> virt_write_outcome(
                virt_written(
                    old(self).phys_mem.device(),
                    old(self).phys_mem.device(),
                    old(self).phys_mem.mem_map(),
                    old(self).arch,
                    old(self).dtb,
                    addr@,
                    data@,
                ),
                old(self).phys_mem.dependable(),
                res,
                final(self).phys_mem.device(),
            ),
    {
        let ghost tables = self.phys_mem.device();
        let ghost map = self.phys_mem.mem_map();
        let ghost dependable = self.phys_mem.dependable();
        let ghost was_coherent = self.coherent();
        let ghost arch = self.arch;
        let dtb = self.dtb;
        let len = data.len();
        let page_size = self.arch.page_size();
        let ghost ps = page_size as int;
        let mut requests: Vec<TranslateRequest> = Vec::new();
        let mut lens: Vec<usize> = Vec::new();
        let mut cur: u64 = addr.0;
        let mut remaining: usize = len;
        while remaining > 0
            invariant
                1024 <= page_size <= 0x10000,
                ps == page_size,
                requests@.len() == lens@.len(),
                (cur as int, remaining as int) == chunk_start(
                    addr@,
                    len as int,
                    ps,
                    requests@.len() as int,
                ),
                forall|k: int|
                    0 <= k < requests@.len() ==> {
                        &&& (#[trigger] requests@[k]).dtb == dtb
                        &&& requests@[k].vaddr@ == chunk_start(addr@, len as int, ps, k).0
                        &&& lens@[k] == chunk_len(
                            chunk_start(addr@, len as int, ps, k).0,
                            chunk_start(addr@, len as int, ps, k).1,
                            ps,
                        )
                        &&& 0 < lens@[k] <= chunk_start(addr@, len as int, ps, k).1
                    },
            decreases remaining,
        {
            let room: u64 = page_size as u64 - cur % (page_size as u64);
            let take: usize = if remaining as u64 <= room {
                remaining
            } else {
                room as usize
            };
            requests.push(TranslateRequest { dtb, vaddr: Address(cur) });
            lens.push(take);
            cur = cur.wrapping_add(take as u64);
            remaining = remaining - take;
        }
        let n = requests.len();
        let translated = self.vat.virt_to_phys_list(&mut self.phys_mem, &self.arch, &requests);
        let mut off: usize = 0;
        let mut i: usize = 0;
        let ghost expected = virt_written(tables, tables, map, arch, dtb, addr@, data@);
        assert(data@.subrange(0, len as int) =~= data@);
        while i < n
            invariant
                i <= n,
                n == requests@.len(),
                n == lens@.len(),
                n == translated@.len(),
                len == data@.len(),
                ps == arch.spec_page_size(),
                self.inv(),
                self.arch == arch,
                self.arch == old(self).arch,
                self.dtb == old(self).dtb,
                self.phys_mem.device().len() == tables.len(),
                self.phys_mem.mem_map() == map,
                self.phys_mem.dependable() == dependable,
                tables == old(self).phys_mem.device(),
                map == old(self).phys_mem.mem_map(),
                dependable == old(self).phys_mem.dependable(),
                dtb == old(self).dtb,
                was_coherent == old(self).coherent(),
                expected == virt_written(tables, tables, map, arch, dtb, addr@, data@),
                chunk_start(addr@, len as int, ps, n as int).1 == 0,
                forall|k: int|
                    0 <= k < n ==> {
                        &&& (#[trigger] requests@[k]).dtb == dtb
                        &&& requests@[k].vaddr@ == chunk_start(addr@, len as int, ps, k).0
                        &&& lens@[k] == chunk_len(
                            chunk_start(addr@, len as int, ps, k).0,
                            chunk_start(addr@, len as int, ps, k).1,
                            ps,
                        )
                        &&& 0 < lens@[k] <= chunk_start(addr@, len as int, ps, k).1
                    },
                was_coherent ==> forall|k: int|
                    0 <= k < n ==> translate_outcome(
                        tables,
                        map,
                        dependable,
                        arch,
                        requests@[k],
                        #[trigger] translated@[k],
                    ),
                off + chunk_start(addr@, len as int, ps, i as int).1 == len,
                was_coherent ==> expected == ({
                    let rest = virt_written(
                        tables,
                        self.phys_mem.device(),
                        map,
                        arch,
                        dtb,
                        chunk_start(addr@, len as int, ps, i as int).0,
                        data@.subrange(off as int, len as int),
                    );
                    match rest.1 {
                        None => rest,
                        Some((m, e)) => (rest.0, Some((off + m, e))),
                    }
                }),
            decreases n - i,
        {
            let ghost start = chunk_start(addr@, len as int, ps, i as int);
            let ghost before = self.phys_mem.device();
            let ghost tail = data@.subrange(off as int, len as int);
            assert(requests@[i as int].vaddr@ == start.0);
            assert(chunk_start(addr@, len as int, ps, i + 1) == ((start.0 + lens@[i as int])
                % address_space(), start.1 - lens@[i as int]));
            assert(requests@[i as int] == TranslateRequest { dtb, vaddr: Address(start.0 as u64) });
            let take = lens[i];
            let target = match translated[i] {
                Ok(p) => p,
                Err(e) => {
                    return Err(PartialError::Partial(off, e));
                },
            };
            let mut part: Vec<u8> = Vec::new();
            let mut j: usize = 0;
            while j < take
                invariant
                    j <= take,
                    off + take <= len,
                    len == data@.len(),
                    part@ == data@.subrange(off as int, off + j),
                decreases take - j,
            {
                part.push(data[off + j]);
                assert(part@ =~= data@.subrange(off as int, off + j + 1));
                j += 1;
            }
            assert(part@ =~= tail.subrange(0, take as int));
            let mut batch: Vec<PhysicalWriteData> = Vec::new();
            batch.push(PhysicalWriteData { addr: target, data: part });
            let out = self.phys_mem.phys_write_raw_list(&batch);
            proof {
                assert(batch@.drop_last() =~= Seq::<PhysicalWriteData>::empty());
                assert(out@.drop_last() =~= Seq::<Result<()>>::empty());
                assert(write_outcome(
                    before.len() as int,
                    map,
                    dependable,
                    batch@[0],
                    out@[0],
                ));
                assert(after_writes(before, map, batch@.drop_last(), out@.drop_last()) == before);
                assert(tail.subrange(take as int, tail.len() as int) =~= data@.subrange(
                    off + take,
                    len as int,
                ));
            }
            match out[0] {
                Ok(_) => {},
                Err(e) => {
                    return Err(PartialError::Partial(off, e));
                },
            }
            proof {
                crate::mem::virt_mem::lemma_written_len(before, map, target@, part@);
            }
            off = off + take;
            i += 1;
        }
        assert(data@.subrange(off as int, len as int) =~= Seq::<u8>::empty());
        Ok(())
    }

    /// Writes `value` at the virtual address `addr`.
    pub fn virt_write<T: Pod>(&mut self, addr: Address, value: &T) -> (res: PartialResult<()>)
        requires
            old(self).inv(),
        ensures
            final(self).inv(),
            final(self).arch == old(self).arch,
            final(self).dtb == old(self).dtb,
            final(self).phys_mem.device().len() == old(self).phys_mem.device().len(),
            final(self).phys_mem.mem_map() == old(self).phys_mem.mem_map(),
            final(self).phys_mem.dependable() == old(self).phys_mem.dependable(),
            old(self).coherent() ==> virt_write_outcome(
                virt_written(
                    old(self).phys_mem.device(),
                    old(self).phys_mem.device(),
                    old(self).phys_mem.mem_map(),
                    old(self).arch,
                    old(self).dtb,
                    addr@,
                    value.encode(),
                ),
                old(self).phys_mem.dependable(),
                res,
                final(self).phys_mem.device(),
            ),
    {
        let bytes = value.to_bytes();
        self.virt_write_raw(addr, &bytes)
    }
}

/// A write whose bytes all reach the device changes no length.
pub proof fn lemma_written_len(device: Seq<u8>, map: MapView, addr: int, data: Seq<u8>)
    requires
        readable(device.len() as int, map, addr, data.len() as int),
    ensures
        written(device, map, addr, data).len() == device.len(),
{
    let addrs = crate::mem::phys::real_seq(map, addr, data.len() as int);
    assert forall|j: int| 0 <= j < addrs.len() implies 0 <= #[trigger] addrs[j] < device.len() by {
        assert(crate::mem::phys::accessible(device.len() as int, map, addr + j));
    }
    lemma_scattered_len(device, addrs, data);
}

/// Storing bytes at places within the device changes no length.
pub proof fn lemma_scattered_len(device: Seq<u8>, addrs: Seq<int>, data: Seq<u8>)
    requires
        forall|j: int| 0 <= j < addrs.len() ==> 0 <= #[trigger] addrs[j] < device.len(),
    ensures
        crate::mem::phys::scattered(device, addrs, data).len() == device.len(),
    decreases addrs.len(),
{
    if addrs.len() > 0 {
        let front = addrs.drop_last();
        assert forall|j: int| 0 <= j < front.len() implies 0 <= #[trigger] front[j]
            < device.len() by {
            assert(front[j] == addrs[j]);
        }
        lemma_scattered_len(device, front, data);
        assert(0 <= addrs[addrs.len() - 1] < device.len());
    }
}

} // verus!
