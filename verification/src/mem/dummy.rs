//! A provider that keeps its device in a buffer of its own.

use crate::error::{Error, Result};
use crate::mem::mem_map::{
    flatten, lemma_flatten_bound, lemma_flatten_contains, lemma_resolve, pieces_view, run,
    MemoryMap,
};
use crate::mem::phys::{
    accessible, after_writes, bytes_of, read_outcome, readable, real_seq, scattered, write_outcome,
    written, MapView, PhysicalMemory, PhysicalMemoryMetadata, PhysicalReadData, PhysicalWriteData,
};
use crate::types::address::Address;
use vstd::prelude::*;

verus! {

/// Memory held in a buffer: a stand-in for a real target. Every transfer
/// that reaches the buffer succeeds.
pub struct DummyMemory {
    buf: Vec<u8>,
    map: Option<MemoryMap>,
}

/// The bytes of `buf` that the pieces run through, one after another.
fn gather(buf: &Vec<u8>, pieces: &Vec<(Address, usize)>) -> (out: Vec<u8>)
    requires
        forall|k: int|
            0 <= k < pieces@.len() ==> (#[trigger] pieces@[k]).0@ + pieces@[k].1 <= buf@.len(),
    ensures
        out@ == bytes_of(buf@, flatten(pieces_view(pieces@))),
{
    let ghost pv = pieces_view(pieces@);
    let size = buf.len();
    let mut out: Vec<u8> = Vec::new();
    let mut k: usize = 0;
    assert(pv.subrange(0, 0) =~= Seq::<(int, int)>::empty());
    assert(out@ =~= bytes_of(buf@, flatten(pv.subrange(0, 0))));
    while k < pieces.len()
        invariant
            k <= pieces@.len(),
            pv == pieces_view(pieces@),
            size == buf@.len(),
            forall|i: int|
                0 <= i < pieces@.len() ==> (#[trigger] pieces@[i]).0@ + pieces@[i].1 <= buf@.len(),
            out@ == bytes_of(buf@, flatten(pv.subrange(0, k as int))),
        decreases pieces@.len() - k,
    {
        let (start, len) = pieces[k];
        let ghost done = flatten(pv.subrange(0, k as int));
        assert(pieces@[k as int].0@ + pieces@[k as int].1 <= buf@.len());
        let mut t: usize = 0;
        assert(out@ =~= bytes_of(buf@, done + run(start@, 0)));
        while t < len
            invariant
                t <= len,
                size == buf@.len(),
                start@ + len <= buf@.len(),
                out@ == bytes_of(buf@, done + run(start@, t as int)),
            decreases len - t,
        {
            out.push(buf[start.0 as usize + t]);
            assert(out@ =~= bytes_of(buf@, done + run(start@, t + 1)));
            t += 1;
        }
        proof {
            let next = pv.subrange(0, k + 1);
            assert(next.drop_last() =~= pv.subrange(0, k as int));
            assert(next.last() == (start@, len as int));
        }
        k += 1;
    }
    assert(pv.subrange(0, k as int) =~= pv);
    out
}

/// Stores `data` in `buf` along the pieces, byte after byte.
fn scatter(buf: &mut Vec<u8>, pieces: &Vec<(Address, usize)>, data: &Vec<u8>)
    requires
        forall|k: int|
            0 <= k < pieces@.len() ==> (#[trigger] pieces@[k]).0@ + pieces@[k].1 <= old(
                buf,
            )@.len(),
        flatten(pieces_view(pieces@)).len() == data@.len(),
    ensures
        final(buf)@ == scattered(old(buf)@, flatten(pieces_view(pieces@)), data@),
        final(buf)@.len() == old(buf)@.len(),
{
    let ghost pv = pieces_view(pieces@);
    let size = buf.len();
    let total = data.len();
    let mut k: usize = 0;
    let mut n: usize = 0;
    assert(pv.subrange(0, 0) =~= Seq::<(int, int)>::empty());
    while k < pieces.len()
        invariant
            k <= pieces@.len(),
            pv == pieces_view(pieces@),
            buf@.len() == old(buf)@.len(),
            size == buf@.len(),
            total == data@.len(),
            forall|i: int|
                0 <= i < pieces@.len() ==> (#[trigger] pieces@[i]).0@ + pieces@[i].1 <= buf@.len(),
            flatten(pv).len() == data@.len(),
            n == flatten(pv.subrange(0, k as int)).len(),
            n <= data@.len(),
            buf@ == scattered(old(buf)@, flatten(pv.subrange(0, k as int)), data@),
        decreases pieces@.len() - k,
    {
        let (start, len) = pieces[k];
        let ghost done = flatten(pv.subrange(0, k as int));
        let ghost next = pv.subrange(0, k + 1);
        proof {
            assert(next.drop_last() =~= pv.subrange(0, k as int));
            assert(next.last() == (start@, len as int));
            assert(flatten(next) == done + run(start@, len as int));
            lemma_flatten_prefix_len(pv, k + 1);
            assert(flatten(next).len() == done.len() + len);
        }
        assert(pieces@[k as int].0@ + pieces@[k as int].1 <= buf@.len());
        let mut t: usize = 0;
        assert(done + run(start@, 0) =~= done);
        while t < len
            invariant
                t <= len,
                start@ + len <= buf@.len(),
                buf@.len() == old(buf)@.len(),
                size == buf@.len(),
                total == data@.len(),
                n == done.len(),
                n + len <= data@.len(),
                buf@ == scattered(old(buf)@, done + run(start@, t as int), data@),
            decreases len - t,
        {
            let ghost addrs = done + run(start@, t + 1);
            assert(addrs.drop_last() =~= done + run(start@, t as int));
            assert(addrs.last() == start@ + t);
            buf.set(start.0 as usize + t, data[n + t]);
            t += 1;
        }
        n = n + len;
        k += 1;
    }
    assert(pv.subrange(0, k as int) =~= pv);
}

/// The addresses of the first `k` pieces are no more than those of all.
proof fn lemma_flatten_prefix_len(pieces: Seq<(int, int)>, k: int)
    requires
        0 <= k <= pieces.len(),
    ensures
        flatten(pieces.subrange(0, k)).len() <= flatten(pieces).len(),
    decreases pieces.len(),
{
    if k == pieces.len() {
        assert(pieces.subrange(0, k) =~= pieces);
    } else {
        assert(pieces.drop_last().subrange(0, k) =~= pieces.subrange(0, k));
        lemma_flatten_prefix_len(pieces.drop_last(), k);
    }
}

impl DummyMemory {
    /// A device of `size` zero bytes, with no memory map.
    pub fn new(size: usize) -> (mem: DummyMemory)
        ensures
            mem.device() == Seq::new(size as nat, |i: int| 0u8),
            mem.mem_map().is_none(),
    {
        let buf = vec![0u8; size];
        assert(buf@ =~= Seq::new(size as nat, |i: int| 0u8));
        DummyMemory { buf, map: None }
    }

    /// A device that holds `buf`, with no memory map.
    pub fn from_bytes(buf: Vec<u8>) -> (mem: DummyMemory)
        ensures
            mem.device() == buf@,
            mem.mem_map().is_none(),
    {
        DummyMemory { buf, map: None }
    }

    /// The bytes of the device.
    pub fn as_bytes(&self) -> (buf: &Vec<u8>)
        ensures
            buf@ == self.device(),
    {
        &self.buf
    }

    /// The ranges of the device that the request `[addr, addr + len)`
    /// reaches, in order; `OutOfBounds` where one of its bytes reaches none.
    fn ranges(&self, addr: Address, len: usize) -> (r: Result<Vec<(Address, usize)>>)
        ensures
            match r {
                Ok(pieces) => {
                    &&& readable(self.device().len() as int, self.mem_map(), addr@, len as int)
                    &&& flatten(pieces_view(pieces@)) == real_seq(
                        self.mem_map(),
                        addr@,
                        len as int,
                    )
                    &&& forall|k: int|
                        0 <= k < pieces@.len() ==> (#[trigger] pieces@[k]).0@ + pieces@[k].1
                            <= self.device().len()
                },
                Err(e) => e == Error::OutOfBounds && !readable(
                    self.device().len() as int,
                    self.mem_map(),
                    addr@,
                    len as int,
                ),
            },
    {
        let ghost size = self.buf@.len() as int;
        let ghost map = self.mem_map();
        match &self.map {
            None => {
                let mut pieces: Vec<(Address, usize)> = Vec::new();
                if len == 0 {
                    assert(flatten(pieces_view(pieces@)) =~= real_seq(map, addr@, 0));
                    return Ok(pieces);
                }
                if addr.0 as u128 + len as u128 > self.buf.len() as u128 {
                    assert(!accessible(size, map, addr@ + (len - 1)));
                    return Err(Error::OutOfBounds);
                }
                pieces.push((addr, len));
                proof {
                    let pv = pieces_view(pieces@);
                    assert(pv.drop_last() =~= Seq::<(int, int)>::empty());
                    assert(pv.last() == (addr@, len as int));
                    assert(flatten(pv) == flatten(pv.drop_last()) + run(addr@, len as int));
                    assert(flatten(pv.drop_last()) =~= Seq::<int>::empty());
                    assert forall|j: int| 0 <= j < len implies real_seq(map, addr@, len as int)[j]
                        == run(addr@, len as int)[j] by {}
                    assert(flatten(pv) =~= real_seq(map, addr@, len as int));
                }
                Ok(pieces)
            },
            Some(mem_map) => {
                let resolved = mem_map.resolve(addr, len);
                proof {
                    lemma_resolve(mem_map@, addr@, len as int);
                }
                let pieces = match resolved {
                    Ok(pieces) => pieces,
                    Err(_) => {
                        let ghost a = choose|a: int|
                            addr@ <= a < addr@ + len && !crate::mem::mem_map::mapped(mem_map@, a);
                        assert(!accessible(size, map, addr@ + (a - addr@)));
                        return Err(Error::OutOfBounds);
                    },
                };
                let ghost pv = pieces_view(pieces@);
                assert(flatten(pv) =~= real_seq(map, addr@, len as int));
                let mut k: usize = 0;
                while k < pieces.len()
                    invariant
                        k <= pieces@.len(),
                        pv == pieces_view(pieces@),
                        size == self.buf@.len(),
                        map == self.mem_map(),
                        flatten(pv) == real_seq(map, addr@, len as int),
                        forall|i: int|
                            0 <= i < pv.len() ==> 0 <= (#[trigger] pv[i]).0 && 0 < pv[i].1,
                        forall|i: int|
                            0 <= i < k ==> (#[trigger] pieces@[i]).0@ + pieces@[i].1 <= size,
                    decreases pieces@.len() - k,
                {
                    let (start, piece_len) = pieces[k];
                    assert(pv[k as int] == (start@, piece_len as int));
                    if start.0 as u128 + piece_len as u128 > self.buf.len() as u128 {
                        proof {
                            lemma_flatten_contains(pv, k as int, piece_len - 1);
                            let j = choose|j: int|
                                0 <= j < flatten(pv).len() && flatten(pv)[j] == pv[k as int].0 + (
                                piece_len - 1);
                            assert(!accessible(size, map, addr@ + j));
                        }
                        return Err(Error::OutOfBounds);
                    }
                    k += 1;
                }
                proof {
                    assert forall|i: int| 0 <= i < pv.len() implies 0 <= (#[trigger] pv[i]).0
                        && pv[i].0 + pv[i].1 <= size by {
                        assert(pieces@[i].0@ + pieces@[i].1 <= size);
                    }
                    lemma_flatten_bound(pv, size);
                    assert forall|j: int| 0 <= j < len implies #[trigger] accessible(
                        size,
                        map,
                        addr@ + j,
                    ) by {
                        assert(0 <= flatten(pv)[j] < size);
                    }
                }
                Ok(pieces)
            },
        }
    }

    /// Reads `len` bytes from `addr`.
    pub fn read_raw(&self, addr: Address, len: usize) -> (r: Result<Vec<u8>>)
        ensures
            read_outcome(
                self.device(),
                self.mem_map(),
                true,
                PhysicalReadData { addr, len },
                r,
            ),
    {
        match self.ranges(addr, len) {
            Ok(pieces) => Ok(gather(&self.buf, &pieces)),
            Err(e) => Err(e),
        }
    }

    /// Writes `data` to `addr`.
    pub fn write_raw(&mut self, addr: Address, data: &Vec<u8>) -> (r: Result<()>)
        ensures
            final(self).mem_map() == old(self).mem_map(),
            final(self).device().len() == old(self).device().len(),
            match r {
                Ok(_) => readable(
                    old(self).device().len() as int,
                    old(self).mem_map(),
                    addr@,
                    data@.len() as int,
                ) && final(self).device() == written(
                    old(self).device(),
                    old(self).mem_map(),
                    addr@,
                    data@,
                ),
                Err(e) => e == Error::OutOfBounds && !readable(
                    old(self).device().len() as int,
                    old(self).mem_map(),
                    addr@,
                    data@.len() as int,
                ) && final(self).device() == old(self).device(),
            },
    {
        match self.ranges(addr, data.len()) {
            Ok(pieces) => {
                scatter(&mut self.buf, &pieces, data);
                Ok(())
            },
            Err(e) => Err(e),
        }
    }
}

impl PhysicalMemory for DummyMemory {
    closed spec fn device(&self) -> Seq<u8> {
        self.buf@
    }

    closed spec fn mem_map(&self) -> MapView {
        match self.map {
            Some(map) => Some(map@),
            None => None,
        }
    }

    open spec fn dependable(&self) -> bool {
        true
    }

    open spec fn inv(&self) -> bool {
        true
    }

    fn phys_read_raw_list(&mut self, batch: &Vec<PhysicalReadData>) -> (out: Vec<Result<Vec<u8>>>) {
        let mut out: Vec<Result<Vec<u8>>> = Vec::new();
        let mut i: usize = 0;
        while i < batch.len()
            invariant
                i <= batch@.len(),
                out@.len() == i,
                *self == *old(self),
                forall|k: int|
                    0 <= k < i ==> read_outcome(
                        self.device(),
                        self.mem_map(),
                        true,
                        batch@[k],
                        #[trigger] out@[k],
                    ),
            decreases batch@.len() - i,
        {
            let r = self.read_raw(batch[i].addr, batch[i].len);
            out.push(r);
            i += 1;
        }
        out
    }

    fn phys_write_raw_list(&mut self, batch: &Vec<PhysicalWriteData>) -> (out: Vec<Result<()>>) {
        let mut out: Vec<Result<()>> = Vec::new();
        let mut i: usize = 0;
        while i < batch.len()
            invariant
                i <= batch@.len(),
                out@.len() == i,
                self.mem_map() == old(self).mem_map(),
                self.device().len() == old(self).device().len(),
                self.device() == after_writes(
                    old(self).device(),
                    old(self).mem_map(),
                    batch@.subrange(0, i as int),
                    out@,
                ),
                forall|k: int|
                    0 <= k < i ==> write_outcome(
                        old(self).device().len() as int,
                        old(self).mem_map(),
                        true,
                        batch@[k],
                        #[trigger] out@[k],
                    ),
            decreases batch@.len() - i,
        {
            let ghost before = out@;
            let r = self.write_raw(batch[i].addr, &batch[i].data);
            out.push(r);
            proof {
                let done = batch@.subrange(0, i + 1);
                assert(done.drop_last() =~= batch@.subrange(0, i as int));
                assert(out@.drop_last() =~= before);
                assert(done.last() == batch@[i as int]);
            }
            i += 1;
        }
        assert(batch@.subrange(0, i as int) =~= batch@);
        out
    }

    fn metadata(&self) -> (m: PhysicalMemoryMetadata) {
        PhysicalMemoryMetadata { size: self.buf.len(), readonly: false }
    }

    fn has_mem_map(&self) -> (installed: bool) {
        self.map.is_some()
    }

    fn set_mem_map(&mut self, map: MemoryMap) {
        self.map = Some(map);
    }
}

} // verus!
