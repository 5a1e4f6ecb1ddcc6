//! A write-through cache of pages over a physical provider.
//!
//! The cache is direct-mapped: page number `p` can only lie in line
//! `p % lines`. A line is served while the validator accepts the token it
//! was stamped with when it was installed. A write goes to the provider,
//! and the lines that it touches are updated with what was written. Under
//! a memory map two addresses may reach the same byte, so that a write may
//! change pages that it does not touch: there a write drops every line.

use crate::error::{Error, Result};
use crate::mem::cache::validator::CacheValidator;
use crate::mem::mem_map::MemoryMap;
use crate::mem::phys::{
    accessible, after_writes, bytes_at, lemma_scattered, phys_read_raw, read_outcome, readable,
    real_seq, write_outcome, written, MapView, PhysicalMemory, PhysicalMemoryMetadata,
    PhysicalReadData, PhysicalWriteData,
};
use crate::types::address::{address_space, Address};
use vstd::prelude::*;

verus! {

/// One cached page.
pub struct CacheLine {
    /// The number of the page: its address divided by the page size.
    pub page: u64,
    /// The bytes of the page.
    pub data: Vec<u8>,
    /// The validator's token from the time the line was installed.
    pub token: u64,
}

/// A provider with a page cache in front of it.
pub struct CachedMemoryAccess<M: PhysicalMemory, Q: CacheValidator> {
    pub mem: M,
    pub validator: Q,
    pub page_size: usize,
    pub lines: Vec<Option<CacheLine>>,
}

/// Whether a line at position `slot` of `lines` lines has the right shape:
/// a whole page, in the one line where its number allows it to be.
pub open spec fn line_wf(line: CacheLine, slot: int, lines: int, page_size: int) -> bool {
    &&& line.data@.len() == page_size
    &&& line.page as int % lines == slot
    &&& (line.page + 1) * page_size <= address_space()
}

/// Whether a line holds what the device holds on its page.
pub open spec fn line_current(line: CacheLine, device: Seq<u8>, map: MapView, page_size: int) -> bool {
    &&& readable(device.len() as int, map, line.page * page_size, page_size)
    &&& line.data@ == bytes_at(device, map, line.page * page_size, page_size)
}

/// The token to ask the validator about before `page` is served from
/// `line`: that of the line if it holds this page. A line that is empty or
/// holds another page serves nothing.
pub fn line_token(line: &Option<CacheLine>, page: u64) -> (token: Option<u64>)
    ensures
        token == match *line {
            Some(l) => if l.page == page {
                Some(l.token)
            } else {
                None
            },
            None => None,
        },
{
    match line {
        Some(l) => if l.page == page {
            Some(l.token)
        } else {
            None
        },
        None => None,
    }
}

impl<M: PhysicalMemory, Q: CacheValidator> CachedMemoryAccess<M, Q> {
    /// The cache has the right shape.
    pub open spec fn wf(&self) -> bool {
        &&& self.mem.inv()
        &&& self.validator.inv()
        &&& self.page_size > 0
        &&& self.lines@.len() > 0
        &&& forall|s: int|
            0 <= s < self.lines@.len() ==> match #[trigger] self.lines@[s] {
                Some(line) => line_wf(line, s, self.lines@.len() as int, self.page_size as int),
                None => true,
            }
    }

    /// Every line that `validator` accepts holds what the device holds on
    /// its page.
    pub open spec fn coherent_under(&self, validator: Q) -> bool {
        forall|s: int|
            0 <= s < self.lines@.len() ==> match #[trigger] self.lines@[s] {
                Some(line) => validator.accepts(line.token) ==> line_current(
                    line,
                    self.mem.device(),
                    self.mem.mem_map(),
                    self.page_size as int,
                ),
                None => true,
            }
    }

    /// Every line that the validator accepts holds what the device holds on
    /// its page. A line that has expired may hold anything: it is not
    /// served.
    pub open spec fn coherent(&self) -> bool {
        self.coherent_under(self.validator)
    }

    /// The bytes that a request is served from the cache alone: it lies
    /// within one page, the line of that page holds it, and `validator`
    /// accepts the line.
    pub open spec fn served_from_line(&self, validator: Q, addr: int, len: int) -> Option<Seq<u8>> {
        let ps = self.page_size as int;
        let page = addr / ps;
        let off = addr % ps;
        match self.lines@[page % (self.lines@.len() as int)] {
            Some(line) => if 0 < len && off + len <= ps && addr + len <= address_space()
                && line.page == page && validator.accepts(line.token) {
                Some(line.data@.subrange(off, off + len))
            } else {
                None
            },
            None => None,
        }
    }

    /// Whether a request misses the cache and has its page read: it lies
    /// within one page that `validator` finds no accepted line for, and the
    /// page can be read as a whole from a provider that can be relied on.
    pub open spec fn reads_page(&self, validator: Q, addr: int, len: int) -> bool {
        let ps = self.page_size as int;
        &&& 0 < len
        &&& addr % ps + len <= ps
        &&& (addr / ps + 1) * ps <= address_space()
        &&& self.served_from_line(validator, addr, len).is_none()
        &&& self.mem.dependable()
        &&& readable(self.mem.device().len() as int, self.mem.mem_map(), (addr / ps) * ps, ps)
    }

    /// Whether the line for `page` holds the page as the device holds it,
    /// with a token that the validator accepts.
    pub open spec fn holds_page(&self, page: int) -> bool {
        match self.lines@[page % (self.lines@.len() as int)] {
            Some(line) => {
                &&& line.page == page
                &&& line.data@ == bytes_at(
                    self.mem.device(),
                    self.mem.mem_map(),
                    page * self.page_size,
                    self.page_size as int,
                )
                &&& self.validator.accepts(line.token)
            },
            None => false,
        }
    }

    /// A cache whose lines have all expired is coherent whatever the device
    /// holds: once the validator accepts no line, a change made to the
    /// device behind the cache is seen by the next read.
    pub proof fn lemma_expired_is_coherent(&self)
        requires
            forall|s: int|
                0 <= s < self.lines@.len() ==> match #[trigger] self.lines@[s] {
                    Some(line) => !self.validator.accepts(line.token),
                    None => true,
                },
        ensures
            self.coherent(),
    {
    }

    /// A cache of `size` bytes in lines of `page_size` bytes over `mem`. It
    /// has at least one line.
    pub fn new(mem: M, validator: Q, page_size: usize, size: usize) -> (cache: Self)
        requires
            mem.inv(),
            validator.inv(),
            page_size > 0,
        ensures
            cache.wf(),
            cache.coherent(),
            cache.mem == mem,
            cache.validator == validator,
            cache.page_size == page_size,
            cache.lines@.len() == if size / page_size > 0 {
                size / page_size
            } else {
                1
            },
            forall|s: int| 0 <= s < cache.lines@.len() ==> (#[trigger] cache.lines@[s]).is_none(),
    {
        let count = if size / page_size > 0 {
            size / page_size
        } else {
            1
        };
        let mut lines: Vec<Option<CacheLine>> = Vec::new();
        let mut i: usize = 0;
        while i < count
            invariant
                i <= count,
                lines@.len() == i,
                forall|s: int| 0 <= s < i ==> (#[trigger] lines@[s]).is_none(),
            decreases count - i,
        {
            lines.push(None);
            i += 1;
        }
        CachedMemoryAccess { mem, validator, page_size, lines }
    }

    /// Drops every line.
    pub fn flush(&mut self)
        requires
            old(self).wf(),
        ensures
            final(self).wf(),
            final(self).coherent(),
            final(self).mem == old(self).mem,
            final(self).validator == old(self).validator,
            final(self).page_size == old(self).page_size,
            final(self).lines@.len() == old(self).lines@.len(),
            forall|s: int| 0 <= s < final(self).lines@.len() ==> (#[trigger] final(self).lines@[s]).is_none(),
    {
        let count = self.lines.len();
        let mut i: usize = 0;
        while i < count
            invariant
                i <= count,
                count == self.lines@.len(),
                self.mem == old(self).mem,
                self.validator == old(self).validator,
                self.page_size == old(self).page_size,
                forall|s: int| 0 <= s < i ==> (#[trigger] self.lines@[s]).is_none(),
                forall|s: int| i <= s < count ==> self.lines@[s] == old(self).lines@[s],
            decreases count - i,
        {
            self.lines.set(i, None);
            i += 1;
        }
    }

    /// Writes what a batch has written to the device into the lines that
    /// hold the pages written, write after write.
    fn patch_lines(
        &mut self,
        batch: &Vec<PhysicalWriteData>,
        out: &Vec<Result<()>>,
        Ghost(before): Ghost<Seq<u8>>,
    )
        requires
            old(self).wf(),
            old(self).mem.mem_map().is_none(),
            out@.len() == batch@.len(),
            old(self).mem.device() == after_writes(before, None, batch@, out@),
            forall|i: int|
                0 <= i < batch@.len() ==> write_outcome(
                    before.len() as int,
                    None,
                    old(self).mem.dependable(),
                    batch@[i],
                    #[trigger] out@[i],
                ),
            forall|s: int|
                0 <= s < old(self).lines@.len() ==> match #[trigger] old(self).lines@[s] {
                    Some(line) => old(self).validator.accepts(line.token) ==> line_current(
                        line,
                        before,
                        None,
                        old(self).page_size as int,
                    ),
                    None => true,
                },
        ensures
            final(self).wf(),
            final(self).coherent(),
            final(self).mem == old(self).mem,
            final(self).validator == old(self).validator,
            final(self).page_size == old(self).page_size,
            final(self).lines@.len() == old(self).lines@.len(),
    {
        let ps = self.page_size;
        let count = self.lines.len();
        let n = batch.len();
        let mut i: usize = 0;
        assert(batch@.subrange(0, 0) =~= Seq::<PhysicalWriteData>::empty());
        assert(out@.subrange(0, 0) =~= Seq::<Result<()>>::empty());
        while i < n
            invariant
                i <= n,
                n == batch@.len(),
                n == out@.len(),
                ps == self.page_size,
                count == self.lines@.len(),
                self.wf(),
                self.mem == old(self).mem,
                self.validator == old(self).validator,
                self.page_size == old(self).page_size,
                self.lines@.len() == old(self).lines@.len(),
                self.mem.mem_map().is_none(),
                self.mem.device() == after_writes(before, None, batch@, out@),
                after_writes(
                    before,
                    None,
                    batch@.subrange(0, i as int),
                    out@.subrange(0, i as int),
                ).len() == before.len(),
                forall|k: int|
                    0 <= k < batch@.len() ==> write_outcome(
                        before.len() as int,
                        None,
                        self.mem.dependable(),
                        batch@[k],
                        #[trigger] out@[k],
                    ),
                forall|s: int|
                    0 <= s < self.lines@.len() ==> match #[trigger] self.lines@[s] {
                        Some(line) => self.validator.accepts(line.token) ==> line_current(
                            line,
                            after_writes(
                                before,
                                None,
                                batch@.subrange(0, i as int),
                                out@.subrange(0, i as int),
                            ),
                            None,
                            ps as int,
                        ),
                        None => true,
                    },
            decreases n - i,
        {
            let ghost device = after_writes(
                before,
                None,
                batch@.subrange(0, i as int),
                out@.subrange(0, i as int),
            );
            let ghost next = after_writes(
                before,
                None,
                batch@.subrange(0, i + 1),
                out@.subrange(0, i + 1),
            );
            proof {
                assert(batch@.subrange(0, i + 1).drop_last() =~= batch@.subrange(0, i as int));
                assert(out@.subrange(0, i + 1).drop_last() =~= out@.subrange(0, i as int));
                assert(batch@.subrange(0, i + 1).last() == batch@[i as int]);
                assert(out@.subrange(0, i + 1).last() == out@[i as int]);
                assert(write_outcome(
                    before.len() as int,
                    None,
                    self.mem.dependable(),
                    batch@[i as int],
                    out@[i as int],
                ));
            }
            if out[i].is_ok() {
                let addr = batch[i].addr.0;
                let data = &batch[i].data;
                let len = data.len();
                proof {
                    lemma_written_unmapped(device, addr as int, data@);
                }
                let mut s: usize = 0;
                while s < count
                    invariant
                        s <= count,
                        i < n,
                        n == batch@.len(),
                        ps == self.page_size,
                        count == self.lines@.len(),
                        len == data@.len(),
                        data@ == batch@[i as int].data@,
                        addr == batch@[i as int].addr.0,
                        self.wf(),
                        self.mem == old(self).mem,
                        self.validator == old(self).validator,
                        self.page_size == old(self).page_size,
                        self.lines@.len() == old(self).lines@.len(),
                        readable(device.len() as int, None, addr as int, len as int),
                        next == written(device, None, addr as int, data@),
                        next.len() == device.len(),
                        forall|t: int|
                            0 <= t < s ==> match #[trigger] self.lines@[t] {
                                Some(line) => self.validator.accepts(line.token) ==> line_current(
                                    line,
                                    next,
                                    None,
                                    ps as int,
                                ),
                                None => true,
                            },
                        forall|t: int|
                            s <= t < count ==> match #[trigger] self.lines@[t] {
                                Some(line) => self.validator.accepts(line.token) ==> line_current(
                                    line,
                                    device,
                                    None,
                                    ps as int,
                                ),
                                None => true,
                            },
                    decreases count - s,
                {
                    let ghost lines_before = self.lines@;
                    let patched = match &self.lines[s] {
                        Some(line) => {
                            proof {
                                assert(line_wf(*line, s as int, count as int, ps as int));
                                assert((line.page + 1) * ps == line.page * ps + ps)
                                    by (nonlinear_arith);
                                assert(0 <= line.page * ps) by (nonlinear_arith)
                                    requires
                                        0 <= line.page,
                                        0 <= ps,
                                ;
                            }
                            let start: u128 = line.page as u128 * ps as u128;
                            proof {
                                lemma_patched_current(
                                    device,
                                    addr as int,
                                    data@,
                                    start as int,
                                    ps as int,
                                    line.data@,
                                );
                            }
                            let mut bytes: Vec<u8> = Vec::new();
                            let mut j: usize = 0;
                            while j < ps
                                invariant
                                    j <= ps,
                                    len == data@.len(),
                                    line.data@.len() == ps,
                                    start + ps <= address_space(),
                                    bytes@.len() == j,
                                    forall|t: int|
                                        0 <= t < j ==> bytes@[t] == patched_line(
                                            line.data@,
                                            start as int,
                                            addr as int,
                                            data@,
                                        )[t],
                                decreases ps - j,
                            {
                                let a: u128 = start + j as u128;
                                let byte = if a >= addr as u128 && a < addr as u128 + len as u128 {
                                    data[(a - addr as u128) as usize]
                                } else {
                                    line.data[j]
                                };
                                bytes.push(byte);
                                j += 1;
                            }
                            assert(bytes@ =~= patched_line(
                                line.data@,
                                start as int,
                                addr as int,
                                data@,
                            ));
                            Some(CacheLine { page: line.page, data: bytes, token: line.token })
                        },
                        None => None,
                    };
                    self.lines.set(s, patched);
                    proof {
                        assert forall|t: int| 0 <= t < self.lines@.len() implies match #[trigger] self.lines@[t] {
                            Some(l) => line_wf(l, t, self.lines@.len() as int, self.page_size as int),
                            None => true,
                        } by {
                            if t != s {
                                assert(self.lines@[t] == lines_before[t]);
                            } else {
                                assert(lines_before[t] is Some ==> line_wf(
                                    lines_before[t]->0,
                                    t,
                                    count as int,
                                    ps as int,
                                ));
                            }
                        }
                        assert forall|t: int| 0 <= t < s + 1 implies match #[trigger] self.lines@[t] {
                            Some(line) => self.validator.accepts(line.token) ==> line_current(
                                line,
                                next,
                                None,
                                ps as int,
                            ),
                            None => true,
                        } by {
                            if t < s {
                                assert(self.lines@[t] == lines_before[t]);
                            }
                        }
                        assert forall|t: int| s + 1 <= t < count implies match #[trigger] self.lines@[t] {
                            Some(line) => self.validator.accepts(line.token) ==> line_current(
                                line,
                                device,
                                None,
                                ps as int,
                            ),
                            None => true,
                        } by {
                            assert(self.lines@[t] == lines_before[t]);
                        }
                    }
                    s += 1;
                }
            }
            i += 1;
        }
        assert(batch@.subrange(0, n as int) =~= batch@);
        assert(out@.subrange(0, n as int) =~= out@);
    }

    /// Reads `len` bytes from `addr`, from the lines where the validator
    /// accepts them and from the provider where it does not. A page read
    /// from the provider is installed in its line. The validity is updated
    /// once, before anything is read, and it is the validator as it then
    /// stands that decides. A request that one accepted line holds is
    /// answered from that line, and the provider is not asked. A request
    /// within one page that misses has the page read and installed, so that
    /// the line then holds the page with a token that the validator
    /// accepts.
    pub fn read_raw(&mut self, addr: Address, len: usize) -> (res: Result<Vec<u8>>)
        requires
            old(self).wf(),
        ensures
            final(self).wf(),
            final(self).mem.device() == old(self).mem.device(),
            final(self).mem.mem_map() == old(self).mem.mem_map(),
            final(self).mem.dependable() == old(self).mem.dependable(),
            final(self).page_size == old(self).page_size,
            final(self).lines@.len() == old(self).lines@.len(),
            forall|t: u64|
                #[trigger] final(self).validator.accepts(t) ==> old(self).validator.accepts(t),
            old(self).coherent_under(final(self).validator) ==> final(self).coherent()
                && read_outcome(
                old(self).mem.device(),
                old(self).mem.mem_map(),
                old(self).mem.dependable(),
                PhysicalReadData { addr, len },
                res,
            ),
            old(self).served_from_line(final(self).validator, addr@, len as int) matches Some(
                bytes,
            ) ==> {
                &&& res matches Ok(v) && v@ == bytes
                &&& final(self).mem == old(self).mem
                &&& final(self).lines == old(self).lines
            },
            old(self).reads_page(final(self).validator, addr@, len as int)
                ==> final(self).holds_page(addr@ / (old(self).page_size as int)),
    {
        let ghost device = self.mem.device();
        let ghost map = self.mem.mem_map();
        let ghost dependable = self.mem.dependable();
        let ghost size = device.len() as int;
        let ps = self.page_size;
        let count = self.lines.len();
        let token = self.validator.update_validity();
        let ghost validator = self.validator;
        let ghost was_coherent = self.coherent();
        let ghost served = old(self).served_from_line(validator, addr@, len as int);
        let ghost missing = old(self).reads_page(validator, addr@, len as int);
        assert(was_coherent == old(self).coherent_under(validator));
        proof {
            if missing {
                assert((addr@ / (ps as int) + 1) * ps == (addr@ / (ps as int)) * ps + ps)
                    by (nonlinear_arith);
                vstd::arithmetic::div_mod::lemma_fundamental_div_mod(addr@, ps as int);
                assert((addr@ / (ps as int)) * ps == ps * (addr@ / (ps as int)))
                    by (nonlinear_arith);
            }
        }
        if addr.0 as u128 + len as u128 > 0x1_0000_0000_0000_0000 {
            // the request runs past the end of the address space: the provider decides
            return phys_read_raw(&mut self.mem, addr, len);
        }
        let mut out: Vec<u8> = Vec::new();
        let mut done: usize = 0;
        assert(out@ =~= bytes_at(device, map, addr@, 0));
        while done < len
            invariant
                done <= len,
                addr@ + len <= address_space(),
                ps == self.page_size,
                ps == old(self).page_size,
                count == self.lines@.len(),
                count == old(self).lines@.len(),
                self.validator == validator,
                validator.accepts(token),
                self.wf(),
                self.mem.device() == device,
                self.mem.mem_map() == map,
                self.mem.dependable() == dependable,
                device == old(self).mem.device(),
                map == old(self).mem.mem_map(),
                dependable == old(self).mem.dependable(),
                size == device.len(),
                was_coherent == old(self).coherent_under(validator),
                was_coherent ==> self.coherent(),
                forall|t: u64| #[trigger] validator.accepts(t) ==> old(self).validator.accepts(t),
                served == old(self).served_from_line(validator, addr@, len as int),
                missing == old(self).reads_page(validator, addr@, len as int),
                missing ==> done == 0 || (done == len && self.holds_page(
                    addr@ / (ps as int),
                )),
                done == 0 ==> self.mem == old(self).mem && self.lines == old(self).lines,
                served matches Some(bytes) ==> done == 0 || (done == len && out@ == bytes
                    && self.mem == old(self).mem && self.lines == old(self).lines),
                out@.len() == done,
                was_coherent ==> readable(size, map, addr@, done as int),
                was_coherent ==> out@ == bytes_at(device, map, addr@, done as int),
            decreases len - done,
        {
            let cur: u64 = addr.0 + done as u64;
            let page: u64 = cur / (ps as u64);
            let off: usize = (cur % (ps as u64)) as usize;
            let room: usize = ps - off;
            let take: usize = if len - done <= room {
                len - done
            } else {
                room
            };
            let slot: usize = (page % (count as u64)) as usize;
            proof {
                vstd::arithmetic::div_mod::lemma_fundamental_div_mod(cur as int, ps as int);
                assert(page * ps == ps * page) by (nonlinear_arith);
                assert((page + 1) * ps == page * ps + ps) by (nonlinear_arith);
            }
            let ghost base = page as int * ps as int;
            assert(base + off == cur);
            let hit = match line_token(&self.lines[slot], page) {
                Some(token) => self.validator.is_valid(token),
                None => false,
            };
            let ghost before = out@;
            if hit {
                match &self.lines[slot] {
                    Some(line) => {
                        let mut j: usize = 0;
                        while j < take
                            invariant
                                j <= take,
                                off + take <= ps,
                                line.data@.len() == ps,
                                out@ == before + line.data@.subrange(off as int, off + j),
                            decreases take - j,
                        {
                            out.push(line.data[off + j]);
                            assert(out@ =~= before + line.data@.subrange(off as int, off + j + 1));
                            j += 1;
                        }
                        proof {
                            if was_coherent {
                                assert(self.validator.accepts(line.token));
                                assert(line_current(*line, device, map, ps as int));
                                lemma_part_of_page(device, map, base, ps as int, off as int, take as int);
                                lemma_bytes_join(device, map, addr@, done as int, take as int);
                            }
                        }
                    },
                    None => {},
                }
            } else {
                let whole = if (page as u128 + 1) * (ps as u128) <= 0x1_0000_0000_0000_0000 {
                    phys_read_raw(&mut self.mem, Address(page * (ps as u64)), ps)
                } else {
                    Err(Error::OutOfBounds)
                };
                match whole {
                    Ok(bytes) => {
                        let mut j: usize = 0;
                        while j < take
                            invariant
                                j <= take,
                                off + take <= ps,
                                bytes@.len() == ps,
                                out@ == before + bytes@.subrange(off as int, off + j),
                            decreases take - j,
                        {
                            out.push(bytes[off + j]);
                            assert(out@ =~= before + bytes@.subrange(off as int, off + j + 1));
                            j += 1;
                        }
                        let ghost lines_before = self.lines@;
                        let line = CacheLine { page, data: bytes, token };
                        proof {
                            assert(line_wf(line, slot as int, count as int, ps as int));
                            assert(line_current(line, device, map, ps as int));
                            lemma_part_of_page(device, map, base, ps as int, off as int, take as int);
                            if was_coherent {
                                lemma_bytes_join(device, map, addr@, done as int, take as int);
                            }
                        }
                        self.lines.set(slot, Some(line));
                        proof {
                            assert forall|s: int| 0 <= s < self.lines@.len() implies match #[trigger] self.lines@[s] {
                                Some(l) => line_wf(l, s, self.lines@.len() as int, self.page_size as int),
                                None => true,
                            } by {
                                if s != slot {
                                    assert(self.lines@[s] == lines_before[s]);
                                }
                            }
                            if was_coherent {
                                assert forall|s: int| 0 <= s < self.lines@.len() implies match #[trigger] self.lines@[s] {
                                    Some(l) => self.validator.accepts(l.token) ==> line_current(
                                        l,
                                        device,
                                        map,
                                        self.page_size as int,
                                    ),
                                    None => true,
                                } by {
                                    if s != slot {
                                        assert(self.lines@[s] == lines_before[s]);
                                    }
                                }
                            }
                        }
                    },
                    Err(_) => {
                        // the page cannot be read as a whole: read the part alone
                        match phys_read_raw(&mut self.mem, Address(cur), take) {
                            Ok(bytes) => {
                                out.extend_from_slice(bytes.as_slice());
                                proof {
                                    if was_coherent {
                                        lemma_bytes_join(device, map, addr@, done as int, take as int);
                                    }
                                }
                            },
                            Err(e) => {
                                proof {
                                    if was_coherent && dependable {
                                        lemma_unreadable_part(size, map, addr@, len as int, done as int, take as int);
                                    }
                                }
                                return Err(e);
                            },
                        }
                    },
                }
            }
            done = done + take;
        }
        Ok(out)
    }
}

impl<M: PhysicalMemory, Q: CacheValidator> PhysicalMemory for CachedMemoryAccess<M, Q> {
    open spec fn device(&self) -> Seq<u8> {
        self.mem.device()
    }

    open spec fn mem_map(&self) -> MapView {
        self.mem.mem_map()
    }

    open spec fn dependable(&self) -> bool {
        self.mem.dependable()
    }

    open spec fn inv(&self) -> bool {
        self.wf() && self.coherent()
    }

    fn phys_read_raw_list(&mut self, batch: &Vec<PhysicalReadData>) -> (out: Vec<Result<Vec<u8>>>) {
        let mut out: Vec<Result<Vec<u8>>> = Vec::new();
        let mut i: usize = 0;
        while i < batch.len()
            invariant
                i <= batch@.len(),
                out@.len() == i,
                self.wf(),
                self.coherent(),
                self.mem.device() == old(self).mem.device(),
                self.mem.mem_map() == old(self).mem.mem_map(),
                self.mem.dependable() == old(self).mem.dependable(),
                forall|k: int|
                    0 <= k < i ==> read_outcome(
                        old(self).mem.device(),
                        old(self).mem.mem_map(),
                        old(self).mem.dependable(),
                        batch@[k],
                        #[trigger] out@[k],
                    ),
            decreases batch@.len() - i,
        {
            let r = self.read_raw(batch[i].addr, batch[i].len);
            out.push(r);
            i += 1;
        }
        out
    }

    fn phys_write_raw_list(&mut self, batch: &Vec<PhysicalWriteData>) -> (out: Vec<Result<()>>) {
        let ghost before = self.mem.device();
        let out = self.mem.phys_write_raw_list(batch);
        if self.mem.has_mem_map() {
            self.flush();
        } else {
            self.patch_lines(batch, &out, Ghost(before));
        }
        out
    }

    fn has_mem_map(&self) -> (installed: bool) {
        self.mem.has_mem_map()
    }

    fn metadata(&self) -> (m: PhysicalMemoryMetadata) {
        self.mem.metadata()
    }

    fn set_mem_map(&mut self, map: MemoryMap) {
        self.mem.set_mem_map(map);
        self.flush();
    }
}

/// The bytes of a line after `data` has been written at `addr`: what was
/// written where the write touches the page that starts at `start`, the
/// bytes of the line elsewhere.
pub open spec fn patched_line(line: Seq<u8>, start: int, addr: int, data: Seq<u8>) -> Seq<u8> {
    Seq::new(
        line.len(),
        |j: int|
            if addr <= start + j < addr + data.len() {
                data[start + j - addr]
            } else {
                line[j]
            },
    )
}

/// Without a memory map a write that reaches the device changes the bytes
/// of its range to the data and no others.
pub proof fn lemma_written_unmapped(device: Seq<u8>, addr: int, data: Seq<u8>)
    requires
        readable(device.len() as int, None, addr, data.len() as int),
    ensures
        written(device, None, addr, data).len() == device.len(),
        forall|a: int|
            0 <= a < device.len() ==> #[trigger] written(device, None, addr, data)[a] == if addr
                <= a < addr + data.len() {
                data[a - addr]
            } else {
                device[a]
            },
{
    let addrs = real_seq(None, addr, data.len() as int);
    assert forall|j: int| 0 <= j < addrs.len() implies 0 <= #[trigger] addrs[j] < device.len() by {
        assert(accessible(device.len() as int, None, addr + j));
    }
    lemma_scattered(device, addrs, data);
    let after = written(device, None, addr, data);
    assert forall|a: int| 0 <= a < device.len() implies #[trigger] after[a] == if addr <= a < addr
        + data.len() {
        data[a - addr]
    } else {
        device[a]
    } by {
        if addr <= a < addr + data.len() {
            assert(addrs[a - addr] == a);
            assert(after[addrs[a - addr]] == data[a - addr]);
        } else {
            if addrs.contains(a) {
                let j = choose|j: int| 0 <= j < addrs.len() && addrs[j] == a;
                assert(false);
            }
        }
    }
}

/// A line that held what the device held on its page holds, once patched,
/// what the device holds there after the write.
pub proof fn lemma_patched_current(
    device: Seq<u8>,
    addr: int,
    data: Seq<u8>,
    start: int,
    page_size: int,
    line: Seq<u8>,
)
    requires
        readable(device.len() as int, None, addr, data.len() as int),
        0 <= start,
        0 < page_size,
        line.len() == page_size,
    ensures
        readable(device.len() as int, None, start, page_size) && line == bytes_at(
            device,
            None,
            start,
            page_size,
        ) ==> readable(
            written(device, None, addr, data).len() as int,
            None,
            start,
            page_size,
        ) && patched_line(line, start, addr, data) == bytes_at(
            written(device, None, addr, data),
            None,
            start,
            page_size,
        ),
{
    lemma_written_unmapped(device, addr, data);
    if readable(device.len() as int, None, start, page_size) && line == bytes_at(
        device,
        None,
        start,
        page_size,
    ) {
        let after = written(device, None, addr, data);
        assert forall|j: int| 0 <= j < page_size implies #[trigger] accessible(
            after.len() as int,
            None,
            start + j,
        ) by {
            assert(accessible(device.len() as int, None, start + j));
        }
        assert forall|j: int| 0 <= j < page_size implies patched_line(line, start, addr, data)[j]
            == bytes_at(after, None, start, page_size)[j] by {
            assert(accessible(device.len() as int, None, start + j));
            assert(after[start + j] == if addr <= start + j < addr + data.len() {
                data[start + j - addr]
            } else {
                device[start + j]
            });
        }
        assert(patched_line(line, start, addr, data) =~= bytes_at(after, None, start, page_size));
    }
}

/// A part of a readable page is readable, and its bytes are that part of
/// the bytes of the page.
pub proof fn lemma_part_of_page(
    device: Seq<u8>,
    map: MapView,
    base: int,
    page_size: int,
    off: int,
    take: int,
)
    requires
        0 <= off,
        0 <= take,
        off + take <= page_size,
        readable(device.len() as int, map, base, page_size),
    ensures
        readable(device.len() as int, map, base + off, take),
        bytes_at(device, map, base + off, take) == bytes_at(device, map, base, page_size).subrange(
            off,
            off + take,
        ),
{
    assert forall|j: int| 0 <= j < take implies #[trigger] accessible(
        device.len() as int,
        map,
        base + off + j,
    ) by {
        assert(accessible(device.len() as int, map, base + (off + j)));
    }
    assert(bytes_at(device, map, base + off, take) =~= bytes_at(device, map, base, page_size).subrange(
        off,
        off + take,
    ));
}

/// The bytes of a request are those of its front part followed by those of
/// the part after it, and it is readable where both parts are.
pub proof fn lemma_bytes_join(device: Seq<u8>, map: MapView, addr: int, done: int, take: int)
    requires
        0 <= done,
        0 <= take,
    ensures
        bytes_at(device, map, addr, done + take) == bytes_at(device, map, addr, done) + bytes_at(
            device,
            map,
            addr + done,
            take,
        ),
        readable(device.len() as int, map, addr, done) && readable(
            device.len() as int,
            map,
            addr + done,
            take,
        ) ==> readable(device.len() as int, map, addr, done + take),
{
    assert(bytes_at(device, map, addr, done + take) =~= bytes_at(device, map, addr, done)
        + bytes_at(device, map, addr + done, take));
    if readable(device.len() as int, map, addr, done) && readable(
        device.len() as int,
        map,
        addr + done,
        take,
    ) {
        assert forall|j: int| 0 <= j < done + take implies #[trigger] accessible(
            device.len() as int,
            map,
            addr + j,
        ) by {
            if j >= done {
                assert(accessible(device.len() as int, map, addr + done + (j - done)));
            }
        }
    }
}

/// A request with a part that is not readable is not readable.
pub proof fn lemma_unreadable_part(size: int, map: MapView, addr: int, len: int, done: int, take: int)
    requires
        0 <= done,
        0 <= take,
        done + take <= len,
        !readable(size, map, addr + done, take),
    ensures
        !readable(size, map, addr, len),
{
    let j = choose|j: int| 0 <= j < take && !#[trigger] accessible(size, map, addr + done + j);
    assert(!accessible(size, map, addr + (done + j)));
}

} // verus!
