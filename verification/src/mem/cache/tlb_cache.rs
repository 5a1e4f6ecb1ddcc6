//! A cache of translations over a translator.
//!
//! An entry remembers where one page of one address space lies. It is keyed
//! by the directory base and the page, and served while the validator
//! accepts the token it was stamped with. Page tables that change behind
//! the cache leave stale entries until the validator lets them expire.

use crate::architecture::{low_mask, mask_of, Architecture};
use crate::error::{Error, Result};
use crate::mem::cache::validator::CacheValidator;
use crate::mem::phys::{MapView, PhysicalMemory};
use crate::mem::virt_translate::{
    lemma_walk_same_page, page_base, page_offset, translate_outcome, translation, TranslateRequest,
    VirtualTranslate,
};
use crate::types::address::Address;
use vstd::prelude::*;

verus! {

/// One remembered translation.
#[derive(Clone, Copy, Debug, PartialEq, Eq, Structural)]
pub struct TlbEntry {
    /// The directory base of the address space.
    pub dtb: u64,
    /// The first virtual address of the page.
    pub vpage: u64,
    /// The physical address of the first address of the page.
    pub frame: u64,
    /// The validator's token from the time the entry was installed.
    pub token: u64,
}

/// A translator with a cache of translations in front of it.
pub struct CachedVirtualTranslate<V: VirtualTranslate, Q: CacheValidator> {
    pub vat: V,
    pub validator: Q,
    pub arch: Architecture,
    pub entries: Vec<Option<TlbEntry>>,
}

/// Whether an entry says what the page tables on the device say.
pub open spec fn entry_current(
    entry: TlbEntry,
    device: Seq<u8>,
    map: MapView,
    arch: Architecture,
) -> bool {
    &&& entry.vpage == page_base(arch, entry.vpage)
    &&& translation(
        device,
        map,
        arch,
        TranslateRequest { dtb: Address(entry.dtb), vaddr: Address(entry.vpage) },
    ) == Ok::<Address, Error>(Address(entry.frame))
}

/// How many of the first `i` lookups missed.
pub open spec fn miss_count(hits: Seq<Option<Address>>, i: int) -> int
    decreases i,
{
    if i <= 0 {
        0
    } else {
        miss_count(hits, i - 1) + if hits[i - 1].is_none() {
            1int
        } else {
            0int
        }
    }
}

/// The count of misses among the first `i` lookups depends on those
/// lookups alone, and grows with `i`.
proof fn lemma_miss_count(a: Seq<Option<Address>>, b: Seq<Option<Address>>, i: int, j: int)
    requires
        0 <= i <= j,
        i <= a.len(),
        i <= b.len(),
        forall|k: int| 0 <= k < i ==> a[k] == b[k],
    ensures
        miss_count(a, i) == miss_count(b, i),
        0 <= miss_count(a, i) <= miss_count(a, j),
        miss_count(a, i) <= i,
    decreases j,
{
    if i > 0 {
        lemma_miss_count(a, b, i - 1, i - 1);
    }
    if j > i {
        lemma_miss_count(a, b, i, j - 1);
    }
}

/// The frame of the page `vpage` of the address space `dtb` as `entry`
/// remembers it, with the token to ask the validator about before it is
/// served. An entry that is empty or remembers another page serves nothing.
pub fn entry_frame(entry: &Option<TlbEntry>, dtb: u64, vpage: u64) -> (found: Option<(u64, u64)>)
    ensures
        found == match *entry {
            Some(e) => if e.dtb == dtb && e.vpage == vpage {
                Some((e.frame, e.token))
            } else {
                None
            },
            None => None,
        },
{
    match entry {
        Some(e) => if e.dtb == dtb && e.vpage == vpage {
            Some((e.frame, e.token))
        } else {
            None
        },
        None => None,
    }
}

impl<V: VirtualTranslate, Q: CacheValidator> CachedVirtualTranslate<V, Q> {
    /// A cache of `entries` translations for the scheme `arch` over `vat`.
    /// It has room for at least one.
    pub fn new(vat: V, validator: Q, arch: Architecture, entries: usize) -> (cache: Self)
        requires
            vat.inv(),
            validator.inv(),
            arch.wf(),
        ensures
            cache.inv(),
            cache.vat == vat,
            cache.validator == validator,
            cache.arch == arch,
            cache.entries@.len() == if entries > 0 {
                entries
            } else {
                1
            },
            forall|s: int| 0 <= s < cache.entries@.len() ==> (#[trigger] cache.entries@[s]).is_none(),
    {
        let count = if entries > 0 {
            entries
        } else {
            1
        };
        let mut slots: Vec<Option<TlbEntry>> = Vec::new();
        let mut i: usize = 0;
        while i < count
            invariant
                i <= count,
                slots@.len() == i,
                forall|s: int| 0 <= s < i ==> (#[trigger] slots@[s]).is_none(),
            decreases count - i,
        {
            slots.push(None);
            i += 1;
        }
        CachedVirtualTranslate { vat, validator, arch, entries: slots }
    }

    /// Whether every entry that `validator` accepts says what the page
    /// tables on the device say.
    pub open spec fn entries_current_under(
        &self,
        validator: Q,
        device: Seq<u8>,
        map: MapView,
    ) -> bool {
        forall|s: int|
            0 <= s < self.entries@.len() ==> match #[trigger] self.entries@[s] {
                Some(entry) => validator.accepts(entry.token) ==> entry_current(
                    entry,
                    device,
                    map,
                    self.arch,
                ),
                None => true,
            }
    }

    /// Whether every entry that the validator accepts says what the page
    /// tables on the device say. An entry that has expired may say
    /// anything: it is not served.
    pub open spec fn entries_current(&self, device: Seq<u8>, map: MapView) -> bool {
        self.entries_current_under(self.validator, device, map)
    }

    /// Where the entry for the page of `vaddr` would lie.
    pub open spec fn spec_slot(&self, vaddr: u64) -> int {
        ((page_base(self.arch, vaddr) >> (self.arch.page_bits as u64)) as int) % (
        self.entries@.len() as int)
    }

    /// The answer that a request is given from the cache alone: the entry
    /// at its place remembers its page, and `validator` accepts the entry.
    pub open spec fn cached_answer(&self, validator: Q, req: TranslateRequest) -> Option<Address> {
        match self.entries@[self.spec_slot(req.vaddr.0)] {
            Some(e) => if e.dtb == req.dtb.0 && e.vpage == page_base(self.arch, req.vaddr.0)
                && validator.accepts(e.token) {
                Some(Address(e.frame | page_offset(self.arch, req.vaddr.0)))
            } else {
                None
            },
            None => None,
        }
    }

    /// Whether no request of the batch after request `i` and before request
    /// `upto` has its entry at the place of the entry of request `i`.
    pub open spec fn last_in_slot(&self, batch: Seq<TranslateRequest>, i: int, upto: int) -> bool {
        forall|j: int|
            i < j < upto ==> self.spec_slot((#[trigger] batch[j]).vaddr.0) != self.spec_slot(
                batch[i].vaddr.0,
            )
    }

    /// Whether every request of the batch is answered from the cache alone.
    pub open spec fn all_cached(&self, validator: Q, batch: Seq<TranslateRequest>) -> bool {
        forall|i: int|
            0 <= i < batch.len() ==> (#[trigger] self.cached_answer(validator, batch[i])).is_some()
    }

    /// A cache whose entries have all expired agrees with any page tables.
    pub proof fn lemma_expired_is_current(&self, device: Seq<u8>, map: MapView)
        requires
            forall|s: int|
                0 <= s < self.entries@.len() ==> match #[trigger] self.entries@[s] {
                    Some(entry) => !self.validator.accepts(entry.token),
                    None => true,
                },
        ensures
            self.entries_current(device, map),
    {
    }

    /// Drops every entry.
    pub fn flush(&mut self)
        requires
            old(self).inv(),
        ensures
            final(self).inv(),
            final(self).vat == old(self).vat,
            final(self).validator == old(self).validator,
            final(self).arch == old(self).arch,
            final(self).entries@.len() == old(self).entries@.len(),
            forall|s: int|
                0 <= s < final(self).entries@.len() ==> (#[trigger] final(self).entries@[s]).is_none(),
    {
        let count = self.entries.len();
        let mut i: usize = 0;
        while i < count
            invariant
                i <= count,
                count == self.entries@.len(),
                self.vat == old(self).vat,
                self.validator == old(self).validator,
                self.arch == old(self).arch,
                forall|s: int| 0 <= s < i ==> (#[trigger] self.entries@[s]).is_none(),
            decreases count - i,
        {
            self.entries.set(i, None);
            i += 1;
        }
    }
}

impl<V: VirtualTranslate, Q: CacheValidator> CachedVirtualTranslate<V, Q> {
    /// Translates each request of the batch, from the entries where the
    /// validator accepts them and through the translator where it does
    /// not. `out[i]` is what came of `batch[i]`. The validity is updated
    /// once, before anything is looked up, and it is the validator as it
    /// then stands that decides. A request whose entry is accepted is
    /// answered from that entry; where all are, neither the translator nor
    /// the provider is asked. A request that misses and is translated has
    /// its translation installed with a token that the validator accepts:
    /// unless a later request of the batch takes its place, the cache then
    /// answers the request as it was answered.
    pub fn translate_list<M: PhysicalMemory>(
        &mut self,
        mem: &mut M,
        arch: &Architecture,
        batch: &Vec<TranslateRequest>,
    ) -> (out: Vec<Result<Address>>)
        requires
            old(self).inv(),
            old(mem).inv(),
            arch.wf(),
        ensures
            final(self).inv(),
            final(mem).inv(),
            final(mem).device() == old(mem).device(),
            final(mem).mem_map() == old(mem).mem_map(),
            final(mem).dependable() == old(mem).dependable(),
            final(self).arch == old(self).arch,
            final(self).entries@.len() == old(self).entries@.len(),
            out@.len() == batch@.len(),
            forall|t: u64|
                #[trigger] final(self).validator.accepts(t) ==> old(self).validator.accepts(t),
            old(self).vat.coherent(old(mem).device(), old(mem).mem_map(), *arch) && (*arch == old(
                self,
            ).arch ==> old(self).entries_current_under(
                final(self).validator,
                old(mem).device(),
                old(mem).mem_map(),
            )) ==> {
                &&& final(self).coherent(old(mem).device(), old(mem).mem_map(), *arch)
                &&& forall|i: int|
                    0 <= i < batch@.len() ==> translate_outcome(
                        old(mem).device(),
                        old(mem).mem_map(),
                        old(mem).dependable(),
                        *arch,
                        batch@[i],
                        #[trigger] out@[i],
                    )
            },
            *arch == old(self).arch ==> forall|i: int|
                0 <= i < batch@.len() ==> (old(self).cached_answer(
                    final(self).validator,
                    #[trigger] batch@[i],
                ) matches Some(a) ==> out@[i] == Ok::<Address, Error>(a)),
            *arch == old(self).arch && old(self).all_cached(final(self).validator, batch@) ==> {
                &&& *final(mem) == *old(mem)
                &&& final(self).vat == old(self).vat
                &&& final(self).entries == old(self).entries
            },
            *arch == old(self).arch ==> forall|i: int|
                0 <= i < batch@.len() ==> (old(self).cached_answer(
                    final(self).validator,
                    #[trigger] batch@[i],
                ).is_none() && out@[i].is_ok() && old(self).last_in_slot(
                    batch@,
                    i,
                    batch@.len() as int,
                ) ==> final(self).cached_answer(final(self).validator, batch@[i]) == Some(
                    out@[i]->Ok_0,
                )),
    {
        if *arch != self.arch {
            // the entries are for another scheme: ask the translator
            return self.vat.virt_to_phys_list(mem, arch, batch);
        }
        let ghost device = mem.device();
        let ghost map = mem.mem_map();
        let ghost dependable = mem.dependable();
        let token = self.validator.update_validity();
        let ghost updated = *self;
        let ghost validator = self.validator;
        let ghost was_coherent = self.coherent(device, map, *arch);
        assert(updated.entries == old(self).entries);
        assert(was_coherent == (old(self).vat.coherent(device, map, *arch) && old(
            self,
        ).entries_current_under(validator, device, map)));
        let mask = mask_of(arch.page_bits);
        let n = batch.len();
        let count = self.entries.len();
        let mut hits: Vec<Option<Address>> = Vec::new();
        let mut misses: Vec<TranslateRequest> = Vec::new();
        let mut i: usize = 0;
        while i < n
            invariant
                i <= n,
                n == batch@.len(),
                count == self.entries@.len(),
                count > 0,
                arch.wf(),
                *arch == self.arch,
                *self == updated,
                validator == updated.validator,
                *mem == *old(mem),
                self.inv(),
                mask == low_mask(arch.page_bits),
                was_coherent ==> self.coherent(device, map, *arch),
                forall|k: int|
                    0 <= k < i ==> #[trigger] hits@[k] == updated.cached_answer(
                        validator,
                        batch@[k],
                    ),
                hits@.len() == i,
                misses@.len() == miss_count(hits@, i as int),
                forall|k: int|
                    0 <= k < i ==> match #[trigger] hits@[k] {
                        Some(a) => was_coherent ==> translate_outcome(
                            device,
                            map,
                            dependable,
                            *arch,
                            batch@[k],
                            Ok(a),
                        ),
                        None => misses@[miss_count(hits@, k)] == (TranslateRequest {
                            dtb: batch@[k].dtb,
                            vaddr: Address(page_base(*arch, batch@[k].vaddr.0)),
                        }),
                    },
            decreases n - i,
        {
            let req = batch[i];
            let base: u64 = req.vaddr.0 & !mask;
            let off: u64 = req.vaddr.0 & mask;
            let slot: usize = ((base >> (arch.page_bits as u64)) % (count as u64)) as usize;
            let hit = match entry_frame(&self.entries[slot], req.dtb.0, base) {
                Some((frame, token)) => {
                    if self.validator.is_valid(token) {
                        proof {
                            if was_coherent {
                                assert(self.validator.accepts(token));
                                assert(entry_current(self.entries@[slot as int]->0, device, map, *arch));
                                lemma_walk_same_page(device, map, *arch, req.dtb.0, req.vaddr.0, 0);
                            }
                        }
                        Some(Address(frame | off))
                    } else {
                        None
                    }
                },
                None => None,
            };
            let ghost hits_before = hits@;
            let ghost misses_before = misses@;
            if hit.is_none() {
                misses.push(TranslateRequest { dtb: req.dtb, vaddr: Address(base) });
            }
            hits.push(hit);
            proof {
                assert(base == page_base(*arch, req.vaddr.0));
                assert(off == page_offset(*arch, req.vaddr.0));
                assert(slot as int == updated.spec_slot(req.vaddr.0));
                assert(hit == updated.cached_answer(validator, batch@[i as int]));
                assert forall|k: int| 0 <= k < i + 1 implies #[trigger] hits@[k]
                    == updated.cached_answer(validator, batch@[k]) by {
                    if k < i {
                        assert(hits@[k] == hits_before[k]);
                    }
                }
                assert forall|k: int| 0 <= k <= i implies miss_count(hits@, k) == miss_count(
                    hits_before,
                    k,
                ) by {
                    lemma_miss_count(hits@, hits_before, k, k);
                }
                assert forall|k: int| 0 <= k < i + 1 implies match #[trigger] hits@[k] {
                    Some(a) => was_coherent ==> translate_outcome(
                        device,
                        map,
                        dependable,
                        *arch,
                        batch@[k],
                        Ok(a),
                    ),
                    None => misses@[miss_count(hits@, k)] == (TranslateRequest {
                        dtb: batch@[k].dtb,
                        vaddr: Address(page_base(*arch, batch@[k].vaddr.0)),
                    }),
                } by {
                    if k < i {
                        assert(hits@[k] == hits_before[k]);
                        lemma_miss_count(hits_before, hits_before, k, i as int);
                        if hits_before[k].is_none() {
                            lemma_miss_count(hits_before, hits_before, k + 1, i as int);
                            assert(misses@[miss_count(hits@, k)] == misses_before[miss_count(
                                hits_before,
                                k,
                            )]);
                        }
                    }
                }
            }
            i += 1;
        }
        proof {
            if updated.all_cached(validator, batch@) {
                assert forall|k: int| 0 <= k < n implies (#[trigger] hits@[k]).is_some() by {
                    assert(updated.cached_answer(validator, batch@[k]).is_some());
                }
                lemma_no_miss(hits@, n as int);
            }
        }
        let answers = if misses.len() == 0 {
            Vec::new()
        } else {
            self.vat.virt_to_phys_list(mem, arch, &misses)
        };
        let ghost all = updated.all_cached(validator, batch@);
        proof {
            assert forall|k: int| 0 <= k < batch@.len() implies old(self).cached_answer(
                validator,
                batch@[k],
            ) == updated.cached_answer(validator, batch@[k]) by {}
            assert(all == old(self).all_cached(validator, batch@));
        }
        let mut out: Vec<Result<Address>> = Vec::new();
        let mut m: usize = 0;
        let mut i: usize = 0;
        while i < n
            invariant
                i <= n,
                n == batch@.len(),
                count == self.entries@.len(),
                count > 0,
                arch.wf(),
                *arch == self.arch,
                self.inv(),
                self.validator == updated.validator,
                self.arch == updated.arch,
                updated.validator.accepts(token),
                mask == low_mask(arch.page_bits),
                was_coherent ==> self.coherent(device, map, *arch),
                all ==> *mem == *old(mem) && self.vat == updated.vat && forall|k: int|
                    0 <= k < n ==> (#[trigger] hits@[k]).is_some(),
                all ==> self.entries == updated.entries,
                all == old(self).all_cached(validator, batch@),
                validator == updated.validator,
                updated.entries@.len() == count,
                updated.entries == old(self).entries,
                updated.vat == old(self).vat,
                updated.arch == old(self).arch,
                forall|k: int|
                    0 <= k < n ==> #[trigger] hits@[k] == updated.cached_answer(
                        validator,
                        batch@[k],
                    ),
                forall|k: int|
                    0 <= k < i ==> (hits@[k] matches Some(a) ==> #[trigger] out@[k] == Ok::<
                        Address,
                        Error,
                    >(a)),
                forall|k: int|
                    0 <= k < i ==> ((#[trigger] hits@[k]).is_none() && out@[k].is_ok()
                        && updated.last_in_slot(batch@, k, i as int) ==> self.cached_answer(
                        validator,
                        batch@[k],
                    ) == Some(out@[k]->Ok_0)),
                hits@.len() == n,
                misses@.len() == miss_count(hits@, n as int),
                answers@.len() == misses@.len(),
                m == miss_count(hits@, i as int),
                out@.len() == i,
                forall|k: int|
                    0 <= k < n ==> match #[trigger] hits@[k] {
                        Some(a) => was_coherent ==> translate_outcome(
                            device,
                            map,
                            dependable,
                            *arch,
                            batch@[k],
                            Ok(a),
                        ),
                        None => misses@[miss_count(hits@, k)] == (TranslateRequest {
                            dtb: batch@[k].dtb,
                            vaddr: Address(page_base(*arch, batch@[k].vaddr.0)),
                        }),
                    },
                was_coherent ==> forall|k: int|
                    0 <= k < misses@.len() ==> translate_outcome(
                        device,
                        map,
                        dependable,
                        *arch,
                        misses@[k],
                        #[trigger] answers@[k],
                    ),
                was_coherent ==> forall|k: int|
                    0 <= k < i ==> translate_outcome(
                        device,
                        map,
                        dependable,
                        *arch,
                        batch@[k],
                        #[trigger] out@[k],
                    ),
            decreases n - i,
        {
            let req = batch[i];
            let ghost hit = hits@[i as int];
            let ghost entries_at_start = self.entries@;
            let ghost self_at_start = *self;
            proof {
                lemma_miss_count(hits@, hits@, i + 1, n as int);
            }
            let res = match hits[i] {
                Some(a) => Ok(a),
                None => {
                    let base: u64 = req.vaddr.0 & !mask;
                    let off: u64 = req.vaddr.0 & mask;
                    let answer = answers[m];
                    proof {
                        assert(misses@[m as int] == (TranslateRequest {
                            dtb: req.dtb,
                            vaddr: Address(page_base(*arch, req.vaddr.0)),
                        }));
                        lemma_walk_same_page(device, map, *arch, req.dtb.0, req.vaddr.0, 0);
                        lemma_base_of_base(req.vaddr.0, arch.page_bits);
                    }
                    m += 1;
                    match answer {
                        Ok(q) => {
                            let slot: usize = ((base >> (arch.page_bits as u64)) % (
                            count as u64)) as usize;
                            let ghost entries_before = self.entries@;
                            let entry = TlbEntry { dtb: req.dtb.0, vpage: base, frame: q.0, token };
                            self.entries.set(slot, Some(entry));
                            proof {
                                assert(base == page_base(*arch, req.vaddr.0));
                                assert(off == page_offset(*arch, req.vaddr.0));
                                assert(slot as int == updated.spec_slot(req.vaddr.0));
                                assert(self.entries@ == entries_before.update(
                                    slot as int,
                                    Some(entry),
                                ));
                                assert(self.cached_answer(validator, req) == Some(
                                    Address(q.0 | off),
                                ));
                                if was_coherent {
                                    assert(entry_current(entry, device, map, *arch));
                                    assert forall|s: int|
                                        0 <= s < self.entries@.len() implies match #[trigger] self.entries@[s] {
                                        Some(e) => self.validator.accepts(e.token) ==> entry_current(
                                            e,
                                            device,
                                            map,
                                            self.arch,
                                        ),
                                        None => true,
                                    } by {
                                        if s != slot {
                                            assert(self.entries@[s] == entries_before[s]);
                                        }
                                    }
                                }
                            }
                            Ok(Address(q.0 | off))
                        },
                        Err(e) => Err(e),
                    }
                },
            };
            let ghost out_before = out@;
            out.push(res);
            proof {
                let slot_i = updated.spec_slot(req.vaddr.0);
                assert(forall|s: int|
                    0 <= s < self.entries@.len() && s != slot_i ==> self.entries@[s]
                        == entries_at_start[s]);
                assert(hits@[i as int].is_some() || res.is_err() ==> self.entries@
                    == entries_at_start);
                assert forall|k: int| 0 <= k < i + 1 implies ((#[trigger] hits@[k]).is_none()
                    && out@[k].is_ok() && updated.last_in_slot(batch@, k, i + 1)
                    ==> self.cached_answer(validator, batch@[k]) == Some(out@[k]->Ok_0)) by {
                    if hits@[k].is_none() && out@[k].is_ok() && updated.last_in_slot(
                        batch@,
                        k,
                        i + 1,
                    ) {
                        if k < i {
                            assert(out@[k] == out_before[k]);
                            assert(updated.last_in_slot(batch@, k, i as int));
                            assert(self_at_start.cached_answer(validator, batch@[k]) == Some(
                                out@[k]->Ok_0,
                            ));
                            let slot_k = updated.spec_slot(batch@[k].vaddr.0);
                            assert(self.spec_slot(batch@[k].vaddr.0) == slot_k);
                            assert(self_at_start.spec_slot(batch@[k].vaddr.0) == slot_k);
                            if self.entries@ != entries_at_start {
                                assert(batch@[i as int] == req);
                                assert(slot_k != slot_i);
                            }
                            assert(self.entries@[slot_k] == entries_at_start[slot_k]);
                        } else {
                            assert(out@[k] == res);
                        }
                    }
                }
                assert forall|k: int| 0 <= k < i + 1 implies (hits@[k] matches Some(a)
                    ==> #[trigger] out@[k] == Ok::<Address, Error>(a)) by {
                    if k < i {
                        assert(out@[k] == out_before[k]);
                    }
                }
                if was_coherent {
                    assert forall|k: int| 0 <= k < i + 1 implies translate_outcome(
                        device,
                        map,
                        dependable,
                        *arch,
                        batch@[k],
                        #[trigger] out@[k],
                    ) by {
                        if k < i {
                            assert(out@[k] == out_before[k]);
                        }
                    }
                }
            }
            i += 1;
        }
        out
    }
}

impl<V: VirtualTranslate, Q: CacheValidator> VirtualTranslate for CachedVirtualTranslate<V, Q> {
    open spec fn inv(&self) -> bool {
        &&& self.vat.inv()
        &&& self.validator.inv()
        &&& self.arch.wf()
        &&& self.entries@.len() > 0
    }

    open spec fn coherent(&self, device: Seq<u8>, map: MapView, arch: Architecture) -> bool {
        &&& self.vat.coherent(device, map, arch)
        &&& arch == self.arch ==> self.entries_current(device, map)
    }

    fn virt_to_phys_list<M: PhysicalMemory>(
        &mut self,
        mem: &mut M,
        arch: &Architecture,
        batch: &Vec<TranslateRequest>,
    ) -> (out: Vec<Result<Address>>) {
        self.translate_list(mem, arch, batch)
    }
}

/// Where every lookup hit, none missed.
proof fn lemma_no_miss(hits: Seq<Option<Address>>, i: int)
    requires
        0 <= i <= hits.len(),
        forall|k: int| 0 <= k < i ==> (#[trigger] hits[k]).is_some(),
    ensures
        miss_count(hits, i) == 0,
    decreases i,
{
    if i > 0 {
        lemma_no_miss(hits, i - 1);
    }
}

/// The first address of a page is the first address of its own page.
proof fn lemma_base_of_base(v: u64, page_bits: u8)
    requires
        page_bits < 64,
    ensures
        (v & !low_mask(page_bits)) & !low_mask(page_bits) == v & !low_mask(page_bits),
{
    let m = low_mask(page_bits);
    assert((v & !m) & !m == v & !m) by (bit_vector);
}

} // verus!
