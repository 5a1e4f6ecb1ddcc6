//! Translation of virtual addresses by walking the target's page tables.
//!
//! The walk starts at the directory base and reads one entry per level
//! through the physical provider. Requests are translated in batches: all
//! entries of one level are read in one call of the provider.

use crate::architecture::{low_mask, Architecture, EntryKind};
use crate::error::{Error, Result};
use crate::mem::phys::{
    bytes_at, read_outcome, readable, MapView, PhysicalMemory, PhysicalReadData,
};
use crate::types::address::Address;
use crate::dataview::{le_value, read_u32_le, read_u64_le};
use vstd::prelude::*;

verus! {

/// One translation to make: a virtual address in the address space whose
/// top-level table `dtb` points to.
#[derive(Clone, Copy, Debug, PartialEq, Eq, Structural)]
pub struct TranslateRequest {
    pub dtb: Address,
    pub vaddr: Address,
}

/// The rest of a walk: from the table at `level` that `value` points to,
/// down to the physical address of `vaddr` or to the reason why it has none.
pub open spec fn walk(
    device: Seq<u8>,
    map: MapView,
    arch: Architecture,
    value: u64,
    vaddr: u64,
    level: int,
) -> Result<Address>
    decreases arch.levels - level,
{
    if level < 0 || level >= arch.levels {
        Err(Error::InvalidPageTable)
    } else if arch.spec_entry_address(value, vaddr, level) + arch.pte_size > device.len() {
        Err(Error::InvalidPageTable)
    } else if !readable(
        device.len() as int,
        map,
        arch.spec_entry_address(value, vaddr, level),
        arch.pte_size as int,
    ) {
        Err(Error::OutOfBounds)
    } else {
        let entry = le_value(
            bytes_at(
                device,
                map,
                arch.spec_entry_address(value, vaddr, level),
                arch.pte_size as int,
            ),
        ) as u64;
        match arch.spec_entry_kind(entry, level) {
            EntryKind::NotPresent => Err(Error::PageNotPresent),
            EntryKind::Malformed => Err(Error::InvalidPageTable),
            EntryKind::Leaf => Ok(Address(arch.spec_page_address(entry, vaddr, level))),
            EntryKind::Table => walk(device, map, arch, entry, vaddr, level + 1),
        }
    }
}

/// The physical address that the page tables give to a virtual address, or
/// the reason why they give none. An entry that lies beyond the end of the
/// device, or whose form its level does not allow, makes the tables
/// invalid; an entry that is not present ends the walk at once.
pub open spec fn translation(
    device: Seq<u8>,
    map: MapView,
    arch: Architecture,
    req: TranslateRequest,
) -> Result<Address> {
    walk(device, map, arch, req.dtb.0, req.vaddr.0, 0)
}

/// The first address of the smallest page that holds `vaddr`.
pub open spec fn page_base(arch: Architecture, vaddr: u64) -> u64 {
    vaddr & !low_mask(arch.page_bits)
}

/// The place of `vaddr` within its smallest page.
pub open spec fn page_offset(arch: Architecture, vaddr: u64) -> u64 {
    vaddr & low_mask(arch.page_bits)
}

/// Bits at or above the shift of a level are those of the page base, and a
/// leaf places an address where it places the page base, moved by the
/// offset within the page.
proof fn lemma_page_bits(v: u64, entry_part: u64, pb: u64, shift: u64, mask: u64)
    requires
        pb <= shift < 64,
    ensures
        ((v >> shift) & mask) == (((v & !(((1u64 << pb) - 1) as u64)) >> shift) & mask),
        ((entry_part & !(((1u64 << shift) - 1) as u64)) | (v & (((1u64 << shift) - 1) as u64)))
            == (((entry_part & !(((1u64 << shift) - 1) as u64)) | ((v & !(((1u64 << pb) - 1) as u64))
            & (((1u64 << shift) - 1) as u64))) | (v & (((1u64 << pb) - 1) as u64))),
{
    assert(((v >> shift) & mask) == (((v & !(((1u64 << pb) - 1) as u64)) >> shift) & mask))
        by (bit_vector)
        requires
            pb <= shift < 64,
    ;
    assert(((entry_part & !(((1u64 << shift) - 1) as u64)) | (v & (((1u64 << shift) - 1) as u64)))
        == (((entry_part & !(((1u64 << shift) - 1) as u64)) | ((v & !(((1u64 << pb) - 1) as u64))
        & (((1u64 << shift) - 1) as u64))) | (v & (((1u64 << pb) - 1) as u64)))) by (bit_vector)
        requires
            pb <= shift < 64,
    ;
}

/// Where a level of a well-formed scheme starts in a virtual address.
proof fn lemma_shift_bounds(arch: Architecture, level: int)
    requires
        arch.wf(),
        0 <= level < arch.levels,
    ensures
        arch.page_bits <= arch.spec_shift(level) < 64,
{
    let below = arch.levels - 1 - level;
    assert(0 <= arch.index_bits * below <= 39) by (nonlinear_arith)
        requires
            0 <= below <= 3,
            1 <= arch.index_bits <= 13,
    ;
}

/// All addresses of one smallest page are translated alike: the walk for an
/// address is the walk for the first address of its page, and a physical
/// address found is moved by the offset within the page.
pub proof fn lemma_walk_same_page(
    device: Seq<u8>,
    map: MapView,
    arch: Architecture,
    value: u64,
    vaddr: u64,
    level: int,
)
    requires
        arch.wf(),
        0 <= level,
    ensures
        walk(device, map, arch, value, vaddr, level) == match walk(
            device,
            map,
            arch,
            value,
            page_base(arch, vaddr),
            level,
        ) {
            Ok(p) => Ok::<Address, Error>(Address(p.0 | page_offset(arch, vaddr))),
            Err(e) => Err::<Address, Error>(e),
        },
    decreases arch.levels - level,
{
    if level < arch.levels {
        let base = page_base(arch, vaddr);
        lemma_shift_bounds(arch, level);
        let shift = arch.spec_shift(level) as u64;
        let pb = arch.page_bits as u64;
        let mask = low_mask(arch.spec_index_width(level) as u8);
        assert(low_mask(arch.page_bits) == ((1u64 << pb) - 1) as u64);
        assert(low_mask(arch.spec_shift(level) as u8) == ((1u64 << shift) - 1) as u64);
        assert(arch.spec_index(vaddr, level) == arch.spec_index(base, level)) by {
            lemma_page_bits(vaddr, 0, pb, shift, mask);
        }
        let at = arch.spec_entry_address(value, vaddr, level);
        assert(at == arch.spec_entry_address(value, base, level));
        if at + arch.pte_size <= device.len() && readable(
            device.len() as int,
            map,
            at,
            arch.pte_size as int,
        ) {
            let entry = le_value(bytes_at(device, map, at, arch.pte_size as int)) as u64;
            match arch.spec_entry_kind(entry, level) {
                EntryKind::Leaf => {
                    lemma_page_bits(vaddr, entry & low_mask(arch.phys_bits), pb, shift, mask);
                },
                EntryKind::Table => {
                    lemma_walk_same_page(device, map, arch, entry, vaddr, level + 1);
                },
                _ => {},
            }
        }
    }
}

/// What may come of one translation. Success is the translation that the
/// page tables give. Over a dependable provider a failure is the one that
/// the page tables give too.
pub open spec fn translate_outcome(
    device: Seq<u8>,
    map: MapView,
    dependable: bool,
    arch: Architecture,
    req: TranslateRequest,
    res: Result<Address>,
) -> bool {
    match res {
        Ok(_) => translation(device, map, arch, req) == res,
        Err(_) => dependable ==> translation(device, map, arch, req) == res,
    }
}

/// Where one walk of a batch stands.
#[derive(Clone, Copy)]
enum WalkState {
    /// The table of the next level lies where this value points to.
    Pending(u64),
    /// The walk has ended.
    Done(Result<Address>),
}

/// Whether the state of a walk at `level` agrees with what the page tables
/// say of the request.
spec fn state_agrees(
    device: Seq<u8>,
    map: MapView,
    dependable: bool,
    arch: Architecture,
    req: TranslateRequest,
    level: int,
    state: WalkState,
) -> bool {
    match state {
        WalkState::Pending(value) => translation(device, map, arch, req) == walk(
            device,
            map,
            arch,
            value,
            req.vaddr.0,
            level,
        ),
        WalkState::Done(res) => translate_outcome(device, map, dependable, arch, req, res),
    }
}

/// How many of the first `i` walks go on.
spec fn pending_count(states: Seq<WalkState>, i: int) -> int
    decreases i,
{
    if i <= 0 {
        0
    } else {
        pending_count(states, i - 1) + if states[i - 1] is Pending {
            1int
        } else {
            0int
        }
    }
}

/// The count of walks that go on among the first `i` depends on those walks
/// alone, and grows with `i`.
proof fn lemma_pending_count(a: Seq<WalkState>, b: Seq<WalkState>, i: int, j: int)
    requires
        0 <= i <= j,
        i <= a.len(),
        i <= b.len(),
        forall|k: int| 0 <= k < i ==> a[k] == b[k],
    ensures
        pending_count(a, i) == pending_count(b, i),
        0 <= pending_count(a, i) <= pending_count(a, j),
        pending_count(a, i) <= i,
        i < j && a[i] is Pending ==> pending_count(a, i) < pending_count(a, j),
    decreases j,
{
    if i > 0 {
        lemma_pending_count(a, b, i - 1, i - 1);
    }
    if j > i {
        lemma_pending_count(a, b, i, j - 1);
    }
}

/// Whether the read at position `at` of `reads` asks for the entry that a
/// walk which goes on needs at `level`, and that entry lies within the
/// device.
spec fn planned(
    arch: Architecture,
    size: int,
    level: int,
    req: TranslateRequest,
    state: WalkState,
    reads: Seq<PhysicalReadData>,
    at: int,
) -> bool {
    match state {
        WalkState::Pending(value) => {
            &&& 0 <= at < reads.len()
            &&& reads[at].addr@ == arch.spec_entry_address(value, req.vaddr.0, level)
            &&& reads[at].len == arch.pte_size
            &&& arch.spec_entry_address(value, req.vaddr.0, level) + arch.pte_size <= size
        },
        WalkState::Done(_) => true,
    }
}

/// The little-endian number in the four or eight bytes of a page-table
/// entry.
fn decode_entry(bytes: &Vec<u8>, pte_size: u8) -> (entry: u64)
    requires
        pte_size == 4 || pte_size == 8,
        bytes@.len() == pte_size,
    ensures
        entry == le_value(bytes@),
{
    assert(bytes@.subrange(0, bytes@.len() as int) =~= bytes@);
    if pte_size == 4 {
        read_u32_le(bytes.as_slice()) as u64
    } else {
        read_u64_le(bytes.as_slice())
    }
}

/// Translates each request of the batch. `out[i]` is what came of
/// `batch[i]`: failures are reported entry by entry.
pub fn virt_to_phys_list<M: PhysicalMemory>(
    mem: &mut M,
    arch: &Architecture,
    batch: &Vec<TranslateRequest>,
) -> (out: Vec<Result<Address>>)
    requires
        old(mem).inv(),
        arch.wf(),
    ensures
        final(mem).inv(),
        final(mem).device() == old(mem).device(),
        final(mem).mem_map() == old(mem).mem_map(),
        final(mem).dependable() == old(mem).dependable(),
        out@.len() == batch@.len(),
        forall|i: int|
            0 <= i < batch@.len() ==> translate_outcome(
                old(mem).device(),
                old(mem).mem_map(),
                old(mem).dependable(),
                *arch,
                batch@[i],
                #[trigger] out@[i],
            ),
{
    let ghost device = mem.device();
    let ghost map = mem.mem_map();
    let ghost dependable = mem.dependable();
    let n = batch.len();
    let size = mem.metadata().size;
    let mut states: Vec<WalkState> = Vec::new();
    let mut i: usize = 0;
    while i < n
        invariant
            i <= n,
            n == batch@.len(),
            states@.len() == i,
            forall|k: int|
                0 <= k < i ==> state_agrees(
                    device,
                    map,
                    dependable,
                    *arch,
                    batch@[k],
                    0,
                    #[trigger] states@[k],
                ),
        decreases n - i,
    {
        states.push(WalkState::Pending(batch[i].dtb.0));
        i += 1;
    }
    let mut level: u8 = 0;
    while level < arch.levels
        invariant
            level <= arch.levels,
            arch.wf(),
            n == batch@.len(),
            states@.len() == n,
            size == device.len(),
            mem.inv(),
            mem.device() == device,
            mem.mem_map() == map,
            mem.dependable() == dependable,
            forall|k: int|
                0 <= k < n ==> state_agrees(
                    device,
                    map,
                    dependable,
                    *arch,
                    batch@[k],
                    level as int,
                    #[trigger] states@[k],
                ),
        decreases arch.levels - level,
    {
        // the entries to read at this level: one for each walk that goes on
        let mut reads: Vec<PhysicalReadData> = Vec::new();
        let mut i: usize = 0;
        while i < n
            invariant
                i <= n,
                level < arch.levels,
                arch.wf(),
                n == batch@.len(),
                states@.len() == n,
                size == device.len(),
                reads@.len() == pending_count(states@, i as int),
                forall|k: int|
                    0 <= k < n ==> state_agrees(
                        device,
                        map,
                        dependable,
                        *arch,
                        batch@[k],
                        level as int,
                        #[trigger] states@[k],
                    ),
                forall|k: int|
                    0 <= k < i ==> #[trigger] planned(
                        *arch,
                        size as int,
                        level as int,
                        batch@[k],
                        states@[k],
                        reads@,
                        pending_count(states@, k),
                    ),
            decreases n - i,
        {
            let ghost states_before = states@;
            let ghost reads_before = reads@;
            match states[i] {
                WalkState::Pending(value) => {
                    let at = arch.entry_address(value, batch[i].vaddr.0, level);
                    if at as u128 + arch.pte_size as u128 > size as u128 {
                        states.set(i, WalkState::Done(Err(Error::InvalidPageTable)));
                    } else {
                        reads.push(PhysicalReadData { addr: Address(at), len: arch.pte_size as usize });
                    }
                },
                WalkState::Done(_) => {},
            }
            proof {
                assert forall|k: int| 0 <= k <= i implies pending_count(states@, k)
                    == pending_count(states_before, k) by {
                    lemma_pending_count(states@, states_before, k, k);
                }
                assert forall|k: int| 0 <= k < i + 1 implies #[trigger] planned(
                    *arch,
                    size as int,
                    level as int,
                    batch@[k],
                    states@[k],
                    reads@,
                    pending_count(states@, k),
                ) by {
                    if k < i {
                        assert(planned(
                            *arch,
                            size as int,
                            level as int,
                            batch@[k],
                            states_before[k],
                            reads_before,
                            pending_count(states_before, k),
                        ));
                        assert(states@[k] == states_before[k]);
                        lemma_pending_count(states_before, states_before, k + 1, i as int);
                        if states_before[k] is Pending {
                            assert(reads@[pending_count(states@, k)] == reads_before[pending_count(
                                states_before,
                                k,
                            )]);
                        }
                    }
                }
                assert forall|k: int| 0 <= k < n implies state_agrees(
                    device,
                    map,
                    dependable,
                    *arch,
                    batch@[k],
                    level as int,
                    #[trigger] states@[k],
                ) by {
                    if k != i {
                        assert(states@[k] == states_before[k]);
                    }
                }
            }
            i += 1;
        }
        let results = mem.phys_read_raw_list(&reads);
        let ghost plan = states@;
        let mut m: usize = 0;
        let mut i: usize = 0;
        while i < n
            invariant
                i <= n,
                level < arch.levels,
                arch.wf(),
                n == batch@.len(),
                states@.len() == n,
                plan.len() == n,
                reads@.len() == pending_count(plan, n as int),
                results@.len() == reads@.len(),
                m == pending_count(plan, i as int),
                size == device.len(),
                forall|k: int| i <= k < n ==> states@[k] == plan[k],
                forall|k: int|
                    0 <= k < reads@.len() ==> read_outcome(
                        device,
                        map,
                        dependable,
                        reads@[k],
                        #[trigger] results@[k],
                    ),
                forall|k: int|
                    0 <= k < i ==> state_agrees(
                        device,
                        map,
                        dependable,
                        *arch,
                        batch@[k],
                        level + 1,
                        #[trigger] states@[k],
                    ),
                forall|k: int|
                    0 <= k < n ==> state_agrees(
                        device,
                        map,
                        dependable,
                        *arch,
                        batch@[k],
                        level as int,
                        #[trigger] plan[k],
                    ),
                forall|k: int|
                    0 <= k < n ==> #[trigger] planned(
                        *arch,
                        size as int,
                        level as int,
                        batch@[k],
                        plan[k],
                        reads@,
                        pending_count(plan, k),
                    ),
            decreases n - i,
        {
            let ghost states_before = states@;
            proof {
                assert(states@[i as int] == plan[i as int]);
                assert(planned(
                    *arch,
                    size as int,
                    level as int,
                    batch@[i as int],
                    plan[i as int],
                    reads@,
                    pending_count(plan, i as int),
                ));
                assert(state_agrees(
                    device,
                    map,
                    dependable,
                    *arch,
                    batch@[i as int],
                    level as int,
                    plan[i as int],
                ));
                lemma_pending_count(plan, plan, i + 1, n as int);
            }
            match states[i] {
                WalkState::Pending(value) => {
                    assert(read_outcome(device, map, dependable, reads@[m as int], results@[m as int]));
                    let next = match &results[m] {
                        Ok(bytes) => {
                            let entry = decode_entry(bytes, arch.pte_size);
                            match arch.entry_kind(entry, level) {
                                EntryKind::NotPresent => WalkState::Done(
                                    Err(Error::PageNotPresent),
                                ),
                                EntryKind::Malformed => WalkState::Done(
                                    Err(Error::InvalidPageTable),
                                ),
                                EntryKind::Leaf => WalkState::Done(
                                    Ok(Address(arch.page_address(entry, batch[i].vaddr.0, level))),
                                ),
                                EntryKind::Table => WalkState::Pending(entry),
                            }
                        },
                        Err(e) => WalkState::Done(Err(*e)),
                    };
                    states.set(i, next);
                    m += 1;
                },
                WalkState::Done(_) => {},
            }
            proof {
                assert forall|k: int| i + 1 <= k < n implies states@[k] == plan[k] by {
                    assert(states@[k] == states_before[k]);
                }
                assert forall|k: int| 0 <= k < i + 1 implies state_agrees(
                    device,
                    map,
                    dependable,
                    *arch,
                    batch@[k],
                    level + 1,
                    #[trigger] states@[k],
                ) by {
                    if k < i {
                        assert(states@[k] == states_before[k]);
                    }
                }
            }
            i += 1;
        }
        level += 1;
    }
    let mut out: Vec<Result<Address>> = Vec::new();
    let mut i: usize = 0;
    while i < n
        invariant
            i <= n,
            level == arch.levels,
            n == batch@.len(),
            states@.len() == n,
            out@.len() == i,
            forall|k: int|
                0 <= k < n ==> state_agrees(
                    device,
                    map,
                    dependable,
                    *arch,
                    batch@[k],
                    level as int,
                    #[trigger] states@[k],
                ),
            forall|k: int|
                0 <= k < i ==> translate_outcome(
                    device,
                    map,
                    dependable,
                    *arch,
                    batch@[k],
                    #[trigger] out@[k],
                ),
        decreases n - i,
    {
        let res = match states[i] {
            WalkState::Pending(_) => Err(Error::InvalidPageTable),
            WalkState::Done(res) => res,
        };
        assert(state_agrees(device, map, dependable, *arch, batch@[i as int], level as int, states@[i as int]));
        out.push(res);
        i += 1;
    }
    out
}

/// Translates one virtual address.
pub fn virt_to_phys<M: PhysicalMemory>(
    mem: &mut M,
    arch: &Architecture,
    dtb: Address,
    vaddr: Address,
) -> (res: Result<Address>)
    requires
        old(mem).inv(),
        arch.wf(),
    ensures
        final(mem).inv(),
        final(mem).device() == old(mem).device(),
        final(mem).mem_map() == old(mem).mem_map(),
        final(mem).dependable() == old(mem).dependable(),
        translate_outcome(
            old(mem).device(),
            old(mem).mem_map(),
            old(mem).dependable(),
            *arch,
            TranslateRequest { dtb, vaddr },
            res,
        ),
{
    let mut batch: Vec<TranslateRequest> = Vec::new();
    batch.push(TranslateRequest { dtb, vaddr });
    let out = virt_to_phys_list(mem, arch, &batch);
    out[0]
}

/// A translator of virtual addresses over a physical provider.
pub trait VirtualTranslate {
    /// What the translator needs to hold of itself between calls. A
    /// translator that gives no model of itself holds nothing: nothing is
    /// proved of code that runs over it.
    open spec fn inv(&self) -> bool {
        false
    }

    /// Whether everything that the translator remembers agrees with the
    /// page tables on this device.
    open spec fn coherent(&self, device: Seq<u8>, map: MapView, arch: Architecture) -> bool {
        false
    }

    /// Translates each request of the batch. `out[i]` is what came of
    /// `batch[i]`. A translator that agrees with the page tables answers as
    /// they do, and goes on agreeing with them.
    fn virt_to_phys_list<M: PhysicalMemory>(
        &mut self,
        mem: &mut M,
        arch: &Architecture,
        batch: &Vec<TranslateRequest>,
    ) -> (out: Vec<Result<Address>>)
        requires
            old(self).inv(),
            old(mem).inv(),
            arch.wf(),
        ensures
            final(self).inv(),
            final(mem).inv(),
            final(mem).device() == old(mem).device(),
            final(mem).mem_map() == old(mem).mem_map(),
            final(mem).dependable() == old(mem).dependable(),
            out@.len() == batch@.len(),
            old(self).coherent(old(mem).device(), old(mem).mem_map(), *arch) ==> {
                &&& final(self).coherent(old(mem).device(), old(mem).mem_map(), *arch)
                &&& forall|i: int|
                    0 <= i < batch@.len() ==> translate_outcome(
                        old(mem).device(),
                        old(mem).mem_map(),
                        old(mem).dependable(),
                        *arch,
                        batch@[i],
                        #[trigger] out@[i],
                    )
            },
    ;
}

/// The translator that walks the page tables for every request and
/// remembers nothing.
#[derive(Clone, Copy, Debug, PartialEq, Eq, Structural)]
pub struct DirectTranslate {}

impl DirectTranslate {
    /// A new direct translator.
    pub fn new() -> (t: DirectTranslate)
        ensures
            t.inv(),
    {
        DirectTranslate {  }
    }
}

impl VirtualTranslate for DirectTranslate {
    open spec fn inv(&self) -> bool {
        true
    }

    open spec fn coherent(&self, device: Seq<u8>, map: MapView, arch: Architecture) -> bool {
        true
    }

    fn virt_to_phys_list<M: PhysicalMemory>(
        &mut self,
        mem: &mut M,
        arch: &Architecture,
        batch: &Vec<TranslateRequest>,
    ) -> (out: Vec<Result<Address>>) {
        virt_to_phys_list(mem, arch, batch)
    }
}

} // verus!
