//! Remapping of address ranges.
//!
//! A memory map is a list of ranges in one address space, each with the
//! place where it lies in another. Ranges never overlap and are kept in
//! ascending order.

use crate::error::{Error, Result};
use crate::types::address::{address_space, Address};
use vstd::prelude::*;

verus! {

/// The range `[base, base + size)` maps to `[real_base, real_base + size)`.
#[derive(Clone, Copy, Debug, PartialEq, Eq, Structural)]
pub struct MemoryMapping {
    pub base: Address,
    pub size: usize,
    pub real_base: Address,
}

impl MemoryMapping {
    /// One past the last address of the range.
    pub open spec fn end(self) -> int {
        self.base@ + self.size
    }

    /// Whether the range holds `a`.
    pub open spec fn contains(self, a: int) -> bool {
        self.base@ <= a < self.end()
    }

    /// A mapping is usable when it is not empty and neither of its two
    /// ranges runs past the end of the address space.
    pub open spec fn valid(self) -> bool {
        &&& self.size > 0
        &&& self.end() <= address_space()
        &&& self.real_base@ + self.size <= address_space()
    }

    /// Whether this range and `other` share an address.
    pub open spec fn overlaps(self, other: MemoryMapping) -> bool {
        self.base@ < other.end() && other.base@ < self.end()
    }
}

/// Whether each mapping ends before the next one starts.
pub open spec fn ordered(maps: Seq<MemoryMapping>) -> bool {
    forall|i: int, j: int| 0 <= i < j < maps.len() ==> maps[i].end() <= maps[j].base@
}

/// Whether all mappings are usable, in ascending order, and free of overlap.
pub open spec fn well_formed(maps: Seq<MemoryMapping>) -> bool {
    &&& forall|i: int| 0 <= i < maps.len() ==> (#[trigger] maps[i]).valid()
    &&& ordered(maps)
}

/// Whether `m` shares an address with one of `maps`.
pub open spec fn overlaps_any(maps: Seq<MemoryMapping>, m: MemoryMapping) -> bool {
    exists|i: int| 0 <= i < maps.len() && (#[trigger] maps[i]).overlaps(m)
}

/// Whether some mapping holds `a`.
pub open spec fn mapped(maps: Seq<MemoryMapping>, a: int) -> bool {
    exists|i: int| 0 <= i < maps.len() && (#[trigger] maps[i]).contains(a)
}

/// The position of a mapping that holds `a`.
pub open spec fn entry_of(maps: Seq<MemoryMapping>, a: int) -> int {
    choose|i: int| 0 <= i < maps.len() && (#[trigger] maps[i]).contains(a)
}

/// Where the mapped address `a` lies in the other address space.
pub open spec fn real_address(maps: Seq<MemoryMapping>, a: int) -> int {
    maps[entry_of(maps, a)].real_base@ + (a - maps[entry_of(maps, a)].base@)
}

/// The request `[addr, addr + len)` cut at the ends of the mappings it runs
/// through: each piece with its real start and its length, in order.
/// Nothing where a byte of the request is mapped nowhere.
pub open spec fn resolve_spec(maps: Seq<MemoryMapping>, addr: int, len: int) -> Option<
    Seq<(int, int)>,
>
    decreases len,
{
    if len <= 0 {
        Some(Seq::empty())
    } else if !mapped(maps, addr) {
        None
    } else {
        let take = if len <= maps[entry_of(maps, addr)].end() - addr {
            len
        } else {
            maps[entry_of(maps, addr)].end() - addr
        };
        if take <= 0 {
            None
        } else {
            match resolve_spec(maps, addr + take, len - take) {
                Some(rest) => Some(seq![(real_address(maps, addr), take)] + rest),
                None => None,
            }
        }
    }
}

/// In a well-formed list at most one mapping holds a given address.
pub proof fn lemma_entry_unique(maps: Seq<MemoryMapping>, a: int, i: int)
    requires
        well_formed(maps),
        0 <= i < maps.len(),
        maps[i].contains(a),
    ensures
        mapped(maps, a),
        entry_of(maps, a) == i,
{
    let j = entry_of(maps, a);
    if j < i {
        assert(maps[j].end() <= maps[i].base@);
    } else if i < j {
        assert(maps[i].end() <= maps[j].base@);
    }
}

/// No two mappings of a well-formed list share an address.
pub proof fn lemma_no_overlap(maps: Seq<MemoryMapping>, i: int, j: int)
    requires
        well_formed(maps),
        0 <= i < maps.len(),
        0 <= j < maps.len(),
        i != j,
    ensures
        !maps[i].overlaps(maps[j]),
{
    if i < j {
        assert(maps[i].end() <= maps[j].base@);
    } else {
        assert(maps[j].end() <= maps[i].base@);
    }
}

/// The addresses `start`, `start + 1`, and so on, `len` of them.
pub open spec fn run(start: int, len: int) -> Seq<int> {
    Seq::new(
        (if len > 0 {
            len
        } else {
            0
        }) as nat,
        |j: int| start + j,
    )
}

/// The addresses that the pieces run through, one after another.
pub open spec fn flatten(pieces: Seq<(int, int)>) -> Seq<int>
    decreases pieces.len(),
{
    if pieces.len() == 0 {
        Seq::empty()
    } else {
        flatten(pieces.drop_last()) + run(pieces.last().0, pieces.last().1)
    }
}

/// The addresses of a first piece followed by others are those of the
/// first, then those of the others.
pub proof fn lemma_flatten_prepend(first: (int, int), rest: Seq<(int, int)>)
    ensures
        flatten(seq![first] + rest) == run(first.0, first.1) + flatten(rest),
    decreases rest.len(),
{
    let all = seq![first] + rest;
    if rest.len() == 0 {
        assert(all.drop_last() =~= Seq::<(int, int)>::empty());
        assert(all.last() == first);
        assert(rest =~= Seq::<(int, int)>::empty());
        assert(flatten(all) == flatten(all.drop_last()) + run(first.0, first.1));
        assert(flatten(all) =~= run(first.0, first.1) + flatten(rest));
    } else {
        lemma_flatten_prepend(first, rest.drop_last());
        assert(all.drop_last() =~= seq![first] + rest.drop_last());
        assert(all.last() == rest.last());
        assert(flatten(all) =~= run(first.0, first.1) + flatten(rest));
    }
}

/// Every address of every piece is among the addresses that the pieces run
/// through.
pub proof fn lemma_flatten_contains(pieces: Seq<(int, int)>, k: int, t: int)
    requires
        0 <= k < pieces.len(),
        0 <= t < pieces[k].1,
    ensures
        exists|j: int| 0 <= j < flatten(pieces).len() && flatten(pieces)[j] == pieces[k].0 + t,
    decreases pieces.len(),
{
    let front = flatten(pieces.drop_last());
    if k == pieces.len() - 1 {
        let j = front.len() + t;
        assert(flatten(pieces)[j] == run(pieces[k].0, pieces[k].1)[t]);
    } else {
        lemma_flatten_contains(pieces.drop_last(), k, t);
        let j = choose|j: int| 0 <= j < front.len() && front[j] == pieces[k].0 + t;
        assert(flatten(pieces)[j] == front[j]);
    }
}

/// Where every piece lies within `[0, bound)`, so does every address that
/// the pieces run through.
pub proof fn lemma_flatten_bound(pieces: Seq<(int, int)>, bound: int)
    requires
        forall|k: int|
            0 <= k < pieces.len() ==> 0 <= (#[trigger] pieces[k]).0 && pieces[k].0 + pieces[k].1
                <= bound,
    ensures
        forall|j: int| 0 <= j < flatten(pieces).len() ==> 0 <= #[trigger] flatten(pieces)[j] < bound,
    decreases pieces.len(),
{
    if pieces.len() > 0 {
        let front = pieces.drop_last();
        assert forall|k: int| 0 <= k < front.len() implies 0 <= (#[trigger] front[k]).0
            && front[k].0 + front[k].1 <= bound by {
            assert(front[k] == pieces[k]);
        }
        lemma_flatten_bound(front, bound);
        let last = pieces.last();
        assert(0 <= last.0 && last.0 + last.1 <= bound);
        let head = flatten(front);
        assert forall|j: int| 0 <= j < flatten(pieces).len() implies 0 <= #[trigger] flatten(
            pieces,
        )[j] < bound by {
            if j < head.len() {
                assert(flatten(pieces)[j] == head[j]);
            } else {
                assert(flatten(pieces)[j] == run(last.0, last.1)[j - head.len()]);
            }
        }
    }
}

/// The real addresses of the bytes of the request `[addr, addr + len)`.
pub open spec fn real_addresses(maps: Seq<MemoryMapping>, addr: int, len: int) -> Seq<int> {
    Seq::new(
        (if len > 0 {
            len
        } else {
            0
        }) as nat,
        |j: int| real_address(maps, addr + j),
    )
}

/// A request resolves exactly when each of its bytes is mapped. Its pieces
/// are then not empty, none runs past the end of the address space, and
/// together they run through the real addresses of the bytes of the
/// request, in order.
pub proof fn lemma_resolve(maps: Seq<MemoryMapping>, addr: int, len: int)
    requires
        well_formed(maps),
    ensures
        resolve_spec(maps, addr, len).is_some() <==> (forall|a: int|
            addr <= a < addr + len ==> mapped(maps, a)),
        resolve_spec(maps, addr, len) matches Some(pieces) ==> {
            &&& flatten(pieces) == real_addresses(maps, addr, len)
            &&& forall|k: int|
                0 <= k < pieces.len() ==> 0 <= (#[trigger] pieces[k]).0 && 0 < pieces[k].1
                    && pieces[k].0 + pieces[k].1 <= address_space()
        },
    decreases len,
{
    if len <= 0 {
        assert(flatten(Seq::<(int, int)>::empty()) =~= real_addresses(maps, addr, len));
    } else if !mapped(maps, addr) {
    } else {
        let i = entry_of(maps, addr);
        let m = maps[i];
        assert(m.valid());
        let take = if len <= m.end() - addr {
            len
        } else {
            m.end() - addr
        };
        lemma_resolve(maps, addr + take, len - take);
        assert forall|a: int| addr <= a < addr + take implies mapped(maps, a)
            && real_address(maps, a) == m.real_base@ + (a - m.base@) by {
            lemma_entry_unique(maps, a, i);
        }
        match resolve_spec(maps, addr + take, len - take) {
            Some(rest) => {
                let first = (real_address(maps, addr), take);
                let pieces = seq![first] + rest;
                assert(pieces[0] == first);
                assert(pieces.drop_first() =~= rest);
                assert(flatten(pieces) =~= real_addresses(maps, addr, len)) by {
                    let head = run(first.0, take);
                    lemma_flatten_prepend(first, rest);
                    assert forall|j: int| 0 <= j < len implies (head + flatten(rest))[j]
                        == real_address(maps, addr + j) by {
                        if j < take {
                            assert(mapped(maps, addr + j));
                        } else {
                            assert(flatten(rest)[j - take] == real_address(
                                maps,
                                addr + take + (j - take),
                            ));
                        }
                    }
                }
                assert forall|k: int| 0 <= k < pieces.len() implies 0 <= (#[trigger] pieces[k]).0
                    && 0 < pieces[k].1 && pieces[k].0 + pieces[k].1 <= address_space() by {
                    if k > 0 {
                        assert(pieces[k] == rest[k - 1]);
                    }
                }
            },
            None => {},
        }
    }
}

/// The pieces of a resolved request, as pairs of integers.
pub open spec fn pieces_view(pieces: Seq<(Address, usize)>) -> Seq<(int, int)> {
    pieces.map_values(|p: (Address, usize)| (p.0@, p.1 as int))
}

/// Where a mapping that starts at `base` goes in: after the mappings that
/// end at or before `base`.
pub open spec fn insert_position(maps: Seq<MemoryMapping>, base: int) -> int
    decreases maps.len(),
{
    if maps.len() == 0 {
        0
    } else if maps[0].end() <= base {
        1 + insert_position(maps.drop_first(), base)
    } else {
        0
    }
}

/// A position that only mappings ending at or before `base` precede, and
/// that holds a mapping ending after `base` or is the end, is the one that
/// `insert_position` gives.
pub proof fn lemma_insert_position(maps: Seq<MemoryMapping>, base: int, k: int)
    requires
        0 <= k <= maps.len(),
        forall|i: int| 0 <= i < k ==> (#[trigger] maps[i]).end() <= base,
        k < maps.len() ==> maps[k].end() > base,
    ensures
        insert_position(maps, base) == k,
    decreases maps.len(),
{
    if maps.len() > 0 && k > 0 {
        let rest = maps.drop_first();
        assert(maps[0].end() <= base);
        assert forall|i: int| 0 <= i < k - 1 implies (#[trigger] rest[i]).end() <= base by {
            assert(rest[i] == maps[i + 1]);
        }
        lemma_insert_position(rest, base, k - 1);
    }
}

/// What pushing `m` makes of `maps`: `m` goes in at its position where it
/// is usable and overlaps nothing; else nothing changes.
pub open spec fn push_spec(maps: Seq<MemoryMapping>, m: MemoryMapping) -> Seq<MemoryMapping> {
    if m.valid() && !overlaps_any(maps, m) {
        maps.insert(insert_position(maps, m.base@), m)
    } else {
        maps
    }
}

/// Only mappings that end at or before `base` stand before the position
/// that `insert_position` gives, and the mapping at the position, if there
/// is one, ends after `base`.
pub proof fn lemma_insert_position_bounds(maps: Seq<MemoryMapping>, base: int)
    ensures
        0 <= insert_position(maps, base) <= maps.len(),
        forall|i: int| 0 <= i < insert_position(maps, base) ==> (#[trigger] maps[i]).end() <= base,
        insert_position(maps, base) < maps.len() ==> maps[insert_position(maps, base)].end() > base,
    decreases maps.len(),
{
    if maps.len() > 0 && maps[0].end() <= base {
        let rest = maps.drop_first();
        lemma_insert_position_bounds(rest, base);
        let k = insert_position(maps, base);
        assert forall|i: int| 0 <= i < k implies (#[trigger] maps[i]).end() <= base by {
            if i > 0 {
                assert(maps[i] == rest[i - 1]);
            }
        }
        if k < maps.len() {
            assert(maps[k] == rest[k - 1]);
        }
    }
}

/// Pushing a mapping onto a well-formed list leaves the list well formed.
/// What the list then holds is what it held before and, where the mapping
/// is usable and overlaps nothing, the mapping as it was given.
pub proof fn lemma_push_spec(maps: Seq<MemoryMapping>, m: MemoryMapping)
    requires
        well_formed(maps),
    ensures
        well_formed(push_spec(maps, m)),
        forall|e: MemoryMapping|
            #[trigger] push_spec(maps, m).contains(e) <==> maps.contains(e) || (e == m && m.valid()
                && !overlaps_any(maps, m)),
{
    if m.valid() && !overlaps_any(maps, m) {
        lemma_insert_position_bounds(maps, m.base@);
        let k = insert_position(maps, m.base@);
        let after = maps.insert(k, m);
        assert forall|i: int| 0 <= i < after.len() implies (#[trigger] after[i]).valid() by {
            if i < k {
                assert(after[i] == maps[i]);
            } else if i > k {
                assert(after[i] == maps[i - 1]);
            }
        }
        assert forall|i: int, j: int| 0 <= i < j < after.len() implies after[i].end()
            <= after[j].base@ by {
            let oi = if i < k {
                i
            } else {
                i - 1
            };
            let oj = if j < k {
                j
            } else {
                j - 1
            };
            if i != k && j != k {
                assert(after[i] == maps[oi]);
                assert(after[j] == maps[oj]);
            } else if i == k {
                assert(after[j] == maps[oj]);
                assert(!maps[oj].overlaps(m));
                assert(maps[oj].valid());
                if oj > k {
                    assert(maps[k].end() <= maps[oj].base@);
                }
            } else {
                assert(after[i] == maps[oi]);
            }
        }
        assert forall|e: MemoryMapping| #[trigger] after.contains(e) <==> maps.contains(e) || e
            == m by {
            if after.contains(e) {
                let i = choose|i: int| 0 <= i < after.len() && after[i] == e;
                if i < k {
                    assert(maps[i] == e);
                } else if i > k {
                    assert(maps[i - 1] == e);
                }
            }
            if maps.contains(e) {
                let i = choose|i: int| 0 <= i < maps.len() && maps[i] == e;
                if i < k {
                    assert(after[i] == e);
                } else {
                    assert(after[i + 1] == e);
                }
            }
            if e == m {
                assert(after[k] == e);
            }
        }
    }
}

/// Pushing a list of mappings in turn leaves a well-formed list well
/// formed. Every mapping of the result is one of the list before or one of
/// those pushed, as it was given: none is merged or cut. Nothing that the
/// list held before is lost.
pub proof fn lemma_push_all(maps: Seq<MemoryMapping>, wanted: Seq<MemoryMapping>)
    requires
        well_formed(maps),
    ensures
        well_formed(push_all_spec(maps, wanted)),
        forall|e: MemoryMapping|
            #[trigger] push_all_spec(maps, wanted).contains(e) ==> maps.contains(e)
                || wanted.contains(e),
        forall|e: MemoryMapping| #[trigger]
            maps.contains(e) ==> push_all_spec(maps, wanted).contains(e),
    decreases wanted.len(),
{
    if wanted.len() > 0 {
        let next = push_spec(maps, wanted[0]);
        let rest = wanted.drop_first();
        lemma_push_spec(maps, wanted[0]);
        lemma_push_all(next, rest);
        let result = push_all_spec(maps, wanted);
        assert forall|e: MemoryMapping| #[trigger] result.contains(e) implies maps.contains(e)
            || wanted.contains(e) by {
            if next.contains(e) {
                if !maps.contains(e) {
                    assert(wanted[0] == e);
                }
            } else {
                assert(rest.contains(e));
                let i = choose|i: int| 0 <= i < rest.len() && rest[i] == e;
                assert(wanted[i + 1] == e);
            }
        }
        assert forall|e: MemoryMapping| #[trigger] maps.contains(e) implies result.contains(e) by {
            assert(next.contains(e));
        }
    }
}

/// Where the mappings pushed are all usable and no two of them overlap one
/// another or a mapping of the list, every one of them is in the result.
pub proof fn lemma_push_all_disjoint(maps: Seq<MemoryMapping>, wanted: Seq<MemoryMapping>)
    requires
        well_formed(maps),
        forall|i: int| 0 <= i < wanted.len() ==> (#[trigger] wanted[i]).valid(),
        forall|i: int, j: int| 0 <= i < j < wanted.len() ==> !wanted[i].overlaps(wanted[j]),
        forall|i: int| 0 <= i < wanted.len() ==> !overlaps_any(maps, #[trigger] wanted[i]),
    ensures
        forall|i: int|
            0 <= i < wanted.len() ==> push_all_spec(maps, wanted).contains(#[trigger] wanted[i]),
    decreases wanted.len(),
{
    if wanted.len() > 0 {
        let m = wanted[0];
        let next = push_spec(maps, m);
        let rest = wanted.drop_first();
        lemma_push_spec(maps, m);
        assert(next.contains(m));
        assert forall|i: int| 0 <= i < rest.len() implies (#[trigger] rest[i]).valid() by {
            assert(rest[i] == wanted[i + 1]);
        }
        assert forall|i: int, j: int| 0 <= i < j < rest.len() implies !rest[i].overlaps(rest[j]) by {
            assert(rest[i] == wanted[i + 1] && rest[j] == wanted[j + 1]);
        }
        assert forall|i: int| 0 <= i < rest.len() implies !overlaps_any(next, #[trigger] rest[i]) by {
            assert(rest[i] == wanted[i + 1]);
            assert(!overlaps_any(maps, wanted[i + 1]));
            if overlaps_any(next, rest[i]) {
                let t = choose|t: int| 0 <= t < next.len() && (#[trigger] next[t]).overlaps(rest[i]);
                assert(next.contains(next[t]));
                if maps.contains(next[t]) {
                    let u = choose|u: int| 0 <= u < maps.len() && maps[u] == next[t];
                    assert(maps[u].overlaps(rest[i]));
                } else {
                    assert(next[t] == m);
                    assert(!wanted[0].overlaps(wanted[i + 1]));
                }
            }
        }
        lemma_push_all_disjoint(next, rest);
        lemma_push_all(next, rest);
        let result = push_all_spec(maps, wanted);
        assert forall|i: int| 0 <= i < wanted.len() implies result.contains(
            #[trigger] wanted[i],
        ) by {
            if i > 0 {
                assert(rest[i - 1] == wanted[i]);
                assert(result.contains(rest[i - 1]));
            }
        }
    }
}

/// What pushing each of `wanted` in turn makes of `maps`.
pub open spec fn push_all_spec(maps: Seq<MemoryMapping>, wanted: Seq<MemoryMapping>) -> Seq<
    MemoryMapping,
>
    decreases wanted.len(),
{
    if wanted.len() == 0 {
        maps
    } else {
        push_all_spec(push_spec(maps, wanted[0]), wanted.drop_first())
    }
}

/// An ordered list of non-overlapping mappings.
pub struct MemoryMap {
    mappings: Vec<MemoryMapping>,
}

impl View for MemoryMap {
    type V = Seq<MemoryMapping>;

    closed spec fn view(&self) -> Seq<MemoryMapping> {
        self.mappings@
    }
}

impl MemoryMap {
    #[verifier::type_invariant]
    spec fn inv(self) -> bool {
        well_formed(self.mappings@)
    }

    /// The empty map.
    pub fn new() -> (map: MemoryMap)
        ensures
            map@ == Seq::<MemoryMapping>::empty(),
            well_formed(map@),
    {
        MemoryMap { mappings: Vec::new() }
    }

    /// The mappings in ascending order.
    pub fn mappings(&self) -> (r: &Vec<MemoryMapping>)
        ensures
            r@ == self@,
            well_formed(self@),
    {
        proof {
            use_type_invariant(self);
        }
        &self.mappings
    }

    /// Adds the mapping of `[base, base + size)` to `real_base` and says
    /// whether it did. An empty range, one that runs past the end of the
    /// address space on either side, or one that overlaps a range already
    /// there is refused and leaves the map as it was.
    pub fn push_remap(&mut self, base: Address, size: usize, real_base: Address) -> (inserted:
        bool)
        ensures
            well_formed(final(self)@),
            inserted == ((MemoryMapping { base, size, real_base }).valid() && !overlaps_any(
                old(self)@,
                MemoryMapping { base, size, real_base },
            )),
            final(self)@ == push_spec(old(self)@, MemoryMapping { base, size, real_base }),
    {
        proof {
            use_type_invariant(&*self);
        }
        let mapping = MemoryMapping { base, size, real_base };
        if size == 0 {
            return false;
        }
        let top: u128 = 0x1_0000_0000_0000_0000;
        let end: u128 = base.0 as u128 + size as u128;
        let real_end: u128 = real_base.0 as u128 + size as u128;
        if end > top || real_end > top {
            return false;
        }
        assert(mapping.valid());
        // the first existing range that does not end at or before `base`
        let mut k: usize = 0;
        while k < self.mappings.len() && (self.mappings[k].base.0 as u128)
            + (self.mappings[k].size as u128) <= base.0 as u128
            invariant
                k <= self.mappings.len(),
                well_formed(self.mappings@),
                forall|i: int| 0 <= i < k ==> (#[trigger] self.mappings@[i]).end() <= base@,
            decreases self.mappings.len() - k,
        {
            k += 1;
        }
        let ghost maps = self.mappings@;
        if k < self.mappings.len() && (self.mappings[k].base.0 as u128) < end {
            assert(maps[k as int].overlaps(mapping));
            return false;
        }
        assert(!overlaps_any(maps, mapping)) by {
            assert forall|i: int| 0 <= i < maps.len() implies !(#[trigger] maps[i]).overlaps(
                mapping,
            ) by {
                if i > k {
                    assert(maps[k as int].end() <= maps[i].base@);
                }
            }
        }
        let mut updated = self.mappings.clone();
        assert(updated@ =~= maps);
        updated.insert(k, mapping);
        proof {
            let after = updated@;
            assert(after == maps.insert(k as int, mapping));
            assert forall|i: int| 0 <= i < after.len() implies (#[trigger] after[i]).valid() by {
                if i < k {
                    assert(after[i] == maps[i]);
                } else if i > k {
                    assert(after[i] == maps[i - 1]);
                }
            }
            assert forall|i: int, j: int| 0 <= i < j < after.len() implies after[i].end()
                <= after[j].base@ by {
                let oi = if i < k { i } else { i - 1 };
                let oj = if j < k { j } else { j - 1 };
                if i != k && j != k {
                    assert(after[i] == maps[oi]);
                    assert(after[j] == maps[oj]);
                } else if i == k {
                    assert(after[j] == maps[oj]);
                    assert(!maps[oj].overlaps(mapping));
                    if oj > k {
                        assert(maps[k as int].end() <= maps[oj].base@);
                    }
                } else {
                    assert(after[i] == maps[oi]);
                }
            }
        }
        self.mappings = updated;
        proof {
            lemma_insert_position(maps, base@, k as int);
        }
        true
    }

    /// The map made by pushing each of `wanted` in turn onto the empty map.
    pub fn from_mappings(wanted: &Vec<MemoryMapping>) -> (map: MemoryMap)
        ensures
            map@ == push_all_spec(Seq::empty(), wanted@),
            well_formed(map@),
            forall|e: MemoryMapping| #[trigger] map@.contains(e) ==> wanted@.contains(e),
    {
        proof {
            lemma_push_all(Seq::empty(), wanted@);
        }
        let mut map = MemoryMap::new();
        let mut i: usize = 0;
        assert(wanted@.subrange(0, wanted@.len() as int) =~= wanted@);
        while i < wanted.len()
            invariant
                i <= wanted@.len(),
                well_formed(map@),
                push_all_spec(Seq::empty(), wanted@) == push_all_spec(
                    map@,
                    wanted@.subrange(i as int, wanted@.len() as int),
                ),
            decreases wanted@.len() - i,
        {
            let ghost rest = wanted@.subrange(i as int, wanted@.len() as int);
            assert(rest[0] == wanted@[i as int]);
            assert(rest.drop_first() =~= wanted@.subrange(i + 1, wanted@.len() as int));
            let m = wanted[i];
            map.push_remap(m.base, m.size, m.real_base);
            i += 1;
        }
        map
    }

    /// The position of the mapping that holds `addr`, if one does.
    pub fn find(&self, addr: Address) -> (r: Option<usize>)
        ensures
            well_formed(self@),
            r.is_some() == mapped(self@, addr@),
            r matches Some(i) ==> i < self@.len() && i == entry_of(self@, addr@),
    {
        proof {
            use_type_invariant(self);
        }
        let mut i: usize = 0;
        while i < self.mappings.len()
            invariant
                i <= self.mappings.len(),
                well_formed(self.mappings@),
                forall|j: int| 0 <= j < i ==> !(#[trigger] self.mappings@[j]).contains(addr@),
            decreases self.mappings.len() - i,
        {
            let m = self.mappings[i];
            if m.base.0 <= addr.0 && ((addr.0 - m.base.0) as u128) < m.size as u128 {
                proof {
                    lemma_entry_unique(self@, addr@, i as int);
                }
                return Some(i);
            }
            i += 1;
        }
        None
    }

    /// Cuts the request `[addr, addr + len)` at the ends of the mappings it
    /// runs through and gives each piece with its real start. A request
    /// with a byte that no mapping holds fails as a whole.
    pub fn resolve(&self, addr: Address, len: usize) -> (r: Result<Vec<(Address, usize)>>)
        ensures
            well_formed(self@),
            match resolve_spec(self@, addr@, len as int) {
                Some(pieces) => r matches Ok(v) && pieces_view(v@) == pieces,
                None => r matches Err(e) && e == Error::OutOfBounds,
            },
    {
        proof {
            use_type_invariant(self);
        }
        let mut out: Vec<(Address, usize)> = Vec::new();
        let mut cur: u64 = addr.0;
        let mut remaining: usize = len;
        assert(pieces_view(out@) =~= Seq::<(int, int)>::empty());
        while remaining > 0
            invariant
                well_formed(self@),
                resolve_spec(self@, addr@, len as int) == match resolve_spec(
                    self@,
                    cur as int,
                    remaining as int,
                ) {
                    Some(rest) => Some(pieces_view(out@) + rest),
                    None => None,
                },
            decreases remaining,
        {
            let ghost before = pieces_view(out@);
            let i = match self.find(Address(cur)) {
                Some(i) => i,
                None => {
                    return Err(Error::OutOfBounds);
                },
            };
            let m = self.mappings[i];
            let offset: u64 = cur - m.base.0;
            let avail: u128 = m.size as u128 - offset as u128;
            let target: u64 = m.real_base.0 + offset;
            if remaining as u128 <= avail {
                out.push((Address(target), remaining));
                proof {
                    assert(pieces_view(out@) =~= before + seq![(target as int, remaining as int)]);
                    assert(resolve_spec(self@, cur + remaining, 0) == Some(
                        Seq::<(int, int)>::empty(),
                    ));
                    assert(resolve_spec(self@, cur as int, remaining as int) == Some(
                        seq![(target as int, remaining as int)] + Seq::<(int, int)>::empty(),
                    ));
                    assert(resolve_spec(self@, addr@, len as int) == Some(pieces_view(out@)));
                }
                return Ok(out);
            }
            let take: usize = avail as usize;
            out.push((Address(target), take));
            proof {
                assert(pieces_view(out@) =~= before + seq![(target as int, take as int)]);
                match resolve_spec(self@, cur + take, remaining - take) {
                    Some(rest) => {
                        assert(before + (seq![(target as int, take as int)] + rest) =~= pieces_view(
                            out@,
                        ) + rest);
                    },
                    None => {},
                }
            }
            remaining = remaining - take;
            if m.base.0 as u128 + m.size as u128 == 0x1_0000_0000_0000_0000 {
                // the mapping ends with the address space: what is left lies beyond it
                assert(!mapped(self@, cur + take)) by {
                    assert forall|j: int| 0 <= j < self@.len() implies !(#[trigger] self@[j]).contains(
                        cur + take,
                    ) by {
                        assert(self@[j].valid());
                    }
                }
                return Err(Error::OutOfBounds);
            }
            cur = cur + take as u64;
        }
        Ok(out)
    }
}

} // verus!
