//! The paging schemes that the translator knows.
//!
//! A scheme is described by a handful of numbers: how many levels its page
//! tables have, how many bits of a virtual address select an entry at each
//! level, how large an entry is, and which bits of an entry say that it is
//! present and that it maps a large page. Levels are counted from the top:
//! level 0 is the table that the directory base points to.

use vstd::prelude::*;

verus! {

/// Names a CPU architecture and its paging mode.
#[derive(Clone, Copy, Debug, PartialEq, Eq, Structural)]
pub enum ArchitectureIdent {
    /// x86 with the given pointer width in bits (32 or 64) and, for 32 bits,
    /// whether physical address extension is on.
    X86(u8, bool),
    /// AArch64 with the given page size in bytes.
    AArch64(usize),
}

/// What an entry at some level is.
#[derive(Clone, Copy, Debug, PartialEq, Eq, Structural)]
pub enum EntryKind {
    /// The present bit is clear.
    NotPresent,
    /// The entry points to the table of the next level.
    Table,
    /// The entry maps a page: the walk ends here.
    Leaf,
    /// The entry has a form that the level does not allow.
    Malformed,
}

/// A paging scheme.
#[derive(Clone, Copy, Debug, PartialEq, Eq, Structural)]
pub struct Architecture {
    /// The scheme's name.
    pub ident: ArchitectureIdent,
    /// Width of a pointer in bits.
    pub bits: u8,
    /// How many low bits of a virtual address take part in translation.
    pub va_bits: u8,
    /// Binary logarithm of the size of the smallest page.
    pub page_bits: u8,
    /// How many address bits select an entry at each level below the top.
    pub index_bits: u8,
    /// Number of levels.
    pub levels: u8,
    /// Size of an entry in bytes: 4 or 8.
    pub pte_size: u8,
    /// How many low bits of an entry can hold a physical address.
    pub phys_bits: u8,
    /// Bit `l` is set where an entry at level `l` may map a large page.
    pub large_levels: u8,
    /// Whether entries follow the AArch64 descriptor format (bit 1 tells a
    /// table from a block) rather than the x86 one (bit 7 marks a large
    /// page).
    pub descriptor_format: bool,
}

/// The low `n` bits set.
pub open spec fn low_mask(n: u8) -> u64 {
    if n >= 64 {
        0xffff_ffff_ffff_ffff
    } else {
        ((1u64 << n) - 1) as u64
    }
}

impl Architecture {
    /// The numbers of a scheme fit together.
    pub open spec fn wf(self) -> bool {
        &&& 1 <= self.levels <= 4
        &&& 10 <= self.page_bits <= 16
        &&& 1 <= self.index_bits <= 13
        &&& self.spec_shift(0) < self.va_bits <= self.spec_shift(0) + self.index_bits
        &&& self.va_bits <= 48
        &&& self.phys_bits <= 52
        &&& (self.pte_size == 4 || self.pte_size == 8)
        &&& (self.bits == 32 || self.bits == 64)
    }

    /// The position of the lowest address bit that selects an entry at
    /// `level`; also the binary logarithm of the size of a page mapped
    /// there.
    pub open spec fn spec_shift(self, level: int) -> int {
        self.page_bits + self.index_bits * (self.levels - 1 - level)
    }

    /// How many address bits select an entry at `level`.
    pub open spec fn spec_index_width(self, level: int) -> int {
        if level == 0 {
            self.va_bits - self.spec_shift(0)
        } else {
            self.index_bits as int
        }
    }

    /// The entry of the table at `level` that `vaddr` selects.
    pub open spec fn spec_index(self, vaddr: u64, level: int) -> u64 {
        (vaddr >> (self.spec_shift(level) as u64)) & low_mask(self.spec_index_width(level) as u8)
    }

    /// Size in bytes of the table at `level`.
    pub open spec fn spec_table_bytes(self, level: int) -> u64 {
        (self.pte_size as u64) << (self.spec_index_width(level) as u64)
    }

    /// The address of the table at `level` that `value` (the directory base
    /// or an entry of the level above) points to.
    pub open spec fn spec_table_base(self, value: u64, level: int) -> u64 {
        value & low_mask(self.phys_bits) & !((self.spec_table_bytes(level) - 1) as u64)
    }

    /// The address of the entry for `vaddr` in the table at `level` that
    /// `value` points to.
    pub open spec fn spec_entry_address(self, value: u64, vaddr: u64, level: int) -> int {
        self.spec_table_base(value, level) + self.spec_index(vaddr, level) * self.pte_size
    }

    /// The physical address of `vaddr` in the page that the leaf `entry` at
    /// `level` maps: the frame from the entry, the offset from the address.
    pub open spec fn spec_page_address(self, entry: u64, vaddr: u64, level: int) -> u64 {
        (entry & low_mask(self.phys_bits) & !low_mask(self.spec_shift(level) as u8)) | (vaddr
            & low_mask(self.spec_shift(level) as u8))
    }

    /// Whether an entry at `level` may map a large page.
    pub open spec fn spec_large_allowed(self, level: int) -> bool {
        (self.large_levels >> (level as u8)) & 1 == 1
    }

    /// What `entry` is at `level`.
    pub open spec fn spec_entry_kind(self, entry: u64, level: int) -> EntryKind {
        if entry & 1 == 0 {
            EntryKind::NotPresent
        } else if self.descriptor_format {
            if (entry >> 1) & 1 == 1 {
                if level == self.levels - 1 {
                    EntryKind::Leaf
                } else {
                    EntryKind::Table
                }
            } else if level != self.levels - 1 && self.spec_large_allowed(level) {
                EntryKind::Leaf
            } else {
                EntryKind::Malformed
            }
        } else {
            if level == self.levels - 1 {
                EntryKind::Leaf
            } else if (entry >> 7) & 1 == 1 && self.spec_large_allowed(level) {
                EntryKind::Leaf
            } else {
                EntryKind::Table
            }
        }
    }

    /// Size in bytes of the smallest page.
    pub open spec fn spec_page_size(self) -> usize {
        1usize << (self.page_bits as usize)
    }

    /// The scheme that `ident` names, if it is one that is supported: x86
    /// with 32 or 64 bits, AArch64 with pages of 4, 16 or 64 KiB.
    pub open spec fn spec_from_ident(ident: ArchitectureIdent) -> Option<Architecture> {
        match ident {
            ArchitectureIdent::X86(64, false) => Some(
                Architecture {
                    ident,
                    bits: 64,
                    va_bits: 48,
                    page_bits: 12,
                    index_bits: 9,
                    levels: 4,
                    pte_size: 8,
                    phys_bits: 52,
                    large_levels: 0b0110,
                    descriptor_format: false,
                },
            ),
            ArchitectureIdent::X86(32, true) => Some(
                Architecture {
                    ident,
                    bits: 32,
                    va_bits: 32,
                    page_bits: 12,
                    index_bits: 9,
                    levels: 3,
                    pte_size: 8,
                    phys_bits: 52,
                    large_levels: 0b0010,
                    descriptor_format: false,
                },
            ),
            ArchitectureIdent::X86(32, false) => Some(
                Architecture {
                    ident,
                    bits: 32,
                    va_bits: 32,
                    page_bits: 12,
                    index_bits: 10,
                    levels: 2,
                    pte_size: 4,
                    phys_bits: 32,
                    large_levels: 0b0001,
                    descriptor_format: false,
                },
            ),
            ArchitectureIdent::AArch64(0x1000) => Some(
                Architecture {
                    ident,
                    bits: 64,
                    va_bits: 48,
                    page_bits: 12,
                    index_bits: 9,
                    levels: 4,
                    pte_size: 8,
                    phys_bits: 48,
                    large_levels: 0b0110,
                    descriptor_format: true,
                },
            ),
            ArchitectureIdent::AArch64(0x4000) => Some(
                Architecture {
                    ident,
                    bits: 64,
                    va_bits: 48,
                    page_bits: 14,
                    index_bits: 11,
                    levels: 4,
                    pte_size: 8,
                    phys_bits: 48,
                    large_levels: 0b0100,
                    descriptor_format: true,
                },
            ),
            ArchitectureIdent::AArch64(0x10000) => Some(
                Architecture {
                    ident,
                    bits: 64,
                    va_bits: 48,
                    page_bits: 16,
                    index_bits: 13,
                    levels: 3,
                    pte_size: 8,
                    phys_bits: 48,
                    large_levels: 0b0010,
                    descriptor_format: true,
                },
            ),
            _ => None,
        }
    }

    /// The scheme that `ident` names, if it is supported.
    pub fn from_ident(ident: ArchitectureIdent) -> (arch: Option<Architecture>)
        ensures
            arch == Self::spec_from_ident(ident),
            arch matches Some(a) ==> a.wf() && a.ident == ident,
    {
        match ident {
            ArchitectureIdent::X86(64, false) => Some(
                Architecture {
                    ident,
                    bits: 64,
                    va_bits: 48,
                    page_bits: 12,
                    index_bits: 9,
                    levels: 4,
                    pte_size: 8,
                    phys_bits: 52,
                    large_levels: 0b0110,
                    descriptor_format: false,
                },
            ),
            ArchitectureIdent::X86(32, true) => Some(
                Architecture {
                    ident,
                    bits: 32,
                    va_bits: 32,
                    page_bits: 12,
                    index_bits: 9,
                    levels: 3,
                    pte_size: 8,
                    phys_bits: 52,
                    large_levels: 0b0010,
                    descriptor_format: false,
                },
            ),
            ArchitectureIdent::X86(32, false) => Some(
                Architecture {
                    ident,
                    bits: 32,
                    va_bits: 32,
                    page_bits: 12,
                    index_bits: 10,
                    levels: 2,
                    pte_size: 4,
                    phys_bits: 32,
                    large_levels: 0b0001,
                    descriptor_format: false,
                },
            ),
            ArchitectureIdent::AArch64(0x1000) => Some(
                Architecture {
                    ident,
                    bits: 64,
                    va_bits: 48,
                    page_bits: 12,
                    index_bits: 9,
                    levels: 4,
                    pte_size: 8,
                    phys_bits: 48,
                    large_levels: 0b0110,
                    descriptor_format: true,
                },
            ),
            ArchitectureIdent::AArch64(0x4000) => Some(
                Architecture {
                    ident,
                    bits: 64,
                    va_bits: 48,
                    page_bits: 14,
                    index_bits: 11,
                    levels: 4,
                    pte_size: 8,
                    phys_bits: 48,
                    large_levels: 0b0100,
                    descriptor_format: true,
                },
            ),
            ArchitectureIdent::AArch64(0x10000) => Some(
                Architecture {
                    ident,
                    bits: 64,
                    va_bits: 48,
                    page_bits: 16,
                    index_bits: 13,
                    levels: 3,
                    pte_size: 8,
                    phys_bits: 48,
                    large_levels: 0b0010,
                    descriptor_format: true,
                },
            ),
            _ => None,
        }
    }

    /// Width of a pointer in bits.
    pub fn bits(&self) -> (b: u8)
        ensures
            b == self.bits,
    {
        self.bits
    }

    /// Size in bytes of the smallest page.
    pub fn page_size(&self) -> (size: usize)
        requires
            self.wf(),
        ensures
            size == self.spec_page_size(),
            size == vstd::arithmetic::power2::pow2(self.page_bits as nat),
            1024 <= size <= 0x10000,
    {
        let size: usize = 1usize << (self.page_bits as usize);
        proof {
            vstd::arithmetic::power2::lemma2_to64();
            if self.page_bits < 16 {
                vstd::arithmetic::power2::lemma_pow2_strictly_increases(self.page_bits as nat, 16);
            }
            if self.page_bits > 10 {
                vstd::arithmetic::power2::lemma_pow2_strictly_increases(10, self.page_bits as nat);
            }
            vstd::bits::lemma_usize_shl_is_mul(1usize, self.page_bits as usize);
        }
        size
    }

    /// The position of the lowest address bit that selects an entry at
    /// `level`.
    pub fn shift(&self, level: u8) -> (s: u8)
        requires
            self.wf(),
            level < self.levels,
        ensures
            s == self.spec_shift(level as int),
            self.page_bits <= s < self.va_bits,
    {
        let below: u8 = self.levels - 1 - level;
        assert(self.index_bits * below <= 39 && self.index_bits * below <= self.index_bits * (
        self.levels - 1)) by (nonlinear_arith)
            requires
                0 <= below <= self.levels - 1,
                self.levels <= 4,
                1 <= self.index_bits <= 13,
        ;
        self.page_bits + self.index_bits * below
    }

    /// How many address bits select an entry at `level`.
    pub fn index_width(&self, level: u8) -> (w: u8)
        requires
            self.wf(),
            level < self.levels,
        ensures
            w == self.spec_index_width(level as int),
            1 <= w <= 13,
    {
        if level == 0 {
            self.va_bits - self.shift(0)
        } else {
            self.index_bits
        }
    }

    /// The address of the entry for `vaddr` in the table at `level` that
    /// `value` points to.
    pub fn entry_address(&self, value: u64, vaddr: u64, level: u8) -> (a: u64)
        requires
            self.wf(),
            level < self.levels,
        ensures
            a == self.spec_entry_address(value, vaddr, level as int),
            a + self.pte_size <= 0x20_0000_0000_0000,
    {
        let shift = self.shift(level);
        let width = self.index_width(level);
        let index: u64 = (vaddr >> (shift as u64)) & mask_of(width);
        let table_bytes: u64 = (self.pte_size as u64) << (width as u64);
        proof {
            lemma_table_bytes(self.pte_size, width);
        }
        let base: u64 = value & mask_of(self.phys_bits) & !(table_bytes - 1);
        proof {
            lemma_masked_bounds(value, vaddr >> (shift as u64), self.phys_bits, width);
            assert(index * self.pte_size <= 0x1fff * 8) by (nonlinear_arith)
                requires
                    index <= 0x1fff,
                    self.pte_size <= 8,
            ;
        }
        base + index * (self.pte_size as u64)
    }

    /// The physical address of `vaddr` in the page that the leaf `entry` at
    /// `level` maps.
    pub fn page_address(&self, entry: u64, vaddr: u64, level: u8) -> (a: u64)
        requires
            self.wf(),
            level < self.levels,
        ensures
            a == self.spec_page_address(entry, vaddr, level as int),
    {
        let shift = self.shift(level);
        let offset_mask = mask_of(shift);
        (entry & mask_of(self.phys_bits) & !offset_mask) | (vaddr & offset_mask)
    }

    /// What `entry` is at `level`.
    pub fn entry_kind(&self, entry: u64, level: u8) -> (kind: EntryKind)
        requires
            self.wf(),
            level < self.levels,
        ensures
            kind == self.spec_entry_kind(entry, level as int),
    {
        let large_allowed = (self.large_levels >> level) & 1 == 1;
        if entry & 1 == 0 {
            EntryKind::NotPresent
        } else if self.descriptor_format {
            if (entry >> 1) & 1 == 1 {
                if level == self.levels - 1 {
                    EntryKind::Leaf
                } else {
                    EntryKind::Table
                }
            } else if level != self.levels - 1 && large_allowed {
                EntryKind::Leaf
            } else {
                EntryKind::Malformed
            }
        } else {
            if level == self.levels - 1 {
                EntryKind::Leaf
            } else if (entry >> 7) & 1 == 1 && large_allowed {
                EntryKind::Leaf
            } else {
                EntryKind::Table
            }
        }
    }
}

/// The low `n` bits set.
pub fn mask_of(n: u8) -> (m: u64)
    ensures
        m == low_mask(n),
{
    if n >= 64 {
        0xffff_ffff_ffff_ffff
    } else {
        assert((1u64 << n) >= 1) by (bit_vector)
            requires
                n < 64,
        ;
        (1u64 << n) - 1
    }
}

/// A value cut down to a physical address is below two to the power of 52,
/// and an index cut down to at most 13 bits is below two to the power of 13.
pub proof fn lemma_masked_bounds(value: u64, shifted: u64, phys_bits: u8, width: u8)
    requires
        phys_bits <= 52,
        width <= 13,
    ensures
        forall|other: u64| (#[trigger] (value & low_mask(phys_bits) & other)) <= 0xf_ffff_ffff_ffff,
        (shifted & low_mask(width)) <= 0x1fff,
{
    let pm = low_mask(phys_bits);
    assert(pm <= 0xf_ffff_ffff_ffff) by (bit_vector)
        requires
            phys_bits <= 52,
            pm == ((1u64 << phys_bits) - 1) as u64,
    ;
    assert forall|other: u64| (#[trigger] (value & pm & other)) <= 0xf_ffff_ffff_ffff by {
        assert((value & pm & other) <= pm) by (bit_vector);
    }
    let im = low_mask(width);
    assert(im <= 0x1fff) by (bit_vector)
        requires
            width <= 13,
            im == ((1u64 << width) - 1) as u64,
    ;
    assert((shifted & im) <= im) by (bit_vector);
}

/// A table holds at least one entry.
pub proof fn lemma_table_bytes(pte_size: u8, width: u8)
    requires
        pte_size == 4 || pte_size == 8,
        width <= 13,
    ensures
        ((pte_size as u64) << (width as u64)) >= 4,
{
    assert(((pte_size as u64) << (width as u64)) >= 4) by (bit_vector)
        requires
            pte_size == 4 || pte_size == 8,
            width <= 13,
    ;
}

} // verus!
