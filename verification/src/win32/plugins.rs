//! Turns an argument bag into the settings of a Windows kernel layer.
//!
//! Recognised keys: `dtb` and `kernel_hint` (addresses in base 16),
//! `memcache` (`default`, `none`, or a cache description), `symstore`
//! (`uncached` or `none`) and `arch` (`x64`, `x32`, `x32_pae`, `aarch64`).
//! A cache description is `page:<size><unit>;<ms>&vat:<entries>;<ms>`, either
//! part optional but not both, sizes and entry counts in base 16, times in
//! base 10; a number may carry a plus sign in front. A key that is given
//! with a value it does not admit is a configuration error; a key that is
//! not given leaves its setting as it is.

use crate::architecture::ArchitectureIdent;
use crate::error::{Error, Result};
use crate::plugins::args::{lookup, Args, SpecPair};
use crate::plugins::text::{
    after_char, before_char, ends_with_seq, ends_with_str, eq_ignore_case, eq_ignore_case_str,
    equals_str, find_segment, find_segment_str, parse_u64_radix, parse_unsigned,
    parse_usize_radix, second_field, second_field_str, split_once_char,
};
use crate::types::address::Address;
use vstd::prelude::*;
use vstd::string::*;

verus! {

/// Capacity and freshness window of one cache.
#[derive(Clone, Copy, Debug, PartialEq, Eq, Structural)]
pub struct CacheSettings {
    /// Bytes for the page cache, entries for the translation cache.
    pub size: usize,
    /// How long an entry stays valid, in milliseconds.
    pub validity_ms: u64,
}

/// Whether a cache is built, and how.
#[derive(Clone, Copy, Debug, PartialEq, Eq, Structural)]
pub enum CachePlan {
    /// No cache.
    Disabled,
    /// A cache with the built-in capacity and window.
    Default,
    /// A cache with the given capacity and window.
    Custom(CacheSettings),
}

/// Where symbols come from.
#[derive(Clone, Copy, Debug, PartialEq, Eq, Structural)]
pub enum SymbolStorePlan {
    /// The symbol store with its on-disk cache.
    Default,
    /// The symbol store without its on-disk cache.
    Uncached,
    /// No symbol store.
    Disabled,
}

/// The settings gathered so far for a kernel over the connector `connector`.
#[derive(Debug)]
pub struct Win32KernelBuilder<M> {
    pub connector: M,
    pub dtb: Option<Address>,
    pub kernel_hint: Option<Address>,
    pub arch: Option<ArchitectureIdent>,
    pub symbol_store: SymbolStorePlan,
    pub page_cache: CachePlan,
    pub vat_cache: CachePlan,
}

/// A finished description of an OS layer: the kernel settings and the
/// optional parts switched on.
#[derive(Debug)]
pub struct OsInstance<M> {
    pub kernel: Win32KernelBuilder<M>,
    pub keyboard: bool,
}

impl<M> Win32KernelBuilder<M> {
    /// A builder over `connector` with nothing set: no caches, the default
    /// symbol store, everything else to be detected.
    pub fn new(connector: M) -> (b: Self)
        ensures
            b == Self::spec_new(connector),
    {
        Win32KernelBuilder {
            connector,
            dtb: None,
            kernel_hint: None,
            arch: None,
            symbol_store: SymbolStorePlan::Default,
            page_cache: CachePlan::Disabled,
            vat_cache: CachePlan::Disabled,
        }
    }

    /// The builder that `new` makes.
    pub open spec fn spec_new(connector: M) -> Self {
        Win32KernelBuilder {
            connector,
            dtb: None,
            kernel_hint: None,
            arch: None,
            symbol_store: SymbolStorePlan::Default,
            page_cache: CachePlan::Disabled,
            vat_cache: CachePlan::Disabled,
        }
    }
}

/// The byte count of a size that ends in `unit`: the number that stands
/// before the unit, in base 16, times `factor`.
pub open spec fn scaled_size(text: Seq<char>, unit: Seq<char>, factor: int) -> Option<int> {
    match parse_unsigned(text.subrange(0, text.len() - unit.len()), 16, usize::MAX as int) {
        Some(n) => if n * factor <= usize::MAX {
            Some(n * factor)
        } else {
            None
        },
        None => None,
    }
}

/// The byte count that a page cache size spells: a number in base 16
/// followed by exactly one unit out of `kb`, `k`, `mb`, `m`, `gb`, `g`. The
/// product must fit `usize`.
pub open spec fn page_cache_size(text: Seq<char>) -> Option<int> {
    if ends_with_seq(text, "kb"@) {
        scaled_size(text, "kb"@, 0x400)
    } else if ends_with_seq(text, "k"@) {
        scaled_size(text, "k"@, 0x400)
    } else if ends_with_seq(text, "mb"@) {
        scaled_size(text, "mb"@, 0x10_0000)
    } else if ends_with_seq(text, "m"@) {
        scaled_size(text, "m"@, 0x10_0000)
    } else if ends_with_seq(text, "gb"@) {
        scaled_size(text, "gb"@, 0x4000_0000)
    } else if ends_with_seq(text, "g"@) {
        scaled_size(text, "g"@, 0x4000_0000)
    } else {
        None
    }
}

fn scaled(text: &str, unit: &str, factor: usize) -> (r: Option<usize>)
    requires
        ends_with_seq(text@, unit@),
    ensures
        r.is_some() == scaled_size(text@, unit@, factor as int).is_some(),
        r matches Some(v) ==> scaled_size(text@, unit@, factor as int) == Some(v as int),
{
    let number = text.substring_char(0, text.unicode_len() - unit.unicode_len());
    match parse_usize_radix(number, 16) {
        Some(n) => n.checked_mul(factor),
        None => None,
    }
}

/// Reads a page cache size: see `page_cache_size`.
pub fn parse_page_cache_size(text: &str) -> (r: Option<usize>)
    ensures
        r.is_some() == page_cache_size(text@).is_some(),
        r matches Some(v) ==> page_cache_size(text@) == Some(v as int),
{
    proof {
        reveal_strlit("kb");
        reveal_strlit("k");
        reveal_strlit("mb");
        reveal_strlit("m");
        reveal_strlit("gb");
        reveal_strlit("g");
    }
    if ends_with_str(text, "kb") {
        scaled(text, "kb", 0x400)
    } else if ends_with_str(text, "k") {
        scaled(text, "k", 0x400)
    } else if ends_with_str(text, "mb") {
        scaled(text, "mb", 0x10_0000)
    } else if ends_with_str(text, "m") {
        scaled(text, "m", 0x10_0000)
    } else if ends_with_str(text, "gb") {
        scaled(text, "gb", 0x4000_0000)
    } else if ends_with_str(text, "g") {
        scaled(text, "g", 0x4000_0000)
    } else {
        None
    }
}

/// The freshness window that `text` spells, in milliseconds: a number in
/// base 10 that fits 64 bits.
pub open spec fn validity_time(text: Seq<char>) -> Option<int> {
    parse_unsigned(text, 10, u64::MAX as int)
}

/// The capacity of the translation cache that `text` spells, in entries: a
/// number in base 16 that fits `usize`.
pub open spec fn vat_entries(text: Seq<char>) -> Option<int> {
    parse_unsigned(text, 16, usize::MAX as int)
}

/// What a cache description says of the page cache. `Ok(None)` where it
/// does not mention one; the default cache where it gives no settings; an
/// error where the settings lack the `;` or either number is malformed.
pub open spec fn page_cache_plan(mode: Seq<char>) -> Result<Option<CachePlan>> {
    match find_segment(mode, '&', "page"@) {
        None => Ok(None),
        Some(segment) => match second_field(segment, ':') {
            None => Ok(Some(CachePlan::Default)),
            Some(fields) => match after_char(fields, ';') {
                None => Err(Error::Configuration),
                Some(time) => match (
                    page_cache_size(before_char(fields, ';')),
                    validity_time(time),
                ) {
                    (Some(size), Some(ms)) => Ok(
                        Some(
                            CachePlan::Custom(
                                CacheSettings { size: size as usize, validity_ms: ms as u64 },
                            ),
                        ),
                    ),
                    _ => Err(Error::Configuration),
                },
            },
        },
    }
}

/// What a cache description says of the translation cache: as
/// `page_cache_plan`, for the part that holds `vat`, with a plain entry
/// count in place of a size with a unit.
pub open spec fn vat_cache_plan(mode: Seq<char>) -> Result<Option<CachePlan>> {
    match find_segment(mode, '&', "vat"@) {
        None => Ok(None),
        Some(segment) => match second_field(segment, ':') {
            None => Ok(Some(CachePlan::Default)),
            Some(fields) => match after_char(fields, ';') {
                None => Err(Error::Configuration),
                Some(time) => match (vat_entries(before_char(fields, ';')), validity_time(time)) {
                    (Some(size), Some(ms)) => Ok(
                        Some(
                            CachePlan::Custom(
                                CacheSettings { size: size as usize, validity_ms: ms as u64 },
                            ),
                        ),
                    ),
                    _ => Err(Error::Configuration),
                },
            },
        },
    }
}

/// Reads the page cache part of a cache description.
pub fn parse_page_cache(mode: &str) -> (r: Result<Option<CachePlan>>)
    ensures
        r == page_cache_plan(mode@),
{
    let segment = match find_segment_str(mode, '&', "page") {
        Some(segment) => segment,
        None => {
            return Ok(None);
        },
    };
    let fields = match second_field_str(segment, ':') {
        Some(fields) => fields,
        None => {
            return Ok(Some(CachePlan::Default));
        },
    };
    let (size, time) = split_once_char(fields, ';');
    let time = match time {
        Some(time) => time,
        None => {
            return Err(Error::Configuration);
        },
    };
    let size = match parse_page_cache_size(size) {
        Some(size) => size,
        None => {
            return Err(Error::Configuration);
        },
    };
    let validity_ms = match parse_u64_radix(time, 10) {
        Some(ms) => ms,
        None => {
            return Err(Error::Configuration);
        },
    };
    Ok(Some(CachePlan::Custom(CacheSettings { size, validity_ms })))
}

/// Reads the translation cache part of a cache description.
pub fn parse_vat_cache(mode: &str) -> (r: Result<Option<CachePlan>>)
    ensures
        r == vat_cache_plan(mode@),
{
    let segment = match find_segment_str(mode, '&', "vat") {
        Some(segment) => segment,
        None => {
            return Ok(None);
        },
    };
    let fields = match second_field_str(segment, ':') {
        Some(fields) => fields,
        None => {
            return Ok(Some(CachePlan::Default));
        },
    };
    let (size, time) = split_once_char(fields, ';');
    let time = match time {
        Some(time) => time,
        None => {
            return Err(Error::Configuration);
        },
    };
    let size = match parse_usize_radix(size, 16) {
        Some(size) => size,
        None => {
            return Err(Error::Configuration);
        },
    };
    let validity_ms = match parse_u64_radix(time, 10) {
        Some(ms) => ms,
        None => {
            return Err(Error::Configuration);
        },
    };
    Ok(Some(CachePlan::Custom(CacheSettings { size, validity_ms })))
}

/// The address that an optional argument spells in base 16: nothing where
/// the argument is not given, an error where it is given and spells none.
pub open spec fn address_arg(value: Option<Seq<char>>) -> Result<Option<Address>> {
    match value {
        Some(text) => match parse_unsigned(text, 16, u64::MAX as int) {
            Some(v) => Ok(Some(Address(v as u64))),
            None => Err(Error::Configuration),
        },
        None => Ok(None),
    }
}

/// Reads an optional address argument: see `address_arg`.
pub fn parse_address_arg(value: Option<&str>) -> (r: Result<Option<Address>>)
    ensures
        r == address_arg(
            match value {
                Some(text) => Some(text@),
                None => None,
            },
        ),
{
    match value {
        Some(text) => match parse_u64_radix(text, 16) {
            Some(v) => Ok(Some(Address(v))),
            None => Err(Error::Configuration),
        },
        None => Ok(None),
    }
}

/// The architecture that an `arch` argument names, whatever the case of its
/// letters: nothing where the argument is not given, an error where it is
/// given and names none of the four schemes.
pub open spec fn arch_named(value: Option<Seq<char>>) -> Result<Option<ArchitectureIdent>> {
    match value {
        Some(text) => if eq_ignore_case(text, "x64"@) {
            Ok(Some(ArchitectureIdent::X86(64, false)))
        } else if eq_ignore_case(text, "x32"@) {
            Ok(Some(ArchitectureIdent::X86(32, false)))
        } else if eq_ignore_case(text, "x32_pae"@) {
            Ok(Some(ArchitectureIdent::X86(32, true)))
        } else if eq_ignore_case(text, "aarch64"@) {
            Ok(Some(ArchitectureIdent::AArch64(0x1000)))
        } else {
            Err(Error::Configuration)
        },
        None => Ok(None),
    }
}

/// Reads an optional `arch` argument: see `arch_named`.
pub fn parse_arch(value: Option<&str>) -> (r: Result<Option<ArchitectureIdent>>)
    ensures
        r == arch_named(
            match value {
                Some(text) => Some(text@),
                None => None,
            },
        ),
{
    match value {
        Some(text) => if eq_ignore_case_str(text, "x64") {
            Ok(Some(ArchitectureIdent::X86(64, false)))
        } else if eq_ignore_case_str(text, "x32") {
            Ok(Some(ArchitectureIdent::X86(32, false)))
        } else if eq_ignore_case_str(text, "x32_pae") {
            Ok(Some(ArchitectureIdent::X86(32, true)))
        } else if eq_ignore_case_str(text, "aarch64") {
            Ok(Some(ArchitectureIdent::AArch64(0x1000)))
        } else {
            Err(Error::Configuration)
        },
        None => Ok(None),
    }
}

/// The finished instance: the settings as they stand, with the keyboard
/// switched on.
pub open spec fn spec_build_final<M>(builder: Win32KernelBuilder<M>) -> Result<OsInstance<M>> {
    Ok(OsInstance { kernel: builder, keyboard: true })
}

/// `spec_build_final` after the `arch` argument has been taken over; a
/// configuration error where it names no scheme.
pub open spec fn spec_build_arch<M>(builder: Win32KernelBuilder<M>, args: Seq<SpecPair>) -> Result<
    OsInstance<M>,
> {
    match arch_named(lookup(args, "arch"@)) {
        Ok(Some(arch)) => spec_build_final(Win32KernelBuilder { arch: Some(arch), ..builder }),
        Ok(None) => spec_build_final(builder),
        Err(e) => Err(e),
    }
}

/// The symbol store that a `symstore` argument asks for: nothing where the
/// argument is not given, an error where it is given and is neither
/// `uncached` nor `none`.
pub open spec fn symbol_store_named(value: Option<Seq<char>>) -> Result<Option<SymbolStorePlan>> {
    match value {
        Some(text) => if text == "uncached"@ {
            Ok(Some(SymbolStorePlan::Uncached))
        } else if text == "none"@ {
            Ok(Some(SymbolStorePlan::Disabled))
        } else {
            Err(Error::Configuration)
        },
        None => Ok(None),
    }
}

/// Reads an optional `symstore` argument: see `symbol_store_named`.
pub fn parse_symbol_store(value: Option<&str>) -> (r: Result<Option<SymbolStorePlan>>)
    ensures
        r == symbol_store_named(
            match value {
                Some(text) => Some(text@),
                None => None,
            },
        ),
{
    match value {
        Some(text) => if equals_str(text, "uncached") {
            Ok(Some(SymbolStorePlan::Uncached))
        } else if equals_str(text, "none") {
            Ok(Some(SymbolStorePlan::Disabled))
        } else {
            Err(Error::Configuration)
        },
        None => Ok(None),
    }
}

/// `spec_build_arch` after the `symstore` argument has been taken over; a
/// configuration error where it asks for what there is not.
pub open spec fn spec_build_symstore<M>(
    builder: Win32KernelBuilder<M>,
    args: Seq<SpecPair>,
) -> Result<OsInstance<M>> {
    match symbol_store_named(lookup(args, "symstore"@)) {
        Ok(Some(plan)) => spec_build_arch(
            Win32KernelBuilder { symbol_store: plan, ..builder },
            args,
        ),
        Ok(None) => spec_build_arch(builder, args),
        Err(e) => Err(e),
    }
}

/// `spec_build_symstore` after the `kernel_hint` argument has been taken
/// over; a configuration error where it spells no address.
pub open spec fn spec_build_kernel_hint<M>(
    builder: Win32KernelBuilder<M>,
    args: Seq<SpecPair>,
) -> Result<OsInstance<M>> {
    match address_arg(lookup(args, "kernel_hint"@)) {
        Ok(Some(hint)) => spec_build_symstore(
            Win32KernelBuilder { kernel_hint: Some(hint), ..builder },
            args,
        ),
        Ok(None) => spec_build_symstore(builder, args),
        Err(e) => Err(e),
    }
}

/// `spec_build_kernel_hint` after the page cache part of `mode` has been
/// taken over; the error of that part where it is malformed.
pub open spec fn spec_build_page_cache<M>(
    builder: Win32KernelBuilder<M>,
    mode: Seq<char>,
    args: Seq<SpecPair>,
) -> Result<OsInstance<M>> {
    match page_cache_plan(mode) {
        Ok(Some(plan)) => spec_build_kernel_hint(
            Win32KernelBuilder { page_cache: plan, ..builder },
            args,
        ),
        Ok(None) => spec_build_kernel_hint(builder, args),
        Err(e) => Err(e),
    }
}

/// `spec_build_page_cache` after the translation cache part of `mode` has
/// been taken over; the error of that part where it is malformed.
pub open spec fn spec_build_vat<M>(
    builder: Win32KernelBuilder<M>,
    mode: Seq<char>,
    args: Seq<SpecPair>,
) -> Result<OsInstance<M>> {
    match vat_cache_plan(mode) {
        Ok(Some(plan)) => spec_build_page_cache(
            Win32KernelBuilder { vat_cache: plan, ..builder },
            mode,
            args,
        ),
        Ok(None) => spec_build_page_cache(builder, mode, args),
        Err(e) => Err(e),
    }
}

/// Whether a cache description speaks of a cache at all: one of its parts
/// holds `page` or `vat`.
pub open spec fn names_a_cache(mode: Seq<char>) -> bool {
    find_segment(mode, '&', "page"@).is_some() || find_segment(mode, '&', "vat"@).is_some()
}

/// The `memcache` argument decides the caches: both default caches where it
/// is absent or `default`, none where it is `none`, what it describes where
/// it describes a cache, and a configuration error otherwise.
pub open spec fn spec_build_caches<M>(builder: Win32KernelBuilder<M>, args: Seq<SpecPair>) -> Result<
    OsInstance<M>,
> {
    let mode = match lookup(args, "memcache"@) {
        Some(mode) => mode,
        None => "default"@,
    };
    if mode == "default"@ {
        spec_build_kernel_hint(
            Win32KernelBuilder {
                page_cache: CachePlan::Default,
                vat_cache: CachePlan::Default,
                ..builder
            },
            args,
        )
    } else if mode == "none"@ {
        spec_build_kernel_hint(builder, args)
    } else if names_a_cache(mode) {
        spec_build_vat(builder, mode, args)
    } else {
        Err(Error::Configuration)
    }
}

/// `spec_build_caches` after the `dtb` argument has been taken over; a
/// configuration error where it spells no address.
pub open spec fn spec_build_dtb<M>(builder: Win32KernelBuilder<M>, args: Seq<SpecPair>) -> Result<
    OsInstance<M>,
> {
    match address_arg(lookup(args, "dtb"@)) {
        Ok(Some(dtb)) => spec_build_caches(Win32KernelBuilder { dtb: Some(dtb), ..builder }, args),
        Ok(None) => spec_build_caches(builder, args),
        Err(e) => Err(e),
    }
}

/// The instance that `args` describe over the connector `mem`; a
/// configuration error where no connector is given.
pub open spec fn spec_build_kernel<M>(args: Seq<SpecPair>, mem: Option<M>) -> Result<OsInstance<M>> {
    match mem {
        Some(mem) => spec_build_dtb(Win32KernelBuilder::spec_new(mem), args),
        None => Err(Error::Configuration),
    }
}

/// Builds the instance that `args` describe over the connector `mem`.
pub fn build_kernel<M>(args: &Args, mem: Option<M>) -> (r: Result<OsInstance<M>>)
    ensures
        r == spec_build_kernel(args@, mem),
{
    match mem {
        Some(mem) => build_dtb(Win32KernelBuilder::new(mem), args),
        None => Err(Error::Configuration),
    }
}

/// Finishes the instance.
pub fn build_final<M>(kernel_builder: Win32KernelBuilder<M>, _args: &Args) -> (r: Result<
    OsInstance<M>,
>)
    ensures
        r == spec_build_final(kernel_builder),
{
    Ok(OsInstance { kernel: kernel_builder, keyboard: true })
}

/// Takes over the `arch` argument, then finishes.
pub fn build_arch<M>(builder: Win32KernelBuilder<M>, args: &Args) -> (r: Result<OsInstance<M>>)
    ensures
        r == spec_build_arch(builder, args@),
{
    match parse_arch(args.get("arch")) {
        Ok(Some(arch)) => build_final(Win32KernelBuilder { arch: Some(arch), ..builder }, args),
        Ok(None) => build_final(builder, args),
        Err(e) => Err(e),
    }
}

/// Takes over the `symstore` argument, then goes on with the architecture.
pub fn build_symstore<M>(builder: Win32KernelBuilder<M>, args: &Args) -> (r: Result<OsInstance<M>>)
    ensures
        r == spec_build_symstore(builder, args@),
{
    match parse_symbol_store(args.get("symstore")) {
        Ok(Some(plan)) => build_arch(Win32KernelBuilder { symbol_store: plan, ..builder }, args),
        Ok(None) => build_arch(builder, args),
        Err(e) => Err(e),
    }
}

/// Takes over the `kernel_hint` argument, then goes on with the symbol
/// store.
pub fn build_kernel_hint<M>(builder: Win32KernelBuilder<M>, args: &Args) -> (r: Result<
    OsInstance<M>,
>)
    ensures
        r == spec_build_kernel_hint(builder, args@),
{
    match parse_address_arg(args.get("kernel_hint")) {
        Ok(Some(hint)) => build_symstore(
            Win32KernelBuilder { kernel_hint: Some(hint), ..builder },
            args,
        ),
        Ok(None) => build_symstore(builder, args),
        Err(e) => Err(e),
    }
}

/// Takes over the page cache part of `mode`, then goes on with the kernel
/// hint.
pub fn build_page_cache<M>(builder: Win32KernelBuilder<M>, mode: &str, args: &Args) -> (r: Result<
    OsInstance<M>,
>)
    ensures
        r == spec_build_page_cache(builder, mode@, args@),
{
    match parse_page_cache(mode) {
        Ok(Some(plan)) => build_kernel_hint(
            Win32KernelBuilder { page_cache: plan, ..builder },
            args,
        ),
        Ok(None) => build_kernel_hint(builder, args),
        Err(e) => Err(e),
    }
}

/// Takes over the translation cache part of `mode`, then goes on with the
/// page cache.
pub fn build_vat<M>(builder: Win32KernelBuilder<M>, mode: &str, args: &Args) -> (r: Result<
    OsInstance<M>,
>)
    ensures
        r == spec_build_vat(builder, mode@, args@),
{
    match parse_vat_cache(mode) {
        Ok(Some(plan)) => build_page_cache(
            Win32KernelBuilder { vat_cache: plan, ..builder },
            mode,
            args,
        ),
        Ok(None) => build_page_cache(builder, mode, args),
        Err(e) => Err(e),
    }
}

/// Takes over the `memcache` argument, then goes on with the kernel hint.
pub fn build_caches<M>(builder: Win32KernelBuilder<M>, args: &Args) -> (r: Result<OsInstance<M>>)
    ensures
        r == spec_build_caches(builder, args@),
{
    let mode = match args.get("memcache") {
        Some(mode) => mode,
        None => "default",
    };
    if equals_str(mode, "default") {
        build_kernel_hint(
            Win32KernelBuilder {
                page_cache: CachePlan::Default,
                vat_cache: CachePlan::Default,
                ..builder
            },
            args,
        )
    } else if equals_str(mode, "none") {
        build_kernel_hint(builder, args)
    } else if find_segment_str(mode, '&', "page").is_some() || find_segment_str(
        mode,
        '&',
        "vat",
    ).is_some() {
        build_vat(builder, mode, args)
    } else {
        Err(Error::Configuration)
    }
}

/// Takes over the `dtb` argument, then goes on with the caches.
pub fn build_dtb<M>(builder: Win32KernelBuilder<M>, args: &Args) -> (r: Result<OsInstance<M>>)
    ensures
        r == spec_build_dtb(builder, args@),
{
    match parse_address_arg(args.get("dtb")) {
        Ok(Some(dtb)) => build_caches(Win32KernelBuilder { dtb: Some(dtb), ..builder }, args),
        Ok(None) => build_caches(builder, args),
        Err(e) => Err(e),
    }
}

} // verus!
