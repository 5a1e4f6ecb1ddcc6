//! The search for the kernel image in an address space.
//!
//! The search starts from a hint: a virtual address that is known to lie in
//! the kernel. It looks through the 32 MiB at and below the hint, 2 MiB at
//! a time from the top down, for a page that starts with the `MZ` signature,
//! holds the pool tag `POOLCODE` at a multiple of eight bytes, and is the
//! start of a portable executable with an export table. Whether it is one
//! is for a parser to say, which the caller of the search provides.

use crate::architecture::Architecture;
use crate::dataview::{le_value, read_u16_le, read_u64_le};
use crate::error::{Error, PartialError, Result};
use crate::mem::phys::{MapView, PhysicalMemory};
use crate::mem::virt_mem::{virt_read, VirtualFromPhysical};
use crate::mem::virt_translate::VirtualTranslate;
use crate::types::address::{address_space, Address};
use vstd::prelude::*;
use vstd::slice::slice_subrange;

verus! {

/// What a parser of portable executables makes of an image, as far as the
/// search looks at it. The search parses nothing itself: its caller hands
/// it the parser.
#[derive(Clone, Copy, Debug, PartialEq, Eq, Structural)]
pub enum PeProbe {
    /// The bytes are no portable executable.
    NotPe,
    /// The image has no optional header.
    NoOptionalHeader,
    /// The image has an optional header without an export table.
    NoExportTable,
    /// The image has an export table of this size.
    ExportTable(u32),
}

/// A place in the scan: a step, counted from the hint down, and a page of
/// that step.
#[derive(Clone, Copy, Debug, PartialEq, Eq, Structural)]
pub struct ScanPosition {
    pub step: u64,
    pub page: usize,
}

/// What the scan comes to.
#[derive(Debug, PartialEq, Eq)]
pub enum ScanOutcome {
    /// A page that may start the kernel image, with the bytes of the image
    /// for the parser to look at.
    Candidate { position: ScanPosition, at: Address, image: Vec<u8> },
    /// The scan has ended without a candidate.
    Failed(Error),
}

/// Size of a page of the scan.
pub const SCAN_PAGE: usize = 0x1000;

/// Bytes read and scanned at a time.
pub const SCAN_STEP: usize = 0x20_0000;

/// How many steps the scan takes: 32 MiB in all.
pub const SCAN_STEPS: u64 = 16;

/// Bytes read from the start of a candidate to parse it.
pub const IMAGE_SIZE: usize = 0x80_0000;

/// The signature `MZ` as a little-endian number.
pub const MZ_SIGNATURE: u16 = 0x5a4d;

/// The pool tag `POOLCODE` as a little-endian number.
pub const POOL_CODE: u64 = 0x4544_4f43_4c4f_4f50;

/// Whether the image is taken for the kernel: it has an export table.
pub open spec fn spec_is_kernel_image(probe: PeProbe) -> bool {
    probe is ExportTable
}

/// Whether the image is taken for the kernel.
pub fn is_kernel_image(probe: &PeProbe) -> (b: bool)
    ensures
        b == spec_is_kernel_image(*probe),
{
    match probe {
        PeProbe::ExportTable(_) => true,
        _ => false,
    }
}

/// Whether `page` starts with the signature `MZ`.
pub open spec fn has_mz(page: Seq<u8>) -> bool {
    page.len() >= 2 && le_value(page.subrange(0, 2)) == MZ_SIGNATURE
}

/// Whether the eight bytes of `page` from `8 * k` on spell `POOLCODE`.
pub open spec fn pool_code_at(page: Seq<u8>, k: int) -> bool {
    &&& 0 <= k
    &&& 8 * k + 8 <= page.len()
    &&& le_value(page.subrange(8 * k, 8 * k + 8)) == POOL_CODE
}

/// Whether `page` holds `POOLCODE` at a multiple of eight bytes.
pub open spec fn has_pool_code(page: Seq<u8>) -> bool {
    exists|k: int| pool_code_at(page, k)
}

/// Whether `page` may be the first page of the kernel image.
pub open spec fn is_candidate(page: Seq<u8>) -> bool {
    has_mz(page) && has_pool_code(page)
}

/// Whether `page` may be the first page of the kernel image.
pub fn check_candidate(page: &[u8]) -> (b: bool)
    ensures
        b == is_candidate(page@),
{
    let len = page.len();
    if len < 2 {
        return false;
    }
    if read_u16_le(page) != MZ_SIGNATURE {
        return false;
    }
    assert(has_mz(page@));
    let mut k: usize = 0;
    while k < len / 8
        invariant
            len == page@.len(),
            k <= len / 8,
            has_mz(page@),
            forall|j: int| 0 <= j < k ==> !pool_code_at(page@, j),
        decreases len / 8 - k,
    {
        let chunk = slice_subrange(page, 8 * k, 8 * k + 8);
        assert(chunk@.subrange(0, 8) =~= chunk@);
        if read_u64_le(chunk) == POOL_CODE {
            assert(pool_code_at(page@, k as int));
            return true;
        }
        k += 1;
    }
    assert forall|j: int| !pool_code_at(page@, j) by {
        if 0 <= j && 8 * j + 8 <= len {
            assert(j < len / 8) by (nonlinear_arith)
                requires
                    0 <= j,
                    8 * j + 8 <= len,
            ;
        }
    }
    false
}

/// The first address of the 2 MiB that hold the hint.
pub open spec fn hint_base(va: u64) -> u64 {
    va & !0x1f_ffffu64
}

/// The first address of step `step` of the scan for the hint `va`.
pub open spec fn step_base(va: u64, step: int) -> int {
    hint_base(va) - step * SCAN_STEP
}

/// Whether the scan for the hint `va` has a step `step`: there are sixteen
/// steps, and none starts below address zero.
pub open spec fn step_in_range(va: u64, step: int) -> bool {
    0 <= step < SCAN_STEPS && step_base(va, step) >= 0
}

/// Whether page `page` of step `step` may start the kernel image: the step
/// can be read, and the page is a candidate.
pub open spec fn candidate_at(
    device: Seq<u8>,
    map: MapView,
    arch: Architecture,
    dtb: Address,
    va: u64,
    step: int,
    page: int,
) -> bool {
    &&& step_in_range(va, step)
    &&& 0 <= page < SCAN_STEP / SCAN_PAGE
    &&& match virt_read(device, map, arch, dtb, step_base(va, step), SCAN_STEP as int) {
        Ok(buf) => (page + 1) * SCAN_PAGE <= buf.len() && is_candidate(
            buf.subrange(page * SCAN_PAGE, (page + 1) * SCAN_PAGE),
        ),
        Err(_) => false,
    }
}

/// The first page of `buf`, from page `from` on, that is a candidate and
/// whose image can be read. `buf` was read at `base`.
pub open spec fn next_in_step(
    device: Seq<u8>,
    map: MapView,
    arch: Architecture,
    dtb: Address,
    base: int,
    buf: Seq<u8>,
    from: int,
) -> Option<int>
    decreases buf.len() - from * SCAN_PAGE,
{
    if from < 0 || (from + 1) * SCAN_PAGE > buf.len() {
        None
    } else if is_candidate(buf.subrange(from * SCAN_PAGE, (from + 1) * SCAN_PAGE)) && virt_read(
        device,
        map,
        arch,
        dtb,
        base + from * SCAN_PAGE,
        IMAGE_SIZE as int,
    ).is_ok() {
        Some(from)
    } else {
        next_in_step(device, map, arch, dtb, base, buf, from + 1)
    }
}

/// Where the scan comes to from page `page` of step `step` on: the place
/// of the next candidate whose image can be read, the error of a step that
/// could not be read, or an error saying that nothing was found once all
/// steps are done.
pub open spec fn next_candidate_spec(
    device: Seq<u8>,
    map: MapView,
    arch: Architecture,
    dtb: Address,
    va: u64,
    step: int,
    page: int,
) -> Result<(int, int)>
    decreases SCAN_STEPS - step,
{
    if !step_in_range(va, step) {
        Err(Error::Other("unable to find ntoskrnl.exe with va hint"))
    } else {
        match virt_read(device, map, arch, dtb, step_base(va, step), SCAN_STEP as int) {
            Err((_, e)) => Err(e),
            Ok(buf) => match next_in_step(device, map, arch, dtb, step_base(va, step), buf, page) {
                Some(i) => Ok((step, i)),
                None => next_candidate_spec(device, map, arch, dtb, va, step + 1, 0),
            },
        }
    }
}

/// Whether `out` is what the scan from `from` on comes to.
pub open spec fn scan_outcome_is(
    device: Seq<u8>,
    map: MapView,
    arch: Architecture,
    dtb: Address,
    va: u64,
    from: ScanPosition,
    out: ScanOutcome,
) -> bool {
    match next_candidate_spec(device, map, arch, dtb, va, from.step as int, from.page as int) {
        Ok((step, page)) => out matches ScanOutcome::Candidate { position, .. } && position.step
            == step && position.page == page,
        Err(e) => out == ScanOutcome::Failed(e),
    }
}

/// What holds of a candidate that the scan hands out: it lies at its place
/// in the scan, its page is a candidate, and the image is what a read of
/// 8 MiB at its address gives.
pub open spec fn candidate_holds(
    device: Seq<u8>,
    map: MapView,
    arch: Architecture,
    dtb: Address,
    va: u64,
    out: ScanOutcome,
) -> bool {
    match out {
        ScanOutcome::Candidate { position, at, image } => {
            &&& candidate_at(device, map, arch, dtb, va, position.step as int, position.page as int)
            &&& at@ == step_base(va, position.step as int) + position.page * SCAN_PAGE
            &&& virt_read(device, map, arch, dtb, at@, IMAGE_SIZE as int) == Ok::<
                Seq<u8>,
                (int, Error),
            >(image@)
        },
        ScanOutcome::Failed(_) => true,
    }
}

/// The error of a read that failed.
fn read_error(e: PartialError) -> (inner: Error)
    ensures
        inner == match e {
            PartialError::Partial(_, inner) => inner,
            PartialError::Error(inner) => inner,
        },
{
    match e {
        PartialError::Partial(_, inner) => inner,
        PartialError::Error(inner) => inner,
    }
}

/// Scans on from `from`, from the hint `va` down, to the next page that is
/// a candidate and whose image can be read, and hands out that image. A
/// step that cannot be read ends the scan with the error of the read.
pub fn next_candidate<M: PhysicalMemory, V: VirtualTranslate>(
    mem: &mut VirtualFromPhysical<M, V>,
    va: Address,
    from: ScanPosition,
) -> (out: ScanOutcome)
    requires
        old(mem).inv(),
    ensures
        final(mem).inv(),
        final(mem).arch == old(mem).arch,
        final(mem).dtb == old(mem).dtb,
        final(mem).phys_mem.device() == old(mem).phys_mem.device(),
        final(mem).phys_mem.mem_map() == old(mem).phys_mem.mem_map(),
        final(mem).phys_mem.dependable() == old(mem).phys_mem.dependable(),
        out matches ScanOutcome::Candidate { position, .. } ==> {
            &&& position.step < SCAN_STEPS
            &&& position.page < SCAN_STEP / SCAN_PAGE
            &&& position.step >= from.step
            &&& position.step == from.step ==> position.page >= from.page
        },
        old(mem).coherent() ==> final(mem).coherent() && candidate_holds(
            old(mem).phys_mem.device(),
            old(mem).phys_mem.mem_map(),
            old(mem).arch,
            old(mem).dtb,
            va.0,
            out,
        ),
        old(mem).coherent() && old(mem).phys_mem.dependable() ==> scan_outcome_is(
            old(mem).phys_mem.device(),
            old(mem).phys_mem.mem_map(),
            old(mem).arch,
            old(mem).dtb,
            va.0,
            from,
            out,
        ),
{
    let ghost device = mem.phys_mem.device();
    let ghost map = mem.phys_mem.mem_map();
    let ghost arch = mem.arch;
    let ghost dtb = mem.dtb;
    let ghost coherent = mem.coherent();
    let ghost exact = mem.coherent() && mem.phys_mem.dependable();
    let hint: u64 = va.0;
    let top: u64 = hint & !0x1f_ffffu64;
    assert(top <= 0xffff_ffff_ffe0_0000) by (bit_vector)
        requires
            top == hint & !0x1f_ffffu64,
    ;
    let mut k: u64 = from.step;
    let mut first: usize = from.page;
    while k < SCAN_STEPS && top >= k * (SCAN_STEP as u64)
        invariant
            top == hint_base(va.0),
            top <= 0xffff_ffff_ffe0_0000,
            k >= from.step,
            k == from.step ==> first == from.page,
            device == old(mem).phys_mem.device(),
            map == old(mem).phys_mem.mem_map(),
            arch == old(mem).arch,
            dtb == old(mem).dtb,
            coherent == old(mem).coherent(),
            exact == (old(mem).coherent() && old(mem).phys_mem.dependable()),
            mem.inv(),
            mem.arch == arch,
            mem.dtb == dtb,
            mem.phys_mem.device() == device,
            mem.phys_mem.mem_map() == map,
            mem.phys_mem.dependable() == old(mem).phys_mem.dependable(),
            coherent ==> mem.coherent(),
            exact ==> next_candidate_spec(
                device,
                map,
                arch,
                dtb,
                va.0,
                from.step as int,
                from.page as int,
            ) == next_candidate_spec(device, map, arch, dtb, va.0, k as int, first as int),
        decreases SCAN_STEPS - k,
    {
        let base: u64 = top - k * (SCAN_STEP as u64);
        let buf = match mem.virt_read_raw(Address(base), SCAN_STEP) {
            Ok(buf) => buf,
            Err(e) => {
                return ScanOutcome::Failed(read_error(e));
            },
        };
        let mut i: usize = first;
        while i < SCAN_STEP / SCAN_PAGE
            invariant
                first <= i,
                k < SCAN_STEPS,
                k >= from.step,
                k == from.step ==> first == from.page,
                buf@.len() == SCAN_STEP,
                base == step_base(va.0, k as int),
                base + SCAN_STEP <= address_space(),
                step_in_range(va.0, k as int),
                device == old(mem).phys_mem.device(),
                map == old(mem).phys_mem.mem_map(),
                arch == old(mem).arch,
                dtb == old(mem).dtb,
                coherent == old(mem).coherent(),
                exact == (old(mem).coherent() && old(mem).phys_mem.dependable()),
                coherent ==> virt_read(device, map, arch, dtb, base as int, SCAN_STEP as int) == Ok::<
                    Seq<u8>,
                    (int, Error),
                >(buf@),
                exact ==> next_candidate_spec(
                    device,
                    map,
                    arch,
                    dtb,
                    va.0,
                    from.step as int,
                    from.page as int,
                ) == (match next_in_step(device, map, arch, dtb, base as int, buf@, first as int) {
                    Some(found) => Ok::<(int, int), Error>((k as int, found)),
                    None => next_candidate_spec(device, map, arch, dtb, va.0, k + 1, 0),
                }),
                mem.inv(),
                mem.arch == arch,
                mem.dtb == dtb,
                mem.phys_mem.device() == device,
                mem.phys_mem.mem_map() == map,
                mem.phys_mem.dependable() == old(mem).phys_mem.dependable(),
                coherent ==> mem.coherent(),
                exact ==> next_in_step(device, map, arch, dtb, base as int, buf@, first as int)
                    == next_in_step(device, map, arch, dtb, base as int, buf@, i as int),
            decreases SCAN_STEP / SCAN_PAGE - i,
        {
            let page = slice_subrange(buf.as_slice(), i * SCAN_PAGE, (i + 1) * SCAN_PAGE);
            if check_candidate(page) {
                let addr: u64 = base + (i * SCAN_PAGE) as u64;
                match mem.virt_read_raw(Address(addr), IMAGE_SIZE) {
                    Ok(image) => {
                        return ScanOutcome::Candidate {
                            position: ScanPosition { step: k, page: i },
                            at: Address(addr),
                            image,
                        };
                    },
                    Err(_) => {},
                }
            }
            i += 1;
        }
        k += 1;
        first = 0;
    }
    ScanOutcome::Failed(Error::Other("unable to find ntoskrnl.exe with va hint"))
}

/// The place after `position` in the scan.
pub fn next_position(position: ScanPosition) -> (next: ScanPosition)
    requires
        position.page < SCAN_STEP / SCAN_PAGE,
    ensures
        next == (ScanPosition { step: position.step, page: (position.page + 1) as usize }),
{
    ScanPosition { step: position.step, page: position.page + 1 }
}

/// The place of candidate number `k` of the scan for the hint `va`,
/// counted from zero, or the error that the scan ends with where it has no
/// such candidate.
pub open spec fn nth_candidate(
    device: Seq<u8>,
    map: MapView,
    arch: Architecture,
    dtb: Address,
    va: u64,
    k: int,
) -> Result<(int, int)>
    decreases k,
{
    if k <= 0 {
        next_candidate_spec(device, map, arch, dtb, va, 0, 0)
    } else {
        match nth_candidate(device, map, arch, dtb, va, k - 1) {
            Ok((step, page)) => next_candidate_spec(device, map, arch, dtb, va, step, page + 1),
            Err(e) => Err(e),
        }
    }
}

/// The address of a place of the scan.
pub open spec fn place_address(va: u64, place: (int, int)) -> int {
    step_base(va, place.0) + place.1 * SCAN_PAGE
}

/// Whether candidate number `k` of the scan was looked at as the search
/// looks at candidates: its image is `image`, and `parse` said `verdict` of
/// it.
pub open spec fn candidate_judged<P: Fn(&Vec<u8>) -> PeProbe>(
    device: Seq<u8>,
    map: MapView,
    arch: Architecture,
    dtb: Address,
    va: u64,
    parse: P,
    k: int,
    image: Vec<u8>,
    verdict: PeProbe,
) -> bool {
    match nth_candidate(device, map, arch, dtb, va, k) {
        Ok(place) => {
            &&& virt_read(device, map, arch, dtb, place_address(va, place), IMAGE_SIZE as int)
                == Ok::<Seq<u8>, (int, Error)>(image@)
            &&& call_ensures(parse, (&image,), verdict)
        },
        Err(_) => false,
    }
}

/// Whether `res` is what the search comes to when `parse` says `verdicts`
/// of the candidates of the scan, in the order of the scan: every
/// candidate before the last one looked at was refused; the search ends
/// with the address of the first candidate that was accepted, or, where
/// all were refused, with the error that the scan ends with after them.
pub open spec fn search_trace<P: Fn(&Vec<u8>) -> PeProbe>(
    device: Seq<u8>,
    map: MapView,
    arch: Architecture,
    dtb: Address,
    va: u64,
    parse: P,
    images: Seq<Vec<u8>>,
    verdicts: Seq<PeProbe>,
    res: Result<Address>,
) -> bool {
    &&& images.len() == verdicts.len()
    &&& forall|k: int|
        0 <= k < verdicts.len() ==> candidate_judged(
            device,
            map,
            arch,
            dtb,
            va,
            parse,
            k,
            images[k],
            #[trigger] verdicts[k],
        )
    &&& forall|k: int|
        0 <= k < verdicts.len() - 1 ==> !spec_is_kernel_image(#[trigger] verdicts[k])
    &&& match res {
        Ok(at) => {
            &&& verdicts.len() > 0
            &&& spec_is_kernel_image(verdicts.last())
            &&& match nth_candidate(device, map, arch, dtb, va, verdicts.len() - 1) {
                Ok(place) => at@ == place_address(va, place),
                Err(_) => false,
            }
        },
        Err(e) => {
            &&& verdicts.len() > 0 ==> !spec_is_kernel_image(verdicts.last())
            &&& nth_candidate(device, map, arch, dtb, va, verdicts.len() as int) == Err::<
                (int, int),
                Error,
            >(e)
        },
    }
}

/// What `find` makes of what the search from the hint down came to: the
/// address found, or the one error that stands for every failure.
pub open spec fn find_result(inner: Result<Address>) -> Result<Address> {
    match inner {
        Ok(at) => Ok(at),
        Err(_) => Err(Error::Other("unable to find ntoskrnl.exe")),
    }
}

/// Whether `at` is the address of a candidate of the scan for the hint
/// `va`, and `parse` took the image read there for the kernel.
pub open spec fn found_kernel<P: Fn(&Vec<u8>) -> PeProbe>(
    device: Seq<u8>,
    map: MapView,
    arch: Architecture,
    dtb: Address,
    va: u64,
    parse: P,
    at: Address,
) -> bool {
    exists|step: int, page: int, image: Vec<u8>, probe: PeProbe|
        {
            &&& #[trigger] candidate_at(device, map, arch, dtb, va, step, page)
            &&& at@ == step_base(va, step) + page * SCAN_PAGE
            &&& virt_read(device, map, arch, dtb, at@, IMAGE_SIZE as int) == Ok::<
                Seq<u8>,
                (int, Error),
            >(image@)
            &&& #[trigger] call_ensures(parse, (&image,), probe)
            &&& spec_is_kernel_image(probe)
        }
}

/// Searches for the kernel image from the hint `va` down: the first
/// candidate of the scan whose image `parse` takes for the kernel. Every
/// candidate of the scan is handed to `parse` in turn until one is
/// accepted; once the scan ends, the search fails as the scan does.
pub fn find_x64_with_va<M: PhysicalMemory, V: VirtualTranslate, P: Fn(&Vec<u8>) -> PeProbe>(
    mem: &mut VirtualFromPhysical<M, V>,
    va: Address,
    parse: &P,
) -> (res: Result<Address>)
    requires
        old(mem).inv(),
        forall|image: &Vec<u8>| call_requires(*parse, (image,)),
    ensures
        final(mem).inv(),
        final(mem).arch == old(mem).arch,
        final(mem).dtb == old(mem).dtb,
        final(mem).phys_mem.device() == old(mem).phys_mem.device(),
        final(mem).phys_mem.mem_map() == old(mem).phys_mem.mem_map(),
        final(mem).phys_mem.dependable() == old(mem).phys_mem.dependable(),
        old(mem).coherent() ==> final(mem).coherent(),
        old(mem).coherent() ==> (res matches Ok(at) ==> found_kernel(
            old(mem).phys_mem.device(),
            old(mem).phys_mem.mem_map(),
            old(mem).arch,
            old(mem).dtb,
            va.0,
            *parse,
            at,
        )),
        old(mem).coherent() && old(mem).phys_mem.dependable() ==> (next_candidate_spec(
            old(mem).phys_mem.device(),
            old(mem).phys_mem.mem_map(),
            old(mem).arch,
            old(mem).dtb,
            va.0,
            0,
            0,
        ) matches Err(e) ==> res == Err::<Address, Error>(e)),
        old(mem).coherent() && old(mem).phys_mem.dependable() ==> exists|
            images: Seq<Vec<u8>>,
            verdicts: Seq<PeProbe>,
        |
            #[trigger] search_trace(
                old(mem).phys_mem.device(),
                old(mem).phys_mem.mem_map(),
                old(mem).arch,
                old(mem).dtb,
                va.0,
                *parse,
                images,
                verdicts,
                res,
            ),
{
    let ghost device = mem.phys_mem.device();
    let ghost map = mem.phys_mem.mem_map();
    let ghost arch = mem.arch;
    let ghost dtb = mem.dtb;
    let ghost coherent = mem.coherent();
    let ghost exact = mem.coherent() && mem.phys_mem.dependable();
    let ghost mut images: Seq<Vec<u8>> = Seq::empty();
    let ghost mut verdicts: Seq<PeProbe> = Seq::empty();
    let ghost nothing = mem.coherent() && mem.phys_mem.dependable() && next_candidate_spec(
        device,
        map,
        arch,
        dtb,
        va.0,
        0,
        0,
    ).is_err();
    let mut from = ScanPosition { step: 0, page: 0 };
    loop
        invariant
            from.page <= SCAN_STEP / SCAN_PAGE,
            nothing == (old(mem).coherent() && old(mem).phys_mem.dependable()
                && next_candidate_spec(device, map, arch, dtb, va.0, 0, 0).is_err()),
            nothing ==> from == (ScanPosition { step: 0, page: 0 }),
            exact == (old(mem).coherent() && old(mem).phys_mem.dependable()),
            images.len() == verdicts.len(),
            exact ==> next_candidate_spec(
                device,
                map,
                arch,
                dtb,
                va.0,
                from.step as int,
                from.page as int,
            ) == nth_candidate(device, map, arch, dtb, va.0, verdicts.len() as int),
            exact ==> forall|k: int|
                0 <= k < verdicts.len() ==> candidate_judged(
                    device,
                    map,
                    arch,
                    dtb,
                    va.0,
                    *parse,
                    k,
                    images[k],
                    #[trigger] verdicts[k],
                ),
            forall|k: int| 0 <= k < verdicts.len() ==> !spec_is_kernel_image(#[trigger] verdicts[k]),
            forall|image: &Vec<u8>| call_requires(*parse, (image,)),
            device == old(mem).phys_mem.device(),
            map == old(mem).phys_mem.mem_map(),
            arch == old(mem).arch,
            dtb == old(mem).dtb,
            coherent == old(mem).coherent(),
            mem.inv(),
            mem.arch == arch,
            mem.dtb == dtb,
            mem.phys_mem.device() == device,
            mem.phys_mem.mem_map() == map,
            mem.phys_mem.dependable() == old(mem).phys_mem.dependable(),
            coherent ==> mem.coherent(),
        decreases SCAN_STEPS - from.step, SCAN_STEP / SCAN_PAGE + 1 - from.page,
    {
        if from.step >= SCAN_STEPS {
            proof {
                if exact {
                    assert(search_trace(
                        device,
                        map,
                        arch,
                        dtb,
                        va.0,
                        *parse,
                        images,
                        verdicts,
                        Err(Error::Other("unable to find ntoskrnl.exe with va hint")),
                    ));
                }
            }
            return Err(Error::Other("unable to find ntoskrnl.exe with va hint"));
        }
        match next_candidate(mem, va, from) {
            ScanOutcome::Failed(e) => {
                proof {
                    if exact {
                        assert(search_trace(
                            device,
                            map,
                            arch,
                            dtb,
                            va.0,
                            *parse,
                            images,
                            verdicts,
                            Err(e),
                        ));
                    }
                }
                return Err(e);
            },
            ScanOutcome::Candidate { position, at, image } => {
                let probe = parse(&image);
                let ghost images_before = images;
                let ghost verdicts_before = verdicts;
                proof {
                    images = images.push(image);
                    verdicts = verdicts.push(probe);
                    if exact {
                        let k = verdicts_before.len() as int;
                        assert(nth_candidate(device, map, arch, dtb, va.0, k) == Ok::<
                            (int, int),
                            Error,
                        >((position.step as int, position.page as int)));
                        assert(candidate_judged(
                            device,
                            map,
                            arch,
                            dtb,
                            va.0,
                            *parse,
                            k,
                            image,
                            probe,
                        ));
                        assert forall|j: int| 0 <= j < verdicts.len() implies candidate_judged(
                            device,
                            map,
                            arch,
                            dtb,
                            va.0,
                            *parse,
                            j,
                            images[j],
                            #[trigger] verdicts[j],
                        ) by {
                            if j < k {
                                assert(images[j] == images_before[j]);
                                assert(verdicts[j] == verdicts_before[j]);
                            }
                        }
                        assert forall|j: int| 0 <= j < verdicts.len() - 1 implies !spec_is_kernel_image(
                            #[trigger] verdicts[j],
                        ) by {
                            assert(verdicts[j] == verdicts_before[j]);
                        }
                    }
                }
                if is_kernel_image(&probe) {
                    proof {
                        if exact {
                            assert(search_trace(
                                device,
                                map,
                                arch,
                                dtb,
                                va.0,
                                *parse,
                                images,
                                verdicts,
                                Ok(at),
                            ));
                        }
                        if coherent {
                            assert(candidate_at(
                                device,
                                map,
                                arch,
                                dtb,
                                va.0,
                                position.step as int,
                                position.page as int,
                            ));
                            assert(call_ensures(*parse, (&image,), probe));
                        }
                    }
                    return Ok(at);
                }
                proof {
                    assert forall|j: int| 0 <= j < verdicts.len() implies !spec_is_kernel_image(
                        #[trigger] verdicts[j],
                    ) by {
                        if j < verdicts_before.len() {
                            assert(verdicts[j] == verdicts_before[j]);
                        }
                    }
                }
                from = next_position(position);
            },
        }
    }
}

/// Searches for the kernel image in the address space of `mem`. Only a
/// 64-bit x86 target with a hint can be searched: there the result is the
/// address that the search from the hint down finds. Every failure is
/// reported as the same error.
pub fn find<M: PhysicalMemory, V: VirtualTranslate, P: Fn(&Vec<u8>) -> PeProbe>(
    mem: &mut VirtualFromPhysical<M, V>,
    va: Address,
    parse: &P,
) -> (res: Result<Address>)
    requires
        old(mem).inv(),
        forall|image: &Vec<u8>| call_requires(*parse, (image,)),
    ensures
        final(mem).inv(),
        final(mem).arch == old(mem).arch,
        final(mem).dtb == old(mem).dtb,
        final(mem).phys_mem.device() == old(mem).phys_mem.device(),
        final(mem).phys_mem.mem_map() == old(mem).phys_mem.mem_map(),
        final(mem).phys_mem.dependable() == old(mem).phys_mem.dependable(),
        old(mem).coherent() ==> final(mem).coherent(),
        res matches Err(e) ==> e == Error::Other("unable to find ntoskrnl.exe"),
        res.is_ok() ==> old(mem).arch.bits == 64 && !old(mem).arch.descriptor_format && va@ != 0,
        old(mem).coherent() && old(mem).phys_mem.dependable() && old(mem).arch.bits == 64
            && !old(mem).arch.descriptor_format && va@ != 0 ==> exists|
            images: Seq<Vec<u8>>,
            verdicts: Seq<PeProbe>,
            inner: Result<Address>,
        |
            #[trigger] search_trace(
                old(mem).phys_mem.device(),
                old(mem).phys_mem.mem_map(),
                old(mem).arch,
                old(mem).dtb,
                va.0,
                *parse,
                images,
                verdicts,
                inner,
            ) && res == find_result(inner),
        old(mem).coherent() ==> (res matches Ok(at) ==> found_kernel(
            old(mem).phys_mem.device(),
            old(mem).phys_mem.mem_map(),
            old(mem).arch,
            old(mem).dtb,
            va.0,
            *parse,
            at,
        )),
{
    if mem.arch.bits == 64 && !mem.arch.descriptor_format && !va.is_null() {
        let inner = find_x64_with_va(mem, va, parse);
        proof {
            if old(mem).coherent() && old(mem).phys_mem.dependable() {
                let (images, verdicts) = choose|images: Seq<Vec<u8>>, verdicts: Seq<PeProbe>|
                    #[trigger] search_trace(
                        old(mem).phys_mem.device(),
                        old(mem).phys_mem.mem_map(),
                        old(mem).arch,
                        old(mem).dtb,
                        va.0,
                        *parse,
                        images,
                        verdicts,
                        inner,
                    );
                assert(search_trace(
                    old(mem).phys_mem.device(),
                    old(mem).phys_mem.mem_map(),
                    old(mem).arch,
                    old(mem).dtb,
                    va.0,
                    *parse,
                    images,
                    verdicts,
                    inner,
                ));
            }
        }
        match inner {
            Ok(base) => {
                return Ok(base);
            },
            Err(_) => {},
        }
    }
    Err(Error::Other("unable to find ntoskrnl.exe"))
}

} // verus!
