use memflow::architecture::{Architecture, ArchitectureIdent};
use memflow::error::Error;
use memflow::mem::dummy::DummyMemory;
use memflow::mem::virt_mem::VirtualFromPhysical;
use memflow::mem::virt_translate::DirectTranslate;
use memflow::types::address::Address;
use goblin::pe::PE;
use memflow::win32::ntos::{
    check_candidate, find, find_x64_with_va, is_kernel_image, next_candidate, next_position,
    PeProbe, ScanOutcome, ScanPosition,
};

fn parse(bytes: &Vec<u8>) -> PeProbe {
    match PE::parse(bytes) {
        Ok(pe) => match pe.header.optional_header {
            Some(header) => match header.data_directories.get_export_table() {
                Some(table) => PeProbe::ExportTable(table.size),
                None => PeProbe::NoExportTable,
            },
            None => PeProbe::NoOptionalHeader,
        },
        Err(_) => PeProbe::NotPe,
    }
}

fn put(image: &mut Vec<u8>, at: usize, bytes: &[u8]) {
    image[at..at + bytes.len()].copy_from_slice(bytes);
}

// the headers of a 64-bit image with an export table, and the pool tag
fn image(with_export_table: bool) -> Vec<u8> {
    let mut image = vec![0u8; 0x400];
    put(&mut image, 0, b"MZ");
    put(&mut image, 0x3c, &0x80u32.to_le_bytes());
    put(&mut image, 0x80, b"PE\0\0");
    let coff = 0x84;
    put(&mut image, coff, &0x8664u16.to_le_bytes());
    put(&mut image, coff + 16, &240u16.to_le_bytes());
    put(&mut image, coff + 18, &0x22u16.to_le_bytes());
    let opt = coff + 20;
    put(&mut image, opt, &0x20bu16.to_le_bytes());
    put(&mut image, opt + 24, &0x1_4000_0000u64.to_le_bytes());
    put(&mut image, opt + 32, &0x1000u32.to_le_bytes());
    put(&mut image, opt + 36, &0x200u32.to_le_bytes());
    put(&mut image, opt + 56, &0x2000u32.to_le_bytes());
    put(&mut image, opt + 60, &0x400u32.to_le_bytes());
    put(&mut image, opt + 108, &16u32.to_le_bytes());
    if with_export_table {
        put(&mut image, opt + 112, &0x1000u32.to_le_bytes());
        put(&mut image, opt + 116, &0x40u32.to_le_bytes());
    }
    put(&mut image, 0x200, b"POOLCODE");
    image
}

// 64 MiB mapped onto themselves by pages of 2 MiB
fn target() -> DummyMemory {
    let mut mem = DummyMemory::new(64 * 1024 * 1024);
    let mut put_u64 = |at: u64, value: u64| {
        assert_eq!(mem.write_raw(Address(at), &value.to_le_bytes().to_vec()), Ok(()));
    };
    put_u64(0x1000, 0x2000 | 3);
    put_u64(0x2000, 0x3000 | 3);
    for i in 0..32u64 {
        put_u64(0x3000 + 8 * i, (i * 0x20_0000) | 0x83);
    }
    mem
}

fn x64() -> Architecture {
    Architecture::from_ident(ArchitectureIdent::X86(64, false)).unwrap()
}

#[test]
fn candidate_pages() {
    let mut page = vec![0u8; 0x1000];
    assert!(!check_candidate(&page));
    put(&mut page, 0, b"MZ");
    assert!(!check_candidate(&page));
    put(&mut page, 0xff8, b"POOLCODE");
    assert!(check_candidate(&page));
    put(&mut page, 0xff8, b"POOLCODF");
    assert!(!check_candidate(&page));
    // the tag counts only at a multiple of eight bytes
    put(&mut page, 0x101, b"POOLCODE");
    assert!(!check_candidate(&page));
    put(&mut page, 0x108, b"POOLCODE");
    assert!(check_candidate(&page));
    put(&mut page, 0, b"ZM");
    assert!(!check_candidate(&page));
    assert!(!check_candidate(&[]));
    assert!(!check_candidate(b"M"));
    assert!(!check_candidate(b"MZ"));
    assert!(check_candidate(b"MZ......POOLCODE"));
}

#[test]
fn kernel_image_needs_an_export_table() {
    assert!(is_kernel_image(&PeProbe::ExportTable(0)));
    assert!(is_kernel_image(&PeProbe::ExportTable(77)));
    assert!(!is_kernel_image(&PeProbe::NoExportTable));
    assert!(!is_kernel_image(&PeProbe::NoOptionalHeader));
    assert!(!is_kernel_image(&PeProbe::NotPe));
}

#[test]
fn finds_the_image_below_the_hint() {
    let mut phys = target();
    assert_eq!(phys.write_raw(Address(0x100_5000), &image(true)), Ok(()));
    let mut mem = VirtualFromPhysical::new(phys, DirectTranslate::new(), x64(), Address(0x1000));
    assert_eq!(find_x64_with_va(&mut mem, Address(0x123_4567), &parse), Ok(Address(0x100_5000)));
    assert_eq!(find(&mut mem, Address(0x123_4567), &parse), Ok(Address(0x100_5000)));
    assert_eq!(find(&mut mem, Address(0x100_5000), &parse), Ok(Address(0x100_5000)));
}

#[test]
fn passes_over_what_is_no_image_with_exports() {
    let mut phys = target();
    // a candidate page that does not parse, one without an export table, and the image
    let mut broken = image(true);
    put(&mut broken, 0x80, b"XX\0\0");
    assert_eq!(phys.write_raw(Address(0x120_1000), &broken), Ok(()));
    assert_eq!(phys.write_raw(Address(0x120_0000), &image(false)), Ok(()));
    assert_eq!(phys.write_raw(Address(0x100_0000), &image(true)), Ok(()));
    assert_eq!(phys.write_raw(Address(0x100_3000), &image(true)), Ok(()));
    let mut mem = VirtualFromPhysical::new(phys, DirectTranslate::new(), x64(), Address(0x1000));
    assert_eq!(find(&mut mem, Address(0x123_4567), &parse), Ok(Address(0x100_0000)));
}

#[test]
fn nothing_found_is_an_error() {
    let mut mem = VirtualFromPhysical::new(target(), DirectTranslate::new(), x64(), Address(0x1000));
    assert_eq!(
        find_x64_with_va(&mut mem, Address(0x223_4567), &parse),
        Err(Error::Other("unable to find ntoskrnl.exe with va hint"))
    );
    assert_eq!(
        find(&mut mem, Address(0x223_4567), &parse),
        Err(Error::Other("unable to find ntoskrnl.exe"))
    );
    // the scan stops at address zero
    assert_eq!(
        find_x64_with_va(&mut mem, Address(0x40_0001), &parse),
        Err(Error::Other("unable to find ntoskrnl.exe with va hint"))
    );
    // no hint, or another architecture
    assert_eq!(find(&mut mem, Address(0), &parse), Err(Error::Other("unable to find ntoskrnl.exe")));
    let arch = Architecture::from_ident(ArchitectureIdent::X86(32, true)).unwrap();
    let mut mem = VirtualFromPhysical::new(target(), DirectTranslate::new(), arch, Address(0x1000));
    assert_eq!(
        find(&mut mem, Address(0x123_4567), &parse),
        Err(Error::Other("unable to find ntoskrnl.exe"))
    );
}

#[test]
fn unreadable_hint_is_the_error_of_the_read() {
    let mut mem = VirtualFromPhysical::new(target(), DirectTranslate::new(), x64(), Address(0x1000));
    assert_eq!(
        find_x64_with_va(&mut mem, Address(0x423_4567), &parse),
        Err(Error::PageNotPresent)
    );
    assert_eq!(
        find(&mut mem, Address(0x423_4567), &parse),
        Err(Error::Other("unable to find ntoskrnl.exe"))
    );
}

#[test]
fn parser_sees_the_export_table() {
    assert_eq!(parse(&image(true)), PeProbe::ExportTable(0x40));
    assert_eq!(parse(&image(false)), PeProbe::NoExportTable);
    assert_eq!(parse(&vec![0u8; 0x400]), PeProbe::NotPe);
}

#[test]
fn scan_hands_out_the_candidates_in_order() {
    let mut phys = target();
    assert_eq!(phys.write_raw(Address(0x120_1000), &image(false)), Ok(()));
    assert_eq!(phys.write_raw(Address(0x100_3000), &image(true)), Ok(()));
    let mut mem = VirtualFromPhysical::new(phys, DirectTranslate::new(), x64(), Address(0x1000));
    let va = Address(0x123_4567);
    let start = ScanPosition { step: 0, page: 0 };
    let first = next_candidate(&mut mem, va, start);
    let position = match first {
        ScanOutcome::Candidate { position, at, image: bytes } => {
            assert_eq!(position, ScanPosition { step: 0, page: 1 });
            assert_eq!(at, Address(0x120_1000));
            assert_eq!(bytes.len(), 0x80_0000);
            assert_eq!(&bytes[..0x400], &image(false)[..]);
            position
        }
        ScanOutcome::Failed(e) => panic!("no candidate: {:?}", e),
    };
    // the same place again, then the place after it
    assert!(matches!(
        next_candidate(&mut mem, va, position),
        ScanOutcome::Candidate { position: p, .. } if p == position
    ));
    let after = next_position(position);
    assert_eq!(after, ScanPosition { step: 0, page: 2 });
    match next_candidate(&mut mem, va, after) {
        ScanOutcome::Candidate { position, at, .. } => {
            assert_eq!(position, ScanPosition { step: 1, page: 3 });
            assert_eq!(at, Address(0x100_3000));
        }
        ScanOutcome::Failed(e) => panic!("no candidate: {:?}", e),
    }
    assert_eq!(
        next_candidate(&mut mem, va, ScanPosition { step: 1, page: 4 }),
        ScanOutcome::Failed(Error::Other("unable to find ntoskrnl.exe with va hint"))
    );
    assert_eq!(
        next_candidate(&mut mem, va, ScanPosition { step: 16, page: 0 }),
        ScanOutcome::Failed(Error::Other("unable to find ntoskrnl.exe with va hint"))
    );
    assert_eq!(
        next_candidate(&mut mem, va, ScanPosition { step: 0, page: usize::MAX }),
        ScanOutcome::Candidate {
            position: ScanPosition { step: 1, page: 3 },
            at: Address(0x100_3000),
            image: mem.virt_read_raw(Address(0x100_3000), 0x80_0000).unwrap(),
        }
    );
}

#[test]
fn search_goes_by_what_the_parser_says() {
    let mut phys = target();
    assert_eq!(phys.write_raw(Address(0x120_1000), &image(false)), Ok(()));
    assert_eq!(phys.write_raw(Address(0x100_3000), &image(false)), Ok(()));
    let mut mem = VirtualFromPhysical::new(phys, DirectTranslate::new(), x64(), Address(0x1000));
    let va = Address(0x123_4567);
    let always = |_: &Vec<u8>| PeProbe::ExportTable(1);
    let never = |_: &Vec<u8>| PeProbe::NotPe;
    assert_eq!(find_x64_with_va(&mut mem, va, &always), Ok(Address(0x120_1000)));
    assert_eq!(
        find_x64_with_va(&mut mem, va, &never),
        Err(Error::Other("unable to find ntoskrnl.exe with va hint"))
    );
    assert_eq!(
        find_x64_with_va(&mut mem, va, &parse),
        Err(Error::Other("unable to find ntoskrnl.exe with va hint"))
    );
}
