use memflow::architecture::{Architecture, ArchitectureIdent};
use memflow::dataview::Pod;
use memflow::error::{Error, PartialError};
use memflow::mem::dummy::DummyMemory;
use memflow::mem::virt_mem::VirtualFromPhysical;
use memflow::mem::virt_translate::DirectTranslate;
use memflow::types::address::Address;
use memflow::types::pointer64::Pointer64;

fn put_u64(mem: &mut DummyMemory, at: u64, value: u64) {
    assert_eq!(mem.write_raw(Address(at), &value.to_le_bytes().to_vec()), Ok(()));
}

fn identity() -> VirtualFromPhysical<DummyMemory, DirectTranslate> {
    let mut mem = DummyMemory::new(16 * 1024 * 1024);
    put_u64(&mut mem, 0x1000, 0x10000 | 3);
    put_u64(&mut mem, 0x10000, 0x11000 | 3);
    put_u64(&mut mem, 0x11000, 0x12000 | 3);
    for i in 0..512u64 {
        put_u64(&mut mem, 0x12000 + 8 * i, (i * 0x1000) | 3);
    }
    let arch = Architecture::from_ident(ArchitectureIdent::X86(64, false)).unwrap();
    VirtualFromPhysical::new(mem, DirectTranslate::new(), arch, Address(0x1000))
}

#[test]
fn plain_data_round_trips() {
    assert_eq!(0x1234_5678u32.to_bytes(), vec![0x78, 0x56, 0x34, 0x12]);
    assert_eq!(u32::from_bytes(&vec![0x78, 0x56, 0x34, 0x12]), 0x1234_5678);
    assert_eq!(0x0102_0304_0506_0708u64.to_bytes(), vec![8, 7, 6, 5, 4, 3, 2, 1]);
    assert_eq!(u64::from_bytes(&vec![8, 7, 6, 5, 4, 3, 2, 1]), 0x0102_0304_0506_0708);
    assert_eq!(0xabu8.to_bytes(), vec![0xab]);
    assert_eq!(u8::from_bytes(&vec![0xab]), 0xab);
    assert_eq!(Address(0x1000).to_bytes(), vec![0, 0x10, 0, 0, 0, 0, 0, 0]);
    assert_eq!(Address::from_bytes(&vec![0, 0x10, 0, 0, 0, 0, 0, 0]), Address(0x1000));
    let ptr = Pointer64::<u32>::from(0xdead_beefu64);
    assert_eq!(ptr.to_bytes(), vec![0xef, 0xbe, 0xad, 0xde, 0, 0, 0, 0]);
    assert_eq!(Pointer64::<u32>::from_bytes(&ptr.to_bytes()), ptr);
    assert_eq!(<u8 as Pod>::size(), 1);
    assert_eq!(<u32 as Pod>::size(), 4);
    assert_eq!(<u64 as Pod>::size(), 8);
    assert_eq!(<Address as Pod>::size(), 8);
    assert_eq!(<Pointer64<u8> as Pod>::size(), 8);
}

#[test]
fn typed_write_and_read() {
    let mut mem = identity();
    assert_eq!(mem.virt_write(Address(0x30000), &0xfeed_f00du32), Ok(()));
    assert_eq!(mem.virt_read::<u32>(Address(0x30000)), Ok(0xfeed_f00d));
    assert_eq!(mem.virt_read_raw(Address(0x30000), 4), Ok(vec![0x0d, 0xf0, 0xed, 0xfe]));
    assert_eq!(mem.phys_mem.as_bytes()[0x30001], 0xf0);
    assert_eq!(mem.virt_write(Address(0x30ffd), &0x1122_3344_5566_7788u64), Ok(()));
    assert_eq!(mem.virt_read::<u64>(Address(0x30ffd)), Ok(0x1122_3344_5566_7788));
    assert_eq!(
        mem.virt_write(Address(0x1f_fffe), &0x1122_3344u32),
        Err(PartialError::Partial(2, Error::PageNotPresent))
    );
    assert_eq!(mem.phys_mem.as_bytes()[0x1f_fffe], 0x44);
    assert_eq!(mem.phys_mem.as_bytes()[0x1f_ffff], 0x33);
    assert_eq!(
        mem.virt_write_raw(Address(0x20_0000), &vec![1]),
        Err(PartialError::Partial(0, Error::PageNotPresent))
    );
    assert_eq!(mem.virt_write_raw(Address(0x20_0000), &vec![]), Ok(()));
}

#[test]
fn pointer_dereference() {
    let mut mem = identity();
    // a pointer at 0x40000 to a value at 0x41000
    assert_eq!(mem.virt_write(Address(0x40000), &Pointer64::<u64>::from(0x41000u64)), Ok(()));
    assert_eq!(mem.virt_write(Address(0x41000), &77u64), Ok(()));
    let ptr: Pointer64<u64> = mem.virt_read(Address(0x40000)).unwrap();
    assert_eq!(ptr.as_u64(), 0x41000);
    assert_eq!(ptr.deref(&mut mem), Ok(77));
    assert_eq!(mem.virt_read_ptr64(ptr), Ok(77));
    let mut out = 0u64;
    assert_eq!(ptr.deref_into(&mut mem, &mut out), Ok(()));
    assert_eq!(out, 77);
    let wild = Pointer64::<u64>::from(0x7fff_ffff_0000u64);
    assert_eq!(wild.deref(&mut mem), Err(PartialError::Partial(0, Error::PageNotPresent)));
    assert_eq!(
        wild.deref_into(&mut mem, &mut out),
        Err(PartialError::Partial(0, Error::PageNotPresent))
    );
    assert_eq!(out, 77);
    // elements of an array
    let array = Pointer64::<[u32]>::from(0x42000u64);
    for i in 0..4u32 {
        assert_eq!(mem.virt_write(Address(0x42000 + 4 * i as u64), &(i * 10)), Ok(()));
    }
    assert_eq!(array.at(3).deref(&mut mem), Ok(30));
    assert_eq!(array.decay().deref(&mut mem), Ok(0));
}

#[test]
fn read_wraps_at_the_end_of_the_address_space() {
    let mut mem = identity();
    // the walk takes the low 48 bits: the last page maps like 0xffff_ffff_f000
    assert_eq!(
        mem.virt_read_raw(Address(u64::MAX), 2),
        Err(PartialError::Partial(0, Error::PageNotPresent))
    );
}

#[test]
fn batches_of_virtual_transfers() {
    let mut mem = identity();
    let out = mem.virt_write_raw_list(&vec![
        (Address(0x50000), vec![1, 2, 3]),
        (Address(0x20_0000), vec![9]),
        (Address(0x50002), vec![7, 8]),
    ]);
    assert_eq!(
        out,
        vec![Ok(()), Err(PartialError::Partial(0, Error::PageNotPresent)), Ok(())]
    );
    let out = mem.virt_read_raw_list(&vec![
        (Address(0x50001), 3),
        (Address(0x1f_ffff), 2),
        (Address(0x50000), 1),
    ]);
    assert_eq!(
        out,
        vec![
            Ok(vec![2, 7, 8]),
            Err(PartialError::Partial(1, Error::PageNotPresent)),
            Ok(vec![1]),
        ]
    );
    assert_eq!(mem.virt_read_raw_list(&vec![]), vec![]);
}

#[test]
fn partial_read_hands_out_the_first_page() {
    let mut phys = DummyMemory::new(16 * 1024 * 1024);
    put_u64(&mut phys, 0x1000, 0x10000 | 3);
    put_u64(&mut phys, 0x10000, 0x11000 | 3);
    put_u64(&mut phys, 0x11000, 0x12000 | 3);
    // the first page is mapped, the second lies beyond the end of the device
    put_u64(&mut phys, 0x12000 + 8 * 0x20, 0x50000 | 3);
    put_u64(&mut phys, 0x12000 + 8 * 0x21, 0x100_0000 | 3);
    for i in 0..0x1000u64 {
        assert_eq!(phys.write_raw(Address(0x50000 + i), &vec![(i % 251) as u8 + 1]), Ok(()));
    }
    let arch = Architecture::from_ident(ArchitectureIdent::X86(64, false)).unwrap();
    let mut mem = VirtualFromPhysical::new(phys, DirectTranslate::new(), arch, Address(0x1000));
    let first_page: Vec<u8> = (0..0x1000u64).map(|i| (i % 251) as u8 + 1).collect();

    let (bytes, failure) = mem.virt_read_partial(Address(0x20000), 0x2000);
    assert_eq!(failure, Some(Error::OutOfBounds));
    assert_eq!(bytes, first_page);

    let mut out = vec![0xeeu8; 0x2000];
    assert_eq!(
        mem.virt_read_raw_into(Address(0x20000), &mut out),
        Err(PartialError::Partial(0x1000, Error::OutOfBounds))
    );
    assert_eq!(&out[..0x1000], &first_page[..]);
    assert!(out[0x1000..].iter().all(|b| *b == 0xee));

    let mut out = vec![0xeeu8; 0x2000];
    let ptr = Pointer64::<[u8]>::from(0x20000u64);
    assert_eq!(
        ptr.deref_into(&mut mem, &mut out),
        Err(PartialError::Partial(0x1000, Error::OutOfBounds))
    );
    assert_eq!(&out[..0x1000], &first_page[..]);
    assert!(out[0x1000..].iter().all(|b| *b == 0xee));

    // a read that succeeds fills all of the buffer
    let mut out = vec![0u8; 0x10];
    assert_eq!(ptr.deref_into(&mut mem, &mut out), Ok(()));
    assert_eq!(&out[..], &first_page[..0x10]);
    let (bytes, failure) = mem.virt_read_partial(Address(0x20ff0), 0x10);
    assert_eq!(failure, None);
    assert_eq!(&bytes[..], &first_page[0xff0..]);
    // nothing at all
    let mut out = vec![7u8; 4];
    assert_eq!(
        mem.virt_read_raw_into(Address(0x21000), &mut out),
        Err(PartialError::Partial(0, Error::OutOfBounds))
    );
    assert_eq!(out, vec![7u8; 4]);
}
