use memflow::error::Error;
use memflow::mem::dummy::DummyMemory;
use memflow::mem::mem_map::{MemoryMap, MemoryMapping};
use memflow::mem::phys::{PhysicalMemory, PhysicalReadData, PhysicalWriteData};
use memflow::types::address::Address;

#[test]
fn resolve_inside_one_mapping() {
    let mut map = MemoryMap::new();
    assert!(map.push_remap(Address(0), 0x1000, Address(0x10000)));
    assert_eq!(map.resolve(Address(0x800), 0x400), Ok(vec![(Address(0x10800), 0x400)]));
}

#[test]
fn resolve_past_the_mapping_is_out_of_bounds() {
    let mut map = MemoryMap::new();
    assert!(map.push_remap(Address(0), 0x1000, Address(0x10000)));
    assert_eq!(map.resolve(Address(0xf00), 0x200), Err(Error::OutOfBounds));
    assert_eq!(map.resolve(Address(0x1000), 1), Err(Error::OutOfBounds));
    assert_eq!(map.resolve(Address(0x1000), 0), Ok(vec![]));
}

#[test]
fn resolve_splits_across_adjacent_mappings() {
    let mut map = MemoryMap::new();
    assert!(map.push_remap(Address(0x1000), 0x1000, Address(0x50000)));
    assert!(map.push_remap(Address(0), 0x1000, Address(0x10000)));
    assert!(map.push_remap(Address(0x2000), 0x1000, Address(0x30000)));
    assert_eq!(
        map.resolve(Address(0xf00), 0x1200),
        Ok(vec![
            (Address(0x10f00), 0x100),
            (Address(0x50000), 0x1000),
            (Address(0x30000), 0x100)
        ])
    );
}

#[test]
fn push_remap_keeps_order_and_rejects_overlap() {
    let mut map = MemoryMap::new();
    assert!(map.push_remap(Address(0x2000), 0x1000, Address(0)));
    assert!(map.push_remap(Address(0), 0x1000, Address(0x1000)));
    assert!(!map.push_remap(Address(0x2fff), 1, Address(0x9000)));
    assert!(!map.push_remap(Address(0x1800), 0x1000, Address(0x9000)));
    assert!(!map.push_remap(Address(0), 0x4000, Address(0x9000)));
    assert!(!map.push_remap(Address(0x500), 0x10, Address(0x9000)));
    assert!(map.push_remap(Address(0x1000), 0x1000, Address(0x9000)));
    let expected = vec![
        MemoryMapping { base: Address(0), size: 0x1000, real_base: Address(0x1000) },
        MemoryMapping { base: Address(0x1000), size: 0x1000, real_base: Address(0x9000) },
        MemoryMapping { base: Address(0x2000), size: 0x1000, real_base: Address(0) },
    ];
    assert_eq!(map.mappings(), &expected);
}

#[test]
fn push_remap_rejects_empty_and_wrapping_ranges() {
    let mut map = MemoryMap::new();
    assert!(!map.push_remap(Address(0x1000), 0, Address(0)));
    assert!(!map.push_remap(Address(u64::MAX), 2, Address(0)));
    assert!(!map.push_remap(Address(0), 2, Address(u64::MAX)));
    assert!(map.push_remap(Address(u64::MAX), 1, Address(0)));
    assert_eq!(map.mappings().len(), 1);
    assert_eq!(map.resolve(Address(u64::MAX), 1), Ok(vec![(Address(0), 1)]));
    assert_eq!(map.resolve(Address(u64::MAX), 2), Err(Error::OutOfBounds));
    assert_eq!(map.find(Address(u64::MAX)), Some(0));
    assert_eq!(map.find(Address(5)), None);
}

#[test]
fn dummy_memory_reads_what_was_written() {
    let mut mem = DummyMemory::new(0x100);
    assert_eq!(mem.metadata().size, 0x100);
    assert_eq!(mem.read_raw(Address(0x10), 4), Ok(vec![0, 0, 0, 0]));
    assert_eq!(mem.write_raw(Address(0x10), &vec![1, 2, 3, 4]), Ok(()));
    assert_eq!(mem.read_raw(Address(0x11), 2), Ok(vec![2, 3]));
    assert_eq!(mem.read_raw(Address(0xfe), 2), Ok(vec![0, 0]));
    assert_eq!(mem.read_raw(Address(0xff), 2), Err(Error::OutOfBounds));
    assert_eq!(mem.read_raw(Address(u64::MAX), 2), Err(Error::OutOfBounds));
    assert_eq!(mem.write_raw(Address(0xff), &vec![9, 9]), Err(Error::OutOfBounds));
    assert_eq!(mem.read_raw(Address(0xff), 1), Ok(vec![0]));
    assert_eq!(mem.read_raw(Address(0x1000), 0), Ok(vec![]));
}

#[test]
fn batch_results_stand_at_the_positions_of_the_requests() {
    let mut mem = DummyMemory::from_bytes((0u8..=255).collect());
    let batch = vec![
        PhysicalReadData { addr: Address(0x80), len: 2 },
        PhysicalReadData { addr: Address(0x1000), len: 1 },
        PhysicalReadData { addr: Address(0x00), len: 3 },
        PhysicalReadData { addr: Address(0xff), len: 1 },
    ];
    let out = mem.phys_read_raw_list(&batch);
    assert_eq!(
        out,
        vec![Ok(vec![0x80, 0x81]), Err(Error::OutOfBounds), Ok(vec![0, 1, 2]), Ok(vec![0xff])]
    );
}

#[test]
fn batch_writes_apply_in_order() {
    let mut mem = DummyMemory::new(8);
    let batch = vec![
        PhysicalWriteData { addr: Address(0), data: vec![1, 1, 1, 1] },
        PhysicalWriteData { addr: Address(6), data: vec![7, 7, 7] },
        PhysicalWriteData { addr: Address(2), data: vec![2, 2, 2] },
    ];
    let out = mem.phys_write_raw_list(&batch);
    assert_eq!(out, vec![Ok(()), Err(Error::OutOfBounds), Ok(())]);
    assert_eq!(mem.as_bytes(), &vec![1, 1, 2, 2, 2, 0, 0, 0]);
}

#[test]
fn memory_map_stands_between_request_and_device() {
    let mut mem = DummyMemory::from_bytes((0u8..=255).collect());
    let mut map = MemoryMap::new();
    assert!(map.push_remap(Address(0x1000), 0x10, Address(0x20)));
    assert!(map.push_remap(Address(0x1010), 0x10, Address(0x80)));
    assert!(map.push_remap(Address(0x5000), 0x10, Address(0xf8)));
    assert!(!mem.has_mem_map());
    mem.set_mem_map(map);
    assert!(mem.has_mem_map());
    assert_eq!(mem.read_raw(Address(0x100e), 4), Ok(vec![0x2e, 0x2f, 0x80, 0x81]));
    assert_eq!(mem.read_raw(Address(0x0), 1), Err(Error::OutOfBounds));
    assert_eq!(mem.read_raw(Address(0x101f), 2), Err(Error::OutOfBounds));
    assert_eq!(mem.read_raw(Address(0x5000), 8), Ok(vec![0xf8, 0xf9, 0xfa, 0xfb, 0xfc, 0xfd, 0xfe, 0xff]));
    assert_eq!(mem.read_raw(Address(0x5000), 9), Err(Error::OutOfBounds));
    assert_eq!(mem.write_raw(Address(0x100f), &vec![0xaa, 0xbb]), Ok(()));
    assert_eq!(mem.as_bytes()[0x2f], 0xaa);
    assert_eq!(mem.as_bytes()[0x80], 0xbb);
    assert_eq!(mem.write_raw(Address(0x5008), &vec![1; 9]), Err(Error::OutOfBounds));
    assert_eq!(mem.as_bytes()[0xff], 0xff);
}
