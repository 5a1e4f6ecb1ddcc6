use memflow::architecture::{Architecture, ArchitectureIdent};
use memflow::error::{Error, PartialError};
use memflow::mem::cache::page_cache::{line_token, CacheLine, CachedMemoryAccess};
use memflow::mem::cache::tlb_cache::{entry_frame, CachedVirtualTranslate, TlbEntry};
use memflow::mem::cache::validator::{
    check_window, millis_token, CacheValidator, CountCacheValidator, TimedCacheValidator,
};
use memflow::mem::dummy::DummyMemory;
use memflow::mem::mem_map::MemoryMap;
use memflow::mem::phys::{PhysicalMemory, PhysicalMemoryMetadata, PhysicalReadData, PhysicalWriteData};
use memflow::mem::virt_mem::VirtualFromPhysical;
use memflow::mem::virt_translate::{DirectTranslate, TranslateRequest, VirtualTranslate};
use memflow::types::address::Address;
use std::time::{Duration, Instant};

// a provider that counts the reads that reach it
struct Counting {
    inner: DummyMemory,
    reads: usize,
    calls: usize,
}

impl PhysicalMemory for Counting {
    fn phys_read_raw_list(&mut self, batch: &Vec<PhysicalReadData>) -> Vec<Result<Vec<u8>, Error>> {
        self.reads += batch.len();
        self.calls += 1;
        self.inner.phys_read_raw_list(batch)
    }

    fn phys_write_raw_list(&mut self, batch: &Vec<PhysicalWriteData>) -> Vec<Result<(), Error>> {
        self.inner.phys_write_raw_list(batch)
    }

    fn metadata(&self) -> PhysicalMemoryMetadata {
        self.inner.metadata()
    }

    fn has_mem_map(&self) -> bool {
        self.inner.has_mem_map()
    }

    fn set_mem_map(&mut self, map: MemoryMap) {
        self.inner.set_mem_map(map)
    }
}

fn counting(size: usize) -> Counting {
    let bytes: Vec<u8> = (0..size).map(|i| (i % 253) as u8).collect();
    Counting { inner: DummyMemory::from_bytes(bytes), reads: 0, calls: 0 }
}

#[test]
fn window_check() {
    assert!(check_window(10, 10, 0));
    assert!(check_window(10, 5, 5));
    assert!(!check_window(11, 5, 5));
    assert!(check_window(3, 5, 0));
    assert!(check_window(u64::MAX, 0, u64::MAX));
    assert!(!check_window(u64::MAX, 0, u64::MAX - 1));
}

#[test]
fn count_validator_expires_after_its_window() {
    let mut v = CountCacheValidator::new(1000);
    let token = v.update_validity();
    assert_eq!(token, 0);
    assert!(v.is_valid(token));
    v.advance(1000);
    assert!(v.is_valid(token));
    assert_eq!(v.update_validity(), 1000);
    v.advance(1);
    assert!(!v.is_valid(token));
    assert!(v.is_valid(1000));
    v.advance(u64::MAX);
    assert_eq!(v.now, u64::MAX);
}

#[test]
fn second_read_is_served_from_the_cache() {
    let mut cache = CachedMemoryAccess::new(counting(0x4000), CountCacheValidator::new(1000), 0x1000, 0x1000);
    assert_eq!(cache.lines.len(), 1);
    let first = cache.read_raw(Address(0), 8).unwrap();
    assert_eq!(first, vec![0, 1, 2, 3, 4, 5, 6, 7]);
    assert_eq!(cache.mem.reads, 1);
    let second = cache.read_raw(Address(0), 8).unwrap();
    assert_eq!(second, first);
    assert_eq!(cache.mem.reads, 1);
    // another part of the same page
    assert_eq!(cache.read_raw(Address(0x10), 2), Ok(vec![0x10, 0x11]));
    assert_eq!(cache.mem.reads, 1);
}

#[test]
fn stale_until_the_validator_expires() {
    let mut cache = CachedMemoryAccess::new(counting(0x4000), CountCacheValidator::new(1000), 0x1000, 0x1000);
    assert_eq!(cache.read_raw(Address(0), 8), Ok(vec![0, 1, 2, 3, 4, 5, 6, 7]));
    // change the bytes behind the cache
    assert_eq!(cache.mem.inner.write_raw(Address(0), &vec![0xaa; 8]), Ok(()));
    cache.validator.advance(1000);
    assert_eq!(cache.read_raw(Address(0), 8), Ok(vec![0, 1, 2, 3, 4, 5, 6, 7]));
    assert_eq!(cache.mem.reads, 1);
    cache.validator.advance(1);
    assert_eq!(cache.read_raw(Address(0), 8), Ok(vec![0xaa; 8]));
    assert_eq!(cache.mem.reads, 2);
}

#[test]
fn timed_validator_goes_by_the_clock() {
    let mut cache = CachedMemoryAccess::new(counting(0x4000), TimedCacheValidator::new(1000), 0x1000, 0x1000);
    let start = Instant::now();
    assert_eq!(cache.read_raw(Address(0), 8), Ok(vec![0, 1, 2, 3, 4, 5, 6, 7]));
    assert_eq!(cache.read_raw(Address(0), 8), Ok(vec![0, 1, 2, 3, 4, 5, 6, 7]));
    assert_eq!(cache.mem.reads, 1);
    assert_eq!(cache.mem.inner.write_raw(Address(0), &vec![0xbb; 8]), Ok(()));
    if start.elapsed() < Duration::from_millis(900) {
        assert_eq!(cache.read_raw(Address(0), 8), Ok(vec![0, 1, 2, 3, 4, 5, 6, 7]));
    }
    while start.elapsed() < Duration::from_millis(1100) {}
    assert_eq!(cache.read_raw(Address(0), 8), Ok(vec![0xbb; 8]));
    assert_eq!(cache.mem.reads, 2);
}

#[test]
fn write_through_the_cache_is_read_back() {
    let mut cache = CachedMemoryAccess::new(counting(0x4000), CountCacheValidator::new(1000), 0x1000, 0x4000);
    assert_eq!(cache.lines.len(), 4);
    assert_eq!(cache.read_raw(Address(0x1ffe), 4), Ok(vec![(0x1ffe % 253) as u8, (0x1fff % 253) as u8, (0x2000 % 253) as u8, (0x2001 % 253) as u8]));
    let out = cache.phys_write_raw_list(&vec![
        PhysicalWriteData { addr: Address(0x1fff), data: vec![1, 2] },
        PhysicalWriteData { addr: Address(0x3fff), data: vec![1, 2] },
    ]);
    assert_eq!(out, vec![Ok(()), Err(Error::OutOfBounds)]);
    assert_eq!(cache.read_raw(Address(0x1ffe), 4), Ok(vec![(0x1ffe % 253) as u8, 1, 2, (0x2001 % 253) as u8]));
    assert_eq!(cache.mem.inner.as_bytes()[0x1fff], 1);
    assert_eq!(cache.mem.inner.as_bytes()[0x2000], 2);
    assert_eq!(cache.mem.inner.as_bytes()[0x3fff], (0x3fff % 253) as u8);
}

#[test]
fn cache_passes_errors_through() {
    let mut cache = CachedMemoryAccess::new(counting(0x1800), CountCacheValidator::new(10), 0x1000, 0x2000);
    // the second page is cut short by the end of the device
    assert_eq!(cache.read_raw(Address(0x1000), 4), Ok(vec![(0x1000 % 253) as u8, (0x1001 % 253) as u8, (0x1002 % 253) as u8, (0x1003 % 253) as u8]));
    assert_eq!(cache.read_raw(Address(0x17fe), 4), Err(Error::OutOfBounds));
    assert_eq!(cache.read_raw(Address(0x2000), 1), Err(Error::OutOfBounds));
    assert_eq!(cache.read_raw(Address(u64::MAX), 2), Err(Error::OutOfBounds));
    assert_eq!(cache.read_raw(Address(0x5000), 0), Ok(vec![]));
    let out = cache.phys_read_raw_list(&vec![
        PhysicalReadData { addr: Address(0x2000), len: 1 },
        PhysicalReadData { addr: Address(0xfff), len: 2 },
    ]);
    assert_eq!(out, vec![Err(Error::OutOfBounds), Ok(vec![(0xfff % 253) as u8, (0x1000 % 253) as u8])]);
    assert_eq!(cache.metadata().size, 0x1800);
}

#[test]
fn pages_that_share_a_line_evict_one_another() {
    let mut cache = CachedMemoryAccess::new(counting(0x4000), CountCacheValidator::new(10), 0x1000, 0x2000);
    assert_eq!(cache.lines.len(), 2);
    assert!(cache.read_raw(Address(0), 1).is_ok());
    assert!(cache.read_raw(Address(0x2000), 1).is_ok());
    assert!(cache.read_raw(Address(0x1000), 1).is_ok());
    assert_eq!(cache.mem.reads, 3);
    assert!(cache.read_raw(Address(0x2001), 1).is_ok());
    assert!(cache.read_raw(Address(0x1001), 1).is_ok());
    assert_eq!(cache.mem.reads, 3);
    assert!(cache.read_raw(Address(0), 1).is_ok());
    assert_eq!(cache.mem.reads, 4);
    cache.flush();
    assert!(cache.lines.iter().all(|l| l.is_none()));
}

#[test]
fn memory_map_through_the_cache() {
    let mut cache = CachedMemoryAccess::new(counting(0x4000), CountCacheValidator::new(10), 0x1000, 0x2000);
    assert_eq!(cache.read_raw(Address(0), 1), Ok(vec![0]));
    let mut map = MemoryMap::new();
    assert!(map.push_remap(Address(0), 0x1000, Address(0x1000)));
    cache.set_mem_map(map);
    assert_eq!(cache.read_raw(Address(0), 1), Ok(vec![(0x1000 % 253) as u8]));
    assert_eq!(cache.read_raw(Address(0x1000), 1), Err(Error::OutOfBounds));
}

#[test]
fn line_serves_only_its_page() {
    let line = Some(CacheLine { page: 3, data: vec![0; 4], token: 77 });
    assert_eq!(line_token(&line, 3), Some(77));
    assert_eq!(line_token(&line, 4), None);
    assert_eq!(line_token(&None, 3), None);
    let entry = Some(TlbEntry { dtb: 0x1000, vpage: 0x5000, frame: 0x9000, token: 5 });
    assert_eq!(entry_frame(&entry, 0x1000, 0x5000), Some((0x9000, 5)));
    assert_eq!(entry_frame(&entry, 0x2000, 0x5000), None);
    assert_eq!(entry_frame(&entry, 0x1000, 0x6000), None);
    assert_eq!(entry_frame(&None, 0x1000, 0x5000), None);
}

fn put_u64(mem: &mut DummyMemory, at: u64, value: u64) {
    assert_eq!(mem.write_raw(Address(at), &value.to_le_bytes().to_vec()), Ok(()));
}

fn identity_x64() -> DummyMemory {
    let mut mem = DummyMemory::new(16 * 1024 * 1024);
    put_u64(&mut mem, 0x1000, 0x10000 | 3);
    put_u64(&mut mem, 0x10000, 0x11000 | 3);
    put_u64(&mut mem, 0x11000, 0x12000 | 3);
    for i in 0..512u64 {
        put_u64(&mut mem, 0x12000 + 8 * i, (i * 0x1000) | 3);
    }
    mem
}

fn x64() -> Architecture {
    Architecture::from_ident(ArchitectureIdent::X86(64, false)).unwrap()
}

#[test]
fn translation_cache_avoids_page_table_reads() {
    let mut mem = Counting { inner: identity_x64(), reads: 0, calls: 0 };
    let arch = x64();
    let mut tlb = CachedVirtualTranslate::new(DirectTranslate::new(), CountCacheValidator::new(500), arch, 0x100);
    assert_eq!(tlb.entries.len(), 0x100);
    let dtb = Address(0x1000);
    let batch = vec![TranslateRequest { dtb, vaddr: Address(0x5123) }];
    assert_eq!(tlb.virt_to_phys_list(&mut mem, &arch, &batch), vec![Ok(Address(0x5123))]);
    let walked = mem.reads;
    assert!(walked > 0);
    // another address of the same page, and the same address again
    let batch = vec![
        TranslateRequest { dtb, vaddr: Address(0x5fff) },
        TranslateRequest { dtb, vaddr: Address(0x5123) },
    ];
    assert_eq!(
        tlb.virt_to_phys_list(&mut mem, &arch, &batch),
        vec![Ok(Address(0x5fff)), Ok(Address(0x5123))]
    );
    assert_eq!(mem.reads, walked);
    // the page tables change: the entry is stale until it expires
    put_u64(&mut mem.inner, 0x12000 + 8 * 5, 0x77000 | 3);
    let batch = vec![TranslateRequest { dtb, vaddr: Address(0x5123) }];
    assert_eq!(tlb.virt_to_phys_list(&mut mem, &arch, &batch), vec![Ok(Address(0x5123))]);
    tlb.validator.advance(501);
    assert_eq!(tlb.virt_to_phys_list(&mut mem, &arch, &batch), vec![Ok(Address(0x77123))]);
    tlb.flush();
    assert!(tlb.entries.iter().all(|e| e.is_none()));
}

#[test]
fn translation_cache_mixes_hits_and_misses_in_order() {
    let mut mem = identity_x64();
    put_u64(&mut mem, 0x12000 + 8 * 7, 0);
    let arch = x64();
    let mut tlb = CachedVirtualTranslate::new(DirectTranslate::new(), CountCacheValidator::new(500), arch, 4);
    let dtb = Address(0x1000);
    let warm = vec![TranslateRequest { dtb, vaddr: Address(0x2000) }];
    assert_eq!(tlb.virt_to_phys_list(&mut mem, &arch, &warm), vec![Ok(Address(0x2000))]);
    let batch = vec![
        TranslateRequest { dtb, vaddr: Address(0x3010) },
        TranslateRequest { dtb, vaddr: Address(0x2020) },
        TranslateRequest { dtb, vaddr: Address(0x7030) },
        TranslateRequest { dtb: Address(0x2000), vaddr: Address(0x2020) },
        TranslateRequest { dtb, vaddr: Address(0x6040) },
    ];
    assert_eq!(
        tlb.virt_to_phys_list(&mut mem, &arch, &batch),
        vec![
            Ok(Address(0x3010)),
            Ok(Address(0x2020)),
            Err(Error::PageNotPresent),
            Err(Error::PageNotPresent),
            Ok(Address(0x6040)),
        ]
    );
    // a scheme other than the one the cache was made for goes past the cache
    let pae = Architecture::from_ident(ArchitectureIdent::X86(32, true)).unwrap();
    assert_eq!(
        tlb.virt_to_phys_list(&mut mem, &pae, &warm),
        vec![Err(Error::PageNotPresent)]
    );
}

#[test]
fn virtual_memory_over_both_caches() {
    let phys = CachedMemoryAccess::new(identity_x64(), CountCacheValidator::new(1000), 0x1000, 0x10000);
    let arch = x64();
    let vat = CachedVirtualTranslate::new(DirectTranslate::new(), CountCacheValidator::new(1000), arch, 64);
    let mut mem = VirtualFromPhysical::new(phys, vat, arch, Address(0x1000));
    assert_eq!(mem.virt_write_raw(Address(0x20ffc), &vec![1, 2, 3, 4, 5, 6, 7, 8]), Ok(()));
    assert_eq!(mem.virt_read_raw(Address(0x20ffa), 12), Ok(vec![0, 0, 1, 2, 3, 4, 5, 6, 7, 8, 0, 0]));
    assert_eq!(mem.virt_read::<u32>(Address(0x20ffc)), Ok(0x04030201));
    assert_eq!(mem.virt_read::<u64>(Address(0x20ffc)), Ok(0x0807060504030201));
    assert_eq!(
        mem.virt_read::<u64>(Address(0x1f_fffc)),
        Err(PartialError::Partial(4, Error::PageNotPresent))
    );
}

#[test]
fn walks_of_a_batch_share_one_read_list_per_level() {
    let mut mem = Counting { inner: identity_x64(), reads: 0, calls: 0 };
    put_u64(&mut mem.inner, 0x11000 + 8, 0x40_0000 | 0x80 | 3);
    let arch = x64();
    let dtb = Address(0x1000);
    let batch = vec![
        TranslateRequest { dtb, vaddr: Address(0x4010) },
        // ends at the first level: the table lies beyond the device
        TranslateRequest { dtb: Address(0x7f_f000_0000), vaddr: Address(0) },
        // ends at the third level: a large page
        TranslateRequest { dtb, vaddr: Address(0x20_0040) },
        TranslateRequest { dtb, vaddr: Address(0x5020) },
    ];
    let out = memflow::mem::virt_translate::virt_to_phys_list(&mut mem, &arch, &batch);
    assert_eq!(
        out,
        vec![
            Ok(Address(0x4010)),
            Err(Error::InvalidPageTable),
            Ok(Address(0x40_0040)),
            Ok(Address(0x5020)),
        ]
    );
    assert_eq!(mem.calls, 4);
    assert_eq!(mem.reads, 3 + 3 + 3 + 2);
}

#[test]
fn timed_validator_keeps_the_later_moment() {
    let mut v = TimedCacheValidator::new(10);
    assert_eq!(v.advance_to(100), 100);
    assert_eq!(v.last_ms, 100);
    assert!(v.is_valid(90));
    assert!(!v.is_valid(89));
    assert_eq!(v.advance_to(50), 100);
    assert_eq!(v.last_ms, 100);
    assert_eq!(v.advance_to(101), 101);
    assert!(!v.is_valid(90));
    assert_eq!(v.window_ms, 10);
}

#[test]
fn milliseconds_as_tokens() {
    assert_eq!(millis_token(0), 0);
    assert_eq!(millis_token(1500), 1500);
    assert_eq!(millis_token(u64::MAX as u128), u64::MAX);
    assert_eq!(millis_token(u64::MAX as u128 + 1), u64::MAX);
    assert_eq!(millis_token(u128::MAX), u64::MAX);
}

#[test]
fn timed_validator_never_goes_backwards() {
    let mut v = TimedCacheValidator::new(50);
    assert_eq!(v.window_ms, 50);
    assert_eq!(v.last_ms, 0);
    let first = v.update_validity();
    assert!(v.is_valid(first));
    let start = Instant::now();
    while start.elapsed() < Duration::from_millis(120) {}
    // the validator's moment stands still until the validity is updated
    assert!(v.is_valid(first));
    let second = v.update_validity();
    assert!(second >= first + 100);
    assert_eq!(v.last_ms, second);
    assert!(!v.is_valid(first));
    assert!(v.is_valid(second));
}

#[test]
fn write_updates_the_lines_it_touches() {
    let mut cache = CachedMemoryAccess::new(counting(0x4000), CountCacheValidator::new(1000), 0x1000, 0x4000);
    assert!(!cache.has_mem_map());
    assert!(cache.read_raw(Address(0), 1).is_ok());
    assert!(cache.read_raw(Address(0x1000), 1).is_ok());
    assert!(cache.read_raw(Address(0x3000), 1).is_ok());
    assert_eq!(cache.mem.reads, 3);
    let out = cache.phys_write_raw_list(&vec![
        PhysicalWriteData { addr: Address(0xffe), data: vec![1, 2, 3, 4] },
        PhysicalWriteData { addr: Address(0x3fff), data: vec![9, 9] },
        PhysicalWriteData { addr: Address(0x1001), data: vec![5] },
    ]);
    assert_eq!(out, vec![Ok(()), Err(Error::OutOfBounds), Ok(())]);
    // the lines are still there and hold what was written
    assert_eq!(cache.read_raw(Address(0xffd), 6), Ok(vec![(0xffd % 253) as u8, 1, 2, 3, 5, (0x1002 % 253) as u8]));
    assert_eq!(cache.read_raw(Address(0x3fff), 1), Ok(vec![(0x3fff % 253) as u8]));
    assert_eq!(cache.mem.reads, 3);
    assert_eq!(&cache.mem.inner.as_bytes()[0xffe..0x1002], &[1, 2, 3, 5]);
    // a page that was not cached is read from the provider
    assert_eq!(cache.read_raw(Address(0x2000), 1), Ok(vec![(0x2000 % 253) as u8]));
    assert_eq!(cache.mem.reads, 4);
}

#[test]
fn write_under_a_memory_map_drops_the_lines() {
    let mut cache = CachedMemoryAccess::new(counting(0x4000), CountCacheValidator::new(1000), 0x1000, 0x4000);
    let mut map = MemoryMap::new();
    // two pages of the request side lie on the same page of the device
    assert!(map.push_remap(Address(0), 0x1000, Address(0x2000)));
    assert!(map.push_remap(Address(0x1000), 0x1000, Address(0x2000)));
    cache.set_mem_map(map);
    assert!(cache.has_mem_map());
    assert_eq!(cache.read_raw(Address(0x10), 1), Ok(vec![(0x2010 % 253) as u8]));
    assert_eq!(cache.read_raw(Address(0x1010), 1), Ok(vec![(0x2010 % 253) as u8]));
    assert_eq!(cache.mem.reads, 2);
    let out = cache.phys_write_raw_list(&vec![PhysicalWriteData { addr: Address(0x10), data: vec![0xee] }]);
    assert_eq!(out, vec![Ok(())]);
    assert!(cache.lines.iter().all(|l| l.is_none()));
    assert_eq!(cache.read_raw(Address(0x1010), 1), Ok(vec![0xee]));
    assert_eq!(cache.read_raw(Address(0x10), 1), Ok(vec![0xee]));
    assert_eq!(cache.mem.reads, 4);
}

#[test]
fn hits_ask_neither_translator_nor_provider() {
    let mut mem = Counting { inner: identity_x64(), reads: 0, calls: 0 };
    let arch = x64();
    let mut tlb = CachedVirtualTranslate::new(DirectTranslate::new(), CountCacheValidator::new(500), arch, 0x100);
    let dtb = Address(0x1000);
    let warm = vec![
        TranslateRequest { dtb, vaddr: Address(0x5123) },
        TranslateRequest { dtb, vaddr: Address(0x6000) },
    ];
    assert_eq!(tlb.translate_list(&mut mem, &arch, &warm), vec![Ok(Address(0x5123)), Ok(Address(0x6000))]);
    let calls = mem.calls;
    assert_eq!(calls, 4);
    let batch = vec![
        TranslateRequest { dtb, vaddr: Address(0x6fff) },
        TranslateRequest { dtb, vaddr: Address(0x5000) },
    ];
    assert_eq!(tlb.translate_list(&mut mem, &arch, &batch), vec![Ok(Address(0x6fff)), Ok(Address(0x5000))]);
    assert_eq!(mem.calls, calls);
    assert_eq!(tlb.translate_list(&mut mem, &arch, &vec![]), vec![]);
    assert_eq!(mem.calls, calls);
    // one miss among the hits: the walk for it is made
    let mixed = vec![
        TranslateRequest { dtb, vaddr: Address(0x6fff) },
        TranslateRequest { dtb, vaddr: Address(0x7000) },
    ];
    assert_eq!(tlb.translate_list(&mut mem, &arch, &mixed), vec![Ok(Address(0x6fff)), Ok(Address(0x7000))]);
    assert_eq!(mem.calls, calls + 4);
    assert_eq!(mem.reads, 8 + 4);
}
