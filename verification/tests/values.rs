use memflow::dataview::{swap_u32, swap_u64, ByteSwap};
use memflow::error::{
    batch_into_int_result, into_int_result, partial_into_int_result, Error, PartialError,
};
use memflow::mem::dummy::DummyMemory;
use memflow::mem::mem_map::{MemoryMap, MemoryMapping};
use memflow::mem::phys::{phys_read, phys_read_raw, phys_write, phys_write_raw};
use memflow::plugins::text::{
    contains_str, ends_with_str, eq_ignore_case_str, equals_str, find_segment_str, format_hex,
    parse_u64_radix, parse_usize_radix, second_field_str, split_once_char,
};
use memflow::types::address::Address;
use memflow::types::pointer64::Pointer64;
use memflow::types::size::{gb, kb, mb};
use std::collections::hash_map::DefaultHasher;
use std::hash::{Hash, Hasher};

#[test]
fn sizes_in_binary_units() {
    assert_eq!(kb(1), 1024);
    assert_eq!(kb(4), 4096);
    assert_eq!(mb(1), 1024 * 1024);
    assert_eq!(mb(16), 16 * 1024 * 1024);
    assert_eq!(gb(1), 1024 * 1024 * 1024);
    assert_eq!(kb(0), 0);
}

#[test]
fn address_arithmetic() {
    assert!(Address::null().is_null());
    assert!(!Address(1).is_null());
    assert_eq!(Address(5).as_u64(), 5);
    assert_eq!(Address(0x1000) + 0x10, Address(0x1010));
    assert_eq!(Address(0x1000) - 0x10, Address(0xff0));
    assert_eq!(Address(u64::MAX) + 2, Address(1));
    assert_eq!(Address(1) - 2, Address(u64::MAX));
    assert_eq!(Address(u64::MAX).wrapping_add(1), Address(0));
    assert_eq!(Address(0).wrapping_sub(1), Address(u64::MAX));
    assert_eq!(Address(u64::MAX - 1).checked_add(1), Some(Address(u64::MAX)));
    assert_eq!(Address(u64::MAX).checked_add(1), None);
    assert!(Address(1) < Address(2));
}

#[test]
fn error_codes_are_stable() {
    assert_eq!(Error::IO("x").as_int(), -1);
    assert_eq!(Error::Configuration.as_int(), -2);
    assert_eq!(Error::Connector("x").as_int(), -3);
    assert_eq!(Error::OutOfBounds.as_int(), -4);
    assert_eq!(Error::PageNotPresent.as_int(), -5);
    assert_eq!(Error::InvalidPageTable.as_int(), -6);
    assert_eq!(Error::Bounds.as_int(), -7);
    assert_eq!(Error::Other("x").as_int(), -9);
    assert_eq!(into_int_result(&Ok::<u8, Error>(3)), 0);
    assert_eq!(into_int_result(&Err::<u8, Error>(Error::Bounds)), -7);
    assert_eq!(partial_into_int_result(&Ok::<u8, PartialError>(3)), 0);
    assert_eq!(
        partial_into_int_result(&Err::<u8, PartialError>(PartialError::Partial(4, Error::OutOfBounds))),
        -8
    );
    assert_eq!(
        partial_into_int_result(&Err::<u8, PartialError>(PartialError::Error(Error::OutOfBounds))),
        -4
    );
    assert_eq!(batch_into_int_result::<u8>(&vec![]), 0);
    assert_eq!(batch_into_int_result(&vec![Ok(1u8), Ok(2)]), 0);
    assert_eq!(
        batch_into_int_result(&vec![Ok(1u8), Err(Error::PageNotPresent), Err(Error::Bounds)]),
        -5
    );
}

#[test]
fn byte_swap_reverses_the_bytes() {
    assert_eq!(swap_u32(0x1122_3344), 0x4433_2211);
    assert_eq!(swap_u64(0x1122_3344_5566_7788), 0x8877_6655_4433_2211);
    let mut v = 0x0102_0304u32;
    v.byte_swap();
    assert_eq!(v, 0x0403_0201);
    let mut w = 1u64;
    w.byte_swap();
    assert_eq!(w, 0x0100_0000_0000_0000);
    let mut a = Address(0xff);
    a.byte_swap();
    assert_eq!(a, Address(0xff00_0000_0000_0000));
    let mut p = Pointer64::<u8>::from(0x1234u64);
    p.byte_swap();
    assert_eq!(p.as_u64(), 0x3412_0000_0000_0000);
    p.byte_swap();
    assert_eq!(p.as_u64(), 0x1234);
}

#[test]
fn pointer_as_hexadecimal_text() {
    assert_eq!(Pointer64::<()>::from(0x1000u64).to_hex_string(), "1000");
    assert_eq!(Pointer64::<()>::null().to_hex_string(), "0");
    assert_eq!(Pointer64::<()>::from(u64::MAX).to_hex_string(), "ffffffffffffffff");
    assert_eq!(format_hex(0xdead_beef), "deadbeef");
    assert_eq!(format_hex(0x0a0), "a0");
    assert_eq!(format_hex(0x1000_0000_0000_0000), "1000000000000000");
    for v in [0u64, 1, 9, 10, 15, 16, 255, 256, 0x123456789abcdef, u64::MAX] {
        assert_eq!(parse_u64_radix(&format_hex(v), 16), Some(v));
        assert_eq!(format_hex(v), format!("{:x}", v));
    }
}

#[test]
fn pointer_hash_and_references() {
    let hash = |p: &Pointer64<u32>| {
        let mut h = DefaultHasher::new();
        p.hash(&mut h);
        h.finish()
    };
    let hash_u64 = |v: u64| {
        let mut h = DefaultHasher::new();
        v.hash(&mut h);
        h.finish()
    };
    let p = Pointer64::<u32>::from(0x55u64);
    assert_eq!(hash(&p), hash_u64(0x55));
    assert_ne!(hash(&p), hash_u64(0x56));
    assert_eq!(*p.as_ref(), 0x55);
    let mut q = p;
    *q.as_mut() = 0x77;
    assert_eq!(q.as_u64(), 0x77);
    assert_eq!(p.as_u64(), 0x55);
    assert_eq!(p.cmp(&q), std::cmp::Ordering::Less);
    assert_eq!(q.cmp(&p), std::cmp::Ordering::Greater);
    assert_eq!(p.cmp(&p), std::cmp::Ordering::Equal);
    assert_eq!(p.partial_cmp(&q), Some(std::cmp::Ordering::Less));
}

#[test]
fn map_from_a_list_of_mappings() {
    let wanted = vec![
        MemoryMapping { base: Address(0x2000), size: 0x1000, real_base: Address(0) },
        MemoryMapping { base: Address(0x2800), size: 0x1000, real_base: Address(0x5000) },
        MemoryMapping { base: Address(0), size: 0x1000, real_base: Address(0x9000) },
        MemoryMapping { base: Address(0x8000), size: 0, real_base: Address(0x9000) },
    ];
    let map = MemoryMap::from_mappings(&wanted);
    assert_eq!(map.mappings(), &vec![wanted[2], wanted[0]]);
    assert_eq!(MemoryMap::from_mappings(&vec![]).mappings().len(), 0);
}

#[test]
fn single_and_typed_physical_transfers() {
    let mut mem = DummyMemory::new(0x20);
    assert_eq!(phys_write(&mut mem, Address(4), &0x1122_3344u32), Ok(()));
    assert_eq!(phys_read::<u32, _>(&mut mem, Address(4)), Ok(0x1122_3344));
    assert_eq!(phys_read::<u64, _>(&mut mem, Address(0)), Ok(0x1122_3344_0000_0000));
    assert_eq!(phys_read_raw(&mut mem, Address(4), 4), Ok(vec![0x44, 0x33, 0x22, 0x11]));
    assert_eq!(phys_write_raw(&mut mem, Address(0x1e), vec![1, 2]), Ok(()));
    assert_eq!(phys_write_raw(&mut mem, Address(0x1f), vec![1, 2]), Err(Error::OutOfBounds));
    assert_eq!(phys_read::<u32, _>(&mut mem, Address(0x1d)), Err(Error::OutOfBounds));
    assert_eq!(phys_write(&mut mem, Address(0x1d), &7u64), Err(Error::OutOfBounds));
    assert_eq!(phys_read::<u8, _>(&mut mem, Address(0x1f)), Ok(2));
    assert_eq!(
        phys_read::<Pointer64<u8>, _>(&mut mem, Address(0)).map(|p| p.as_u64()),
        Ok(0x1122_3344_0000_0000)
    );
}

#[test]
fn text_primitives() {
    assert_eq!(split_once_char("a=b=c", '='), ("a", Some("b=c")));
    assert_eq!(split_once_char("abc", '='), ("abc", None));
    assert_eq!(split_once_char("=", '='), ("", Some("")));
    assert_eq!(split_once_char("", '='), ("", None));
    assert_eq!(split_once_char("ä=ö", '='), ("ä", Some("ö")));
    assert!(contains_str("a page b", "page"));
    assert!(contains_str("page", "page"));
    assert!(!contains_str("pag", "page"));
    assert!(contains_str("", ""));
    assert!(contains_str("x", ""));
    assert!(!contains_str("pa ge", "page"));
    assert!(ends_with_str("10mb", "mb"));
    assert!(!ends_with_str("10mB", "mb"));
    assert!(!ends_with_str("b", "mb"));
    assert!(equals_str("none", "none"));
    assert!(!equals_str("none", "none "));
    assert!(!equals_str("nona", "none"));
    assert!(eq_ignore_case_str("X32_PAE", "x32_pae"));
    assert!(!eq_ignore_case_str("x32-pae", "x32_pae"));
    assert!(!eq_ignore_case_str("\u{212a}", "k"));
    assert_eq!(find_segment_str("a&vat:1&page:2", '&', "page"), Some("page:2"));
    assert_eq!(find_segment_str("a&mypages&page", '&', "page"), Some("mypages"));
    assert_eq!(find_segment_str("a&b", '&', "page"), None);
    assert_eq!(second_field_str("page:1;2:3", ':'), Some("1;2"));
    assert_eq!(second_field_str("page:", ':'), Some(""));
    assert_eq!(second_field_str("page", ':'), None);
}

#[test]
fn numbers_in_a_radix() {
    assert_eq!(parse_u64_radix("ff", 16), Some(255));
    assert_eq!(parse_u64_radix("+FF", 16), Some(255));
    assert_eq!(parse_u64_radix("0000000000000000000001", 16), Some(1));
    assert_eq!(parse_u64_radix("ffffffffffffffff", 16), Some(u64::MAX));
    assert_eq!(parse_u64_radix("10000000000000000", 16), None);
    assert_eq!(parse_u64_radix("18446744073709551615", 10), Some(u64::MAX));
    assert_eq!(parse_u64_radix("18446744073709551616", 10), None);
    assert_eq!(parse_u64_radix("", 10), None);
    assert_eq!(parse_u64_radix("+", 10), None);
    assert_eq!(parse_u64_radix("-1", 10), None);
    assert_eq!(parse_u64_radix("++1", 10), None);
    assert_eq!(parse_u64_radix("1 ", 10), None);
    assert_eq!(parse_u64_radix("a", 10), None);
    assert_eq!(parse_u64_radix("g", 16), None);
    assert_eq!(parse_u64_radix("z", 36), Some(35));
    assert_eq!(parse_u64_radix("101", 2), Some(5));
    assert_eq!(parse_usize_radix("1000", 16), Some(0x1000));
    assert_eq!(parse_usize_radix("x", 16), None);
    for text in ["0", "7", "+42", "abc", "", "99999999999999999999", "1_0", "٣"] {
        assert_eq!(parse_u64_radix(text, 10), text.parse::<u64>().ok());
        assert_eq!(parse_u64_radix(text, 16), u64::from_str_radix(text, 16).ok());
    }
}

#[test]
fn disjoint_mappings_are_all_taken_and_none_is_changed() {
    let wanted = vec![
        MemoryMapping { base: Address(0x3000), size: 0x1000, real_base: Address(0x100) },
        MemoryMapping { base: Address(0), size: 0x10, real_base: Address(0x200) },
        MemoryMapping { base: Address(0x10), size: 0x2ff0, real_base: Address(0x300) },
        MemoryMapping { base: Address(u64::MAX), size: 1, real_base: Address(0) },
    ];
    let map = MemoryMap::from_mappings(&wanted);
    assert_eq!(map.mappings(), &vec![wanted[1], wanted[2], wanted[0], wanted[3]]);
    // one that overlaps is refused whole, whatever comes after it
    let wanted = vec![
        MemoryMapping { base: Address(0x1000), size: 0x1000, real_base: Address(0) },
        MemoryMapping { base: Address(0x800), size: 0x1000, real_base: Address(0x5000) },
        MemoryMapping { base: Address(0x800), size: 0x800, real_base: Address(0x5000) },
    ];
    let map = MemoryMap::from_mappings(&wanted);
    assert_eq!(map.mappings(), &vec![wanted[2], wanted[0]]);
}
