use memflow::error::Error;
use memflow::types::address::Address;
use memflow::types::pointer64::Pointer64;
use std::convert::TryFrom;

#[test]
fn null_pointer_is_null() {
    assert!(Pointer64::<()>::null().is_null());
    assert!(Pointer64::<u32>::default().is_null());
    assert_eq!(Pointer64::<()>::null().non_null(), None);
}

#[test]
fn pointer_from_address_is_null_only_for_zero() {
    assert!(Pointer64::<()>::from(0u64).is_null());
    assert!(!Pointer64::<()>::from(0x1000u64).is_null());
    assert!(!Pointer64::<()>::from(1u32).is_null());
    assert!(!Pointer64::<()>::from(u64::MAX).is_null());
    assert_eq!(
        Pointer64::<()>::from(0x1000u64).non_null(),
        Some(Pointer64::from(0x1000u64))
    );
}

#[test]
fn conversions_keep_the_address() {
    let ptr = Pointer64::<()>::from(0x1000u64);
    assert_eq!(ptr.as_u32(), 0x1000);
    assert_eq!(ptr.as_u64(), 0x1000);
    assert_eq!(ptr.as_usize(), 0x1000);
    assert_eq!(ptr.into_raw(), 0x1000);
    assert_eq!(ptr.address, 0x1000);
    assert_eq!(u64::from(ptr), 0x1000);
    assert_eq!(Address::from(ptr), Address(0x1000));
    assert_eq!(Pointer64::<u8>::from(Address(0x77)).as_u64(), 0x77);
}

#[test]
fn as_u32_keeps_the_low_bits() {
    let ptr = Pointer64::<()>::from(0x1_2345_6789u64);
    assert_eq!(ptr.as_u32(), 0x2345_6789);
}

#[test]
fn try_from_checks_the_range() {
    assert_eq!(u32::try_from(Pointer64::<()>::from(0xffff_ffffu64)), Ok(0xffff_ffff));
    assert_eq!(
        u32::try_from(Pointer64::<()>::from(0x1_0000_0000u64)),
        Err(Error::Bounds)
    );
}

#[test]
fn at_advances_by_element_size() {
    let array = Pointer64::<[u32]>::from(0x1000u64);
    assert_eq!(array.at(0).as_u64(), 0x1000);
    assert_eq!(array.at(3).as_u64(), 0x100c);
    assert_eq!(array.decay().as_u64(), 0x1000);
    let wide = Pointer64::<[u64]>::from(0x2000u64);
    assert_eq!(wide.at(0x10).as_u64(), 0x2080);
}

#[test]
fn arithmetic_wraps() {
    let array = Pointer64::<[u64]>::from(u64::MAX - 7);
    assert_eq!(array.at(1).as_u64(), 0);
    assert_eq!(array.at(2).as_u64(), 8);
    let ptr = Pointer64::<u32>::from(4u64);
    assert_eq!((ptr - 1).as_u64(), 0);
    assert_eq!((ptr - 2).as_u64(), u64::MAX - 3);
    assert_eq!((ptr + 2).as_u64(), 12);
}

#[test]
fn equality_and_order_follow_the_address() {
    let a = Pointer64::<u8>::from(1u64);
    let b = Pointer64::<u8>::from(2u64);
    assert!(a == a);
    assert!(a != b);
    assert!(a < b);
    assert!(b > a);
    assert!(a <= a);
    let c = a;
    assert_eq!(c.clone().as_u64(), 1);
}
