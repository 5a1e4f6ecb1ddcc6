use memflow::architecture::ArchitectureIdent;
use memflow::error::Error;
use memflow::plugins::args::Args;
use memflow::types::address::Address;
use memflow::win32::plugins::{
    build_caches, build_kernel, build_page_cache, build_vat, parse_address_arg, parse_arch,
    parse_page_cache, parse_page_cache_size, parse_symbol_store, parse_vat_cache, CachePlan,
    CacheSettings, SymbolStorePlan, Win32KernelBuilder,
};

#[test]
fn memcache_description_gives_both_caches() {
    let args = Args::parse("memcache=page:1000mb;500&vat:100;500");
    let os = build_kernel(&args, Some(7u8)).unwrap();
    assert_eq!(
        os.kernel.page_cache,
        CachePlan::Custom(CacheSettings { size: 0x1000 * 1024 * 1024, validity_ms: 500 })
    );
    assert_eq!(
        os.kernel.vat_cache,
        CachePlan::Custom(CacheSettings { size: 0x100, validity_ms: 500 })
    );
    assert_eq!(os.kernel.connector, 7);
    assert!(os.keyboard);
}

#[test]
fn memcache_without_semicolon_is_a_configuration_error() {
    let args = Args::parse("memcache=page:1000mb&vat:100;500");
    assert_eq!(build_kernel(&args, Some(0u8)).err(), Some(Error::Configuration));
    let args = Args::parse("memcache=page:1000mb;500&vat:100");
    assert_eq!(build_kernel(&args, Some(0u8)).err(), Some(Error::Configuration));
}

#[test]
fn missing_connector_is_a_configuration_error() {
    let args = Args::parse("");
    assert_eq!(build_kernel::<u8>(&args, None).err(), Some(Error::Configuration));
}

#[test]
fn default_and_none_caches() {
    let os = build_kernel(&Args::parse(""), Some(0u8)).unwrap();
    assert_eq!(os.kernel.page_cache, CachePlan::Default);
    assert_eq!(os.kernel.vat_cache, CachePlan::Default);
    let os = build_kernel(&Args::parse("memcache=default"), Some(0u8)).unwrap();
    assert_eq!(os.kernel.page_cache, CachePlan::Default);
    let os = build_kernel(&Args::parse("memcache=none"), Some(0u8)).unwrap();
    assert_eq!(os.kernel.page_cache, CachePlan::Disabled);
    assert_eq!(os.kernel.vat_cache, CachePlan::Disabled);
}

#[test]
fn cache_parts_are_optional() {
    let os = build_kernel(&Args::parse("memcache=page"), Some(0u8)).unwrap();
    assert_eq!(os.kernel.page_cache, CachePlan::Default);
    assert_eq!(os.kernel.vat_cache, CachePlan::Disabled);
    let os = build_kernel(&Args::parse("memcache=vat:10;20"), Some(0u8)).unwrap();
    assert_eq!(os.kernel.page_cache, CachePlan::Disabled);
    assert_eq!(
        os.kernel.vat_cache,
        CachePlan::Custom(CacheSettings { size: 0x10, validity_ms: 20 })
    );
}

#[test]
fn page_cache_size_units() {
    assert_eq!(parse_page_cache_size("1kb"), Some(1024));
    assert_eq!(parse_page_cache_size("1k"), Some(1024));
    assert_eq!(parse_page_cache_size("10mb"), Some(0x10 * 1024 * 1024));
    assert_eq!(parse_page_cache_size("a0m"), Some(0xa0 * 1024 * 1024));
    assert_eq!(parse_page_cache_size("2gb"), Some(2 * 1024 * 1024 * 1024));
    assert_eq!(parse_page_cache_size("1g"), Some(1024 * 1024 * 1024));
    assert_eq!(parse_page_cache_size("bkb"), Some(0xb * 1024));
    assert_eq!(parse_page_cache_size("1Fk"), Some(0x1f * 1024));
    assert_eq!(parse_page_cache_size("+1Fk"), Some(0x1f * 1024));
    assert_eq!(parse_page_cache_size("0000000000000000000001k"), Some(1024));
}

#[test]
fn page_cache_size_rejects_malformed_text() {
    assert_eq!(parse_page_cache_size(""), None);
    assert_eq!(parse_page_cache_size("1000"), None);
    assert_eq!(parse_page_cache_size("ab"), None);
    assert_eq!(parse_page_cache_size("kb"), None);
    assert_eq!(parse_page_cache_size("1MB"), None);
    assert_eq!(parse_page_cache_size("1Kb"), None);
    assert_eq!(parse_page_cache_size("xk"), None);
    // exactly one unit, and digits alone before it
    assert_eq!(parse_page_cache_size("1kk"), None);
    assert_eq!(parse_page_cache_size("1kbkb"), None);
    assert_eq!(parse_page_cache_size("1mk"), None);
    assert_eq!(parse_page_cache_size("+k"), None);
    assert_eq!(parse_page_cache_size("-1k"), None);
    assert_eq!(parse_page_cache_size("k"), None);
    assert_eq!(parse_page_cache_size("-1k"), None);
    assert_eq!(parse_page_cache_size("ffffffffffffffffffffg"), None);
}

#[test]
fn page_cache_plan_from_description() {
    assert_eq!(parse_page_cache("vat:1;2"), Ok(None));
    assert_eq!(parse_page_cache("page"), Ok(Some(CachePlan::Default)));
    assert_eq!(
        parse_page_cache("vat:1;2&page:4k;30"),
        Ok(Some(CachePlan::Custom(CacheSettings { size: 0x4000 / 4, validity_ms: 30 })))
    );
    assert_eq!(
        parse_page_cache("page:4k;30:ignored"),
        Ok(Some(CachePlan::Custom(CacheSettings { size: 0x1000, validity_ms: 30 })))
    );
    assert_eq!(parse_page_cache("page:4k"), Err(Error::Configuration));
    assert_eq!(parse_page_cache("page:4;30"), Err(Error::Configuration));
    assert_eq!(parse_page_cache("page:4k;3x"), Err(Error::Configuration));
    assert_eq!(parse_page_cache("page:1kk;500"), Err(Error::Configuration));
    assert_eq!(
        parse_page_cache("page:+4k;+30"),
        Ok(Some(CachePlan::Custom(CacheSettings { size: 0x1000, validity_ms: 30 })))
    );
    assert_eq!(parse_page_cache("page:4k;-30"), Err(Error::Configuration));
    assert_eq!(parse_page_cache("page:4k;"), Err(Error::Configuration));
}

#[test]
fn vat_cache_plan_from_description() {
    assert_eq!(parse_vat_cache("page:1k;2"), Ok(None));
    assert_eq!(parse_vat_cache("vat"), Ok(Some(CachePlan::Default)));
    assert_eq!(
        parse_vat_cache("page:1k;2&vat:ff;1000"),
        Ok(Some(CachePlan::Custom(CacheSettings { size: 0xff, validity_ms: 1000 })))
    );
    assert_eq!(parse_vat_cache("vat:100"), Err(Error::Configuration));
    assert_eq!(parse_vat_cache("vat:1g;5"), Err(Error::Configuration));
    assert_eq!(parse_vat_cache("vat:;5"), Err(Error::Configuration));
}

#[test]
fn vat_error_comes_before_page_cache() {
    let builder = Win32KernelBuilder::new(0u8);
    let args = Args::new();
    assert_eq!(
        build_vat(builder, "vat:zz;1&page:1k;1", &args).err(),
        Some(Error::Configuration)
    );
    let builder = Win32KernelBuilder::new(0u8);
    let os = build_page_cache(builder, "vat:zz;1&page:1k;1", &args).unwrap();
    assert_eq!(
        os.kernel.page_cache,
        CachePlan::Custom(CacheSettings { size: 1024, validity_ms: 1 })
    );
    let builder = Win32KernelBuilder::new(0u8);
    let os = build_caches(builder, &Args::parse("memcache=none")).unwrap();
    assert_eq!(os.kernel.vat_cache, CachePlan::Disabled);
}

#[test]
fn dtb_and_kernel_hint_are_hexadecimal() {
    let os = build_kernel(&Args::parse("dtb=1aa000,kernel_hint=fffff80000000000"), Some(0u8))
        .unwrap();
    assert_eq!(os.kernel.dtb, Some(Address(0x1aa000)));
    assert_eq!(os.kernel.kernel_hint, Some(Address(0xfffff80000000000)));
    let os = build_kernel(&Args::parse("arch=x64"), Some(0u8)).unwrap();
    assert_eq!(os.kernel.dtb, None);
    assert_eq!(os.kernel.kernel_hint, None);
    let os = build_kernel(&Args::parse("dtb=+1000"), Some(0u8)).unwrap();
    assert_eq!(os.kernel.dtb, Some(Address(0x1000)));
    for text in ["dtb=xyz", "dtb=", "dtb=+", "dtb=10000000000000000", "kernel_hint=", "kernel_hint=0x10"] {
        assert_eq!(build_kernel(&Args::parse(text), Some(0u8)).err(), Some(Error::Configuration));
    }
}

#[test]
fn arch_and_symstore() {
    let os = build_kernel(&Args::parse("arch=x64,symstore=uncached"), Some(0u8)).unwrap();
    assert_eq!(os.kernel.arch, Some(ArchitectureIdent::X86(64, false)));
    assert_eq!(os.kernel.symbol_store, SymbolStorePlan::Uncached);
    let os = build_kernel(&Args::parse("arch=X32,symstore=none"), Some(0u8)).unwrap();
    assert_eq!(os.kernel.arch, Some(ArchitectureIdent::X86(32, false)));
    assert_eq!(os.kernel.symbol_store, SymbolStorePlan::Disabled);
    let os = build_kernel(&Args::parse("arch=x32_pae"), Some(0u8)).unwrap();
    assert_eq!(os.kernel.arch, Some(ArchitectureIdent::X86(32, true)));
    assert_eq!(os.kernel.symbol_store, SymbolStorePlan::Default);
    let os = build_kernel(&Args::parse("arch=AArch64"), Some(0u8)).unwrap();
    assert_eq!(os.kernel.arch, Some(ArchitectureIdent::AArch64(0x1000)));
    let os = build_kernel(&Args::parse("dtb=1000"), Some(0u8)).unwrap();
    assert_eq!(os.kernel.arch, None);
    assert_eq!(os.kernel.symbol_store, SymbolStorePlan::Default);
}

#[test]
fn unknown_values_are_configuration_errors() {
    for text in [
        "arch=mips",
        "arch=",
        "arch=x64 ",
        "symstore=Uncached",
        "symstore=cached",
        "symstore=",
        "memcache=foo",
        "memcache=",
        "memcache=page:1kk;500",
        "memcache=page:1000mb;500&vat:100;500,arch=arm",
    ] {
        assert_eq!(build_kernel(&Args::parse(text), Some(0u8)).err(), Some(Error::Configuration));
    }
    assert_eq!(parse_arch(Some("X64")), Ok(Some(ArchitectureIdent::X86(64, false))));
    assert_eq!(parse_arch(Some("mips")), Err(Error::Configuration));
    assert_eq!(parse_arch(None), Ok(None));
    assert_eq!(parse_symbol_store(Some("uncached")), Ok(Some(SymbolStorePlan::Uncached)));
    assert_eq!(parse_symbol_store(Some("none")), Ok(Some(SymbolStorePlan::Disabled)));
    assert_eq!(parse_symbol_store(Some("off")), Err(Error::Configuration));
    assert_eq!(parse_symbol_store(None), Ok(None));
    assert_eq!(parse_address_arg(Some("1f")), Ok(Some(Address(0x1f))));
    assert_eq!(parse_address_arg(Some("1g")), Err(Error::Configuration));
    assert_eq!(parse_address_arg(None), Ok(None));
}

#[test]
fn args_keep_the_later_value() {
    let args = Args::parse("a=1,b=2,a=3,junk,c=4=5,=x");
    assert_eq!(args.get("a"), Some("3"));
    assert_eq!(args.get("b"), Some("2"));
    assert_eq!(args.get("c"), None);
    assert_eq!(args.get("junk"), None);
    assert_eq!(args.get(""), Some("x"));
    let args = args.insert("b", "9");
    assert_eq!(args.get("b"), Some("9"));
    assert_eq!(Args::new().get("a"), None);
}
