use memflow::connector::plugin::{
    Connector, ConnectorDescriptor, ConnectorInventory, DirectoryScan, EntryProbe, LibraryProbe,
    MEMFLOW_CONNECTOR_VERSION,
};
use memflow::error::Error;
use memflow::mem::dummy::DummyMemory;
use memflow::mem::phys::PhysicalMemory;
use memflow::plugins::args::Args;
use std::sync::Arc;

type Factory = fn(&Args) -> Result<DummyMemory, Error>;

fn make(args: &Args) -> Result<DummyMemory, Error> {
    match args.get("size") {
        Some(text) => match text.parse::<usize>() {
            Ok(size) => Ok(DummyMemory::new(size)),
            Err(_) => Err(Error::Configuration),
        },
        None => Ok(DummyMemory::new(16)),
    }
}

fn fail(_args: &Args) -> Result<DummyMemory, Error> {
    Err(Error::IO("the plugin's own words"))
}

fn probe(name: &str, version: i32, factory: Factory, library: &Arc<u32>) -> LibraryProbe<u32, Factory> {
    LibraryProbe::Descriptor(
        library.clone(),
        ConnectorDescriptor { connector_version: version, name: name.to_string(), factory },
    )
}

#[test]
fn version_zero_is_rejected() {
    let lib = Arc::new(1u32);
    let r = Connector::try_with(probe("dummy", 0, make, &lib));
    assert_eq!(r.err(), Some(Error::Connector("connector version mismatch")));
    let r = Connector::try_with(probe("dummy", 2, make, &lib));
    assert_eq!(r.err(), Some(Error::Connector("connector version mismatch")));
}

#[test]
fn version_one_is_accepted() {
    assert_eq!(MEMFLOW_CONNECTOR_VERSION, 1);
    let lib = Arc::new(1u32);
    let connector = Connector::try_with(probe("dummy", 1, make, &lib)).ok().unwrap();
    assert_eq!(connector.name, "dummy");
    let instance = connector.create(&Args::parse("size=64")).ok().unwrap();
    assert_eq!(instance.connector.metadata().size, 64);
    // an instance stands for the provider it holds
    let mut instance = instance;
    assert_eq!(instance.metadata().size, 64);
    assert_eq!(instance.write_raw(memflow::types::address::Address(0), &vec![7]), Ok(()));
    assert_eq!(instance.as_bytes()[0], 7);
}

#[test]
fn files_that_are_no_plugins_are_rejected() {
    let r = Connector::<u32, Factory>::try_with(LibraryProbe::NotLoaded);
    assert_eq!(r.err(), Some(Error::Connector("unable to load library")));
    let r = Connector::<u32, Factory>::try_with(LibraryProbe::NoDescriptor);
    assert_eq!(r.err(), Some(Error::Connector("connector descriptor not found")));
}

#[test]
fn instance_holds_a_share_of_the_library() {
    let lib = Arc::new(1u32);
    let connector = Connector::try_with(probe("dummy", 1, make, &lib)).ok().unwrap();
    assert_eq!(Arc::strong_count(&lib), 2);
    let a = connector.create(&Args::new()).ok().unwrap();
    let b = connector.create(&Args::new()).ok().unwrap();
    assert_eq!(Arc::strong_count(&lib), 4);
    assert!(Arc::ptr_eq(&a.library, &lib));
    drop(connector);
    assert_eq!(Arc::strong_count(&lib), 3);
    drop(a);
    drop(b);
    assert_eq!(Arc::strong_count(&lib), 1);
}

#[test]
fn plugin_errors_are_rewritten() {
    let lib = Arc::new(1u32);
    let connector = Connector::try_with(probe("broken", 1, fail, &lib)).ok().unwrap();
    let r = connector.create(&Args::new());
    assert_eq!(r.err(), Some(Error::Connector("Failed to create a connector")));
    assert_eq!(Arc::strong_count(&lib), 2);
    let r = connector.instantiate::<DummyMemory>(Err(Error::OutOfBounds));
    assert_eq!(r.err(), Some(Error::Connector("Failed to create a connector")));
}

#[test]
fn empty_directory_gives_an_empty_inventory() {
    let inventory =
        ConnectorInventory::<u32, Factory>::with_path(DirectoryScan::Entries(vec![])).ok().unwrap();
    assert_eq!(inventory.connectors.len(), 0);
    let r = inventory.create_connector::<DummyMemory>("dummy", &Args::new());
    assert_eq!(r.err(), Some(Error::Connector("connector not found")));
}

#[test]
fn bad_paths_are_io_errors() {
    let r = ConnectorInventory::<u32, Factory>::with_path(DirectoryScan::NotADirectory);
    assert_eq!(r.err(), Some(Error::IO("invalid path argument")));
    let r = ConnectorInventory::<u32, Factory>::with_path(DirectoryScan::Unreadable);
    assert_eq!(r.err(), Some(Error::IO("unable to read directory")));
    let lib = Arc::new(1u32);
    let r = ConnectorInventory::with_path(DirectoryScan::Entries(vec![
        EntryProbe::File(probe("dummy", 1, make, &lib)),
        EntryProbe::Unreadable,
    ]));
    assert_eq!(r.err(), Some(Error::IO("unable to read directory entry")));
}

#[test]
fn one_bad_library_does_not_fail_the_inventory() {
    let lib = Arc::new(1u32);
    let inventory = ConnectorInventory::with_path(DirectoryScan::Entries(vec![
        EntryProbe::File(LibraryProbe::NotLoaded),
        EntryProbe::File(probe("old", 0, make, &lib)),
        EntryProbe::File(probe("dummy", 1, make, &lib)),
        EntryProbe::File(LibraryProbe::NoDescriptor),
        EntryProbe::File(probe("broken", 1, fail, &lib)),
        EntryProbe::File(probe("dummy", 1, fail, &lib)),
    ]))
    .ok()
    .unwrap();
    let names: Vec<&str> = inventory.connectors.iter().map(|c| c.name.as_str()).collect();
    assert_eq!(names, vec!["dummy", "broken", "dummy"]);
    // the first connector of a name is the one that is used
    let instance = inventory.create_connector("dummy", &Args::parse("size=32")).ok().unwrap();
    assert_eq!(instance.connector.metadata().size, 32);
    let instance = inventory.create_connector_default("dummy").ok().unwrap();
    assert_eq!(instance.connector.metadata().size, 16);
    assert_eq!(
        inventory.create_connector("broken", &Args::new()).err(),
        Some(Error::Connector("Failed to create a connector"))
    );
    assert_eq!(
        inventory.create_connector("old", &Args::new()).err(),
        Some(Error::Connector("connector not found"))
    );
    assert!(inventory.find("broken").is_some());
    assert!(inventory.find("nothing").is_none());
}

#[test]
fn search_path_collects_what_can_be_read() {
    let lib = Arc::new(1u32);
    let r = ConnectorInventory::<u32, Factory>::try_new(None);
    assert_eq!(r.err(), Some(Error::Other("PATH is not set")));
    let inventory = ConnectorInventory::try_new(Some(vec![
        DirectoryScan::NotADirectory,
        DirectoryScan::Entries(vec![
            EntryProbe::File(probe("first", 1, make, &lib)),
            EntryProbe::Unreadable,
            EntryProbe::File(probe("lost", 1, make, &lib)),
        ]),
        DirectoryScan::Unreadable,
        DirectoryScan::Entries(vec![EntryProbe::File(probe("second", 1, make, &lib))]),
    ]))
    .ok()
    .unwrap();
    let names: Vec<&str> = inventory.connectors.iter().map(|c| c.name.as_str()).collect();
    assert_eq!(names, vec!["first", "second"]);
    let mut inventory = inventory;
    assert_eq!(inventory.add_dir(DirectoryScan::Entries(vec![])), Ok(()));
    assert_eq!(inventory.add_dir(DirectoryScan::NotADirectory), Err(Error::IO("invalid path argument")));
    assert_eq!(inventory.connectors.len(), 2);
}
