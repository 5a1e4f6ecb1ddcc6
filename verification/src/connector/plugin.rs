//! The inventory of connector plugins.
//!
//! Opening a shared library and reading its descriptor is the caller's part;
//! what came of it is handed in as a probe. This module decides which
//! libraries are accepted, finds a connector by name, runs its factory and
//! ties every instance to the library it came from.

use crate::error::{Error, Result};
use crate::mem::mem_map::MemoryMap;
use crate::mem::phys::{
    MapView, PhysicalMemory, PhysicalMemoryMetadata, PhysicalReadData, PhysicalWriteData,
};
use crate::plugins::args::Args;
use std::sync::Arc;
use vstd::prelude::*;
use vstd::string::*;

verus! {

/// The plugin interface version that this library speaks.
pub const MEMFLOW_CONNECTOR_VERSION: i32 = 1;

/// What a connector plugin exports.
pub struct ConnectorDescriptor<F> {
    /// The interface version the plugin was built for. A plugin whose
    /// version differs from `MEMFLOW_CONNECTOR_VERSION` is refused.
    pub connector_version: i32,
    /// The name under which the inventory lists the plugin.
    pub name: String,
    /// Makes a new connector instance from arguments.
    pub factory: F,
}

/// What came of opening one file as a plugin library.
pub enum LibraryProbe<L, F> {
    /// The file is no loadable library.
    NotLoaded,
    /// The library exports no connector descriptor.
    NoDescriptor,
    /// A handle on the loaded library and the descriptor it exports.
    Descriptor(Arc<L>, ConnectorDescriptor<F>),
}

/// What came of reading one directory entry.
pub enum EntryProbe<L, F> {
    /// The entry could not be read.
    Unreadable,
    /// The entry names a file, probed as a library.
    File(LibraryProbe<L, F>),
}

/// What came of listing one directory.
pub enum DirectoryScan<L, F> {
    /// The path names no directory.
    NotADirectory,
    /// The directory could not be listed.
    Unreadable,
    /// The entries in the order listed.
    Entries(Vec<EntryProbe<L, F>>),
}

/// A loaded plugin library that exports a connector of the right version.
pub struct Connector<L, F> {
    pub library: Arc<L>,
    pub name: String,
    pub factory: F,
}

/// A provider made by a connector, together with a share in the library that
/// holds its code: the library stays loaded for as long as the instance
/// lives.
pub struct ConnectorInstance<M, L> {
    pub connector: M,
    pub library: Arc<L>,
}

impl<M, L> core::ops::Deref for ConnectorInstance<M, L> {
    type Target = M;

    fn deref(&self) -> (r: &M)
        ensures
            *r == self.connector,
    {
        &self.connector
    }
}

impl<M, L> core::ops::DerefMut for ConnectorInstance<M, L> {
    fn deref_mut(&mut self) -> (r: &mut M)
        ensures
            *r == old(self).connector,
            final(self).connector == *final(r),
            final(self).library == old(self).library,
    {
        &mut self.connector
    }
}

/// An instance is the provider it holds: every call goes to that provider.
impl<M: PhysicalMemory, L> PhysicalMemory for ConnectorInstance<M, L> {
    open spec fn device(&self) -> Seq<u8> {
        self.connector.device()
    }

    open spec fn mem_map(&self) -> MapView {
        self.connector.mem_map()
    }

    open spec fn dependable(&self) -> bool {
        self.connector.dependable()
    }

    open spec fn inv(&self) -> bool {
        self.connector.inv()
    }

    fn phys_read_raw_list(&mut self, batch: &Vec<PhysicalReadData>) -> (out: Vec<Result<Vec<u8>>>) {
        self.connector.phys_read_raw_list(batch)
    }

    fn phys_write_raw_list(&mut self, batch: &Vec<PhysicalWriteData>) -> (out: Vec<Result<()>>) {
        self.connector.phys_write_raw_list(batch)
    }

    fn metadata(&self) -> (m: PhysicalMemoryMetadata) {
        self.connector.metadata()
    }

    fn has_mem_map(&self) -> (installed: bool) {
        self.connector.has_mem_map()
    }

    fn set_mem_map(&mut self, map: MemoryMap) {
        self.connector.set_mem_map(map)
    }
}

/// Another handle on the same library.
///
/// Wraps `Arc::clone`, which makes a new pointer to the allocation that
/// `library` points to and raises its strong count by one: the value
/// pointed to is the same.
#[verifier::external_body]
fn share_library<L>(library: &Arc<L>) -> (shared: Arc<L>)
    ensures
        shared == *library,
{
    Arc::clone(library)
}

/// The connector that a probe yields, or the reason why it yields none.
pub open spec fn spec_try_with<L, F>(probe: LibraryProbe<L, F>) -> Result<Connector<L, F>> {
    match probe {
        LibraryProbe::NotLoaded => Err(Error::Connector("unable to load library")),
        LibraryProbe::NoDescriptor => Err(Error::Connector("connector descriptor not found")),
        LibraryProbe::Descriptor(library, descriptor) => if descriptor.connector_version
            != MEMFLOW_CONNECTOR_VERSION {
            Err(Error::Connector("connector version mismatch"))
        } else {
            Ok(Connector { library, name: descriptor.name, factory: descriptor.factory })
        },
    }
}

/// A library that exports a descriptor is accepted exactly when the
/// descriptor names this interface version.
pub proof fn lemma_version_gate<L, F>(library: Arc<L>, descriptor: ConnectorDescriptor<F>)
    ensures
        spec_try_with(LibraryProbe::Descriptor(library, descriptor)).is_ok() <==> descriptor.connector_version
            == MEMFLOW_CONNECTOR_VERSION,
        descriptor.connector_version != MEMFLOW_CONNECTOR_VERSION ==> spec_try_with(
            LibraryProbe::Descriptor(library, descriptor),
        ) == Err::<Connector<L, F>, Error>(Error::Connector("connector version mismatch")),
{
}

impl<L, F> Connector<L, F> {
    /// Accepts a probed library as a connector. The library must have
    /// loaded, export a descriptor, and speak this interface version.
    pub fn try_with(probe: LibraryProbe<L, F>) -> (r: Result<Connector<L, F>>)
        ensures
            r == spec_try_with(probe),
    {
        match probe {
            LibraryProbe::NotLoaded => Err(Error::Connector("unable to load library")),
            LibraryProbe::NoDescriptor => Err(Error::Connector("connector descriptor not found")),
            LibraryProbe::Descriptor(library, descriptor) => {
                if descriptor.connector_version != MEMFLOW_CONNECTOR_VERSION {
                    return Err(Error::Connector("connector version mismatch"));
                }
                Ok(
                    Connector {
                        library,
                        name: descriptor.name,
                        factory: descriptor.factory,
                    },
                )
            },
        }
    }

    /// What `create` makes of what the factory returned: the provider tied
    /// to this connector's library, or a connector error that carries
    /// nothing of the plugin's own error.
    pub open spec fn instance_of<M>(self, produced: Result<M>) -> Result<ConnectorInstance<M, L>> {
        match produced {
            Ok(connector) => Ok(ConnectorInstance { connector, library: self.library }),
            Err(_) => Err(Error::Connector("Failed to create a connector")),
        }
    }

    /// Ties what the factory returned to this connector's library.
    pub fn instantiate<M>(&self, produced: Result<M>) -> (r: Result<ConnectorInstance<M, L>>)
        ensures
            r == self.instance_of(produced),
    {
        match produced {
            Ok(connector) => Ok(
                ConnectorInstance { connector, library: share_library(&self.library) },
            ),
            Err(_) => Err(Error::Connector("Failed to create a connector")),
        }
    }

    /// Makes a new instance: runs the factory on `args` and ties what it
    /// returns to this connector's library.
    pub fn create<M>(&self, args: &Args) -> (r: Result<ConnectorInstance<M, L>>) where
        F: Fn(&Args) -> Result<M>,

        requires
            call_requires(self.factory, (args,)),
        ensures
            exists|produced: Result<M>|
                call_ensures(self.factory, (args,), produced) && r == self.instance_of(produced),
    {
        let produced = (self.factory)(args);
        self.instantiate(produced)
    }
}

/// The connectors that a probe adds to an inventory: the one it yields, if
/// it yields one.
pub open spec fn connectors_of<L, F>(probe: LibraryProbe<L, F>) -> Seq<Connector<L, F>> {
    match spec_try_with(probe) {
        Ok(connector) => seq![connector],
        Err(_) => Seq::empty(),
    }
}

/// The connectors that the entries of a directory add to an inventory, in
/// the order listed. Files that yield no connector are passed over; the
/// first unreadable entry ends the listing.
pub open spec fn accepted_connectors<L, F>(entries: Seq<EntryProbe<L, F>>) -> Seq<Connector<L, F>>
    decreases entries.len(),
{
    if entries.len() == 0 {
        Seq::empty()
    } else {
        match entries[0] {
            EntryProbe::Unreadable => Seq::empty(),
            EntryProbe::File(probe) => connectors_of(probe) + accepted_connectors(
                entries.drop_first(),
            ),
        }
    }
}

/// Whether every entry could be read.
pub open spec fn all_readable<L, F>(entries: Seq<EntryProbe<L, F>>) -> bool {
    forall|i: int| 0 <= i < entries.len() ==> #[trigger] entries[i] is File
}

/// The connectors that a scanned directory adds to an inventory.
pub open spec fn scan_connectors<L, F>(scan: DirectoryScan<L, F>) -> Seq<Connector<L, F>> {
    match scan {
        DirectoryScan::Entries(entries) => accepted_connectors(entries@),
        _ => Seq::empty(),
    }
}

/// How adding a scanned directory ends.
pub open spec fn scan_result<L, F>(scan: DirectoryScan<L, F>) -> Result<()> {
    match scan {
        DirectoryScan::NotADirectory => Err(Error::IO("invalid path argument")),
        DirectoryScan::Unreadable => Err(Error::IO("unable to read directory")),
        DirectoryScan::Entries(entries) => if all_readable(entries@) {
            Ok(())
        } else {
            Err(Error::IO("unable to read directory entry"))
        },
    }
}

/// The connectors that the directories of a search path add to an
/// inventory, directory after directory.
pub open spec fn path_connectors<L, F>(scans: Seq<DirectoryScan<L, F>>) -> Seq<Connector<L, F>>
    decreases scans.len(),
{
    if scans.len() == 0 {
        Seq::empty()
    } else {
        scan_connectors(scans[0]) + path_connectors(scans.drop_first())
    }
}

/// The position of the first of `connectors` that is called `name`.
pub open spec fn position_of<L, F>(connectors: Seq<Connector<L, F>>, name: Seq<char>) -> Option<
    int,
>
    decreases connectors.len(),
{
    if connectors.len() == 0 {
        None
    } else if connectors[0].name@ == name {
        Some(0)
    } else {
        match position_of(connectors.drop_first(), name) {
            Some(i) => Some(i + 1),
            None => None,
        }
    }
}

/// `position_of` gives the least position whose connector has the name, and
/// nothing exactly when no connector has it.
pub proof fn lemma_position_of<L, F>(connectors: Seq<Connector<L, F>>, name: Seq<char>)
    ensures
        match position_of(connectors, name) {
            Some(i) => {
                &&& 0 <= i < connectors.len()
                &&& connectors[i].name@ == name
                &&& forall|j: int| 0 <= j < i ==> connectors[j].name@ != name
            },
            None => forall|j: int| 0 <= j < connectors.len() ==> connectors[j].name@ != name,
        },
    decreases connectors.len(),
{
    if connectors.len() > 0 && connectors[0].name@ != name {
        let rest = connectors.drop_first();
        lemma_position_of(rest, name);
        match position_of(rest, name) {
            Some(i) => {
                assert forall|j: int| 0 <= j < i + 1 implies connectors[j].name@ != name by {
                    if j > 0 {
                        assert(connectors[j] == rest[j - 1]);
                    }
                }
            },
            None => {
                assert forall|j: int| 0 <= j < connectors.len() implies connectors[j].name@
                    != name by {
                    if j > 0 {
                        assert(connectors[j] == rest[j - 1]);
                    }
                }
            },
        }
    }
}

/// The connectors that were found, in the order found.
pub struct ConnectorInventory<L, F> {
    pub connectors: Vec<Connector<L, F>>,
}

impl<L, F> View for ConnectorInventory<L, F> {
    type V = Seq<Connector<L, F>>;

    open spec fn view(&self) -> Seq<Connector<L, F>> {
        self.connectors@
    }
}

impl<L, F> ConnectorInventory<L, F> {
    /// The inventory of the connectors in one scanned directory. Fails where
    /// the path is no directory, or the directory or one of its entries
    /// could not be read.
    pub fn with_path(scan: DirectoryScan<L, F>) -> (r: Result<Self>)
        ensures
            r.is_ok() == scan_result(scan).is_ok(),
            r matches Ok(inventory) ==> inventory@ == scan_connectors(scan),
            r matches Err(e) ==> scan_result(scan) == Err::<(), Error>(e),
    {
        let mut ret = ConnectorInventory { connectors: Vec::new() };
        match ret.add_dir(scan) {
            Ok(()) => Ok(ret),
            Err(e) => Err(e),
        }
    }

    /// The inventory of the connectors in the scanned directories of a
    /// search path. Directories that could not be read add what was found in
    /// them before the failure. Fails only where there is no search path.
    pub fn try_new(path: Option<Vec<DirectoryScan<L, F>>>) -> (r: Result<Self>)
        ensures
            match path {
                Some(scans) => r matches Ok(inventory) && inventory@ == path_connectors(scans@),
                None => r matches Err(e) && e == Error::Other("PATH is not set"),
            },
    {
        match path {
            Some(scans) => {
                let mut ret = ConnectorInventory { connectors: Vec::new() };
                let ghost all = scans@;
                let mut scans = scans;
                while scans.len() > 0
                    invariant
                        ret@ + path_connectors(scans@) == path_connectors(all),
                    decreases scans.len(),
                {
                    let ghost before = ret@;
                    let ghost rest = scans@;
                    let scan = scans.remove(0);
                    assert(scans@ =~= rest.drop_first());
                    let _ = ret.add_dir(scan);
                    assert(ret@ + path_connectors(scans@) =~= before + path_connectors(rest));
                }
                assert(ret@ =~= path_connectors(all));
                Ok(ret)
            },
            None => Err(Error::Other("PATH is not set")),
        }
    }

    /// Adds the connectors of one scanned directory. On failure the
    /// connectors found before the unreadable entry stay in the inventory.
    pub fn add_dir(&mut self, scan: DirectoryScan<L, F>) -> (r: Result<()>)
        ensures
            r == scan_result(scan),
            final(self)@ == old(self)@ + scan_connectors(scan),
    {
        let mut entries = match scan {
            DirectoryScan::NotADirectory => {
                assert(self@ =~= old(self)@ + scan_connectors(scan));
                return Err(Error::IO("invalid path argument"));
            },
            DirectoryScan::Unreadable => {
                assert(self@ =~= old(self)@ + scan_connectors(scan));
                return Err(Error::IO("unable to read directory"));
            },
            DirectoryScan::Entries(entries) => entries,
        };
        let ghost all = entries@;
        let ghost mut done: int = 0;
        assert(entries@ =~= all.subrange(0, all.len() as int));
        while entries.len() > 0
            invariant
                0 <= done <= all.len(),
                scan matches DirectoryScan::Entries(listed) && listed@ == all,
                entries@ == all.subrange(done, all.len() as int),
                forall|i: int| 0 <= i < done ==> #[trigger] all[i] is File,
                self@ + accepted_connectors(entries@) == old(self)@ + accepted_connectors(all),
            decreases entries.len(),
        {
            let ghost before = self@;
            let ghost rest = entries@;
            let entry = entries.remove(0);
            assert(entries@ =~= rest.drop_first());
            assert(entry == all[done]);
            match entry {
                EntryProbe::Unreadable => {
                    assert(self@ =~= old(self)@ + accepted_connectors(all));
                    return Err(Error::IO("unable to read directory entry"));
                },
                EntryProbe::File(probe) => {
                    if let Ok(connector) = Connector::try_with(probe) {
                        self.connectors.push(connector);
                    }
                    assert(self@ =~= before + connectors_of(probe));
                },
            }
            proof {
                assert(entries@ =~= all.subrange(done + 1, all.len() as int));
                assert(self@ + accepted_connectors(entries@) =~= before + accepted_connectors(
                    rest,
                ));
                done = done + 1;
            }
        }
        assert(self@ =~= old(self)@ + accepted_connectors(all));
        Ok(())
    }

    /// The first connector called `name`.
    pub fn find(&self, name: &str) -> (r: Option<&Connector<L, F>>)
        ensures
            match position_of(self@, name@) {
                Some(i) => r == Some(&self@[i]),
                None => r.is_none(),
            },
    {
        let wanted = name.to_owned();
        let mut i: usize = 0;
        assert(self@.subrange(0, self@.len() as int) =~= self@);
        while i < self.connectors.len()
            invariant
                i <= self.connectors.len(),
                wanted@ == name@,
                match position_of(self@.subrange(i as int, self@.len() as int), name@) {
                    Some(k) => position_of(self@, name@) == Some(k + i),
                    None => position_of(self@, name@).is_none(),
                },
            decreases self.connectors.len() - i,
        {
            let ghost suffix = self@.subrange(i as int, self@.len() as int);
            assert(suffix[0] == self@[i as int]);
            assert(suffix.drop_first() =~= self@.subrange(i + 1, self@.len() as int));
            if self.connectors[i].name == wanted {
                return Some(&self.connectors[i]);
            }
            i += 1;
        }
        None
    }

    /// Makes a new instance of the first connector called `name`, with the
    /// given arguments. Fails where no connector has that name, or where its
    /// factory fails.
    pub fn create_connector<M>(&self, name: &str, args: &Args) -> (r: Result<
        ConnectorInstance<M, L>,
    >) where F: Fn(&Args) -> Result<M>
        requires
            position_of(self@, name@) matches Some(i) ==> call_requires(
                self@[i].factory,
                (args,),
            ),
        ensures
            match position_of(self@, name@) {
                Some(i) => exists|produced: Result<M>|
                    call_ensures(self@[i].factory, (args,), produced) && r == self@[i].instance_of(
                        produced,
                    ),
                None => r matches Err(e) && e == Error::Connector("connector not found"),
            },
    {
        proof {
            lemma_position_of(self@, name@);
        }
        match self.find(name) {
            Some(connector) => connector.create(args),
            None => Err(Error::Connector("connector not found")),
        }
    }

    /// As `create_connector`, with no arguments.
    pub fn create_connector_default<M>(&self, name: &str) -> (r: Result<
        ConnectorInstance<M, L>,
    >) where F: Fn(&Args) -> Result<M>
        requires
            position_of(self@, name@) matches Some(i) ==> forall|args: &Args|
                args@.len() == 0 ==> #[trigger] call_requires(self@[i].factory, (args,)),
        ensures
            match position_of(self@, name@) {
                Some(i) => exists|produced: Result<M>, args: &Args|
                    args@.len() == 0 && call_ensures(self@[i].factory, (args,), produced) && r
                        == self@[i].instance_of(produced),
                None => r matches Err(e) && e == Error::Connector("connector not found"),
            },
    {
        let args = Args::new();
        self.create_connector(name, &args)
    }
}

} // verus!
