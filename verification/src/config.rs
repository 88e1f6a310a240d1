//! What a peer shares and what it mirrors.
//!
//! A module is a named directory tree. A peer is authoritative for the
//! modules it shares, and keeps a copy of the modules it syncs from other
//! peers. Within each of the two kinds a name occurs once; a share and a
//! sync may bear the same name, and a peer that is asked for a name serves
//! the share first.

use crate::path::{chars_of, same_text};
use vstd::string::*;
use vstd::prelude::*;

verus! {

/// The port on which a peer listens unless told otherwise.
pub const DEFAULT_PORT: u16 = 6007;

/// A directory that this peer serves to others.
#[derive(Debug)]
pub struct RootShare {
    /// Where the module lies on disk.
    pub path: String,
}

/// A module that this peer mirrors from the peer at `ip`:`port` into
/// `path`.
#[derive(Debug)]
pub struct RootSync {
    pub ip: String,
    pub port: u16,
    /// Where the copy lies on disk.
    pub path: String,
}

/// A module of either kind.
#[derive(Debug)]
pub enum Root {
    Share(RootShare),
    Sync(RootSync),
}

impl Clone for RootShare {
    fn clone(&self) -> (res: Self)
        ensures
            res.path@ == self.path@,
    {
        RootShare { path: self.path.clone() }
    }
}

impl Clone for RootSync {
    fn clone(&self) -> (res: Self)
        ensures
            res.ip@ == self.ip@,
            res.port == self.port,
            res.path@ == self.path@,
    {
        RootSync { ip: self.ip.clone(), port: self.port, path: self.path.clone() }
    }
}

impl Root {
    /// Where the module lies on disk.
    pub open spec fn spec_path(&self) -> Seq<char> {
        match self {
            Root::Share(share) => share.path@,
            Root::Sync(sync) => sync.path@,
        }
    }

    /// Where the module lies on disk.
    pub fn path(&self) -> (res: &String)
        ensures
            res@ == self.spec_path(),
    {
        match self {
            Root::Share(share) => &share.path,
            Root::Sync(sync) => &sync.path,
        }
    }
}

/// The first index at which `name` stands in `names`, if it stands there.
pub open spec fn index_of(names: Seq<String>, name: Seq<char>) -> Option<int> {
    if exists|i: int| 0 <= i < names.len() && names[i]@ == name {
        Some(choose|i: int| 0 <= i < names.len() && names[i]@ == name)
    } else {
        None
    }
}

/// Whether no two of `names` are the same text.
pub open spec fn distinct(names: Seq<String>) -> bool {
    forall|i: int, j: int|
        0 <= i < names.len() && 0 <= j < names.len() && i != j ==> names[i]@ != names[j]@
}

/// Modules of one kind, each under its name.
#[derive(Debug)]
pub struct Modules<V> {
    names: Vec<String>,
    values: Vec<V>,
}

impl<V> Modules<V> {
    /// The names, in the order in which they were first inserted.
    pub closed spec fn names(&self) -> Seq<String> {
        self.names@
    }

    /// The modules, each at the index of its name.
    pub closed spec fn values(&self) -> Seq<V> {
        self.values@
    }

    /// Each name has its module, and no name occurs twice.
    pub open spec fn wf(&self) -> bool {
        self.names().len() == self.values().len() && distinct(self.names())
    }

    /// Whether a module stands under `name`.
    pub open spec fn has(&self, name: Seq<char>) -> bool {
        index_of(self.names(), name) is Some
    }

    /// The module that stands under `name`.
    pub open spec fn at(&self, name: Seq<char>) -> V
        recommends
            self.has(name),
    {
        self.values()[index_of(self.names(), name)->0]
    }

    /// No modules.
    pub fn new() -> (res: Self)
        ensures
            res.wf(),
            res.names().len() == 0,
            forall|name: Seq<char>| !res.has(name),
    {
        Modules { names: Vec::new(), values: Vec::new() }
    }

    /// How many modules there are.
    pub fn len(&self) -> (n: usize)
        requires
            self.wf(),
        ensures
            n == self.names().len(),
    {
        self.names.len()
    }

    /// The name and the module at index `i`.
    pub fn entry(&self, i: usize) -> (res: (&String, &V))
        requires
            self.wf(),
            i < self.names().len(),
        ensures
            *res.0 == self.names()[i as int],
            *res.1 == self.values()[i as int],
    {
        (&self.names[i], &self.values[i])
    }

    /// Where `name` stands, if it does.
    fn position(&self, name: &str) -> (res: Option<usize>)
        requires
            self.wf(),
        ensures
            match res {
                Some(i) => i < self.names().len() && index_of(self.names(), name@) == Some(
                    i as int,
                ) && self.names()[i as int]@ == name@,
                None => index_of(self.names(), name@) is None,
            },
    {
        let mut i: usize = 0;
        while i < self.names.len()
            invariant
                i <= self.names@.len(),
                self.wf(),
                forall|j: int| 0 <= j < i ==> self.names@[j]@ != name@,
            decreases self.names.len() - i,
        {
            if same_text(self.names[i].as_str(), name) {
                proof {
                    let found = index_of(self.names(), name@)->0;
                    assert(self.names()[found]@ == name@);
                    assert(found == i);
                }
                return Some(i);
            }
            i += 1;
        }
        None
    }

    /// Whether a module stands under `name`.
    pub fn contains_key(&self, name: &str) -> (res: bool)
        requires
            self.wf(),
        ensures
            res == self.has(name@),
    {
        self.position(name).is_some()
    }

    /// The module that stands under `name`, if any.
    pub fn get(&self, name: &str) -> (res: Option<&V>)
        requires
            self.wf(),
        ensures
            res is Some <==> self.has(name@),
            res matches Some(v) ==> *v == self.at(name@),
    {
        match self.position(name) {
            Some(i) => Some(&self.values[i]),
            None => None,
        }
    }

    /// Puts `value` under `name`. Where a module stood under that name
    /// it is replaced and handed back; every other name keeps its module.
    pub fn insert(&mut self, name: String, value: V) -> (res: Option<V>)
        requires
            old(self).wf(),
        ensures
            final(self).wf(),
            final(self).has(name@),
            final(self).at(name@) == value,
            res is Some <==> old(self).has(name@),
            res matches Some(v) ==> v == old(self).at(name@),
            forall|other: Seq<char>|
                other != name@ ==> final(self).has(other) == old(self).has(other) && (old(
                    self,
                ).has(other) ==> final(self).at(other) == old(self).at(other)),
    {
        let ghost before = *self;
        match self.position(name.as_str()) {
            Some(i) => {
                self.values.push(value);
                let previous = self.values.swap_remove(i);
                proof {
                    assert(self.names() == before.names());
                    assert forall|other: Seq<char>| other != name@ implies self.has(other)
                        == before.has(other) && (before.has(other) ==> self.at(other)
                        == before.at(other)) by {
                        if before.has(other) {
                            let k = index_of(before.names(), other)->0;
                            assert(before.names()[k]@ == other);
                            assert(k != i);
                        }
                    }
                }
                Some(previous)
            },
            None => {
                self.names.push(name);
                self.values.push(value);
                proof {
                    let n = before.names().len() as int;
                    assert(self.names()[n]@ == name@);
                    assert(self.has(name@));
                    let found = index_of(self.names(), name@)->0;
                    assert(self.names()[found]@ == name@);
                    if found < n {
                        assert(before.names()[found]@ == name@);
                    }
                    assert forall|other: Seq<char>| other != name@ implies self.has(other)
                        == before.has(other) && (before.has(other) ==> self.at(other)
                        == before.at(other)) by {
                        if before.has(other) {
                            let k = index_of(before.names(), other)->0;
                            assert(before.names()[k]@ == other);
                            assert(self.names()[k]@ == other);
                            let k2 = index_of(self.names(), other)->0;
                            assert(self.names()[k2]@ == other);
                            if k2 < n {
                                assert(before.names()[k2]@ == other);
                            }
                            assert(k2 == k);
                        }
                        if self.has(other) {
                            let k2 = index_of(self.names(), other)->0;
                            assert(self.names()[k2]@ == other);
                            assert(k2 < n);
                            assert(before.names()[k2]@ == other);
                        }
                    }
                }
                None
            },
        }
    }
}

/// What a peer is called, where it listens, and its modules.
#[derive(Debug)]
pub struct Config {
    pub name: String,
    pub port: u16,
    pub shares: Modules<RootShare>,
    pub syncs: Modules<RootSync>,
}

/// What a sync says, with strings as texts.
pub struct SyncView {
    pub ip: Seq<char>,
    pub port: u16,
    pub path: Seq<char>,
}

impl View for RootSync {
    type V = SyncView;

    open spec fn view(&self) -> SyncView {
        SyncView { ip: self.ip@, port: self.port, path: self.path@ }
    }
}

/// What a configuration says: the name and port of the peer, the path of
/// each share under its name, and each sync under its name.
pub struct ConfigView {
    pub name: Seq<char>,
    pub port: u16,
    pub shares: Map<Seq<char>, Seq<char>>,
    pub syncs: Map<Seq<char>, SyncView>,
}

impl View for Config {
    type V = ConfigView;

    open spec fn view(&self) -> ConfigView {
        ConfigView {
            name: self.name@,
            port: self.port,
            shares: Map::new(|k: Seq<char>| self.shares.has(k), |k: Seq<char>| self.shares.at(k).path@),
            syncs: Map::new(|k: Seq<char>| self.syncs.has(k), |k: Seq<char>| self.syncs.at(k)@),
        }
    }
}

impl ConfigView {
    /// Where the module that is served under `module` lies on disk: the
    /// share of that name, else the sync of that name, else nothing.
    pub open spec fn served(self, module: Seq<char>) -> Option<Seq<char>> {
        if self.shares.dom().contains(module) {
            Some(self.shares[module])
        } else if self.syncs.dom().contains(module) {
            Some(self.syncs[module].path)
        } else {
            None
        }
    }
}

impl Config {
    /// Both kinds of modules are well formed.
    pub open spec fn wf(&self) -> bool {
        self.shares.wf() && self.syncs.wf()
    }

    /// Where the module that is served under `module` lies on disk.
    pub open spec fn served(&self, module: Seq<char>) -> Option<Seq<char>> {
        self@.served(module)
    }

    /// A peer without modules.
    pub fn new(name: String, port: u16) -> (res: Config)
        ensures
            res.wf(),
            res@ == (ConfigView { name: name@, port, shares: Map::empty(), syncs: Map::empty() }),
    {
        let res = Config { name, port, shares: Modules::new(), syncs: Modules::new() };
        assert(res@.shares =~= Map::empty());
        assert(res@.syncs =~= Map::empty());
        res
    }

    /// Puts a share under `name`, in place of the share that stood there.
    pub fn add_share(&mut self, name: String, share: RootShare)
        requires
            old(self).wf(),
        ensures
            final(self).wf(),
            final(self)@ == (ConfigView {
                shares: old(self)@.shares.insert(name@, share.path@),
                ..old(self)@
            }),
    {
        self.shares.insert(name, share);
        assert(self@.shares =~= old(self)@.shares.insert(name@, share.path@));
    }

    /// Puts a sync under `name`, in place of the sync that stood there.
    pub fn add_sync(&mut self, name: String, sync: RootSync)
        requires
            old(self).wf(),
        ensures
            final(self).wf(),
            final(self)@ == (ConfigView {
                syncs: old(self)@.syncs.insert(name@, sync@),
                ..old(self)@
            }),
    {
        self.syncs.insert(name, sync);
        assert(self@.syncs =~= old(self)@.syncs.insert(name@, sync@));
    }

    /// Looks up the directory to serve for a module that a peer asks for.
    pub fn resolve(&self, module: &str) -> (res: Option<String>)
        requires
            self.wf(),
        ensures
            res is Some <==> self.served(module@) is Some,
            res matches Some(path) ==> Some(path@) == self.served(module@),
    {
        match self.shares.get(module) {
            Some(share) => Some(share.path.clone()),
            None => match self.syncs.get(module) {
                Some(sync) => Some(sync.path.clone()),
                None => None,
            },
        }
    }
}

/// What is put behind an address that names no port: `:6007`.
pub open spec fn default_port_suffix() -> Seq<char> {
    seq![':', '6', '0', '0', '7']
}

/// The address `addr` with a port: `addr` itself where it holds a colon,
/// and else `addr` with the default port behind it.
pub open spec fn addr_with_port(addr: Seq<char>) -> Seq<char> {
    if addr.contains(':') {
        addr
    } else {
        addr + default_port_suffix()
    }
}

/// Gives an address that names no port the default port.
pub fn with_default_port(addr: &str) -> (res: String)
    ensures
        res@ == addr_with_port(addr@),
{
    let chars = chars_of(addr);
    let mut i: usize = 0;
    while i < chars.len()
        invariant
            i <= chars.len(),
            chars@ == addr@,
            forall|j: int| 0 <= j < i ==> chars@[j] != ':',
        decreases chars.len() - i,
    {
        if chars[i] == ':' {
            assert(addr@[i as int] == ':');
            return addr.to_owned();
        }
        i += 1;
    }
    proof {
        reveal_strlit(":6007");
        assert(":6007"@ =~= default_port_suffix());
    }
    addr.to_owned().concat(":6007")
}

} // verus!
