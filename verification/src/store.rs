//! The host library as it is kept on disk: changes that either succeed or
//! leave everything as it was.

use vstd::prelude::*;
use vstd::string::*;

use crate::codec;
use crate::codec::CodecError;
use crate::directories::entry_of;
use crate::directories::DirectoryVariables;
use crate::directories::DirectoryView;
use crate::directories::Platform;
use crate::model::host_error;
use crate::model::HostDatabase;
use crate::model::HostDatabaseView;
use crate::model::HostError;
use crate::model::HostFault;
use crate::model::HostProblem;
use crate::model::HostRecord;
use crate::model::HostRecordView;
use crate::model::HostStats;
use crate::model::JumpChain;
use crate::model::JumpChainView;
use crate::model::JumpHop;
use crate::model::JumpHopView;
use crate::model::StoredAuthMethod;
use crate::text::same_text;

verus! {

/// Largest stored library.
pub const MAX_STORE_BYTES: usize = 4194304;

/// Why a stored library cannot be used.
#[derive(Debug, Clone, Copy, PartialEq, Eq, Structural)]
pub enum StoreFileProblem {
    Symlink,
    UnsafeMode,
    NotAFile,
    TooLarge,
}

/// What the file system says about a stored library.
#[derive(Debug, Clone, Copy, PartialEq, Eq)]
pub struct StoreFile {
    pub is_symlink: bool,
    pub is_file: bool,
    pub mode: u32,
    pub len: u64,
}

/// Access for group or others.
pub open spec fn is_shared_mode(mode: u32) -> bool {
    mode & 0o077 != 0
}

/// A stored library must be a regular file that only its owner can read, and
/// must fit the size limit.
pub fn check_store_file(file: &StoreFile) -> (r: Result<(), StoreFileProblem>)
    ensures
        r == (if file.is_symlink {
            Err::<(), StoreFileProblem>(StoreFileProblem::Symlink)
        } else if is_shared_mode(file.mode) {
            Err(StoreFileProblem::UnsafeMode)
        } else if !file.is_file {
            Err(StoreFileProblem::NotAFile)
        } else if file.len > MAX_STORE_BYTES {
            Err(StoreFileProblem::TooLarge)
        } else {
            Ok(())
        }),
{
    if file.is_symlink {
        return Err(StoreFileProblem::Symlink);
    }
    if file.mode & 0o077 != 0 {
        return Err(StoreFileProblem::UnsafeMode);
    }
    if !file.is_file {
        return Err(StoreFileProblem::NotAFile);
    }
    if file.len > MAX_STORE_BYTES as u64 {
        return Err(StoreFileProblem::TooLarge);
    }
    Ok(())
}

/// Where the library is kept: in the directory for the configuration of
/// programs that is usual on the platform.
pub open spec fn store_path(platform: Platform, variables: DirectoryView) -> Option<Seq<char>> {
    match platform {
        Platform::Windows => match variables.app_data {
            Some(base) => Some(
                crate::directories::entry_path(crate::directories::entry_path(base, "Kaduox-SSH"@, platform), "hosts.toml"@, platform),
            ),
            None => None,
        },
        Platform::MacOs => match variables.home {
            Some(home) => Some(
                crate::directories::entry_path(
                    crate::directories::entry_path(
                        crate::directories::entry_path(
                            crate::directories::entry_path(home, "Library"@, platform),
                            "Application Support"@,
                            platform,
                        ),
                        "Kaduox-SSH"@,
                        platform,
                    ),
                    "hosts.toml"@,
                    platform,
                ),
            ),
            None => None,
        },
        Platform::Unix => if variables.xdg_config_home is Some
            && variables.xdg_config_home->0.len() > 0 {
            Some(
                crate::directories::entry_path(
                    crate::directories::entry_path(variables.xdg_config_home->0, "kaduox-ssh"@, platform),
                    "hosts.toml"@,
                    platform,
                ),
            )
        } else {
            match variables.home {
                Some(home) => Some(
                    crate::directories::entry_path(
                        crate::directories::entry_path(
                            crate::directories::entry_path(home, ".config"@, platform),
                            "kaduox-ssh"@,
                            platform,
                        ),
                        "hosts.toml"@,
                        platform,
                    ),
                ),
                None => None,
            }
        },
    }
}

pub fn default_store_path(platform: Platform, variables: &DirectoryVariables) -> (r: Option<String>)
    ensures
        crate::model::option_view(r) == store_path(platform, variables@),
{
    match platform {
        Platform::Windows => match &variables.app_data {
            Some(base) => {
                let own = entry_of(base.as_str(), "Kaduox-SSH", platform);
                Some(entry_of(own.as_str(), "hosts.toml", platform))
            },
            None => None,
        },
        Platform::MacOs => match &variables.home {
            Some(home) => {
                let library = entry_of(home.as_str(), "Library", platform);
                let support = entry_of(library.as_str(), "Application Support", platform);
                let own = entry_of(support.as_str(), "Kaduox-SSH", platform);
                Some(entry_of(own.as_str(), "hosts.toml", platform))
            },
            None => None,
        },
        Platform::Unix => {
            if let Some(xdg) = &variables.xdg_config_home {
                if !xdg.as_str().is_empty() {
                    let own = entry_of(xdg.as_str(), "kaduox-ssh", platform);
                    return Some(entry_of(own.as_str(), "hosts.toml", platform));
                }
            }
            match &variables.home {
                Some(home) => {
                    let config = entry_of(home.as_str(), ".config", platform);
                    let own = entry_of(config.as_str(), "kaduox-ssh", platform);
                    Some(entry_of(own.as_str(), "hosts.toml", platform))
                },
                None => None,
            }
        },
    }
}

/// The host library and the path it is kept at.
#[derive(Debug, PartialEq, Eq)]
pub struct HostStore {
    path: String,
    database: HostDatabase,
}

/// Replaces or adds a host.
pub open spec fn with_host(d: HostDatabaseView, host: HostRecordView) -> HostDatabaseView {
    HostDatabaseView { hosts: crate::text_map::put(d.hosts, host.alias, host), ..d }
}

/// Replaces or adds a chain.
pub open spec fn with_chain(d: HostDatabaseView, chain: JumpChainView) -> HostDatabaseView {
    HostDatabaseView { chains: crate::text_map::put(d.chains, chain.name, chain), ..d }
}

pub open spec fn upsert_host_fault(d: HostDatabaseView, host: HostRecordView) -> Option<HostFault> {
    if host.fault() is Some {
        host.fault()
    } else if host.jump_chain is Some && !crate::text_map::has_key(d.chains, host.jump_chain->0) {
        crate::model::fault(HostProblem::MissingChain, host.alias)
    } else {
        with_host(d, host).fault()
    }
}

pub open spec fn insert_host_fault(d: HostDatabaseView, host: HostRecordView) -> Option<HostFault> {
    if crate::text_map::has_key(d.hosts, host.alias) {
        crate::model::fault(HostProblem::HostExists, host.alias)
    } else if host.fault() is Some {
        host.fault()
    } else {
        with_host(d, host).fault()
    }
}

pub open spec fn upsert_chain_fault(d: HostDatabaseView, chain: JumpChainView) -> Option<
    HostFault,
> {
    if chain.fault() is Some {
        chain.fault()
    } else {
        with_chain(d, chain).fault()
    }
}

pub open spec fn insert_chain_fault(d: HostDatabaseView, chain: JumpChainView) -> Option<
    HostFault,
> {
    if crate::text_map::has_key(d.chains, chain.name) {
        crate::model::fault(HostProblem::ChainExists, chain.name)
    } else {
        with_chain(d, chain).fault()
    }
}

/// The chain has the host of this alias as a hop.
pub open spec fn references(chain: JumpChainView, alias: Seq<char>) -> bool {
    exists|i: int| 0 <= i < chain.hops.len() && #[trigger] chain.hops[i] == JumpHopView::Host(alias)
}

/// First chain from index `i` on that has the host as a hop.
pub open spec fn referencing_chain(d: HostDatabaseView, alias: Seq<char>, i: int) -> Option<
    Seq<char>,
>
    decreases d.chains.len() - i,
{
    if i < 0 || i >= d.chains.len() {
        None
    } else if references(d.chains[i].1, alias) {
        Some(d.chains[i].1.name)
    } else {
        referencing_chain(d, alias, i + 1)
    }
}

pub open spec fn remove_host_fault(d: HostDatabaseView, alias: Seq<char>) -> Option<HostFault> {
    match referencing_chain(d, alias, 0) {
        Some(name) => crate::model::fault(HostProblem::HostReferenced, name),
        None => if crate::text_map::has_key(d.hosts, alias) {
            None
        } else {
            crate::model::fault(HostProblem::HostUnknown, alias)
        },
    }
}

/// First host from index `i` on that is bound to the chain.
pub open spec fn bound_host(d: HostDatabaseView, name: Seq<char>, i: int) -> Option<Seq<char>>
    decreases d.hosts.len() - i,
{
    if i < 0 || i >= d.hosts.len() {
        None
    } else if d.hosts[i].1.jump_chain == Some(name) {
        Some(d.hosts[i].1.alias)
    } else {
        bound_host(d, name, i + 1)
    }
}

pub open spec fn remove_chain_fault(d: HostDatabaseView, name: Seq<char>) -> Option<HostFault> {
    match bound_host(d, name, 0) {
        Some(alias) => crate::model::fault(HostProblem::ChainBound, alias),
        None => if crate::text_map::has_key(d.chains, name) {
            None
        } else {
            crate::model::fault(HostProblem::ChainUnknown, name)
        },
    }
}

/// The record after one more successful connection.
pub open spec fn after_success(
    record: HostRecordView,
    method: StoredAuthMethod,
    now: u64,
) -> HostRecordView {
    HostRecordView {
        stats: HostStats {
            last_connected_unix: Some(now),
            connection_count: (record.stats.connection_count + 1) as u64,
            last_auth_method: Some(method),
        },
        ..record
    }
}

pub open spec fn last_connected(r: HostRecordView) -> u64 {
    match r.stats.last_connected_unix {
        Some(t) => t,
        None => 0,
    }
}

/// `a` is listed before `b`: used later, then used more often, then by alias.
pub open spec fn listed_before(a: HostRecordView, b: HostRecordView) -> bool {
    ||| last_connected(a) > last_connected(b)
    ||| last_connected(a) == last_connected(b) && a.stats.connection_count
        > b.stats.connection_count
    ||| last_connected(a) == last_connected(b) && a.stats.connection_count
        == b.stats.connection_count && crate::text::text_less(a.alias, b.alias)
}

pub open spec fn listed(records: Seq<HostRecordView>) -> bool {
    forall|i: int, j: int|
        0 <= i < j < records.len() ==> !listed_before(#[trigger] records[j], #[trigger] records[i])
}

pub open spec fn record_values(hosts: Seq<(Seq<char>, HostRecordView)>) -> Seq<HostRecordView> {
    hosts.map_values(|entry: (Seq<char>, HostRecordView)| entry.1)
}

pub open spec fn record_refs(records: Seq<&HostRecord>) -> Seq<HostRecordView> {
    records.map_values(|r: &HostRecord| r@)
}

proof fn lemma_listed_before(a: HostRecordView, b: HostRecordView, c: HostRecordView)
    ensures
        !(listed_before(a, b) && listed_before(b, a)),
        listed_before(a, b) && !listed_before(c, b) ==> listed_before(a, c),
{
    crate::text::lemma_text_less_total(a.alias, b.alias);
    crate::text::lemma_text_less_total(b.alias, c.alias);
    if crate::text::text_less(a.alias, b.alias) && crate::text::text_less(b.alias, c.alias) {
        crate::text::lemma_text_less_transitive(a.alias, b.alias, c.alias);
    }
}

fn comes_before(a: &HostRecord, b: &HostRecord) -> (r: bool)
    ensures
        r == listed_before(a@, b@),
{
    let la: u64 = match a.stats.last_connected_unix {
        Some(t) => t,
        None => 0,
    };
    let lb: u64 = match b.stats.last_connected_unix {
        Some(t) => t,
        None => 0,
    };
    la > lb || (la == lb && (a.stats.connection_count > b.stats.connection_count || (
    a.stats.connection_count == b.stats.connection_count && crate::text::less_text(
        a.alias.as_str(),
        b.alias.as_str(),
    ))))
}

impl Clone for HostStore {
    fn clone(&self) -> (r: Self)
        ensures
            r.location() == self.location(),
            r.data()@ == self.data()@,
    {
        self.copy()
    }
}

impl HostStore {
    pub closed spec fn location(&self) -> Seq<char> {
        self.path@
    }

    pub closed spec fn data(&self) -> HostDatabase {
        self.database
    }

    /// Opens a store from the text kept at its path; nothing kept there is an
    /// empty library.
    pub fn open(path: &str, stored: Option<&str>) -> (r: Result<Self, CodecError>)
        ensures
            match (r, stored) {
                (Ok(store), Some(input)) => store.location() == path@ && codec::decoded(input@)
                    == Ok::<HostDatabaseView, CodecError>(store.data()@),
                (Ok(store), None) => store.location() == path@ && store.data()@ == (
                HostDatabaseView {
                    version: crate::model::DATABASE_VERSION,
                    hosts: Seq::empty(),
                    chains: Seq::empty(),
                }),
                (Err(e), Some(input)) => codec::decoded(input@) == Err::<
                    HostDatabaseView,
                    CodecError,
                >(e),
                (Err(_), None) => false,
            },
    {
        let database = match stored {
            Some(input) => codec::decode(input)?,
            None => HostDatabase::default(),
        };
        Ok(HostStore { path: path.to_owned(), database })
    }

    /// Opens the store at its default path; nothing where no path can be told.
    pub fn open_default(
        platform: Platform,
        variables: &DirectoryVariables,
        stored: Option<&str>,
    ) -> (r: Option<Result<Self, CodecError>>)
        ensures
            match (r, store_path(platform, variables@)) {
                (Some(Ok(store)), Some(path)) => store.location() == path && match stored {
                    Some(input) => codec::decoded(input@) == Ok::<HostDatabaseView, CodecError>(
                        store.data()@,
                    ),
                    None => store.data()@ == (HostDatabaseView {
                        version: crate::model::DATABASE_VERSION,
                        hosts: Seq::empty(),
                        chains: Seq::empty(),
                    }),
                },
                (Some(Err(e)), Some(_)) => stored is Some && codec::decoded(stored->0@) == Err::<
                    HostDatabaseView,
                    CodecError,
                >(e),
                (None, None) => true,
                _ => false,
            },
    {
        match default_store_path(platform, variables) {
            Some(path) => Some(HostStore::open(path.as_str(), stored)),
            None => None,
        }
    }

    pub fn copy(&self) -> (r: Self)
        ensures
            r.location() == self.location(),
            r.data()@ == self.data()@,
    {
        HostStore { path: self.path.clone(), database: self.database.copy() }
    }

    pub fn path(&self) -> (r: &str)
        ensures
            r@ == self.location(),
    {
        self.path.as_str()
    }

    pub fn database(&self) -> (r: &HostDatabase)
        ensures
            *r == self.data(),
    {
        &self.database
    }

    pub fn host(&self, alias: &str) -> (r: Option<&HostRecord>)
        ensures
            match r {
                Some(record) => crate::text_map::lookup(self.data()@.hosts, alias@) == Some(
                    record@,
                ),
                None => crate::text_map::lookup(self.data()@.hosts, alias@) is None,
            },
    {
        self.database.hosts.recall_order();
        proof {
            crate::text_map::lemma_map_entries(
                self.database.hosts.entries(),
                crate::model::record_view(),
                alias@,
            );
        }
        self.database.hosts.get(alias)
    }

    pub fn chain(&self, name: &str) -> (r: Option<&JumpChain>)
        ensures
            match r {
                Some(chain) => crate::text_map::lookup(self.data()@.chains, name@) == Some(chain@),
                None => crate::text_map::lookup(self.data()@.chains, name@) is None,
            },
    {
        self.database.chains.recall_order();
        proof {
            crate::text_map::lemma_map_entries(
                self.database.chains.entries(),
                crate::model::chain_view(),
                name@,
            );
        }
        self.database.chains.get(name)
    }

    /// Every host, the most recently used first.
    pub fn hosts_recent_first(&self) -> (r: Vec<&HostRecord>)
        ensures
            listed(record_refs(r@)),
            record_refs(r@).to_multiset() == record_values(self.data()@.hosts).to_multiset(),
    {
        let mut out: Vec<&HostRecord> = Vec::new();
        let count = self.database.hosts.len();
        let ghost values = record_values(self.database@.hosts);
        let mut i: usize = 0;
        proof {
            assert(record_refs(out@) =~= values.take(0));
        }
        while i < count
            invariant
                count == self.database.hosts.entries().len(),
                values == record_values(self.database@.hosts),
                i <= count == values.len(),
                listed(record_refs(out@)),
                record_refs(out@).to_multiset() == values.take(i as int).to_multiset(),
            decreases count - i,
        {
            let host = self.database.hosts.value_at(i);
            assert(self.database@.hosts[i as int].1 == host@);
            assert(values[i as int] == host@);
            let ghost before = record_refs(out@);
            let mut p: usize = 0;
            while p < out.len() && !comes_before(host, out[p])
                invariant
                    before == record_refs(out@),
                    p <= out@.len(),
                    forall|k: int| 0 <= k < p ==> !listed_before(host@, #[trigger] before[k]),
                decreases out@.len() - p,
            {
                assert(before[p as int] == out@[p as int]@);
                p += 1;
            }
            out.insert(p, host);
            proof {
                let after = record_refs(out@);
                assert(after =~= before.insert(p as int, host@));
                assert forall|a: int, b: int| 0 <= a < b < after.len() implies !listed_before(
                    #[trigger] after[b],
                    #[trigger] after[a],
                ) by {
                    let oa = if a < p { a } else { a - 1 };
                    let ob = if b < p { b } else { b - 1 };
                    if b == p {
                        assert(!listed_before(host@, before[a]));
                    } else if a == p {
                        assert(listed_before(host@, before[p as int]));
                        lemma_listed_before(host@, before[p as int], before[ob]);
                        lemma_listed_before(host@, before[ob], before[ob]);
                        if ob > p {
                            assert(!listed_before(before[ob], before[p as int]));
                        }
                    } else {
                        assert(after[a] == before[oa]);
                        assert(after[b] == before[ob]);
                    }
                }
                vstd::seq_lib::to_multiset_insert(before, p as int, host@);
                vstd::seq_lib::to_multiset_build(values.take(i as int), host@);
                assert(values.take(i + 1) =~= values.take(i as int).push(host@));
            }
            i += 1;
        }
        assert(values.take(count as int) =~= values);
        out
    }

    /// Adds a host or replaces the one of the same alias. A change that would
    /// make the library invalid is refused and leaves it as it was.
    pub fn upsert_host(&mut self, host: HostRecord) -> (r: Result<Option<HostRecord>, HostError>)
        ensures
            final(self).location() == old(self).location(),
            match r {
                Ok(previous) => {
                    &&& upsert_host_fault(old(self).data()@, host@) is None
                    &&& final(self).data()@ == with_host(old(self).data()@, host@)
                    &&& crate::text_map::lookup(old(self).data()@.hosts, host@.alias)
                        == match previous {
                        Some(record) => Some(record@),
                        None => None,
                    }
                },
                Err(e) => {
                    &&& upsert_host_fault(old(self).data()@, host@) == Some(e@)
                    &&& final(self).data()@ == old(self).data()@
                },
            },
    {
        host.validate()?;
        let ghost view = host@;
        self.database.hosts.recall_order();
        self.database.chains.recall_order();
        if let Some(chain) = &host.jump_chain {
            proof {
                crate::text_map::lemma_map_entries(
                    self.database.chains.entries(),
                    crate::model::chain_view(),
                    chain@,
                );
            }
            if !self.database.chains.contains_key(chain.as_str()) {
                return Err(host_error(HostProblem::MissingChain, host.alias.as_str()));
            }
        }
        let alias = host.alias.clone();
        let ghost before = self.database.hosts.entries();
        proof {
            crate::text_map::lemma_map_entries(before, crate::model::record_view(), alias@);
            crate::text_map::lemma_put(before, alias@, host);
            crate::text_map::lemma_put_undone(before, alias@, host);
        }
        let previous = self.database.hosts.insert(alias.clone(), host);
        match self.database.validate() {
            Ok(()) => Ok(previous),
            Err(error) => {
                match previous {
                    Some(former) => {
                        self.database.hosts.insert(alias, former);
                    },
                    None => {
                        self.database.hosts.remove(alias.as_str());
                    },
                }
                Err(error)
            },
        }
    }

    /// Adds a host whose alias is not taken.
    pub fn insert_host(&mut self, host: HostRecord) -> (r: Result<(), HostError>)
        ensures
            final(self).location() == old(self).location(),
            match r {
                Ok(()) => {
                    &&& insert_host_fault(old(self).data()@, host@) is None
                    &&& final(self).data()@ == with_host(old(self).data()@, host@)
                },
                Err(e) => {
                    &&& insert_host_fault(old(self).data()@, host@) == Some(e@)
                    &&& final(self).data()@ == old(self).data()@
                },
            },
    {
        self.database.hosts.recall_order();
        let alias = host.alias.clone();
        let ghost before = self.database.hosts.entries();
        proof {
            crate::text_map::lemma_map_entries(before, crate::model::record_view(), alias@);
            crate::text_map::lemma_put(before, alias@, host);
            crate::text_map::lemma_put_undone(before, alias@, host);
        }
        if self.database.hosts.contains_key(alias.as_str()) {
            return Err(host_error(HostProblem::HostExists, alias.as_str()));
        }
        host.validate()?;
        self.database.hosts.insert(alias.clone(), host);
        match self.database.validate() {
            Ok(()) => Ok(()),
            Err(error) => {
                self.database.hosts.remove(alias.as_str());
                Err(error)
            },
        }
    }

    /// Removes a host that no chain has as a hop.
    pub fn remove_host(&mut self, alias: &str) -> (r: Result<HostRecord, HostError>)
        ensures
            final(self).location() == old(self).location(),
            match r {
                Ok(record) => {
                    &&& remove_host_fault(old(self).data()@, alias@) is None
                    &&& crate::text_map::lookup(old(self).data()@.hosts, alias@) == Some(record@)
                    &&& final(self).data()@ == (HostDatabaseView {
                        hosts: crate::text_map::without(old(self).data()@.hosts, alias@),
                        ..old(self).data()@
                    })
                },
                Err(e) => {
                    &&& remove_host_fault(old(self).data()@, alias@) == Some(e@)
                    &&& final(self).data()@ == old(self).data()@
                },
            },
    {
        let ghost view = self.database@;
        let count = self.database.chains.len();
        self.database.hosts.recall_order();
        proof {
            crate::text_map::lemma_map_entries(
                self.database.hosts.entries(),
                crate::model::record_view(),
                alias@,
            );
            crate::text_map::lemma_lookup(view.hosts, alias@);
        }
        let mut i: usize = 0;
        while i < count
            invariant
                *self == *old(self),
                view == self.database@,
                count == self.database.chains.entries().len(),
                i <= count,
                referencing_chain(view, alias@, 0) == referencing_chain(view, alias@, i as int),
            decreases count - i,
        {
            let chain = self.database.chains.value_at(i);
            assert(view.chains[i as int].1 == chain@);
            if chain_references(chain, alias) {
                return Err(host_error(HostProblem::HostReferenced, chain.name.as_str()));
            }
            i += 1;
        }
        match self.database.hosts.remove(alias) {
            Some(record) => Ok(record),
            None => {
                assert(self.database@.hosts =~= view.hosts);
                Err(host_error(HostProblem::HostUnknown, alias))
            },
        }
    }

    /// Adds a chain or replaces the one of the same name. A change that would
    /// make the library invalid is refused and leaves it as it was.
    pub fn upsert_chain(&mut self, chain: JumpChain) -> (r: Result<Option<JumpChain>, HostError>)
        ensures
            final(self).location() == old(self).location(),
            match r {
                Ok(previous) => {
                    &&& upsert_chain_fault(old(self).data()@, chain@) is None
                    &&& final(self).data()@ == with_chain(old(self).data()@, chain@)
                    &&& crate::text_map::lookup(old(self).data()@.chains, chain@.name)
                        == match previous {
                        Some(former) => Some(former@),
                        None => None,
                    }
                },
                Err(e) => {
                    &&& upsert_chain_fault(old(self).data()@, chain@) == Some(e@)
                    &&& final(self).data()@ == old(self).data()@
                },
            },
    {
        chain.validate()?;
        self.database.chains.recall_order();
        let name = chain.name.clone();
        let ghost before = self.database.chains.entries();
        proof {
            crate::text_map::lemma_map_entries(before, crate::model::chain_view(), name@);
            crate::text_map::lemma_put(before, name@, chain);
            crate::text_map::lemma_put_undone(before, name@, chain);
        }
        let previous = self.database.chains.insert(name.clone(), chain);
        match self.database.validate() {
            Ok(()) => Ok(previous),
            Err(error) => {
                match previous {
                    Some(former) => {
                        self.database.chains.insert(name, former);
                    },
                    None => {
                        self.database.chains.remove(name.as_str());
                    },
                }
                Err(error)
            },
        }
    }

    /// Adds a chain whose name is not taken.
    pub fn insert_chain(&mut self, chain: JumpChain) -> (r: Result<(), HostError>)
        ensures
            final(self).location() == old(self).location(),
            match r {
                Ok(()) => {
                    &&& insert_chain_fault(old(self).data()@, chain@) is None
                    &&& final(self).data()@ == with_chain(old(self).data()@, chain@)
                },
                Err(e) => {
                    &&& insert_chain_fault(old(self).data()@, chain@) == Some(e@)
                    &&& final(self).data()@ == old(self).data()@
                },
            },
    {
        self.database.chains.recall_order();
        let name = chain.name.clone();
        let ghost before = self.database.chains.entries();
        proof {
            crate::text_map::lemma_map_entries(before, crate::model::chain_view(), name@);
            crate::text_map::lemma_put(before, name@, chain);
            crate::text_map::lemma_put_undone(before, name@, chain);
        }
        if self.database.chains.contains_key(name.as_str()) {
            return Err(host_error(HostProblem::ChainExists, name.as_str()));
        }
        self.database.chains.insert(name.clone(), chain);
        match self.database.validate() {
            Ok(()) => Ok(()),
            Err(error) => {
                self.database.chains.remove(name.as_str());
                Err(error)
            },
        }
    }

    /// Removes a chain that no host is bound to.
    pub fn remove_chain(&mut self, name: &str) -> (r: Result<JumpChain, HostError>)
        ensures
            final(self).location() == old(self).location(),
            match r {
                Ok(chain) => {
                    &&& remove_chain_fault(old(self).data()@, name@) is None
                    &&& crate::text_map::lookup(old(self).data()@.chains, name@) == Some(chain@)
                    &&& final(self).data()@ == (HostDatabaseView {
                        chains: crate::text_map::without(old(self).data()@.chains, name@),
                        ..old(self).data()@
                    })
                },
                Err(e) => {
                    &&& remove_chain_fault(old(self).data()@, name@) == Some(e@)
                    &&& final(self).data()@ == old(self).data()@
                },
            },
    {
        let ghost view = self.database@;
        let count = self.database.hosts.len();
        self.database.chains.recall_order();
        proof {
            crate::text_map::lemma_map_entries(
                self.database.chains.entries(),
                crate::model::chain_view(),
                name@,
            );
            crate::text_map::lemma_lookup(view.chains, name@);
        }
        let mut i: usize = 0;
        while i < count
            invariant
                *self == *old(self),
                view == self.database@,
                count == self.database.hosts.entries().len(),
                i <= count,
                bound_host(view, name@, 0) == bound_host(view, name@, i as int),
            decreases count - i,
        {
            let host = self.database.hosts.value_at(i);
            assert(view.hosts[i as int].1 == host@);
            if let Some(bound) = &host.jump_chain {
                if same_text(bound.as_str(), name) {
                    return Err(host_error(HostProblem::ChainBound, host.alias.as_str()));
                }
            }
            i += 1;
        }
        match self.database.chains.remove(name) {
            Some(chain) => Ok(chain),
            None => {
                assert(self.database@.chains =~= view.chains);
                Err(host_error(HostProblem::ChainUnknown, name))
            },
        }
    }

    /// Counts a successful connection at the time `now`, in seconds.
    pub fn record_success(&mut self, alias: &str, method: StoredAuthMethod, now: u64) -> (r: Result<
        (),
        HostError,
    >)
        ensures
            final(self).location() == old(self).location(),
            match (r, crate::text_map::lookup(old(self).data()@.hosts, alias@)) {
                (Ok(()), Some(record)) => record.stats.connection_count < u64::MAX && final(self).data()@ == (HostDatabaseView {
                    hosts: crate::text_map::put(
                        old(self).data()@.hosts,
                        alias@,
                        after_success(record, method, now),
                    ),
                    ..old(self).data()@
                }),
                (Err(e), Some(record)) => record.stats.connection_count == u64::MAX && e@ == (
                HostFault { problem: HostProblem::CounterOverflow, subject: alias@ }) && final(self).data()@ == old(self).data()@,
                (Err(e), None) => e@ == (HostFault {
                    problem: HostProblem::HostUnknown,
                    subject: alias@,
                }) && final(self).data()@ == old(self).data()@,
                (Ok(()), None) => false,
            },
    {
        self.database.hosts.recall_order();
        let ghost before = self.database.hosts.entries();
        proof {
            crate::text_map::lemma_map_entries(before, crate::model::record_view(), alias@);
        }
        let mut record = match self.database.hosts.get(alias) {
            Some(record) => record.copy(),
            None => {
                return Err(host_error(HostProblem::HostUnknown, alias));
            },
        };
        if record.stats.connection_count == u64::MAX {
            return Err(host_error(HostProblem::CounterOverflow, alias));
        }
        record.stats =
        HostStats {
            last_connected_unix: Some(now),
            connection_count: record.stats.connection_count + 1,
            last_auth_method: Some(method),
        };
        self.database.hosts.insert(alias.to_owned(), record);
        Ok(())
    }

    /// The text to keep at the store's path. An invalid library, or one whose
    /// text exceeds the limit, is not to be kept.
    pub fn save(&self) -> (r: Result<String, HostError>)
        ensures
            match r {
                Ok(text) => {
                    &&& self.data()@.valid()
                    &&& text@ == codec::encoded(self.data()@)
                    &&& crate::text::utf8_len(text@) <= MAX_STORE_BYTES
                },
                Err(e) => if self.data()@.valid() {
                    e@ == (HostFault {
                        problem: HostProblem::StoreTooLarge,
                        subject: "encoded host database"@,
                    }) && crate::text::utf8_len(codec::encoded(self.data()@)) > MAX_STORE_BYTES
                } else {
                    self.data()@.fault() == Some(e@)
                },
            },
    {
        let text = codec::encode(&self.database)?;
        if crate::text::byte_len(text.as_str()) > MAX_STORE_BYTES {
            return Err(host_error(HostProblem::StoreTooLarge, "encoded host database"));
        }
        Ok(text)
    }
}

fn chain_references(chain: &JumpChain, alias: &str) -> (r: bool)
    ensures
        r == references(chain@, alias@),
{
    let mut i: usize = 0;
    while i < chain.hops.len()
        invariant
            i <= chain.hops@.len(),
            forall|k: int| 0 <= k < i ==> #[trigger] chain@.hops[k] != JumpHopView::Host(alias@),
        decreases chain.hops@.len() - i,
    {
        assert(chain@.hops[i as int] == chain.hops@[i as int]@);
        if let JumpHop::Host(value) = &chain.hops[i] {
            if same_text(value.as_str(), alias) {
                assert(chain@.hops[i as int] == JumpHopView::Host(alias@));
                return true;
            }
        }
        i += 1;
    }
    false
}

} // verus!
