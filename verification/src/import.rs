//! Import of the aliases of an OpenSSH configuration into the host library.

use vstd::prelude::*;
use vstd::string::*;

use crate::config::ConfigError;
use crate::config::ConfigFault;
use crate::config::ConfigView;
use crate::config::ConnectionConfig;
use crate::config::HostKeyPolicy;
use crate::config::JumpHost;
use crate::config::OpenSshBook;
use crate::host_catalog::OpenSshHostCatalog;
use crate::model::validate_portable_name;
use crate::model::HostDatabaseView;
use crate::model::HostError;
use crate::model::HostFault;
use crate::model::HostRecord;
use crate::model::HostRecordView;
use crate::model::HostStats;
use crate::model::JumpChain;
use crate::model::JumpChainView;
use crate::model::JumpHop;
use crate::model::JumpHopView;
use crate::model::StoredHostKeyPolicy;
use crate::store::HostStore;
use crate::text::decimal_text;
use crate::text::joined;
use crate::text::joined3;
use crate::text::quoted;

verus! {

pub const MAX_CHAIN_STEM: usize = 96;

pub const MAX_CHAIN_SUFFIX: u64 = 10000;

/// What an import has done.
#[derive(Debug, Clone, PartialEq, Eq)]
pub struct ImportReport {
    pub imported_hosts: usize,
    pub skipped_existing: usize,
    pub skipped_unsupported_alias: usize,
    pub created_chains: usize,
    pub warnings: Vec<String>,
}

#[verifier::ext_equal]
pub struct ImportView {
    pub imported_hosts: nat,
    pub skipped_existing: nat,
    pub skipped_unsupported_alias: nat,
    pub created_chains: nat,
    pub warnings: Seq<Seq<char>>,
}

impl View for ImportReport {
    type V = ImportView;

    open spec fn view(&self) -> ImportView {
        ImportView {
            imported_hosts: self.imported_hosts as nat,
            skipped_existing: self.skipped_existing as nat,
            skipped_unsupported_alias: self.skipped_unsupported_alias as nat,
            created_chains: self.created_chains as nat,
            warnings: crate::text::views(self.warnings@),
        }
    }
}

/// Why an import came to nothing: the configuration cannot be followed as a
/// whole, an alias cannot be resolved, or the library would become invalid.
#[derive(Debug, PartialEq, Eq)]
pub enum ImportError {
    PartialConfig,
    Resolve(ConfigError),
    Library(HostError),
}

#[verifier::ext_equal]
pub enum ImportFault {
    PartialConfig,
    Resolve(ConfigFault),
    Library(HostFault),
}

impl View for ImportError {
    type V = ImportFault;

    open spec fn view(&self) -> ImportFault {
        match *self {
            ImportError::PartialConfig => ImportFault::PartialConfig,
            ImportError::Resolve(e) => ImportFault::Resolve(e@),
            ImportError::Library(e) => ImportFault::Library(e@),
        }
    }
}

pub open spec fn stored_policy_of(policy: HostKeyPolicy) -> StoredHostKeyPolicy {
    match policy {
        HostKeyPolicy::Strict => StoredHostKeyPolicy::Strict,
        HostKeyPolicy::AcceptNew => StoredHostKeyPolicy::AcceptNew,
        HostKeyPolicy::Insecure => StoredHostKeyPolicy::Insecure,
    }
}

fn stored_policy(policy: HostKeyPolicy) -> (r: StoredHostKeyPolicy)
    ensures
        r == stored_policy_of(policy),
{
    match policy {
        HostKeyPolicy::Strict => StoredHostKeyPolicy::Strict,
        HostKeyPolicy::AcceptNew => StoredHostKeyPolicy::AcceptNew,
        HostKeyPolicy::Insecure => StoredHostKeyPolicy::Insecure,
    }
}

/// The character that stands for a byte of an alias in a chain name.
pub open spec fn stem_char(b: u8) -> char {
    if crate::model::is_portable_char(b as char) {
        b as char
    } else {
        '-'
    }
}

/// What the name of a chain says of the alias.
pub open spec fn chain_stem(alias: Seq<char>) -> Seq<char> {
    let bytes = vstd::utf8::encode_utf8(alias);
    let kept = if bytes.len() > MAX_CHAIN_STEM {
        bytes.take(MAX_CHAIN_STEM as int)
    } else {
        bytes
    };
    kept.map_values(|b: u8| stem_char(b))
}

pub open spec fn chain_base(alias: Seq<char>) -> Seq<char> {
    "openssh-"@ + chain_stem(alias) + "-jump"@
}

pub open spec fn suffixed(base: Seq<char>, suffix: nat) -> Seq<char> {
    base + "-"@ + crate::text::decimal(suffix)
}

/// The first free name from this suffix on.
pub open spec fn free_name_from(
    chains: Seq<(Seq<char>, JumpChainView)>,
    base: Seq<char>,
    suffix: nat,
) -> Seq<char>
    decreases MAX_CHAIN_SUFFIX + 1 - suffix,
{
    if suffix > MAX_CHAIN_SUFFIX {
        base + "-exhausted"@
    } else if crate::text_map::lookup(chains, suffixed(base, suffix)) is None {
        suffixed(base, suffix)
    } else {
        free_name_from(chains, base, suffix + 1)
    }
}

/// The name of the chain that an imported alias gets.
pub open spec fn chain_name_for(chains: Seq<(Seq<char>, JumpChainView)>, alias: Seq<char>) -> Seq<
    char,
> {
    if crate::text_map::lookup(chains, chain_base(alias)) is None {
        chain_base(alias)
    } else {
        free_name_from(chains, chain_base(alias), 2)
    }
}

/// The chain that leads over the jump hosts of a resolved alias.
pub open spec fn imported_chain(name: Seq<char>, config: ConfigView) -> JumpChainView {
    JumpChainView {
        name,
        hops: config.jump_hosts.map_values(
            |jump: crate::config::JumpHostView| JumpHopView::OpenSshAlias(jump.alias),
        ),
    }
}

/// The record of a resolved alias.
pub open spec fn imported_host(
    alias: Seq<char>,
    config: ConfigView,
    chain: Option<Seq<char>>,
) -> HostRecordView {
    HostRecordView {
        alias,
        address: config.host,
        port: config.port,
        user: config.username,
        identity_file: if config.identity_files.len() > 0 {
            Some(config.identity_files[0])
        } else {
            None
        },
        groups: Seq::empty(),
        tags: seq!["openssh-import"@],
        note: None,
        host_key_policy: stored_policy_of(config.host_key_policy),
        jump_chain: chain,
        stats: HostStats { last_connected_unix: None, connection_count: 0, last_auth_method: None },
    }
}

pub open spec fn skip_warning(alias: Seq<char>) -> Seq<char> {
    "skipped OpenSSH alias "@ + crate::text::debug_text(alias)
        + ": not representable by the portable Kaduox alias grammar"@
}

/// Library and report after one more alias.
pub open spec fn alias_imported(
    d: HostDatabaseView,
    report: ImportView,
    alias: Seq<char>,
    book: crate::config::BookView,
) -> Result<(HostDatabaseView, ImportView), ImportFault> {
    if crate::text_map::lookup(d.hosts, alias) is Some {
        Ok((d, ImportView { skipped_existing: report.skipped_existing + 1, ..report }))
    } else if crate::model::portable_name_fault(alias, "OpenSSH alias"@) is Some {
        Ok(
            (
                d,
                ImportView {
                    skipped_unsupported_alias: report.skipped_unsupported_alias + 1,
                    warnings: report.warnings.push(skip_warning(alias)),
                    ..report
                },
            ),
        )
    } else {
        match crate::config::openssh_config(alias, None, None, book) {
            Err(e) => Err(ImportFault::Resolve(e)),
            Ok(config) => if config.jump_hosts.len() == 0 {
                let host = imported_host(alias, config, None);
                match crate::store::insert_host_fault(d, host) {
                    Some(e) => Err(ImportFault::Library(e)),
                    None => Ok(
                        (
                            crate::store::with_host(d, host),
                            ImportView { imported_hosts: report.imported_hosts + 1, ..report },
                        ),
                    ),
                }
            } else {
                let name = chain_name_for(d.chains, alias);
                let chain = imported_chain(name, config);
                let host = imported_host(alias, config, Some(name));
                let linked = crate::store::with_chain(d, chain);
                match crate::store::insert_chain_fault(d, chain) {
                    Some(e) => Err(ImportFault::Library(e)),
                    None => match crate::store::insert_host_fault(linked, host) {
                        Some(e) => Err(ImportFault::Library(e)),
                        None => Ok(
                            (
                                crate::store::with_host(linked, host),
                                ImportView {
                                    imported_hosts: report.imported_hosts + 1,
                                    created_chains: report.created_chains + 1,
                                    ..report
                                },
                            ),
                        ),
                    },
                }
            },
        }
    }
}

/// Library and report after the aliases from index `i` on.
pub open spec fn aliases_imported(
    d: HostDatabaseView,
    report: ImportView,
    aliases: Seq<Seq<char>>,
    i: int,
    book: crate::config::BookView,
) -> Result<(HostDatabaseView, ImportView), ImportFault>
    decreases aliases.len() - i,
{
    if i < 0 || i >= aliases.len() {
        match d.fault() {
            Some(e) => Err(ImportFault::Library(e)),
            None => Ok((d, report)),
        }
    } else {
        match alias_imported(d, report, aliases[i], book) {
            Err(e) => Err(e),
            Ok((next, counted)) => aliases_imported(next, counted, aliases, i + 1, book),
        }
    }
}

pub open spec fn empty_report() -> ImportView {
    ImportView {
        imported_hosts: 0,
        skipped_existing: 0,
        skipped_unsupported_alias: 0,
        created_chains: 0,
        warnings: Seq::empty(),
    }
}

/// What importing a catalog into a library comes to.
pub open spec fn imported(
    d: HostDatabaseView,
    structural: bool,
    aliases: Seq<Seq<char>>,
    book: crate::config::BookView,
) -> Result<(HostDatabaseView, ImportView), ImportFault> {
    if structural {
        Err(ImportFault::PartialConfig)
    } else {
        aliases_imported(d, empty_report(), aliases, 0, book)
    }
}

fn chain_stem_of(alias: &str) -> (r: String)
    ensures
        r@ == chain_stem(alias@),
{
    let bytes = alias.as_bytes();
    let limit: usize = if bytes.len() > MAX_CHAIN_STEM {
        MAX_CHAIN_STEM
    } else {
        bytes.len()
    };
    let mut out = String::new();
    let mut i: usize = 0;
    while i < limit
        invariant
            bytes@ == vstd::utf8::encode_utf8(alias@),
            limit <= bytes@.len(),
            limit == bytes@.len() || limit == MAX_CHAIN_STEM && bytes@.len() > MAX_CHAIN_STEM,
            i <= limit,
            out@ == chain_stem(alias@).take(i as int),
            chain_stem(alias@).len() == limit,
        decreases limit - i,
    {
        let c = bytes[i] as char;
        let kept = if crate::model::portable_char(c) {
            c
        } else {
            '-'
        };
        assert(chain_stem(alias@)[i as int] == stem_char(bytes@[i as int]));
        out.push(kept);
        assert(chain_stem(alias@).take(i + 1) =~= chain_stem(alias@).take(i as int).push(kept));
        i += 1;
    }
    assert(chain_stem(alias@).take(limit as int) =~= chain_stem(alias@));
    out
}

/// A chain name for an imported alias that no chain of the store has.
pub fn unique_chain_name(store: &HostStore, alias: &str) -> (r: String)
    ensures
        r@ == chain_name_for(store.data()@.chains, alias@),
{
    let stem = chain_stem_of(alias);
    let base = joined3("openssh-", stem.as_str(), "-jump");
    if store.chain(base.as_str()).is_none() {
        return base;
    }
    let mut suffix: u64 = 2;
    while suffix <= MAX_CHAIN_SUFFIX
        invariant
            base@ == chain_base(alias@),
            suffix <= MAX_CHAIN_SUFFIX + 1,
            crate::text_map::lookup(store.data()@.chains, base@) is Some,
            free_name_from(store.data()@.chains, base@, 2) == free_name_from(
                store.data()@.chains,
                base@,
                suffix as nat,
            ),
        decreases MAX_CHAIN_SUFFIX + 1 - suffix,
    {
        let number = decimal_text(suffix);
        let candidate = joined3(base.as_str(), "-", number.as_str());
        if store.chain(candidate.as_str()).is_none() {
            return candidate;
        }
        suffix += 1;
    }
    joined(base.as_str(), "-exhausted")
}

fn hops_over(jumps: &Vec<JumpHost>) -> (r: Vec<JumpHop>)
    ensures
        crate::model::hop_views(r@) == crate::config::jump_views(jumps@).map_values(
            |jump: crate::config::JumpHostView| JumpHopView::OpenSshAlias(jump.alias),
        ),
{
    let mut out: Vec<JumpHop> = Vec::new();
    let mut i: usize = 0;
    while i < jumps.len()
        invariant
            i <= jumps@.len(),
            out@.len() == i,
            forall|k: int|
                0 <= k < i ==> (#[trigger] out@[k])@ == JumpHopView::OpenSshAlias(jumps@[k]@.alias),
        decreases jumps@.len() - i,
    {
        out.push(JumpHop::OpenSshAlias(jumps[i].alias.clone()));
        i += 1;
    }
    assert(crate::model::hop_views(out@) =~= crate::config::jump_views(jumps@).map_values(
        |jump: crate::config::JumpHostView| JumpHopView::OpenSshAlias(jump.alias),
    ));
    out
}

fn host_of(alias: &str, config: &ConnectionConfig, chain: Option<String>) -> (r: HostRecord)
    ensures
        r@ == imported_host(alias@, config@, crate::model::option_view(chain)),
{
    let mut host = HostRecord::new(alias, config.host.as_str(), config.username.as_str());
    host.port = config.port;
    host.identity_file =
    if config.identity_files.len() > 0 {
        Some(config.identity_files[0].clone())
    } else {
        None
    };
    host.host_key_policy = stored_policy(config.host_key_policy);
    host.tags.push("openssh-import".to_owned());
    host.jump_chain = chain;
    assert(host@.tags =~= seq!["openssh-import"@]);
    assert(host@ =~= imported_host(alias@, config@, crate::model::option_view(chain)));
    host
}

fn import_alias(
    candidate: &mut HostStore,
    report: &mut ImportReport,
    alias: &str,
    book: &OpenSshBook,
) -> (r: Result<(), ImportError>)
    requires
        old(report).imported_hosts < usize::MAX,
        old(report).skipped_existing < usize::MAX,
        old(report).skipped_unsupported_alias < usize::MAX,
        old(report).created_chains < usize::MAX,
    ensures
        final(candidate).location() == old(candidate).location(),
        match r {
            Ok(()) => alias_imported(old(candidate).data()@, old(report)@, alias@, book@) == Ok::<
                (HostDatabaseView, ImportView),
                ImportFault,
            >((final(candidate).data()@, final(report)@)),
            Err(e) => alias_imported(old(candidate).data()@, old(report)@, alias@, book@) == Err::<
                (HostDatabaseView, ImportView),
                ImportFault,
            >(e@),
        },
        final(report).imported_hosts <= old(report).imported_hosts + 1,
        final(report).skipped_existing <= old(report).skipped_existing + 1,
        final(report).skipped_unsupported_alias <= old(report).skipped_unsupported_alias + 1,
        final(report).created_chains <= old(report).created_chains + 1,
{
    if candidate.host(alias).is_some() {
        report.skipped_existing = report.skipped_existing + 1;
        return Ok(());
    }
    if validate_portable_name(alias, "OpenSSH alias").is_err() {
        let name = quoted(alias);
        let warning = joined3(
            "skipped OpenSSH alias ",
            name.as_str(),
            ": not representable by the portable Kaduox alias grammar",
        );
        proof {
            crate::text::lemma_views_push(report.warnings@, warning);
        }
        report.skipped_unsupported_alias = report.skipped_unsupported_alias + 1;
        report.warnings.push(warning);
        return Ok(());
    }
    let config = match ConnectionConfig::from_openssh(alias, None, None, book) {
        Ok(config) => config,
        Err(e) => {
            return Err(ImportError::Resolve(e));
        },
    };
    let mut chain_name: Option<String> = None;
    if config.jump_hosts.len() > 0 {
        let name = unique_chain_name(candidate, alias);
        let chain = JumpChain { name: name.clone(), hops: hops_over(&config.jump_hosts) };
        assert(chain@ =~= imported_chain(name@, config@));
        match candidate.insert_chain(chain) {
            Ok(()) => {},
            Err(e) => {
                return Err(ImportError::Library(e));
            },
        }
        chain_name = Some(name);
        report.created_chains = report.created_chains + 1;
    }
    let host = host_of(alias, &config, chain_name);
    match candidate.insert_host(host) {
        Ok(()) => {},
        Err(e) => {
            return Err(ImportError::Library(e));
        },
    }
    report.imported_hosts = report.imported_hosts + 1;
    Ok(())
}

/// Imports the aliases of a catalog. The store is replaced only after every
/// alias has been taken in or skipped and the library is valid; hosts that it
/// has are kept as they are.
pub fn import_openssh(store: &mut HostStore, catalog: &OpenSshHostCatalog, book: &OpenSshBook) -> (r:
    Result<ImportReport, ImportError>)
    ensures
        final(store).location() == old(store).location(),
        match r {
            Ok(report) => imported(
                old(store).data()@,
                catalog.has_unsupported_structural_directives,
                crate::text::views(catalog.aliases@),
                book@,
            ) == Ok::<(HostDatabaseView, ImportView), ImportFault>((final(store).data()@, report@)),
            Err(e) => {
                &&& imported(
                    old(store).data()@,
                    catalog.has_unsupported_structural_directives,
                    crate::text::views(catalog.aliases@),
                    book@,
                ) == Err::<(HostDatabaseView, ImportView), ImportFault>(e@)
                &&& final(store).data()@ == old(store).data()@
            },
        },
{
    if catalog.has_unsupported_structural_directives {
        return Err(ImportError::PartialConfig);
    }
    let mut candidate = store.copy();
    let mut report = ImportReport {
        imported_hosts: 0,
        skipped_existing: 0,
        skipped_unsupported_alias: 0,
        created_chains: 0,
        warnings: Vec::new(),
    };
    let ghost aliases = crate::text::views(catalog.aliases@);
    let ghost whole = aliases_imported(store.data()@, empty_report(), aliases, 0, book@);
    assert(report@ =~= empty_report());
    let mut i: usize = 0;
    while i < catalog.aliases.len()
        invariant
            aliases == crate::text::views(catalog.aliases@),
            !catalog.has_unsupported_structural_directives,
            whole == imported(old(store).data()@, false, aliases, book@),
            *store == *old(store),
            candidate.location() == store.location(),
            i <= catalog.aliases@.len(),
            report.imported_hosts <= i,
            report.skipped_existing <= i,
            report.skipped_unsupported_alias <= i,
            report.created_chains <= i,
            whole == aliases_imported(candidate.data()@, report@, aliases, i as int, book@),
        decreases catalog.aliases@.len() - i,
    {
        assert(aliases[i as int] == catalog.aliases@[i as int]@);
        import_alias(&mut candidate, &mut report, catalog.aliases[i].as_str(), book)?;
        i += 1;
    }
    match candidate.database().validate() {
        Ok(()) => {},
        Err(e) => {
            return Err(ImportError::Library(e));
        },
    }
    *store = candidate;
    Ok(report)
}

/// Hosts that the library already has are never changed by an import.
pub proof fn import_keeps_existing_hosts(
    d: HostDatabaseView,
    report: ImportView,
    aliases: Seq<Seq<char>>,
    i: int,
    book: crate::config::BookView,
    alias: Seq<char>,
)
    requires
        d.sorted(),
        crate::text_map::has_key(d.hosts, alias),
    ensures
        aliases_imported(d, report, aliases, i, book) matches Ok((after, _)) ==> {
            &&& after.valid()
            &&& crate::text_map::lookup(after.hosts, alias) == crate::text_map::lookup(
                d.hosts,
                alias,
            )
        },
    decreases aliases.len() - i,
{
    if 0 <= i < aliases.len() {
        if let Ok((next, counted)) = alias_imported(d, report, aliases[i], book) {
            crate::text_map::lemma_lookup(d.hosts, alias);
            crate::text_map::lemma_lookup(d.hosts, aliases[i]);
            if let Ok(config) = crate::config::openssh_config(aliases[i], None, None, book) {
                let name = chain_name_for(d.chains, aliases[i]);
                let chain = imported_chain(name, config);
                let plain = imported_host(aliases[i], config, None);
                let led = imported_host(aliases[i], config, Some(name));
                crate::text_map::lemma_put(d.chains, name, chain);
                crate::text_map::lemma_put(d.hosts, aliases[i], plain);
                crate::text_map::lemma_put(d.hosts, aliases[i], led);
                crate::text_map::lemma_lookup(
                    crate::text_map::put(d.hosts, aliases[i], plain),
                    alias,
                );
                crate::text_map::lemma_lookup(
                    crate::text_map::put(d.hosts, aliases[i], led),
                    alias,
                );
            }
            import_keeps_existing_hosts(next, counted, aliases, i + 1, book, alias);
        }
    }
}

} // verus!
