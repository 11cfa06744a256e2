//! Turning entries of the host library into connection configurations.

use vstd::prelude::*;

use crate::config::ConfigError;
use crate::config::ConfigFault;
use crate::config::ConfigView;
use crate::config::ConnectionConfig;
use crate::config::HostKeyPolicy;
use crate::config::JumpHost;
use crate::config::JumpHostView;
use crate::config::OpenSshBook;
use crate::config::BookView;
use crate::model::validate_portable_name;
use crate::model::HostDatabase;
use crate::model::HostDatabaseView;
use crate::model::HostError;
use crate::model::HostFault;
use crate::model::HostRecord;
use crate::model::HostRecordView;
use crate::model::InlineJump;
use crate::model::InlineJumpView;
use crate::model::JumpHop;
use crate::model::JumpHopView;
use crate::model::StoredHostKeyPolicy;
use crate::text::same_text;

verus! {

#[derive(Debug, Clone, Copy, PartialEq, Eq, Structural)]
pub enum ResolutionSource {
    HostLibrary,
    OpenSsh,
}

#[derive(Debug, Clone, PartialEq, Eq)]
pub struct ResolvedHost {
    pub source: ResolutionSource,
    pub config: ConnectionConfig,
}

/// Why a host cannot be resolved.
#[derive(Debug, PartialEq, Eq)]
pub enum ResolveError {
    Library(HostError),
    OpenSsh(ConfigError),
    UnknownChain,
    RoutingLoop { hop: usize },
    NestedRoute,
}

#[verifier::ext_equal]
pub enum ResolveFault {
    Library(HostFault),
    OpenSsh(ConfigFault),
    UnknownChain,
    RoutingLoop { hop: usize },
    NestedRoute,
}

impl View for ResolveError {
    type V = ResolveFault;

    open spec fn view(&self) -> ResolveFault {
        match *self {
            ResolveError::Library(e) => ResolveFault::Library(e@),
            ResolveError::OpenSsh(e) => ResolveFault::OpenSsh(e@),
            ResolveError::UnknownChain => ResolveFault::UnknownChain,
            ResolveError::RoutingLoop { hop } => ResolveFault::RoutingLoop { hop },
            ResolveError::NestedRoute => ResolveFault::NestedRoute,
        }
    }
}

pub open spec fn mapped_policy(policy: StoredHostKeyPolicy) -> HostKeyPolicy {
    match policy {
        StoredHostKeyPolicy::Strict => HostKeyPolicy::Strict,
        StoredHostKeyPolicy::AcceptNew => HostKeyPolicy::AcceptNew,
        StoredHostKeyPolicy::Insecure => HostKeyPolicy::Insecure,
    }
}

pub fn map_host_key_policy(policy: StoredHostKeyPolicy) -> (r: HostKeyPolicy)
    ensures
        r == mapped_policy(policy),
{
    match policy {
        StoredHostKeyPolicy::Strict => HostKeyPolicy::Strict,
        StoredHostKeyPolicy::AcceptNew => HostKeyPolicy::AcceptNew,
        StoredHostKeyPolicy::Insecure => HostKeyPolicy::Insecure,
    }
}

/// What a record starts from: the OpenSSH settings of a portable alias. A name
/// for people is no OpenSSH alias; its record starts from the defaults.
pub open spec fn fallback_config(record: HostRecordView, book: BookView) -> Result<
    ConfigView,
    ConfigFault,
> {
    if crate::model::portable_name_fault(record.alias, "OpenSSH alias"@) is None {
        crate::config::openssh_config(record.alias, None, None, book)
    } else {
        Ok(crate::config::default_config(record.address, record.user))
    }
}

/// The record laid over what it starts from.
pub open spec fn overlaid(
    config: ConfigView,
    record: HostRecordView,
    user: Option<Seq<char>>,
    port: Option<u16>,
) -> ConfigView {
    ConfigView {
        alias: record.alias,
        host: record.address,
        port: match port {
            Some(p) => p,
            None => record.port,
        },
        username: match user {
            Some(u) => u,
            None => record.user,
        },
        identity_files: match record.identity_file {
            Some(path) => seq![path],
            None => config.identity_files,
        },
        host_key_policy: mapped_policy(record.host_key_policy),
        ..config
    }
}

pub open spec fn record_jump(record: HostRecordView, book: BookView) -> Result<
    JumpHostView,
    ResolveFault,
> {
    match fallback_config(record, book) {
        Err(e) => Err(ResolveFault::OpenSsh(e)),
        Ok(fallback) => Ok(
            JumpHostView {
                alias: record.alias,
                host: record.address,
                port: record.port,
                username: record.user,
                identity_files: match record.identity_file {
                    Some(path) => seq![path],
                    None => fallback.identity_files,
                },
                host_key_policy: mapped_policy(record.host_key_policy),
                known_hosts_file: fallback.known_hosts_file,
            },
        ),
    }
}

/// An OpenSSH alias as a jump node: it must not be routed itself.
pub open spec fn alias_jump(alias: Seq<char>, book: BookView) -> Result<
    JumpHostView,
    ResolveFault,
> {
    match crate::config::openssh_config(alias, None, None, book) {
        Err(e) => Err(ResolveFault::OpenSsh(e)),
        Ok(config) => if config.jump_hosts.len() > 0 || config.proxy_command is Some {
            Err(ResolveFault::NestedRoute)
        } else {
            Ok(
                JumpHostView {
                    alias,
                    host: config.host,
                    port: config.port,
                    username: config.username,
                    identity_files: config.identity_files,
                    host_key_policy: config.host_key_policy,
                    known_hosts_file: config.known_hosts_file,
                },
            )
        },
    }
}

pub open spec fn inline_jump(jump: InlineJumpView) -> JumpHostView {
    JumpHostView {
        alias: jump.alias,
        host: jump.host,
        port: jump.port,
        username: jump.user,
        identity_files: match jump.identity_file {
            Some(path) => seq![path],
            None => Seq::empty(),
        },
        host_key_policy: mapped_policy(jump.host_key_policy),
        known_hosts_file: None,
    }
}

/// The hop at `i`, towards a target that must not be the hop itself.
pub open spec fn hop_jump(
    d: HostDatabaseView,
    target: Seq<char>,
    hop: JumpHopView,
    i: int,
    book: BookView,
) -> Result<JumpHostView, ResolveFault> {
    if hop.name() == target {
        Err(ResolveFault::RoutingLoop { hop: (i + 1) as usize })
    } else {
        match hop {
            JumpHopView::Host(alias) => match crate::text_map::lookup(d.hosts, alias) {
                None => Err(
                    ResolveFault::Library(
                        HostFault {
                            problem: crate::model::HostProblem::MissingHost,
                            subject: alias,
                        },
                    ),
                ),
                Some(record) => record_jump(record, book),
            },
            JumpHopView::OpenSshAlias(alias) => alias_jump(alias, book),
            JumpHopView::Inline(jump) => Ok(inline_jump(jump)),
        }
    }
}

/// The hops from index `i` on, after `done`.
pub open spec fn hops_resolved(
    done: Seq<JumpHostView>,
    d: HostDatabaseView,
    target: Seq<char>,
    hops: Seq<JumpHopView>,
    i: int,
    book: BookView,
) -> Result<Seq<JumpHostView>, ResolveFault>
    decreases hops.len() - i,
{
    if i < 0 || i >= hops.len() {
        Ok(done)
    } else {
        match hop_jump(d, target, hops[i], i, book) {
            Err(e) => Err(e),
            Ok(jump) => hops_resolved(done.push(jump), d, target, hops, i + 1, book),
        }
    }
}

/// The jump hosts of a chain of the library.
pub open spec fn chain_resolved(
    d: HostDatabaseView,
    target: Seq<char>,
    name: Seq<char>,
    book: BookView,
) -> Result<Seq<JumpHostView>, ResolveFault> {
    match d.fault() {
        Some(f) => Err(ResolveFault::Library(f)),
        None => match crate::text_map::lookup(d.chains, name) {
            None => Err(ResolveFault::UnknownChain),
            Some(chain) => hops_resolved(Seq::empty(), d, target, chain.hops, 0, book),
        },
    }
}

/// The configuration of an alias: its record in the library, or what OpenSSH
/// says of it.
pub open spec fn host_resolved(
    d: HostDatabaseView,
    alias: Seq<char>,
    user: Option<Seq<char>>,
    port: Option<u16>,
    book: BookView,
) -> Result<(ResolutionSource, ConfigView), ResolveFault> {
    match d.fault() {
        Some(f) => Err(ResolveFault::Library(f)),
        None => match crate::text_map::lookup(d.hosts, alias) {
            None => match crate::config::openssh_config(alias, user, port, book) {
                Ok(config) => Ok((ResolutionSource::OpenSsh, config)),
                Err(e) => Err(ResolveFault::OpenSsh(e)),
            },
            Some(record) => match fallback_config(record, book) {
                Err(e) => Err(ResolveFault::OpenSsh(e)),
                Ok(fallback) => {
                    let config = overlaid(fallback, record, user, port);
                    match record.jump_chain {
                        None => Ok((ResolutionSource::HostLibrary, config)),
                        Some(name) => match chain_resolved(d, alias, name, book) {
                            Err(e) => Err(e),
                            Ok(jumps) => Ok(
                                (
                                    ResolutionSource::HostLibrary,
                                    ConfigView {
                                        jump_hosts: jumps,
                                        proxy_command: None,
                                        ..config
                                    },
                                ),
                            ),
                        },
                    }
                },
            },
        },
    }
}

fn record_fallback(record: &HostRecord, book: &OpenSshBook) -> (r: Result<
    ConnectionConfig,
    ConfigError,
>)
    ensures
        match r {
            Ok(config) => fallback_config(record@, book@) == Ok::<ConfigView, ConfigFault>(config@),
            Err(e) => fallback_config(record@, book@) == Err::<ConfigView, ConfigFault>(e@),
        },
{
    match validate_portable_name(record.alias.as_str(), "OpenSSH alias") {
        Ok(()) => ConnectionConfig::from_openssh(record.alias.as_str(), None, None, book),
        Err(_) => Ok(ConnectionConfig::new(record.address.as_str(), record.user.as_str())),
    }
}

fn overlay_record(
    config: &mut ConnectionConfig,
    record: &HostRecord,
    user_override: Option<&str>,
    port_override: Option<u16>,
)
    ensures
        final(config)@ == overlaid(
            old(config)@,
            record@,
            crate::config::option_str(user_override),
            port_override,
        ),
{
    config.alias = record.alias.clone();
    config.host = record.address.clone();
    config.port =
    match port_override {
        Some(p) => p,
        None => record.port,
    };
    config.username =
    match user_override {
        Some(u) => u.to_owned(),
        None => record.user.clone(),
    };
    if let Some(path) = &record.identity_file {
        config.identity_files = single_path(path.as_str());
    }
    config.host_key_policy = map_host_key_policy(record.host_key_policy);
}

fn single_path(path: &str) -> (r: Vec<String>)
    ensures
        crate::text::views(r@) == seq![path@],
{
    let mut files: Vec<String> = Vec::new();
    files.push(path.to_owned());
    assert(crate::text::views(files@) =~= seq![path@]);
    files
}

fn jump_from_host_record(record: &HostRecord, book: &OpenSshBook) -> (r: Result<
    JumpHost,
    ResolveError,
>)
    ensures
        match r {
            Ok(jump) => record_jump(record@, book@) == Ok::<JumpHostView, ResolveFault>(jump@),
            Err(e) => record_jump(record@, book@) == Err::<JumpHostView, ResolveFault>(e@),
        },
{
    let fallback = match record_fallback(record, book) {
        Ok(config) => config,
        Err(e) => {
            return Err(ResolveError::OpenSsh(e));
        },
    };
    let identity_files = match &record.identity_file {
        Some(path) => single_path(path.as_str()),
        None => fallback.identity_files,
    };
    Ok(
        JumpHost {
            alias: record.alias.clone(),
            host: record.address.clone(),
            port: record.port,
            username: record.user.clone(),
            identity_files,
            host_key_policy: map_host_key_policy(record.host_key_policy),
            known_hosts_file: fallback.known_hosts_file,
        },
    )
}

fn jump_from_openssh_alias(alias: &str, book: &OpenSshBook) -> (r: Result<JumpHost, ResolveError>)
    ensures
        match r {
            Ok(jump) => alias_jump(alias@, book@) == Ok::<JumpHostView, ResolveFault>(jump@),
            Err(e) => alias_jump(alias@, book@) == Err::<JumpHostView, ResolveFault>(e@),
        },
{
    let config = match ConnectionConfig::from_openssh(alias, None, None, book) {
        Ok(config) => config,
        Err(e) => {
            return Err(ResolveError::OpenSsh(e));
        },
    };
    if config.jump_hosts.len() > 0 || config.proxy_command.is_some() {
        return Err(ResolveError::NestedRoute);
    }
    Ok(
        JumpHost {
            alias: alias.to_owned(),
            host: config.host,
            port: config.port,
            username: config.username,
            identity_files: config.identity_files,
            host_key_policy: config.host_key_policy,
            known_hosts_file: config.known_hosts_file,
        },
    )
}

fn jump_from_inline(jump: &InlineJump) -> (r: JumpHost)
    ensures
        r@ == inline_jump(jump@),
{
    let identity_files = match &jump.identity_file {
        Some(path) => single_path(path.as_str()),
        None => {
            let none: Vec<String> = Vec::new();
            assert(crate::text::views(none@) =~= Seq::<Seq<char>>::empty());
            none
        },
    };
    JumpHost {
        alias: jump.alias.clone(),
        host: jump.host.clone(),
        port: jump.port,
        username: jump.user.clone(),
        identity_files,
        host_key_policy: map_host_key_policy(jump.host_key_policy),
        known_hosts_file: None,
    }
}

fn resolve_hop(
    database: &HostDatabase,
    target_alias: &str,
    hop: &JumpHop,
    index: usize,
    book: &OpenSshBook,
) -> (r: Result<JumpHost, ResolveError>)
    requires
        index < usize::MAX,
    ensures
        match r {
            Ok(jump) => hop_jump(database@, target_alias@, hop@, index as int, book@) == Ok::<
                JumpHostView,
                ResolveFault,
            >(jump@),
            Err(e) => hop_jump(database@, target_alias@, hop@, index as int, book@) == Err::<
                JumpHostView,
                ResolveFault,
            >(e@),
        },
{
    if same_text(hop.display_name(), target_alias) {
        return Err(ResolveError::RoutingLoop { hop: index + 1 });
    }
    match hop {
        JumpHop::Host(alias) => {
            database.hosts.recall_order();
            proof {
                crate::text_map::lemma_map_entries(
                    database.hosts.entries(),
                    crate::model::record_view(),
                    alias@,
                );
            }
            match database.hosts.get(alias.as_str()) {
                Some(record) => jump_from_host_record(record, book),
                None => Err(
                    ResolveError::Library(
                        crate::model::host_error(
                            crate::model::HostProblem::MissingHost,
                            alias.as_str(),
                        ),
                    ),
                ),
            }
        },
        JumpHop::OpenSshAlias(alias) => jump_from_openssh_alias(alias.as_str(), book),
        JumpHop::Inline(jump) => Ok(jump_from_inline(jump)),
    }
}

/// Resolves the hops of a chain in their order. The target itself is never
/// one of them.
pub fn resolve_chain(
    database: &HostDatabase,
    target_alias: &str,
    chain_name: &str,
    book: &OpenSshBook,
) -> (r: Result<Vec<JumpHost>, ResolveError>)
    ensures
        match r {
            Ok(jumps) => chain_resolved(database@, target_alias@, chain_name@, book@) == Ok::<
                Seq<JumpHostView>,
                ResolveFault,
            >(crate::config::jump_views(jumps@)),
            Err(e) => chain_resolved(database@, target_alias@, chain_name@, book@) == Err::<
                Seq<JumpHostView>,
                ResolveFault,
            >(e@),
        },
{
    match database.validate() {
        Ok(()) => {},
        Err(e) => {
            return Err(ResolveError::Library(e));
        },
    }
    database.chains.recall_order();
    proof {
        crate::text_map::lemma_map_entries(
            database.chains.entries(),
            crate::model::chain_view(),
            chain_name@,
        );
    }
    let chain = match database.chains.get(chain_name) {
        Some(chain) => chain,
        None => {
            return Err(ResolveError::UnknownChain);
        },
    };
    let mut out: Vec<JumpHost> = Vec::new();
    assert(crate::config::jump_views(out@) =~= Seq::<JumpHostView>::empty());
    let mut i: usize = 0;
    while i < chain.hops.len()
        invariant
            chain_resolved(database@, target_alias@, chain_name@, book@) == hops_resolved(
                Seq::empty(),
                database@,
                target_alias@,
                chain@.hops,
                0,
                book@,
            ),
            i <= chain.hops@.len(),
            hops_resolved(Seq::empty(), database@, target_alias@, chain@.hops, 0, book@)
                == hops_resolved(
                crate::config::jump_views(out@),
                database@,
                target_alias@,
                chain@.hops,
                i as int,
                book@,
            ),
        decreases chain.hops@.len() - i,
    {
        assert(chain@.hops[i as int] == chain.hops@[i as int]@);
        let jump = resolve_hop(database, target_alias, &chain.hops[i], i, book)?;
        let ghost before = out@;
        out.push(jump);
        assert(crate::config::jump_views(out@) =~= crate::config::jump_views(before).push(jump@));
        i += 1;
    }
    Ok(out)
}

/// Resolves an alias to a connection configuration.
pub fn resolve_host(
    database: &HostDatabase,
    alias: &str,
    user_override: Option<&str>,
    port_override: Option<u16>,
    book: &OpenSshBook,
) -> (r: Result<ResolvedHost, ResolveError>)
    ensures
        match r {
            Ok(resolved) => host_resolved(
                database@,
                alias@,
                crate::config::option_str(user_override),
                port_override,
                book@,
            ) == Ok::<(ResolutionSource, ConfigView), ResolveFault>(
                (resolved.source, resolved.config@),
            ),
            Err(e) => host_resolved(
                database@,
                alias@,
                crate::config::option_str(user_override),
                port_override,
                book@,
            ) == Err::<(ResolutionSource, ConfigView), ResolveFault>(e@),
        },
{
    match database.validate() {
        Ok(()) => {},
        Err(e) => {
            return Err(ResolveError::Library(e));
        },
    }
    database.hosts.recall_order();
    proof {
        crate::text_map::lemma_map_entries(
            database.hosts.entries(),
            crate::model::record_view(),
            alias@,
        );
    }
    let record = match database.hosts.get(alias) {
        Some(record) => record,
        None => {
            return match ConnectionConfig::from_openssh(alias, user_override, port_override, book) {
                Ok(config) => Ok(ResolvedHost { source: ResolutionSource::OpenSsh, config }),
                Err(e) => Err(ResolveError::OpenSsh(e)),
            };
        },
    };
    let mut config = match record_fallback(record, book) {
        Ok(config) => config,
        Err(e) => {
            return Err(ResolveError::OpenSsh(e));
        },
    };
    overlay_record(&mut config, record, user_override, port_override);
    if let Some(chain_name) = &record.jump_chain {
        config.jump_hosts = resolve_chain(database, alias, chain_name.as_str(), book)?;
        config.proxy_command = None;
    }
    Ok(ResolvedHost { source: ResolutionSource::HostLibrary, config })
}

proof fn lemma_hops_avoid_target(
    done: Seq<JumpHostView>,
    d: HostDatabaseView,
    target: Seq<char>,
    hops: Seq<JumpHopView>,
    i: int,
    book: BookView,
)
    requires
        0 <= i <= hops.len(),
        done.len() == i,
        d.valid(),
        d.sorted(),
        forall|k: int| 0 <= k < i ==> (#[trigger] done[k]).alias == hops[k].name(),
        forall|k: int| 0 <= k < i ==> (#[trigger] done[k]).alias != target,
    ensures
        hops_resolved(done, d, target, hops, i, book) matches Ok(jumps) ==> {
            &&& jumps.len() == hops.len()
            &&& forall|k: int| 0 <= k < jumps.len() ==> (#[trigger] jumps[k]).alias != target
            &&& forall|k: int| 0 <= k < jumps.len() ==> (#[trigger] jumps[k]).alias == hops[k].name()
        },
    decreases hops.len() - i,
{
    if i < hops.len() {
        match hop_jump(d, target, hops[i], i, book) {
            Ok(jump) => {
                if let JumpHopView::Host(alias) = hops[i] {
                    crate::store_law::validity_is_soundness(d);
                    crate::text_map::lemma_lookup(d.hosts, alias);
                    let p = crate::text_map::rank(d.hosts, alias);
                    assert(crate::store_law::host_sound(d, p));
                }
                assert(jump.alias == hops[i].name());
                lemma_hops_avoid_target(done.push(jump), d, target, hops, i + 1, book);
            },
            Err(_) => {},
        }
    }
}

/// The jump hosts of a chain come in the order of its hops, go by their names,
/// and the target is not among them.
pub proof fn chain_keeps_order_and_avoids_target(
    d: HostDatabaseView,
    target: Seq<char>,
    name: Seq<char>,
    book: BookView,
)
    requires
        d.sorted(),
    ensures
        chain_resolved(d, target, name, book) matches Ok(jumps) ==> {
            let hops = crate::text_map::lookup(d.chains, name)->0.hops;
            &&& jumps.len() == hops.len()
            &&& forall|k: int| 0 <= k < jumps.len() ==> (#[trigger] jumps[k]).alias != target
            &&& forall|k: int| 0 <= k < jumps.len() ==> (#[trigger] jumps[k]).alias == hops[k].name()
        },
{
    if d.fault() is None {
        match crate::text_map::lookup(d.chains, name) {
            Some(chain) => {
                lemma_hops_avoid_target(Seq::empty(), d, target, chain.hops, 0, book);
            },
            None => {},
        }
    }
}

} // verus!
