//! Laws of resolving: a host that is stored is reached as it was stored, and a
//! chain leads through the hosts that it names.

use vstd::prelude::*;

use crate::config::BookView;
use crate::config::ConfigFault;
use crate::config::ConfigView;
use crate::config::HostKeyPolicy;
use crate::config::JumpHostView;
use crate::model::HostDatabaseView;
use crate::model::JumpHopView;
use crate::model::StoredHostKeyPolicy;
use crate::resolver::ResolutionSource;
use crate::resolver::ResolveFault;

verus! {

/// The two policies are the same one.
pub open spec fn same_policy(stored: StoredHostKeyPolicy, policy: HostKeyPolicy) -> bool {
    &&& stored is Strict == policy is Strict
    &&& stored is AcceptNew == policy is AcceptNew
    &&& stored is Insecure == policy is Insecure
}

proof fn lemma_hops_resolved(
    done: Seq<JumpHostView>,
    d: HostDatabaseView,
    target: Seq<char>,
    hops: Seq<JumpHopView>,
    i: int,
    book: BookView,
) -> (bad: int)
    requires
        0 <= i <= hops.len(),
        done.len() == i,
    ensures
        match crate::resolver::hops_resolved(done, d, target, hops, i, book) {
            Ok(jumps) => {
                &&& jumps.len() == hops.len()
                &&& forall|k: int| 0 <= k < i ==> #[trigger] jumps[k] == done[k]
                &&& forall|k: int|
                    i <= k < hops.len() ==> crate::resolver::hop_jump(d, target, hops[k], k, book)
                        == Ok::<JumpHostView, ResolveFault>(#[trigger] jumps[k])
            },
            Err(e) => {
                &&& i <= bad < hops.len()
                &&& crate::resolver::hop_jump(d, target, hops[bad], bad, book) == Err::<
                    JumpHostView,
                    ResolveFault,
                >(e)
            },
        },
    decreases hops.len() - i,
{
    if i < hops.len() {
        match crate::resolver::hop_jump(d, target, hops[i], i, book) {
            Ok(jump) => {
                let after = done.push(jump);
                let bad = lemma_hops_resolved(after, d, target, hops, i + 1, book);
                match crate::resolver::hops_resolved(after, d, target, hops, i + 1, book) {
                    Ok(jumps) => {
                        assert(jumps[i] == after[i]);
                        assert forall|k: int| 0 <= k < i implies #[trigger] jumps[k] == done[k] by {
                            assert(jumps[k] == after[k]);
                        }
                    },
                    Err(_) => {},
                }
                bad
            },
            Err(_) => i,
        }
    } else {
        i
    }
}

/// A chain leads through the hosts that it names. Where hop `k` is a host of the
/// library, jump host `k` has the address, port, user and policy that are stored
/// for it; where the hop is written out in the chain, those of the hop; where it
/// is an alias, those that the OpenSSH settings of the alias give.
pub proof fn chains_lead_through_their_hops(
    d: HostDatabaseView,
    target: Seq<char>,
    c: int,
    k: int,
    book: BookView,
)
    requires
        d.sorted(),
        0 <= c < d.chains.len(),
        0 <= k < d.chains[c].1.hops.len(),
    ensures
        crate::resolver::chain_resolved(d, target, d.chains[c].0, book) matches Ok(jumps) ==> {
            let jump = jumps[k];
            &&& jumps.len() == d.chains[c].1.hops.len()
            &&& match d.chains[c].1.hops[k] {
                JumpHopView::Host(alias) => {
                    &&& alias != target
                    &&& exists|h: int| 0 <= h < d.hosts.len() && #[trigger] d.hosts[h].0 == alias
                    &&& forall|h: int|
                        0 <= h < d.hosts.len() && #[trigger] d.hosts[h].0 == alias ==> {
                            let record = d.hosts[h].1;
                            &&& jump.host == record.address && jump.port == record.port
                            &&& jump.username == record.user && jump.alias == record.alias
                            &&& same_policy(record.host_key_policy, jump.host_key_policy)
                            &&& record.identity_file is Some ==> jump.identity_files == seq![
                                record.identity_file->0,
                            ]
                        }
                },
                JumpHopView::Inline(inline) => {
                    &&& inline.alias != target
                    &&& jump.host == inline.host && jump.port == inline.port
                    &&& jump.username == inline.user && jump.alias == inline.alias
                    &&& same_policy(inline.host_key_policy, jump.host_key_policy)
                    &&& inline.identity_file is Some ==> jump.identity_files == seq![
                        inline.identity_file->0,
                    ]
                    &&& inline.identity_file is None ==> jump.identity_files.len() == 0
                    &&& jump.known_hosts_file is None
                },
                JumpHopView::OpenSshAlias(alias) => {
                    &&& alias != target && jump.alias == alias
                    &&& crate::config::openssh_config(alias, None, None, book) matches Ok(config)
                    &&& config.jump_hosts.len() == 0 && config.proxy_command is None
                    &&& jump.host == config.host && jump.port == config.port
                    &&& jump.username == config.username
                    &&& jump.identity_files == config.identity_files
                    &&& jump.known_hosts_file == config.known_hosts_file
                    &&& jump.host_key_policy == config.host_key_policy
                },
            }
        },
{
    let chain = d.chains[c].1;
    crate::text_map::lemma_lookup(d.chains, d.chains[c].0);
    if d.fault() is None {
        let bad = lemma_hops_resolved(Seq::empty(), d, target, chain.hops, 0, book);
        match crate::resolver::chain_resolved(d, target, d.chains[c].0, book) {
            Ok(jumps) => {
                let jump = jumps[k];
                match chain.hops[k] {
                    JumpHopView::Host(alias) => {
                        crate::text_map::lemma_lookup(d.hosts, alias);
                    },
                    _ => {},
                }
            },
            Err(_) => {},
        }
    }
}

/// A host of the library without a key file of its own uses the key files, and
/// every one the known hosts, that the OpenSSH settings of its alias name.
pub proof fn stored_hops_use_the_files_of_their_alias(
    d: HostDatabaseView,
    target: Seq<char>,
    c: int,
    k: int,
    h: int,
    book: BookView,
)
    requires
        d.sorted(),
        0 <= c < d.chains.len(),
        0 <= k < d.chains[c].1.hops.len(),
        0 <= h < d.hosts.len(),
        d.chains[c].1.hops[k] == JumpHopView::Host(d.hosts[h].0),
        crate::model::portable_name_fault(d.hosts[h].1.alias, "OpenSSH alias"@) is None,
    ensures
        crate::resolver::chain_resolved(d, target, d.chains[c].0, book) matches Ok(jumps) ==> {
            &&& crate::config::openssh_config(d.hosts[h].1.alias, None, None, book) matches Ok(config)
            &&& jumps[k].known_hosts_file == config.known_hosts_file
            &&& d.hosts[h].1.identity_file is None ==> jumps[k].identity_files
                == config.identity_files
        },
{
    let chain = d.chains[c].1;
    crate::text_map::lemma_lookup(d.chains, d.chains[c].0);
    crate::text_map::lemma_lookup(d.hosts, d.hosts[h].0);
    if d.fault() is None {
        let bad = lemma_hops_resolved(Seq::empty(), d, target, chain.hops, 0, book);
        match crate::resolver::chain_resolved(d, target, d.chains[c].0, book) {
            Ok(jumps) => {
                let jump = jumps[k];
            },
            Err(_) => {},
        }
    }
}

/// A chain that is stored in a sound library is refused only for one of its
/// hops: because the hop is the target, because OpenSSH cannot settle it, or
/// because it would be routed itself.
pub proof fn refused_chains_have_a_bad_hop(
    d: HostDatabaseView,
    target: Seq<char>,
    c: int,
    book: BookView,
) -> (k: int)
    requires
        d.sorted(),
        d.fault() is None,
        0 <= c < d.chains.len(),
    ensures
        crate::resolver::chain_resolved(d, target, d.chains[c].0, book) matches Err(e) ==> {
            let hops = d.chains[c].1.hops;
            &&& 0 <= k < hops.len()
            &&& match e {
                ResolveFault::RoutingLoop { hop } => hop == (k + 1) as usize && match hops[k] {
                    JumpHopView::Host(alias) => alias == target,
                    JumpHopView::OpenSshAlias(alias) => alias == target,
                    JumpHopView::Inline(inline) => inline.alias == target,
                },
                ResolveFault::NestedRoute => {
                    &&& hops[k] matches JumpHopView::OpenSshAlias(alias)
                    &&& crate::config::openssh_config(alias, None, None, book) matches Ok(config)
                    &&& config.jump_hosts.len() > 0 || config.proxy_command is Some
                },
                ResolveFault::OpenSsh(f) => match hops[k] {
                    JumpHopView::OpenSshAlias(alias) => crate::config::openssh_config(
                        alias,
                        None,
                        None,
                        book,
                    ) == Err::<ConfigView, ConfigFault>(f),
                    JumpHopView::Host(alias) => exists|h: int|
                        0 <= h < d.hosts.len() && #[trigger] d.hosts[h].0 == alias
                            && crate::config::openssh_config(
                            d.hosts[h].1.alias,
                            None,
                            None,
                            book,
                        ) == Err::<ConfigView, ConfigFault>(f),
                    JumpHopView::Inline(_) => false,
                },
                ResolveFault::Library(_) => {
                    &&& hops[k] matches JumpHopView::Host(alias)
                    &&& forall|h: int| 0 <= h < d.hosts.len() ==> #[trigger] d.hosts[h].0 != alias
                },
                ResolveFault::UnknownChain => false,
            }
        },
{
    let chain = d.chains[c].1;
    crate::text_map::lemma_lookup(d.chains, d.chains[c].0);
    let bad = lemma_hops_resolved(Seq::empty(), d, target, chain.hops, 0, book);
    match crate::resolver::chain_resolved(d, target, d.chains[c].0, book) {
        Ok(_) => {},
        Err(e) => {
            if let JumpHopView::Host(alias) = chain.hops[bad] {
                crate::text_map::lemma_lookup(d.hosts, alias);
            }
        },
    }
    bad
}

/// A host that is stored is reached as it was stored: at its address, and at its
/// port and as its user where the call asks for no other. Its chain, where it
/// has one, is the way to it.
pub proof fn stored_hosts_are_reached_as_stored(
    d: HostDatabaseView,
    h: int,
    user: Option<Seq<char>>,
    port: Option<u16>,
    book: BookView,
)
    requires
        d.sorted(),
        0 <= h < d.hosts.len(),
    ensures
        ({
            let record = d.hosts[h].1;
            crate::resolver::host_resolved(d, d.hosts[h].0, user, port, book) matches Ok(
                (source, config),
            ) ==> {
                &&& source is HostLibrary
                &&& config.alias == record.alias && config.host == record.address
                &&& config.port == (match port {
                    Some(number) => number,
                    None => record.port,
                })
                &&& config.username == (match user {
                    Some(name) => name,
                    None => record.user,
                })
                &&& same_policy(record.host_key_policy, config.host_key_policy)
                &&& record.identity_file is Some ==> config.identity_files == seq![
                    record.identity_file->0,
                ]
                &&& crate::route_law::has_usual_times(config)
                &&& record.jump_chain is Some ==> {
                    &&& config.proxy_command is None
                    &&& crate::resolver::chain_resolved(
                        d,
                        d.hosts[h].0,
                        record.jump_chain->0,
                        book,
                    ) == Ok::<Seq<JumpHostView>, ResolveFault>(config.jump_hosts)
                }
            }
        }),
{
    crate::text_map::lemma_lookup(d.hosts, d.hosts[h].0);
    let record = d.hosts[h].1;
    crate::route_law::openssh_times_are_usual(record.alias, None, None, book);
}

/// What a stored host does not say, the OpenSSH settings of its alias say: the
/// key files, the known hosts, and the way to it where it has no chain.
pub proof fn stored_hosts_fall_back_to_their_alias(
    d: HostDatabaseView,
    h: int,
    user: Option<Seq<char>>,
    port: Option<u16>,
    book: BookView,
)
    requires
        d.sorted(),
        0 <= h < d.hosts.len(),
        crate::model::portable_name_fault(d.hosts[h].1.alias, "OpenSSH alias"@) is None,
    ensures
        ({
            let record = d.hosts[h].1;
            match (
                crate::resolver::host_resolved(d, d.hosts[h].0, user, port, book),
                crate::config::openssh_config(record.alias, None, None, book),
            ) {
                (Ok((_, config)), Ok(settings)) => {
                    &&& config.known_hosts_file == settings.known_hosts_file
                    &&& record.identity_file is None ==> config.identity_files
                        == settings.identity_files
                    &&& record.jump_chain is None ==> config.jump_hosts == settings.jump_hosts
                        && config.proxy_command == settings.proxy_command
                },
                (Ok(_), Err(_)) => false,
                (Err(e), Ok(_)) => {
                    ||| d.fault() is Some && e == ResolveFault::Library(d.fault()->0)
                    ||| record.jump_chain is Some && crate::resolver::chain_resolved(
                        d,
                        d.hosts[h].0,
                        record.jump_chain->0,
                        book,
                    ) == Err::<Seq<JumpHostView>, ResolveFault>(e)
                },
                (Err(e), Err(f)) => {
                    ||| d.fault() is Some && e == ResolveFault::Library(d.fault()->0)
                    ||| e == ResolveFault::OpenSsh(f)
                },
            }
        }),
{
    crate::text_map::lemma_lookup(d.hosts, d.hosts[h].0);
}

/// A stored host whose name is one for people starts from nothing: no key files
/// but its own, no known hosts, and no way but its chain.
pub proof fn named_hosts_start_from_nothing(
    d: HostDatabaseView,
    h: int,
    user: Option<Seq<char>>,
    port: Option<u16>,
    book: BookView,
)
    requires
        d.sorted(),
        0 <= h < d.hosts.len(),
        crate::model::portable_name_fault(d.hosts[h].1.alias, "OpenSSH alias"@) is Some,
    ensures
        ({
            let record = d.hosts[h].1;
            crate::resolver::host_resolved(d, d.hosts[h].0, user, port, book) matches Ok(
                (_, config),
            ) ==> {
                &&& config.known_hosts_file is None
                &&& config.proxy_command is None
                &&& record.identity_file is None ==> config.identity_files.len() == 0
                &&& record.jump_chain is None ==> config.jump_hosts.len() == 0
            }
        }),
        d.fault() is None && d.hosts[h].1.jump_chain is None ==> crate::resolver::host_resolved(
            d,
            d.hosts[h].0,
            user,
            port,
            book,
        ) is Ok,
{
    crate::text_map::lemma_lookup(d.hosts, d.hosts[h].0);
}

/// An alias that is not stored is what OpenSSH says of it.
pub proof fn other_aliases_are_left_to_openssh(
    d: HostDatabaseView,
    alias: Seq<char>,
    user: Option<Seq<char>>,
    port: Option<u16>,
    book: BookView,
)
    requires
        d.sorted(),
        d.fault() is None,
        forall|h: int| 0 <= h < d.hosts.len() ==> #[trigger] d.hosts[h].0 != alias,
    ensures
        crate::resolver::host_resolved(d, alias, user, port, book) == (
        match crate::config::openssh_config(alias, user, port, book) {
            Ok(config) => Ok::<(ResolutionSource, ConfigView), ResolveFault>(
                (ResolutionSource::OpenSsh, config),
            ),
            Err(f) => Err(ResolveFault::OpenSsh(f)),
        }),
{
    crate::text_map::lemma_lookup(d.hosts, alias);
}

} // verus!
