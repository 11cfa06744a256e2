//! Laws of importing: what is taken over of an alias, and what is counted.

use vstd::prelude::*;

use crate::config::BookView;
use crate::config::ConfigView;
use crate::import::ImportFault;
use crate::import::ImportView;
use crate::model::HostDatabaseView;
use crate::model::JumpChainView;
use crate::model::JumpHopView;

verus! {

/// A host is taken over with its address, port, user and policy, the first of
/// its key files, and a tag that tells where it came from.
pub proof fn hosts_are_taken_over_as_configured(
    alias: Seq<char>,
    config: ConfigView,
    chain: Option<Seq<char>>,
)
    ensures
        ({
            let record = crate::import::imported_host(alias, config, chain);
            &&& record.alias == alias && record.address == config.host && record.port == config.port
                && record.user == config.username
            &&& crate::resolve_law::same_policy(record.host_key_policy, config.host_key_policy)
            &&& config.identity_files.len() > 0 ==> record.identity_file == Some(
                config.identity_files[0],
            )
            &&& config.identity_files.len() == 0 ==> record.identity_file is None
            &&& record.jump_chain == chain
            &&& record.tags == seq!["openssh-import"@] && record.groups.len() == 0
                && record.note is None
            &&& record.stats.connection_count == 0 && record.stats.last_connected_unix is None
                && record.stats.last_auth_method is None
        }),
{
}

/// The chain of a host that is taken over leads through its jump hosts in their
/// order, by their aliases.
pub proof fn routes_are_taken_over_in_order(name: Seq<char>, config: ConfigView)
    ensures
        ({
            let chain = crate::import::imported_chain(name, config);
            &&& chain.name == name && chain.hops.len() == config.jump_hosts.len()
            &&& forall|i: int|
                0 <= i < chain.hops.len() ==> #[trigger] chain.hops[i]
                    == JumpHopView::OpenSshAlias(config.jump_hosts[i].alias)
        }),
{
}

/// An alias that is stored already is left as it is, and one that cannot be
/// stored is left out, with a warning. Any other one is stored as its settings
/// say, with a chain of its own where it is reached through jump hosts.
pub proof fn aliases_are_taken_over_once(
    d: HostDatabaseView,
    report: ImportView,
    alias: Seq<char>,
    book: BookView,
)
    requires
        d.sorted(),
    ensures
        ({
            let stored = crate::model_law::is_stored(d, alias);
            let plain = crate::model_law::is_plain_name(alias);
            match crate::import::alias_imported(d, report, alias, book) {
                Ok((after, counted)) => {
                    &&& stored ==> after == d && counted == (ImportView {
                        skipped_existing: report.skipped_existing + 1,
                        ..report
                    })
                    &&& !stored && !plain ==> {
                        &&& after == d
                        &&& counted.skipped_unsupported_alias == report.skipped_unsupported_alias + 1
                        &&& counted.warnings.len() == report.warnings.len() + 1
                        &&& counted.imported_hosts == report.imported_hosts
                        &&& counted.skipped_existing == report.skipped_existing
                        &&& counted.created_chains == report.created_chains
                    }
                    &&& !stored && plain ==> {
                        &&& crate::config::openssh_config(alias, None, None, book) matches Ok(config)
                        &&& crate::text_map::lookup(after.hosts, alias) matches Some(record)
                        &&& record.address == config.host && record.port == config.port
                            && record.user == config.username
                        &&& after.hosts.len() == d.hosts.len() + 1
                        &&& counted.imported_hosts == report.imported_hosts + 1
                        &&& counted.skipped_existing == report.skipped_existing
                        &&& counted.skipped_unsupported_alias == report.skipped_unsupported_alias
                        &&& counted.warnings == report.warnings
                        &&& config.jump_hosts.len() == 0 ==> record.jump_chain is None
                            && after.chains == d.chains && counted.created_chains
                            == report.created_chains
                        &&& config.jump_hosts.len() > 0 ==> {
                            &&& counted.created_chains == report.created_chains + 1
                            &&& after.chains.len() == d.chains.len() + 1
                            &&& record.jump_chain matches Some(name)
                            &&& crate::text_map::lookup(d.chains, name) is None
                            &&& crate::text_map::lookup(after.chains, name) matches Some(chain)
                            &&& chain == crate::import::imported_chain(name, config)
                        }
                    }
                },
                Err(_) => !stored && plain,
            }
        }),
{
    crate::text_map::lemma_lookup(d.hosts, alias);
    crate::model_law::accepted_texts_are_proper(alias, "OpenSSH alias"@);
    if crate::model_law::is_stored(d, alias) {
        let h = choose|h: int| 0 <= h < d.hosts.len() && #[trigger] d.hosts[h].0 == alias;
        assert(crate::text_map::has_key(d.hosts, alias));
    } else {
        assert(!crate::text_map::has_key(d.hosts, alias)) by {
            if crate::text_map::has_key(d.hosts, alias) {
                let h = choose|h: int| 0 <= h < d.hosts.len() && #[trigger] d.hosts[h].0 == alias;
                assert(d.hosts[h].0 == alias);
            }
        }
        match crate::config::openssh_config(alias, None, None, book) {
            Ok(config) => {
                if config.jump_hosts.len() == 0 {
                    let host = crate::import::imported_host(alias, config, None);
                    crate::text_map::lemma_put(d.hosts, alias, host);
                } else {
                    let name = crate::import::chain_name_for(d.chains, alias);
                    let chain = crate::import::imported_chain(name, config);
                    let host = crate::import::imported_host(alias, config, Some(name));
                    crate::text_map::lemma_put(d.hosts, alias, host);
                    crate::text_map::lemma_put(d.chains, name, chain);
                    crate::text_map::lemma_lookup(d.chains, name);
                }
            },
            Err(_) => {},
        }
    }
}

/// All that is counted adds up: every alias is stored, was stored before or could
/// not be; and the library has grown by what was counted.
pub proof fn imports_add_up(
    d: HostDatabaseView,
    report: ImportView,
    aliases: Seq<Seq<char>>,
    i: int,
    book: BookView,
)
    requires
        d.sorted(),
        0 <= i <= aliases.len(),
    ensures
        crate::import::aliases_imported(d, report, aliases, i, book) matches Ok((after, counted))
            ==> {
            &&& counted.imported_hosts + counted.skipped_existing
                + counted.skipped_unsupported_alias == report.imported_hosts
                + report.skipped_existing + report.skipped_unsupported_alias + aliases.len() - i
            &&& after.hosts.len() == d.hosts.len() + counted.imported_hosts - report.imported_hosts
            &&& after.chains.len() == d.chains.len() + counted.created_chains
                - report.created_chains
            &&& counted.warnings.len() == report.warnings.len() + counted.skipped_unsupported_alias
                - report.skipped_unsupported_alias
            &&& after.valid() && after.sorted()
        },
    decreases aliases.len() - i,
{
    if i < aliases.len() {
        aliases_are_taken_over_once(d, report, aliases[i], book);
        match crate::import::alias_imported(d, report, aliases[i], book) {
            Ok((next, counted)) => {
                assert(next.sorted()) by {
                    lemma_still_sorted(d, report, aliases[i], book);
                }
                imports_add_up(next, counted, aliases, i + 1, book);
            },
            Err(_) => {},
        }
    }
}

proof fn lemma_still_sorted(
    d: HostDatabaseView,
    report: ImportView,
    alias: Seq<char>,
    book: BookView,
)
    requires
        d.sorted(),
    ensures
        crate::import::alias_imported(d, report, alias, book) matches Ok((after, _))
            ==> after.sorted(),
{
    match crate::config::openssh_config(alias, None, None, book) {
        Ok(config) => {
            let none = crate::import::imported_host(alias, config, None);
            crate::text_map::lemma_put(d.hosts, alias, none);
            let name = crate::import::chain_name_for(d.chains, alias);
            let host = crate::import::imported_host(alias, config, Some(name));
            crate::text_map::lemma_put(d.hosts, alias, host);
            crate::text_map::lemma_put(
                d.chains,
                name,
                crate::import::imported_chain(name, config),
            );
        },
        Err(_) => {},
    }
}

/// Nothing is imported from a configuration of which a part is not understood.
pub proof fn partial_configurations_are_refused(
    d: HostDatabaseView,
    aliases: Seq<Seq<char>>,
    book: BookView,
)
    ensures
        crate::import::imported(d, true, aliases, book) == Err::<
            (HostDatabaseView, ImportView),
            ImportFault,
        >(ImportFault::PartialConfig),
        crate::import::imported(d, false, aliases, book) matches Ok((_, counted)) ==> {
            d.sorted() ==> counted.imported_hosts + counted.skipped_existing
                + counted.skipped_unsupported_alias == aliases.len()
        },
{
    if d.sorted() {
        imports_add_up(d, crate::import::empty_report(), aliases, 0, book);
    }
}

proof fn lemma_free_name(
    chains: Seq<(Seq<char>, JumpChainView)>,
    base: Seq<char>,
    suffix: nat,
)
    requires
        2 <= suffix <= 10001,
    ensures
        ({
            let name = crate::import::free_name_from(chains, base, suffix);
            ||| name == base + "-exhausted"@ && forall|n: nat|
                suffix <= n <= 10000 ==> crate::text_map::lookup(
                    chains,
                    #[trigger] crate::import::suffixed(base, n),
                ) is Some
            ||| crate::text_map::lookup(chains, name) is None && exists|n: nat|
                suffix <= n <= 10000 && name == #[trigger] crate::import::suffixed(base, n)
        }),
    decreases 10001 - suffix,
{
    if suffix <= 10000 {
        if crate::text_map::lookup(chains, crate::import::suffixed(base, suffix)) is Some {
            lemma_free_name(chains, base, suffix + 1);
        } else {
            assert(crate::import::free_name_from(chains, base, suffix) == crate::import::suffixed(
                base,
                suffix,
            ));
        }
    }
}

/// A new chain gets a name that is free: that of its alias, or that with the
/// first number from 2 to 10000 that makes it free.
pub proof fn new_chains_get_free_names(
    chains: Seq<(Seq<char>, JumpChainView)>,
    alias: Seq<char>,
)
    ensures
        ({
            let base = "openssh-"@ + crate::import::chain_stem(alias) + "-jump"@;
            let name = crate::import::chain_name_for(chains, alias);
            &&& crate::text_map::lookup(chains, base) is None ==> name == base
            &&& crate::text_map::lookup(chains, name) is Some ==> name == base + "-exhausted"@
            &&& crate::text_map::lookup(chains, base) is Some && name != base + "-exhausted"@
                ==> exists|n: nat|
                2 <= n <= 10000 && name == base + seq!['-'] + #[trigger] crate::text::decimal(n)
        }),
{
    let base = "openssh-"@ + crate::import::chain_stem(alias) + "-jump"@;
    reveal_strlit("-");
    assert("-"@ =~= seq!['-']);
    lemma_free_name(chains, base, 2);
    let name = crate::import::chain_name_for(chains, alias);
    if crate::text_map::lookup(chains, base) is Some && name != base + "-exhausted"@ {
        let n = choose|n: nat|
            2 <= n <= 10000 && name == #[trigger] crate::import::suffixed(base, n);
        assert(name == base + seq!['-'] + crate::text::decimal(n));
    }
}

/// The part of a chain's name that comes from its alias has at most 96
/// characters, all plain, and keeps the plain ones of the alias.
pub proof fn stems_are_plain(alias: Seq<char>)
    ensures
        ({
            let bytes = vstd::utf8::encode_utf8(alias);
            let stem = crate::import::chain_stem(alias);
            &&& stem.len() == if bytes.len() > 96 {
                96
            } else {
                bytes.len()
            }
            &&& forall|i: int|
                0 <= i < stem.len() ==> #[trigger] stem[i] == (if crate::model_law::is_plain(
                    bytes[i] as char,
                ) {
                    bytes[i] as char
                } else {
                    '-'
                })
        }),
{
}

} // verus!
