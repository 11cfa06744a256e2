//! Laws of the host library: what may be stored in it, and what a change of it
//! does.

use vstd::prelude::*;

use crate::model::HostDatabaseView;
use crate::model::HostFault;
use crate::model::HostProblem;
use crate::model::HostRecordView;
use crate::model::InlineJumpView;
use crate::model::JumpChainView;
use crate::model::JumpHopView;
use crate::model::StoredAuthMethod;
use crate::model::StoredHostKeyPolicy;

verus! {

/// A letter or digit of ASCII, or one of `. _ - :`.
pub open spec fn is_plain(c: char) -> bool {
    'a' <= c <= 'z' || 'A' <= c <= 'Z' || '0' <= c <= '9' || c == '.' || c == '_' || c == '-' || c
        == ':'
}

/// A character of a name for people: a plain one, an ideograph, a space or a
/// round bracket, in its usual or its wide form.
pub open spec fn is_friendly(c: char) -> bool {
    let u = c as u32;
    ||| is_plain(c)
    ||| c == ' ' || c == '(' || c == ')' || u == 0xff08 || u == 0xff09
    ||| u == 0x3007 || 0x3400 <= u <= 0x4dbf || 0x4e00 <= u <= 0x9fff
    ||| 0xf900 <= u <= 0xfaff || 0x20000 <= u <= 0x2fa1f
}

pub open spec fn is_friendly_name(s: Seq<char>) -> bool {
    &&& 0 < vstd::utf8::encode_utf8(s).len() <= 128
    &&& forall|i: int| 0 <= i < s.len() ==> is_friendly(#[trigger] s[i])
}

pub open spec fn is_plain_name(s: Seq<char>) -> bool {
    &&& 0 < vstd::utf8::encode_utf8(s).len() <= 128
    &&& forall|i: int| 0 <= i < s.len() ==> is_plain(#[trigger] s[i])
}

pub open spec fn is_endpoint(s: Seq<char>) -> bool {
    &&& 0 < vstd::utf8::encode_utf8(s).len() <= 512
    &&& forall|i: int| 0 <= i < s.len() ==> !crate::text::is_control(#[trigger] s[i])
}

pub open spec fn is_path(s: Seq<char>) -> bool {
    &&& 0 < vstd::utf8::encode_utf8(s).len() <= 4096
    &&& forall|i: int| 0 <= i < s.len() ==> !crate::text::is_control(#[trigger] s[i])
}

pub open spec fn is_note(s: Seq<char>) -> bool {
    vstd::utf8::encode_utf8(s).len() <= 4096 && !s.contains('\0')
}

proof fn lemma_bytes(s: Seq<char>)
    ensures
        (vstd::utf8::encode_utf8(s).len() == 0) == (s.len() == 0),
{
    if s.len() > 0 {
        let c = s[0];
        assert(vstd::utf8::encode_scalar(c as u32).len() > 0);
    }
}

/// Names, endpoints, paths and notes are accepted exactly where they are proper.
pub proof fn accepted_texts_are_proper(s: Seq<char>, field: Seq<char>)
    ensures
        crate::model::name_fault(s, field) is None == is_friendly_name(s),
        crate::model::portable_name_fault(s, field) is None == is_plain_name(s),
        crate::model::endpoint_fault(s, field) is None == is_endpoint(s),
        crate::model::path_fault(Some(s), field) is None == is_path(s),
        crate::model::path_fault(None, field) is None,
        crate::model::text_fault(s, field) is None == is_note(s),
{
    lemma_bytes(s);
    assert(crate::model::all_name_chars(s) == forall|i: int|
        0 <= i < s.len() ==> is_friendly(#[trigger] s[i])) by {
        assert forall|c: char| #[trigger] crate::model::is_name_char(c) == is_friendly(c) by {}
        if forall|i: int| 0 <= i < s.len() ==> is_friendly(#[trigger] s[i]) {
            assert forall|i: int| 0 <= i < s.len() implies crate::model::is_name_char(
                #[trigger] s[i],
            ) by {}
        } else {
            let i = choose|i: int| 0 <= i < s.len() && !is_friendly(#[trigger] s[i]);
            assert(!crate::model::is_name_char(s[i]));
        }
    }
    assert(crate::model::all_portable_chars(s) == forall|i: int|
        0 <= i < s.len() ==> is_plain(#[trigger] s[i])) by {
        assert forall|c: char| #[trigger] crate::model::is_portable_char(c) == is_plain(c) by {}
        if forall|i: int| 0 <= i < s.len() ==> is_plain(#[trigger] s[i]) {
            assert forall|i: int| 0 <= i < s.len() implies crate::model::is_portable_char(
                #[trigger] s[i],
            ) by {}
        } else {
            let i = choose|i: int| 0 <= i < s.len() && !is_plain(#[trigger] s[i]);
            assert(!crate::model::is_portable_char(s[i]));
        }
    }
}

/// At most 64 labels, each a proper name, and none twice.
pub open spec fn are_labels(values: Seq<Seq<char>>) -> bool {
    &&& values.len() <= 64
    &&& forall|i: int| 0 <= i < values.len() ==> is_friendly_name(#[trigger] values[i])
    &&& forall|i: int, j: int|
        0 <= i < j < values.len() ==> #[trigger] values[i] != #[trigger] values[j]
}

proof fn lemma_labels(values: Seq<Seq<char>>, kind: Seq<char>, i: int)
    requires
        0 <= i <= values.len(),
    ensures
        crate::model::label_fault_from(values, kind, i) is None == forall|k: int|
            i <= k < values.len() ==> is_friendly_name(#[trigger] values[k]) && !values.take(
                k,
            ).contains(values[k]),
    decreases values.len() - i,
{
    if i < values.len() {
        lemma_labels(values, kind, i + 1);
        accepted_texts_are_proper(values[i], kind);
    }
}

proof fn lemma_are_labels(values: Seq<Seq<char>>, kind: Seq<char>)
    ensures
        crate::model::labels_fault(values, kind) is None == are_labels(values),
{
    lemma_labels(values, kind, 0);
    if are_labels(values) {
        assert forall|k: int| 0 <= k < values.len() implies is_friendly_name(#[trigger] values[k])
            && !values.take(k).contains(values[k]) by {
            if values.take(k).contains(values[k]) {
                let j = choose|j: int| 0 <= j < k && values.take(k)[j] == values[k];
                assert(values[j] == values[k]);
            }
        }
    }
    if crate::model::labels_fault(values, kind) is None {
        assert forall|i: int, j: int| 0 <= i < j < values.len() implies #[trigger] values[i]
            != #[trigger] values[j] by {
            if values[i] == values[j] {
                assert(values.take(j)[i] == values[j]);
            }
        }
    }
}

/// A record is accepted exactly where each of its parts is proper and its port
/// is one.
pub proof fn accepted_records_are_proper(record: HostRecordView)
    ensures
        record.fault() is None == {
            &&& is_friendly_name(record.alias)
            &&& is_endpoint(record.address) && record.port > 0 && is_endpoint(record.user)
            &&& record.identity_file matches Some(path) ==> is_path(path)
            &&& are_labels(record.groups) && are_labels(record.tags)
            &&& record.note matches Some(note) ==> is_note(note)
            &&& record.jump_chain matches Some(name) ==> is_friendly_name(name)
        },
{
    accepted_texts_are_proper(record.alias, "host alias"@);
    accepted_texts_are_proper(record.address, "host address"@);
    accepted_texts_are_proper(record.user, "SSH user"@);
    if record.identity_file is Some {
        accepted_texts_are_proper(record.identity_file->0, "identity file"@);
    }
    lemma_are_labels(record.groups, "group"@);
    lemma_are_labels(record.tags, "tag"@);
    if record.note is Some {
        accepted_texts_are_proper(record.note->0, "host note"@);
    }
    if record.jump_chain is Some {
        accepted_texts_are_proper(record.jump_chain->0, "jump chain"@);
    }
}

pub open spec fn is_proper_hop(hop: JumpHopView) -> bool {
    match hop {
        JumpHopView::Host(alias) => is_friendly_name(alias),
        JumpHopView::OpenSshAlias(alias) => is_plain_name(alias),
        JumpHopView::Inline(jump) => is_proper_jump(jump),
    }
}

pub open spec fn is_proper_jump(jump: InlineJumpView) -> bool {
    &&& is_plain_name(jump.alias)
    &&& is_endpoint(jump.host) && jump.port > 0 && is_endpoint(jump.user)
    &&& jump.identity_file matches Some(path) ==> is_path(path)
}

/// The name by which a hop goes.
pub open spec fn hop_name(hop: JumpHopView) -> Seq<char> {
    match hop {
        JumpHopView::Host(alias) => alias,
        JumpHopView::OpenSshAlias(alias) => alias,
        JumpHopView::Inline(jump) => jump.alias,
    }
}

/// A hop is accepted exactly where it is proper.
pub proof fn accepted_hops_are_proper(hop: JumpHopView)
    ensures
        hop.fault() is None == is_proper_hop(hop),
        hop.name() == hop_name(hop),
{
    match hop {
        JumpHopView::Host(alias) => accepted_texts_are_proper(alias, "jump host reference"@),
        JumpHopView::OpenSshAlias(alias) => accepted_texts_are_proper(
            alias,
            "OpenSSH jump alias"@,
        ),
        JumpHopView::Inline(jump) => {
            accepted_texts_are_proper(jump.alias, "inline jump alias"@);
            accepted_texts_are_proper(jump.host, "inline jump host"@);
            accepted_texts_are_proper(jump.user, "inline jump user"@);
            if jump.identity_file is Some {
                accepted_texts_are_proper(jump.identity_file->0, "inline jump identity file"@);
            }
        },
    }
}

proof fn lemma_hops(chain: JumpChainView, i: int)
    requires
        0 <= i <= chain.hops.len(),
    ensures
        chain.hop_fault_from(i) is None == forall|k: int|
            i <= k < chain.hops.len() ==> #[trigger] is_new_hop(chain, k),
    decreases chain.hops.len() - i,
{
    if i < chain.hops.len() {
        lemma_hops(chain, i + 1);
        accepted_hops_are_proper(chain.hops[i]);
        assert(chain.hop_fault_from(i) is None ==> is_new_hop(chain, i)) by {
            if chain.hop_fault_from(i) is None {
                assert forall|j: int| 0 <= j < i implies hop_name(#[trigger] chain.hops[j])
                    != hop_name(chain.hops[i]) by {
                    assert(chain.hops[j].name() != chain.hops[i].name());
                }
            }
        }
        if is_new_hop(chain, i) {
            assert forall|k: int| 0 <= k < i implies #[trigger] chain.hops[k].name()
                != chain.hops[i].name() by {
                assert(hop_name(chain.hops[k]) != hop_name(chain.hops[i]));
            }
        }
    }
}

/// Hop `k` is proper and goes by a name that no hop before it goes by.
pub open spec fn is_new_hop(chain: JumpChainView, k: int) -> bool {
    &&& is_proper_hop(chain.hops[k])
    &&& forall|j: int| 0 <= j < k ==> hop_name(#[trigger] chain.hops[j]) != hop_name(chain.hops[k])
}

/// A chain is accepted exactly where it has a proper name and one to eight
/// hops, all proper and none of them twice.
pub proof fn accepted_chains_are_proper(chain: JumpChainView)
    ensures
        chain.fault() is None == {
            &&& is_friendly_name(chain.name)
            &&& 1 <= chain.hops.len() <= 8
            &&& forall|k: int| 0 <= k < chain.hops.len() ==> #[trigger] is_new_hop(chain, k)
        },
{
    accepted_texts_are_proper(chain.name, "jump chain"@);
    lemma_hops(chain, 0);
}

/// Host `h` is proper, stored under its alias, bound to a stored chain if to
/// any, and not a hop of that chain.
pub open spec fn is_whole_host(d: HostDatabaseView, h: int) -> bool {
    let host = d.hosts[h].1;
    &&& d.hosts[h].0 == host.alias && host.fault() is None
    &&& host.jump_chain matches Some(name) ==> exists|c: int|
        0 <= c < d.chains.len() && #[trigger] d.chains[c].0 == name && forall|k: int|
            0 <= k < d.chains[c].1.hops.len() ==> hop_name(#[trigger] d.chains[c].1.hops[k])
                != host.alias
}

/// Chain `c` is proper, stored under its name, and passes through stored hosts.
pub open spec fn is_whole_chain(d: HostDatabaseView, c: int) -> bool {
    let chain = d.chains[c].1;
    &&& d.chains[c].0 == chain.name && chain.fault() is None
    &&& forall|k: int|
        0 <= k < chain.hops.len() ==> (#[trigger] chain.hops[k] matches JumpHopView::Host(alias)
            ==> is_stored(d, alias))
}

/// A library is accepted exactly where it has version 1, at most 4096 hosts and
/// 512 chains, and all of them are whole.
pub proof fn accepted_libraries_are_whole(d: HostDatabaseView)
    requires
        d.sorted(),
    ensures
        d.fault() is None == {
            &&& d.version == 1 && d.hosts.len() <= 4096 && d.chains.len() <= 512
            &&& forall|h: int| 0 <= h < d.hosts.len() ==> #[trigger] is_whole_host(d, h)
            &&& forall|c: int| 0 <= c < d.chains.len() ==> #[trigger] is_whole_chain(d, c)
        },
{
    crate::store_law::validity_is_soundness(d);
    assert forall|h: int| 0 <= h < d.hosts.len() implies #[trigger] is_whole_host(d, h) == (
    crate::store_law::host_sound(d, h) && !d.loops_at(h)) by {
        lemma_whole_host(d, h);
    }
    assert forall|c: int| 0 <= c < d.chains.len() implies #[trigger] is_whole_chain(d, c)
        == crate::store_law::chain_sound(d, c) by {
        lemma_whole_chain(d, c);
    }
    if d.fault() is None {
        assert forall|h: int| 0 <= h < d.hosts.len() implies #[trigger] is_whole_host(d, h) by {
            assert(crate::store_law::host_sound(d, h) && !d.loops_at(h));
        }
        assert forall|c: int| 0 <= c < d.chains.len() implies #[trigger] is_whole_chain(d, c) by {
            assert(crate::store_law::chain_sound(d, c));
        }
    } else {
        if forall|h: int| 0 <= h < d.hosts.len() ==> #[trigger] is_whole_host(d, h) {
            assert forall|h: int| 0 <= h < d.hosts.len() implies #[trigger]
                crate::store_law::host_sound(d, h) by {
                assert(is_whole_host(d, h));
            }
            assert forall|h: int| 0 <= h < d.hosts.len() implies !#[trigger] d.loops_at(h) by {
                assert(is_whole_host(d, h));
            }
        }
        if forall|c: int| 0 <= c < d.chains.len() ==> #[trigger] is_whole_chain(d, c) {
            assert forall|c: int| 0 <= c < d.chains.len() implies #[trigger]
                crate::store_law::chain_sound(d, c) by {
                assert(is_whole_chain(d, c));
            }
        }
    }
}

proof fn lemma_whole_host(d: HostDatabaseView, h: int)
    requires
        d.sorted(),
        0 <= h < d.hosts.len(),
    ensures
        is_whole_host(d, h) == (crate::store_law::host_sound(d, h) && !d.loops_at(h)),
{
    let host = d.hosts[h].1;
    if host.jump_chain is Some {
        let name = host.jump_chain->0;
        crate::text_map::lemma_lookup(d.chains, name);
        if crate::text_map::has_key(d.chains, name) {
            let c = crate::text_map::rank(d.chains, name);
            let hops = d.chains[c].1.hops;
            assert(d.chains[c].0 == name);
            assert forall|k: int| 0 <= k < hops.len() implies #[trigger] hops[k].name() == hop_name(
                hops[k],
            ) by {
                accepted_hops_are_proper(hops[k]);
            }
            if !d.chains[c].1.passes_through(host.alias) {
                assert forall|k: int| 0 <= k < hops.len() implies hop_name(
                    #[trigger] d.chains[c].1.hops[k],
                ) != host.alias by {
                    assert(hops[k].name() != host.alias);
                }
            } else {
                let k = choose|k: int| 0 <= k < hops.len() && #[trigger] hops[k].name() == host.alias;
                assert(hop_name(d.chains[c].1.hops[k]) == host.alias);
            }
        }
    }
}

proof fn lemma_whole_chain(d: HostDatabaseView, c: int)
    requires
        0 <= c < d.chains.len(),
    ensures
        is_whole_chain(d, c) == crate::store_law::chain_sound(d, c),
{
    let chain = d.chains[c].1;
    if !d.missing_host_from(chain, 0) {
        assert forall|k: int| 0 <= k < chain.hops.len() implies (
        #[trigger] chain.hops[k] matches JumpHopView::Host(alias) ==> is_stored(d, alias)) by {
            if let JumpHopView::Host(alias) = chain.hops[k] {
                assert(crate::text_map::has_key(d.hosts, alias));
                let h = choose|h: int| 0 <= h < d.hosts.len() && #[trigger] d.hosts[h].0 == alias;
                assert(d.hosts[h].0 == alias);
            }
        }
    } else {
        let k = choose|k: int|
            0 <= k < chain.hops.len() && (#[trigger] chain.hops[k] matches JumpHopView::Host(alias)
                && !crate::text_map::has_key(d.hosts, alias));
        assert(chain.hops[k] is Host);
        if is_stored(d, chain.hops[k]->Host_0) {
            let alias = chain.hops[k]->Host_0;
            let h = choose|h: int| 0 <= h < d.hosts.len() && #[trigger] d.hosts[h].0 == alias;
            assert(crate::text_map::has_key(d.hosts, alias));
        }
    }
}

pub open spec fn is_stored(d: HostDatabaseView, alias: Seq<char>) -> bool {
    exists|h: int| 0 <= h < d.hosts.len() && #[trigger] d.hosts[h].0 == alias
}

/// The names under which policies and methods are stored are read back as what
/// they stand for.
pub proof fn stored_names_are_read_back()
    ensures
        StoredHostKeyPolicy::named("strict"@) == Some(StoredHostKeyPolicy::Strict),
        StoredHostKeyPolicy::named("accept-new"@) == Some(StoredHostKeyPolicy::AcceptNew),
        StoredHostKeyPolicy::named("insecure"@) == Some(StoredHostKeyPolicy::Insecure),
        StoredAuthMethod::named("agent"@) == Some(StoredAuthMethod::Agent),
        StoredAuthMethod::named("private-key"@) == Some(StoredAuthMethod::PrivateKey),
        StoredAuthMethod::named("password"@) == Some(StoredAuthMethod::Password),
        StoredAuthMethod::named("keyboard-interactive"@) == Some(
            StoredAuthMethod::KeyboardInteractive,
        ),
        StoredAuthMethod::named("auto"@) == Some(StoredAuthMethod::Auto),
        forall|p: StoredHostKeyPolicy| #[trigger]
            StoredHostKeyPolicy::named(p.name()) == Some(p),
        forall|m: StoredAuthMethod| #[trigger] StoredAuthMethod::named(m.name()) == Some(m),
{
    StoredHostKeyPolicy::Strict.lemma_name_parses();
    StoredHostKeyPolicy::AcceptNew.lemma_name_parses();
    StoredHostKeyPolicy::Insecure.lemma_name_parses();
    StoredAuthMethod::Agent.lemma_name_parses();
    StoredAuthMethod::PrivateKey.lemma_name_parses();
    StoredAuthMethod::Password.lemma_name_parses();
    StoredAuthMethod::KeyboardInteractive.lemma_name_parses();
    StoredAuthMethod::Auto.lemma_name_parses();
    assert forall|p: StoredHostKeyPolicy| #[trigger]
        StoredHostKeyPolicy::named(p.name()) == Some(p) by {
        p.lemma_name_parses();
    }
    assert forall|m: StoredAuthMethod| #[trigger] StoredAuthMethod::named(m.name()) == Some(m) by {
        m.lemma_name_parses();
    }
}

/// A host that is put into the library is found under its alias, and the others
/// are found as before. The chains stay.
pub proof fn stored_hosts_are_found(d: HostDatabaseView, host: HostRecordView, other: Seq<char>)
    requires
        d.sorted(),
    ensures
        ({
            let after = crate::store::with_host(d, host);
            &&& crate::text_map::lookup(after.hosts, host.alias) == Some(host)
            &&& other != host.alias ==> crate::text_map::lookup(after.hosts, other)
                == crate::text_map::lookup(d.hosts, other)
            &&& after.chains == d.chains && after.version == d.version
        }),
{
    crate::text_map::lemma_put(d.hosts, host.alias, host);
}

/// A chain that is put into the library is found under its name, and the others
/// are found as before. The hosts stay.
pub proof fn stored_chains_are_found(d: HostDatabaseView, chain: JumpChainView, other: Seq<char>)
    requires
        d.sorted(),
    ensures
        ({
            let after = crate::store::with_chain(d, chain);
            &&& crate::text_map::lookup(after.chains, chain.name) == Some(chain)
            &&& other != chain.name ==> crate::text_map::lookup(after.chains, other)
                == crate::text_map::lookup(d.chains, other)
            &&& after.hosts == d.hosts && after.version == d.version
        }),
{
    crate::text_map::lemma_put(d.chains, chain.name, chain);
}

/// A change is accepted only where the library is sound after it, and inserting
/// never replaces. A host is bound to a stored chain only.
pub proof fn accepted_changes_are_sound(
    d: HostDatabaseView,
    host: HostRecordView,
    chain: JumpChainView,
)
    requires
        d.sorted(),
    ensures
        crate::store::upsert_host_fault(d, host) is None ==> crate::store::with_host(d, host).valid(),
        crate::store::insert_host_fault(d, host) is None ==> crate::store::with_host(d, host).valid()
            && !is_stored(d, host.alias),
        is_stored(d, host.alias) ==> crate::store::insert_host_fault(d, host) == Some(
            HostFault { problem: HostProblem::HostExists, subject: host.alias },
        ),
        crate::store::upsert_chain_fault(d, chain) is None ==> crate::store::with_chain(
            d,
            chain,
        ).valid(),
        crate::store::insert_chain_fault(d, chain) is None ==> crate::store::with_chain(
            d,
            chain,
        ).valid(),
        (exists|c: int| 0 <= c < d.chains.len() && #[trigger] d.chains[c].0 == chain.name)
            ==> crate::store::insert_chain_fault(d, chain) == Some(
            HostFault { problem: HostProblem::ChainExists, subject: chain.name },
        ),
        host.fault() is None && (host.jump_chain matches Some(name) && !(exists|c: int|
            0 <= c < d.chains.len() && #[trigger] d.chains[c].0 == name))
            ==> crate::store::upsert_host_fault(d, host) == Some(
            HostFault { problem: HostProblem::MissingChain, subject: host.alias },
        ),
        host.fault() is None && crate::store::with_host(d, host).valid() ==> {
            &&& crate::store::upsert_host_fault(d, host) is None
            &&& !is_stored(d, host.alias) ==> crate::store::insert_host_fault(d, host) is None
        },
        chain.fault() is None && crate::store::with_chain(d, chain).valid()
            ==> crate::store::upsert_chain_fault(d, chain) is None,
{
    let after = crate::store::with_host(d, host);
    crate::text_map::lemma_put(d.hosts, host.alias, host);
    if after.valid() && host.jump_chain is Some {
        crate::store_law::validity_is_soundness(after);
        crate::text_map::lemma_lookup(after.hosts, host.alias);
        let p = crate::text_map::rank(after.hosts, host.alias);
        assert(crate::store_law::host_sound(after, p));
    }
}

/// A host leaves the library unless a chain passes through it, which is then
/// told. What is not stored cannot leave.
pub proof fn hosts_in_chains_stay(d: HostDatabaseView, alias: Seq<char>, i: int)
    requires
        0 <= i <= d.chains.len(),
    ensures
        match crate::store::referencing_chain(d, alias, i) {
            Some(name) => exists|c: int, k: int|
                i <= c < d.chains.len() && 0 <= k < d.chains[c].1.hops.len()
                    && #[trigger] d.chains[c].1.hops[k] == JumpHopView::Host(alias)
                    && d.chains[c].1.name == name,
            None => forall|c: int, k: int|
                i <= c < d.chains.len() && 0 <= k < d.chains[c].1.hops.len()
                    ==> #[trigger] d.chains[c].1.hops[k] != JumpHopView::Host(alias),
        },
        crate::store::remove_host_fault(d, alias) is None ==> is_stored(d, alias),
        crate::store::referencing_chain(d, alias, 0) matches Some(name)
            ==> crate::store::remove_host_fault(d, alias) == Some(
            HostFault { problem: HostProblem::HostReferenced, subject: name },
        ),
        crate::store::referencing_chain(d, alias, 0) is None && is_stored(d, alias)
            ==> crate::store::remove_host_fault(d, alias) is None,
    decreases d.chains.len() - i,
{
    if i < d.chains.len() {
        hosts_in_chains_stay(d, alias, i + 1);
        if crate::store::references(d.chains[i].1, alias) {
            let hops = d.chains[i].1.hops;
            let k = choose|k: int|
                0 <= k < hops.len() && #[trigger] hops[k] == JumpHopView::Host(alias);
            assert(d.chains[i].1.hops[k] == JumpHopView::Host(alias));
        } else {
            assert forall|c: int, k: int|
                c == i && 0 <= k < d.chains[c].1.hops.len() implies #[trigger] d.chains[c].1.hops[k]
                != JumpHopView::Host(alias) by {}
        }
    }
}

/// A chain leaves the library unless a host is bound to it, which is then told.
pub proof fn bound_chains_stay(d: HostDatabaseView, name: Seq<char>, i: int)
    requires
        0 <= i <= d.hosts.len(),
    ensures
        match crate::store::bound_host(d, name, i) {
            Some(alias) => exists|h: int|
                i <= h < d.hosts.len() && (#[trigger] d.hosts[h]).1.jump_chain == Some(name)
                    && d.hosts[h].1.alias == alias,
            None => forall|h: int|
                i <= h < d.hosts.len() ==> (#[trigger] d.hosts[h]).1.jump_chain != Some(name),
        },
        crate::store::bound_host(d, name, 0) matches Some(alias)
            ==> crate::store::remove_chain_fault(d, name) == Some(
            HostFault { problem: HostProblem::ChainBound, subject: alias },
        ),
        crate::store::remove_chain_fault(d, name) is None ==> exists|c: int|
            0 <= c < d.chains.len() && #[trigger] d.chains[c].0 == name,
        crate::store::bound_host(d, name, 0) is None && (exists|c: int|
            0 <= c < d.chains.len() && #[trigger] d.chains[c].0 == name)
            ==> crate::store::remove_chain_fault(d, name) is None,
    decreases d.hosts.len() - i,
{
    if i < d.hosts.len() {
        bound_chains_stay(d, name, i + 1);
    }
}

/// A success is counted, with its time and method, and changes nothing else.
pub proof fn successes_are_counted(record: HostRecordView, method: StoredAuthMethod, now: u64)
    requires
        record.stats.connection_count < u64::MAX,
    ensures
        ({
            let after = crate::store::after_success(record, method, now);
            &&& after.stats.connection_count == record.stats.connection_count + 1
            &&& after.stats.last_connected_unix == Some(now)
            &&& after.stats.last_auth_method == Some(method)
            &&& after.alias == record.alias && after.address == record.address && after.port
                == record.port && after.user == record.user
            &&& after.identity_file == record.identity_file && after.groups == record.groups
                && after.tags == record.tags && after.note == record.note
            &&& after.host_key_policy == record.host_key_policy && after.jump_chain
                == record.jump_chain
        }),
{
}

/// Hosts are listed with the latest first; of those from the same time the most
/// used first; and of those by alias.
pub proof fn hosts_are_listed_by_use(records: Seq<HostRecordView>, i: int, j: int)
    requires
        crate::store::listed(records),
        0 <= i < j < records.len(),
    ensures
        ({
            let a = records[i];
            let b = records[j];
            let x = match a.stats.last_connected_unix {
                Some(t) => t,
                None => 0,
            };
            let y = match b.stats.last_connected_unix {
                Some(t) => t,
                None => 0,
            };
            &&& x >= y
            &&& x == y ==> a.stats.connection_count >= b.stats.connection_count
            &&& x == y && a.stats.connection_count == b.stats.connection_count
                ==> !crate::text::text_less(b.alias, a.alias)
        }),
{
    assert(!crate::store::listed_before(records[j], records[i]));
}

/// A file is shared where its mode leaves anything to others than its owner.
pub proof fn shared_modes_leave_something_to_others(mode: u32)
    ensures
        crate::store::is_shared_mode(mode) == (mode % 64 != 0),
{
    assert(mode & 0o077 == mode % 64) by (bit_vector);
}

} // verus!
