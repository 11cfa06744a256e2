//! What validity of a host library means, and that every change of a store
//! keeps it.

use vstd::prelude::*;

use crate::model::HostDatabaseView;
use crate::model::JumpHopView;
use crate::model::StoredAuthMethod;
use crate::store;
use crate::text;
use crate::text_map;

verus! {

/// The host at `k` is stored under its alias, is valid, and is bound to a
/// chain of the library if to any.
pub open spec fn host_sound(d: HostDatabaseView, k: int) -> bool {
    &&& d.hosts[k].0 == d.hosts[k].1.alias
    &&& d.hosts[k].1.fault() is None
    &&& d.hosts[k].1.jump_chain is Some ==> text_map::has_key(
        d.chains,
        d.hosts[k].1.jump_chain->0,
    )
}

/// The chain at `k` is stored under its name, is valid, and its host hops are
/// hosts of the library.
pub open spec fn chain_sound(d: HostDatabaseView, k: int) -> bool {
    &&& d.chains[k].0 == d.chains[k].1.name
    &&& d.chains[k].1.fault() is None
    &&& !d.missing_host_from(d.chains[k].1, 0)
}

proof fn lemma_hosts_sound(d: HostDatabaseView, i: int)
    requires
        0 <= i <= d.hosts.len(),
    ensures
        d.host_fault_from(i) is None <==> forall|k: int|
            i <= k < d.hosts.len() ==> #[trigger] host_sound(d, k),
    decreases d.hosts.len() - i,
{
    if i < d.hosts.len() {
        lemma_hosts_sound(d, i + 1);
        if d.host_fault_from(i) is None {
            assert(host_sound(d, i));
        }
        if forall|k: int| i <= k < d.hosts.len() ==> #[trigger] host_sound(d, k) {
            assert(host_sound(d, i));
        }
    }
}

proof fn lemma_chains_sound(d: HostDatabaseView, i: int)
    requires
        0 <= i <= d.chains.len(),
    ensures
        d.chain_fault_from(i) is None <==> forall|k: int|
            i <= k < d.chains.len() ==> #[trigger] chain_sound(d, k),
    decreases d.chains.len() - i,
{
    if i < d.chains.len() {
        lemma_chains_sound(d, i + 1);
        if d.chain_fault_from(i) is None {
            assert(chain_sound(d, i));
        }
        if forall|k: int| i <= k < d.chains.len() ==> #[trigger] chain_sound(d, k) {
            assert(chain_sound(d, i));
        }
    }
}

proof fn lemma_loop_free(d: HostDatabaseView, i: int)
    requires
        0 <= i <= d.hosts.len(),
    ensures
        d.loop_fault_from(i) is None <==> forall|k: int|
            i <= k < d.hosts.len() ==> !#[trigger] d.loops_at(k),
    decreases d.hosts.len() - i,
{
    if i < d.hosts.len() {
        lemma_loop_free(d, i + 1);
        if d.loop_fault_from(i) is None {
            assert(!d.loops_at(i));
        }
        if forall|k: int| i <= k < d.hosts.len() ==> !#[trigger] d.loops_at(k) {
            assert(!d.loops_at(i));
        }
    }
}

/// A library is valid exactly when its version and sizes are right, every host
/// and chain is sound, and no host is routed through itself.
pub proof fn validity_is_soundness(d: HostDatabaseView)
    ensures
        d.valid() <==> {
            &&& d.version == crate::model::DATABASE_VERSION
            &&& d.hosts.len() <= crate::model::MAX_HOSTS
            &&& d.chains.len() <= crate::model::MAX_CHAINS
            &&& forall|k: int| 0 <= k < d.hosts.len() ==> #[trigger] host_sound(d, k)
            &&& forall|k: int| 0 <= k < d.chains.len() ==> #[trigger] chain_sound(d, k)
            &&& forall|k: int| 0 <= k < d.hosts.len() ==> !#[trigger] d.loops_at(k)
        },
{
    lemma_hosts_sound(d, 0);
    lemma_chains_sound(d, 0);
    lemma_loop_free(d, 0);
}

proof fn lemma_referencing_none(d: HostDatabaseView, alias: Seq<char>, i: int)
    requires
        0 <= i <= d.chains.len(),
        store::referencing_chain(d, alias, i) is None,
    ensures
        forall|k: int|
            i <= k < d.chains.len() ==> !store::references(#[trigger] d.chains[k].1, alias),
    decreases d.chains.len() - i,
{
    if i < d.chains.len() {
        lemma_referencing_none(d, alias, i + 1);
    }
}

proof fn lemma_bound_none(d: HostDatabaseView, name: Seq<char>, i: int)
    requires
        0 <= i <= d.hosts.len(),
        store::bound_host(d, name, i) is None,
    ensures
        forall|k: int| i <= k < d.hosts.len() ==> (#[trigger] d.hosts[k]).1.jump_chain != Some(name),
    decreases d.hosts.len() - i,
{
    if i < d.hosts.len() {
        lemma_bound_none(d, name, i + 1);
    }
}

proof fn lemma_without_index<V>(entries: Seq<(Seq<char>, V)>, key: Seq<char>, k: int) -> (r: int)
    requires
        text_map::sorted(entries),
        0 <= k < text_map::without(entries, key).len(),
    ensures
        0 <= r < entries.len(),
        text_map::without(entries, key)[k] == entries[r],
        text_map::without(entries, key).len() <= entries.len(),
        entries[r].0 != key,
{
    text_map::lemma_rank(entries, key);
    text_map::lemma_without(entries, key);
    let after = text_map::without(entries, key);
    let p = text_map::rank(entries, key);
    let r = if p < entries.len() && entries[p].0 == key && k >= p {
        k + 1
    } else {
        k
    };
    assert(after[k] == entries[r]);
    text_map::lemma_lookup(after, key);
    assert(after[k].0 == entries[r].0);
    r
}

/// Removing a host that no chain has as a hop keeps the library valid.
pub proof fn removing_a_host_keeps_validity(d: HostDatabaseView, alias: Seq<char>)
    requires
        d.valid(),
        d.sorted(),
        store::remove_host_fault(d, alias) is None,
    ensures
        (HostDatabaseView { hosts: text_map::without(d.hosts, alias), ..d }).valid(),
{
    let after = HostDatabaseView { hosts: text_map::without(d.hosts, alias), ..d };
    validity_is_soundness(d);
    validity_is_soundness(after);
    lemma_referencing_none(d, alias, 0);
    text_map::lemma_without(d.hosts, alias);
    assert(after.hosts.len() <= d.hosts.len());
    assert forall|k: int| 0 <= k < after.hosts.len() implies #[trigger] host_sound(after, k) by {
        let o = lemma_without_index(d.hosts, alias, k);
        assert(host_sound(d, o));
    }
    assert forall|k: int| 0 <= k < after.hosts.len() implies !#[trigger] after.loops_at(k) by {
        let o = lemma_without_index(d.hosts, alias, k);
        assert(!d.loops_at(o));
    }
    assert forall|k: int| 0 <= k < after.chains.len() implies #[trigger] chain_sound(after, k) by {
        assert(chain_sound(d, k));
        let chain = d.chains[k].1;
        assert(!store::references(d.chains[k].1, alias));
        if after.missing_host_from(chain, 0) {
            let j = choose|j: int|
                0 <= j < chain.hops.len() && (#[trigger] chain.hops[j] matches JumpHopView::Host(a)
                    && !text_map::has_key(after.hosts, a));
            let a = chain.hops[j]->Host_0;
            assert(chain.hops[j] == JumpHopView::Host(a));
            assert(a != alias);
            text_map::lemma_lookup(d.hosts, a);
            text_map::lemma_lookup(after.hosts, a);
            assert(text_map::lookup(after.hosts, a) == text_map::lookup(d.hosts, a));
            assert(d.missing_host_from(chain, 0));
        }
    }
}

/// Removing a chain that no host is bound to keeps the library valid.
pub proof fn removing_a_chain_keeps_validity(d: HostDatabaseView, name: Seq<char>)
    requires
        d.valid(),
        d.sorted(),
        store::remove_chain_fault(d, name) is None,
    ensures
        (HostDatabaseView { chains: text_map::without(d.chains, name), ..d }).valid(),
{
    let after = HostDatabaseView { chains: text_map::without(d.chains, name), ..d };
    validity_is_soundness(d);
    validity_is_soundness(after);
    lemma_bound_none(d, name, 0);
    text_map::lemma_without(d.chains, name);
    assert(after.chains.len() <= d.chains.len());
    assert forall|k: int| 0 <= k < after.hosts.len() implies #[trigger] host_sound(after, k) by {
        assert(host_sound(d, k));
        assert(d.hosts[k].1.jump_chain != Some(name));
        if d.hosts[k].1.jump_chain is Some {
            let c = d.hosts[k].1.jump_chain->0;
            text_map::lemma_lookup(d.chains, c);
            text_map::lemma_lookup(after.chains, c);
            assert(text_map::lookup(after.chains, c) == text_map::lookup(d.chains, c));
        }
    }
    assert forall|k: int| 0 <= k < after.hosts.len() implies !#[trigger] after.loops_at(k) by {
        assert(!d.loops_at(k));
        assert(d.hosts[k].1.jump_chain != Some(name));
        if d.hosts[k].1.jump_chain is Some {
            let c = d.hosts[k].1.jump_chain->0;
            assert(text_map::lookup(after.chains, c) == text_map::lookup(d.chains, c));
        }
    }
    assert forall|k: int| 0 <= k < after.chains.len() implies #[trigger] chain_sound(after, k) by {
        let o = lemma_without_index(d.chains, name, k);
        assert(chain_sound(d, o));
        let chain = d.chains[o].1;
        if after.missing_host_from(chain, 0) {
            let j = choose|j: int|
                0 <= j < chain.hops.len() && (#[trigger] chain.hops[j] matches JumpHopView::Host(a)
                    && !text_map::has_key(after.hosts, a));
            assert(!text_map::has_key(d.hosts, chain.hops[j]->Host_0));
            assert(d.missing_host_from(chain, 0));
        }
    }
}

/// Counting a successful connection keeps the library valid.
pub proof fn recording_success_keeps_validity(
    d: HostDatabaseView,
    alias: Seq<char>,
    method: StoredAuthMethod,
    now: u64,
)
    requires
        d.valid(),
        d.sorted(),
        text_map::lookup(d.hosts, alias) is Some,
    ensures
        (HostDatabaseView {
            hosts: text_map::put(
                d.hosts,
                alias,
                store::after_success(text_map::lookup(d.hosts, alias)->0, method, now),
            ),
            ..d
        }).valid(),
{
    let record = store::after_success(text_map::lookup(d.hosts, alias)->0, method, now);
    let after = HostDatabaseView { hosts: text_map::put(d.hosts, alias, record), ..d };
    let p = text_map::rank(d.hosts, alias);
    validity_is_soundness(d);
    validity_is_soundness(after);
    text_map::lemma_lookup(d.hosts, alias);
    text_map::lemma_put(d.hosts, alias, record);
    assert(after.hosts =~= d.hosts.update(p, (alias, record)));
    assert(record.fault() == d.hosts[p].1.fault());
    assert forall|k: int| 0 <= k < after.hosts.len() implies #[trigger] host_sound(after, k) by {
        assert(host_sound(d, k));
    }
    assert forall|k: int| 0 <= k < after.hosts.len() implies !#[trigger] after.loops_at(k) by {
        assert(!d.loops_at(k));
    }
    assert forall|k: int| 0 <= k < after.chains.len() implies #[trigger] chain_sound(after, k) by {
        assert(chain_sound(d, k));
        let chain = d.chains[k].1;
        if after.missing_host_from(chain, 0) {
            let j = choose|j: int|
                0 <= j < chain.hops.len() && (#[trigger] chain.hops[j] matches JumpHopView::Host(a)
                    && !text_map::has_key(after.hosts, a));
            let a = chain.hops[j]->Host_0;
            text_map::lemma_lookup(d.hosts, a);
            text_map::lemma_lookup(after.hosts, a);
            if a != alias {
                assert(text_map::lookup(after.hosts, a) == text_map::lookup(d.hosts, a));
            }
            assert(d.missing_host_from(chain, 0));
        }
    }
}

/// A stored library opens again as it was saved, unless a note holds a control
/// character other than a line end or a tab.
pub proof fn saved_library_opens_again(d: HostDatabaseView)
    requires
        d.valid(),
        d.sorted(),
        crate::codec_law::carried_notes(d),
        text::utf8_len(crate::codec::encoded(d)) <= store::MAX_STORE_BYTES,
    ensures
        crate::codec::decoded(crate::codec::encoded(d)) == Ok::<
            HostDatabaseView,
            crate::codec::CodecError,
        >(d),
{
    crate::codec_law::decode_inverts_encode(d);
}

} // verus!
