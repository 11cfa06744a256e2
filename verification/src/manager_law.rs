//! Laws of the connection pool: which connections stay and which leave, and what
//! a claim, a lease and a place in the pool are.

use vstd::prelude::*;

use crate::auth::ReuseView;
use crate::config::ConfigView;
use crate::manager::ConnectClaim;
use crate::manager::ConnectDecision;
use crate::manager::Installed;
use crate::manager::ManagedView;
use crate::manager::PoolProblem;
use crate::manager::PoolView;

verus! {

/// The connection is in use, or has not yet lain idle for as long as it may.
pub open spec fn stays(m: ManagedView, pool: PoolView, shared: Seq<u64>, now: u64) -> bool {
    ||| m.active_leases > 0
    ||| shared.contains(m.id)
    ||| now - m.last_used < pool.config.idle_timeout.secs * 1000000000
        + pool.config.idle_timeout.nanos && now > m.last_used
    ||| now <= m.last_used && (pool.config.idle_timeout.secs > 0
        || pool.config.idle_timeout.nanos > 0)
}

proof fn lemma_pruned(pool: PoolView, shared: Seq<u64>, now: u64, i: int, left: Seq<u64>)
    requires
        pool.wf(),
        0 <= i <= pool.connections.len(),
        forall|k: int|
            0 <= k < i ==> !(#[trigger] pool.connections[k]).1.expired(
                shared,
                now,
                pool.config.idle_timeout,
            ),
    ensures
        ({
            let rest = pool.connections.skip(i);
            let keep = |e: (Seq<char>, ManagedView)| stays(e.1, pool, shared, now);
            let drop = |e: (Seq<char>, ManagedView)| !stays(e.1, pool, shared, now);
            let (after, gone) = pool.pruned_from(shared, now, i, left);
            &&& after.connections == pool.connections.take(i) + rest.filter(keep)
            &&& gone == left + rest.filter(drop).map_values(
                |e: (Seq<char>, ManagedView)| e.1.id,
            )
            &&& after.held == pool.held - rest.filter(drop).len()
            &&& after.pending == pool.pending && after.connecting == pool.connecting
            &&& after.tickets == pool.tickets && after.config == pool.config
        }),
    decreases pool.connections.len() - i,
{
    let rest = pool.connections.skip(i);
    let keep = |e: (Seq<char>, ManagedView)| stays(e.1, pool, shared, now);
    let drop = |e: (Seq<char>, ManagedView)| !stays(e.1, pool, shared, now);
    let id = |e: (Seq<char>, ManagedView)| e.1.id;
    if i < pool.connections.len() {
        let entry = pool.connections[i];
        assert(rest =~= seq![entry] + rest.skip(1));
        lemma_filter_first(rest, keep);
        lemma_filter_first(rest, drop);
        if entry.1.expired(shared, now, pool.config.idle_timeout) {
            let fewer = PoolView {
                connections: pool.connections.remove(i),
                held: (pool.held - 1) as nat,
                ..pool
            };
            assert(fewer.connections.skip(i) =~= rest.skip(1));
            assert(fewer.connections.take(i) =~= pool.connections.take(i));
            let keep2 = |e: (Seq<char>, ManagedView)| stays(e.1, fewer, shared, now);
            let drop2 = |e: (Seq<char>, ManagedView)| !stays(e.1, fewer, shared, now);
            assert(keep2 =~= keep);
            assert(drop2 =~= drop);
            lemma_pruned(fewer, shared, now, i, left.push(entry.1.id));
            let tail = rest.skip(1).filter(drop);
            assert((seq![entry] + tail).map_values(id) =~= seq![entry.1.id] + tail.map_values(id));
            assert(left.push(entry.1.id) + tail.map_values(id) =~= left + (seq![entry.1.id]
                + tail.map_values(id)));
            assert(pool.connections.take(i) + rest.skip(1).filter(keep) =~= pool.connections.take(i)
                + rest.filter(keep));
        } else {
            assert(pool.connections.skip(i + 1) =~= rest.skip(1));
            lemma_pruned(pool, shared, now, i + 1, left);
            assert(pool.connections.take(i + 1) + rest.skip(1).filter(keep)
                =~= pool.connections.take(i) + (seq![entry] + rest.skip(1).filter(keep)));
        }
    } else {
        assert(rest =~= Seq::empty());
        reveal(Seq::filter);
        assert(pool.connections.take(i) + rest.filter(keep) =~= pool.connections);
        assert(left + rest.filter(drop).map_values(id) =~= left);
    }
}

pub proof fn lemma_filter_first<A>(s: Seq<A>, f: spec_fn(A) -> bool)
    requires
        s.len() > 0,
    ensures
        s.filter(f) == (if f(s[0]) {
            seq![s[0]] + s.skip(1).filter(f)
        } else {
            s.skip(1).filter(f)
        }),
{
    let first = seq![s[0]];
    assert(s =~= first + s.skip(1));
    Seq::filter_distributes_over_add(first, s.skip(1), f);
    assert(first.filter(f) =~= (if f(s[0]) {
        first
    } else {
        Seq::empty()
    })) by {
        reveal_with_fuel(Seq::filter, 2);
        assert(first.drop_last() =~= Seq::empty());
    }
}

/// Pruning keeps exactly the connections that are in use or have not lain idle
/// for as long as they may. The others leave, in their order, and each gives its
/// place back.
pub proof fn pruning_drops_what_lies_idle(pool: PoolView, shared: Seq<u64>, now: u64)
    requires
        pool.wf(),
    ensures
        ({
            let keep = |e: (Seq<char>, ManagedView)| stays(e.1, pool, shared, now);
            let drop = |e: (Seq<char>, ManagedView)| !stays(e.1, pool, shared, now);
            let (after, gone) = pool.pruned(shared, now);
            &&& after.connections == pool.connections.filter(keep)
            &&& gone == pool.connections.filter(drop).map_values(
                |e: (Seq<char>, ManagedView)| e.1.id,
            )
            &&& after.held == pool.held - gone.len()
            &&& after.pending == pool.pending && after.connecting == pool.connecting
            &&& after.tickets == pool.tickets && after.config == pool.config
        }),
{
    lemma_pruned(pool, shared, now, 0, Seq::empty());
    assert(pool.connections.skip(0) =~= pool.connections);
    let keep = |e: (Seq<char>, ManagedView)| stays(e.1, pool, shared, now);
    let drop = |e: (Seq<char>, ManagedView)| !stays(e.1, pool, shared, now);
    let ids = pool.connections.filter(drop).map_values(|e: (Seq<char>, ManagedView)| e.1.id);
    assert(pool.connections.take(0) + pool.connections.filter(keep) =~= pool.connections.filter(
        keep,
    ));
    assert(Seq::<u64>::empty() + ids =~= ids);
}

/// Nothing but the connections has changed.
pub open spec fn same_places(a: PoolView, b: PoolView) -> bool {
    &&& a.config == b.config && a.connecting == b.connecting
    &&& a.held == b.held && a.pending == b.pending && a.tickets == b.tickets
}

/// A connection that serves the request is used again, and was then last used
/// now. Nothing else changes, and no place is taken.
pub proof fn connections_are_used_again(
    pool: PoolView,
    i: int,
    config: ConfigView,
    auth: ReuseView,
    dead: Seq<u64>,
    shared: Seq<u64>,
    now: u64,
)
    requires
        pool.wf(),
        0 <= i < pool.connections.len(),
        pool.connections[i].0.len() > 0,
        !dead.contains(pool.connections[i].1.id),
        pool.connections[i].1.config.same(config),
        pool.connections[i].1.authentication.serves(auth),
    ensures
        ({
            let name = pool.connections[i].0;
            let m = pool.connections[i].1;
            let (after, decision) = pool.requested(name, config, auth, dead, shared, now);
            let used = after.connections[i].1;
            &&& decision == Ok::<ConnectDecision, PoolProblem>(ConnectDecision::Reuse(m.id))
            &&& same_places(after, pool)
            &&& after.connections.len() == pool.connections.len()
            &&& forall|k: int|
                0 <= k < pool.connections.len() && k != i ==> #[trigger] after.connections[k]
                    == pool.connections[k]
            &&& after.connections[i].0 == name
            &&& used.last_used == now
            &&& used.id == m.id && used.config == m.config && used.authentication
                == m.authentication && used.active_leases == m.active_leases
        }),
{
    crate::text_map::lemma_lookup(pool.connections, pool.connections[i].0);
}

/// A connection of the same name that does not serve the request is left as it
/// is, and the request is refused.
pub proof fn unlike_requests_are_refused(
    pool: PoolView,
    i: int,
    config: ConfigView,
    auth: ReuseView,
    dead: Seq<u64>,
    shared: Seq<u64>,
    now: u64,
)
    requires
        pool.wf(),
        0 <= i < pool.connections.len(),
        pool.connections[i].0.len() > 0,
        !dead.contains(pool.connections[i].1.id),
    ensures
        ({
            let m = pool.connections[i].1;
            let (after, decision) = pool.requested(
                pool.connections[i].0,
                config,
                auth,
                dead,
                shared,
                now,
            );
            &&& !m.config.same(config) ==> after == pool && decision == Err::<
                ConnectDecision,
                PoolProblem,
            >(PoolProblem::DifferentConfiguration)
            &&& m.config.same(config) && !m.authentication.serves(auth) ==> after == pool
                && decision == Err::<ConnectDecision, PoolProblem>(
                PoolProblem::DifferentAuthentication,
            )
        }),
{
    crate::text_map::lemma_lookup(pool.connections, pool.connections[i].0);
}

/// Somebody sets a connection of that name up.
pub open spec fn is_claimed(pool: PoolView, name: Seq<char>) -> bool {
    exists|k: int| 0 <= k < pool.connecting.len() && #[trigger] pool.connecting[k].0 == name
}

/// A name under which there is no connection is waited for where another caller
/// sets one up. Else the idle ones leave, and the caller sets it up where there
/// is then a place, which it takes, under a ticket that is one above the last;
/// where there is none the request is refused and no claim is left.
pub proof fn new_names_take_a_place(
    pool: PoolView,
    name: Seq<char>,
    config: ConfigView,
    auth: ReuseView,
    dead: Seq<u64>,
    shared: Seq<u64>,
    now: u64,
)
    requires
        pool.wf(),
        name.len() > 0,
        forall|k: int| 0 <= k < pool.connections.len() ==> #[trigger] pool.connections[k].0 != name,
    ensures
        ({
            let waits = is_claimed(pool, name);
            let keep = |e: (Seq<char>, ManagedView)| stays(e.1, pool, shared, now);
            let staying = pool.connections.filter(keep);
            let held = pool.held - (pool.connections.len() - staying.len());
            let (after, decision) = pool.requested(name, config, auth, dead, shared, now);
            match decision {
                Ok(ConnectDecision::Wait) => waits && after == pool,
                Ok(ConnectDecision::Connect(ticket)) => {
                    &&& !waits && held < pool.config.max_connections
                    &&& pool.tickets < u64::MAX ==> ticket == pool.tickets + 1
                    &&& after.tickets == ticket && after.config == pool.config
                    &&& after.connections == staying
                    &&& after.held == held + 1 && after.pending == pool.pending + 1
                    &&& exists|k: int|
                        0 <= k < after.connecting.len() && #[trigger] after.connecting[k] == (
                            name,
                            ticket,
                        )
                    &&& after.connecting.len() == pool.connecting.len() + 1
                },
                Err(PoolProblem::CapacityReached) => {
                    &&& !waits && held >= pool.config.max_connections
                    &&& after.connections == staying && after.held == held
                    &&& after.pending == pool.pending && after.connecting == pool.connecting
                },
                _ => false,
            }
        }),
{
    crate::text_map::lemma_lookup(pool.connections, name);
    crate::text_map::lemma_lookup(pool.connecting, name);
    let (leading, claim) = pool.claimed(name);
    match claim {
        ConnectClaim::Wait => {
            let k = crate::text_map::rank(pool.connecting, name);
            assert(pool.connecting[k].0 == name);
        },
        ConnectClaim::Leader(ticket) => {
            crate::text_map::lemma_put(pool.connecting, name, ticket);
            crate::text_map::lemma_lookup(leading.connecting, name);
            crate::text_map::lemma_without(leading.connecting, name);
            pruning_drops_what_lies_idle(leading, shared, now);
            let keep = |e: (Seq<char>, ManagedView)| stays(e.1, pool, shared, now);
            let keep2 = |e: (Seq<char>, ManagedView)| stays(e.1, leading, shared, now);
            let drop2 = |e: (Seq<char>, ManagedView)| !stays(e.1, leading, shared, now);
            assert(keep2 =~= keep);
            lemma_filter_parts(pool.connections, keep2, drop2);
            let p = crate::text_map::rank(pool.connecting, name);
            crate::text_map::lemma_rank(pool.connecting, name);
            crate::text_map::lemma_rank(leading.connecting, name);
            assert(leading.connecting[p] == (name, ticket));
            let cleared = leading.pruned(shared, now).0;
            assert(cleared.without_claim(name).connecting =~= pool.connecting);
            let gone = leading.pruned(shared, now).1;
            assert(gone.len() == pool.connections.filter(drop2).len());
            assert(cleared.held == pool.held - (pool.connections.len() - pool.connections.filter(
                keep,
            ).len()));
            assert(cleared.connections == pool.connections.filter(keep));
            assert(!is_claimed(pool, name));
            let after = pool.requested(name, config, auth, dead, shared, now).0;
            if cleared.reserved() is Some {
                assert(after == cleared.reserved()->0);
                assert(after.connecting == leading.connecting);
                assert(after.connecting.len() == pool.connecting.len() + 1);
                assert(after.connecting[p] == (name, ticket));
            } else {
                assert(after == cleared.without_claim(name));
            }
        },
    }
}

proof fn lemma_filter_parts<A>(s: Seq<A>, f: spec_fn(A) -> bool, g: spec_fn(A) -> bool)
    requires
        forall|x: A| #[trigger] g(x) == !f(x),
    ensures
        s.filter(f).len() + s.filter(g).len() == s.len(),
    decreases s.len(),
{
    reveal(Seq::filter);
    if s.len() > 0 {
        lemma_filter_parts(s.drop_last(), f, g);
        assert(g(s.last()) == !f(s.last()));
    }
}

/// A connection that was set up becomes the one of its name where there is none,
/// and keeps the place that was taken for it. The claim is gone.
pub proof fn new_connections_are_kept(
    pool: PoolView,
    name: Seq<char>,
    m: ManagedView,
    dead: Seq<u64>,
    now: u64,
)
    requires
        pool.wf(),
        pool.pending > 0,
        forall|k: int| 0 <= k < pool.connections.len() ==> #[trigger] pool.connections[k].0 != name,
    ensures
        ({
            let (after, outcome) = pool.completed(name, m, dead, now);
            &&& outcome == Ok::<Installed, PoolProblem>(Installed::Fresh)
            &&& after.connections.len() == pool.connections.len() + 1
            &&& exists|k: int|
                0 <= k < after.connections.len() && #[trigger] after.connections[k] == (name, m)
            &&& forall|k: int|
                0 <= k < pool.connections.len() ==> after.connections.contains(
                    #[trigger] pool.connections[k],
                )
            &&& after.held == pool.held && after.pending == pool.pending - 1
            &&& after.tickets == pool.tickets && after.config == pool.config
            &&& forall|k: int|
                0 <= k < after.connecting.len() ==> #[trigger] after.connecting[k].0 != name
        }),
{
    crate::text_map::lemma_lookup(pool.connections, name);
    crate::text_map::lemma_put(pool.connections, name, m);
    crate::text_map::lemma_without(pool.connecting, name);
    let after = pool.completed(name, m, dead, now).0;
    let p = crate::text_map::rank(pool.connections, name);
    crate::text_map::lemma_rank(pool.connections, name);
    assert(after.connections[p] == (name, m));
    assert forall|k: int| 0 <= k < pool.connections.len() implies after.connections.contains(
        #[trigger] pool.connections[k],
    ) by {
        if k < p {
            assert(after.connections[k] == pool.connections[k]);
        } else {
            assert(after.connections[k + 1] == pool.connections[k]);
        }
    }
    crate::text_map::lemma_lookup(after.connecting, name);
}

/// Where another connection of that name has come in the meantime and serves the
/// request, it is used and the new one gives its place back.
pub proof fn late_connections_give_way(
    pool: PoolView,
    i: int,
    m: ManagedView,
    dead: Seq<u64>,
    now: u64,
)
    requires
        pool.wf(),
        pool.pending > 0,
        0 <= i < pool.connections.len(),
        !dead.contains(pool.connections[i].1.id),
    ensures
        ({
            let name = pool.connections[i].0;
            let old_one = pool.connections[i].1;
            let (after, outcome) = pool.completed(name, m, dead, now);
            let alike = old_one.config.same(m.config) && old_one.authentication.serves(
                m.authentication,
            );
            &&& alike ==> outcome == Ok::<Installed, PoolProblem>(Installed::Existing(old_one.id))
            &&& !alike ==> outcome is Err && after.connections == pool.connections
            &&& alike ==> {
                &&& after.connections[i].0 == name && after.connections[i].1.last_used == now
                &&& after.connections[i].1.id == old_one.id
                &&& after.connections[i].1.active_leases == old_one.active_leases
                &&& after.connections[i].1.config == old_one.config
                &&& after.connections[i].1.authentication == old_one.authentication
            }
            &&& after.connections.len() == pool.connections.len()
            &&& forall|k: int|
                0 <= k < pool.connections.len() && k != i ==> #[trigger] after.connections[k]
                    == pool.connections[k]
            &&& after.held == pool.held - 1 && after.pending == pool.pending - 1
            &&& after.tickets == pool.tickets && after.config == pool.config
            &&& forall|k: int|
                0 <= k < after.connecting.len() ==> #[trigger] after.connecting[k].0 != name
        }),
{
    let name = pool.connections[i].0;
    crate::text_map::lemma_lookup(pool.connections, name);
    crate::text_map::lemma_without(pool.connecting, name);
    let after = pool.completed(name, m, dead, now).0;
    crate::text_map::lemma_lookup(after.connecting, name);
}

/// A dead connection of the same name is replaced by the new one. Its place is
/// given back where nobody holds it any more.
pub proof fn dead_connections_are_replaced(
    pool: PoolView,
    i: int,
    m: ManagedView,
    dead: Seq<u64>,
    now: u64,
)
    requires
        pool.wf(),
        pool.pending > 0,
        0 <= i < pool.connections.len(),
        dead.contains(pool.connections[i].1.id),
    ensures
        ({
            let name = pool.connections[i].0;
            let (after, outcome) = pool.completed(name, m, dead, now);
            &&& outcome == Ok::<Installed, PoolProblem>(Installed::Fresh)
            &&& after.connections == pool.connections.update(i, (name, m))
            &&& pool.connections[i].1.active_leases == 0 ==> after.held == pool.held - 1
            &&& pool.connections[i].1.active_leases > 0 ==> after.held == pool.held
            &&& after.pending == pool.pending - 1
        }),
{
    let name = pool.connections[i].0;
    crate::text_map::lemma_lookup(pool.connections, name);
    crate::text_map::lemma_without(pool.connections, name);
    let fewer = crate::text_map::without(pool.connections, name);
    crate::text_map::lemma_lookup(fewer, name);
    crate::text_map::lemma_rank(fewer, name);
    crate::text_map::lemma_rank(pool.connections, name);
    crate::text_map::lemma_put(fewer, name, m);
    let after = pool.completed(name, m, dead, now).0;
    let p = crate::text_map::rank(fewer, name);
    assert(fewer =~= pool.connections.remove(i));
    if p < i {
        assert(fewer[p] == pool.connections[p]);
    }
    if p > i {
        assert(fewer[i] == pool.connections[i + 1]);
    }
    assert(p == i);
    assert(after.connections =~= pool.connections.update(i, (name, m)));
}

/// A lease changes the count of one connection and the time at which that one
/// was last used; the connection is the first of its number.
pub proof fn leases_change_one_connection(pool: PoolView, i: int, leases: usize, now: u64)
    requires
        0 <= i < pool.connections.len(),
        forall|k: int| 0 <= k < i ==> (#[trigger] pool.connections[k]).1.id
            != pool.connections[i].1.id,
    ensures
        crate::manager::id_index(pool.connections, pool.connections[i].1.id, 0) == i,
        ({
            let after = crate::manager::with_leases(pool.connections, i, leases, now);
            let m = pool.connections[i].1;
            &&& after.len() == pool.connections.len()
            &&& forall|k: int|
                0 <= k < after.len() && k != i ==> #[trigger] after[k] == pool.connections[k]
            &&& after[i].0 == pool.connections[i].0
            &&& after[i].1.active_leases == leases && after[i].1.last_used == now
            &&& after[i].1.id == m.id && after[i].1.config == m.config
                && after[i].1.authentication == m.authentication
        }),
{
    lemma_index(pool, pool.connections[i].1.id, 0, i);
}

proof fn lemma_index(pool: PoolView, id: u64, from: int, i: int)
    requires
        0 <= from <= i < pool.connections.len(),
        pool.connections[i].1.id == id,
        forall|k: int| from <= k < i ==> (#[trigger] pool.connections[k]).1.id != id,
    ensures
        crate::manager::id_index(pool.connections, id, from) == i,
    decreases i - from,
{
    if from < i {
        lemma_index(pool, id, from + 1, i);
    }
}

/// A number that no connection has is not found.
pub proof fn unknown_numbers_are_not_found(pool: PoolView, id: u64, from: int)
    requires
        0 <= from <= pool.connections.len(),
        forall|k: int|
            from <= k < pool.connections.len() ==> (#[trigger] pool.connections[k]).1.id != id,
    ensures
        crate::manager::id_index(pool.connections, id, from) == pool.connections.len(),
    decreases pool.connections.len() - from,
{
    if from < pool.connections.len() {
        unknown_numbers_are_not_found(pool, id, from + 1);
    }
}

/// Of the connections, those are counted as in use that have a lease or are
/// shared.
pub proof fn connections_in_use_are_counted(
    connections: Seq<(Seq<char>, ManagedView)>,
    shared: Seq<u64>,
    i: int,
)
    requires
        0 <= i <= connections.len(),
    ensures
        crate::manager::in_use_from(connections, shared, i) == connections.skip(i).filter(
            |e: (Seq<char>, ManagedView)| e.1.active_leases > 0 || shared.contains(e.1.id),
        ).len(),
    decreases connections.len() - i,
{
    let used = |e: (Seq<char>, ManagedView)| e.1.active_leases > 0 || shared.contains(e.1.id);
    if i < connections.len() {
        connections_in_use_are_counted(connections, shared, i + 1);
        lemma_filter_first(connections.skip(i), used);
        assert(connections.skip(i).skip(1) =~= connections.skip(i + 1));
    } else {
        reveal(Seq::filter);
        assert(connections.skip(i) =~= Seq::empty());
    }
}

/// The leases of all connections are added up, as far as a count goes.
pub proof fn leases_are_added_up(connections: Seq<(Seq<char>, ManagedView)>, i: int)
    requires
        0 <= i <= connections.len(),
    ensures
        ({
            let sum = connections.take(i).fold_left(
                0int,
                |n: int, e: (Seq<char>, ManagedView)| n + e.1.active_leases,
            );
            crate::manager::leases_before(connections, i) == if sum > usize::MAX {
                usize::MAX as int
            } else {
                sum
            }
        }),
        connections.take(i).fold_left(
            0int,
            |n: int, e: (Seq<char>, ManagedView)| n + e.1.active_leases,
        ) >= 0,
    decreases i,
{
    let add_leases = |n: int, e: (Seq<char>, ManagedView)| n + e.1.active_leases;
    if i > 0 {
        leases_are_added_up(connections, i - 1);
        assert(connections.take(i).drop_last() =~= connections.take(i - 1));
        assert(connections.take(i).last() == connections[i - 1]);
    }
}

/// What is shown of a connection is so: its name, its leases, whether it is in
/// use, and for how long it has lain idle.
pub proof fn shown_connections_are_so(name: Seq<char>, m: ManagedView, shared: Seq<u64>, now: u64)
    ensures
        ({
            let shown = crate::manager::snapshot_of(name, m, shared, now);
            &&& shown.name == name && shown.active_leases == m.active_leases
            &&& shown.in_use == (m.active_leases > 0 || shared.contains(m.id))
            &&& shown.idle_for.nanos < 1000000000
            &&& now >= m.last_used ==> shown.idle_for.secs * 1000000000 + shown.idle_for.nanos
                == now - m.last_used
            &&& now < m.last_used ==> shown.idle_for.secs == 0 && shown.idle_for.nanos == 0
        }),
{
}

} // verus!
