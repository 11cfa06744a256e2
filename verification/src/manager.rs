//! The pool of authenticated connections: which of them a request may use, who
//! may set one up, and when an idle one leaves.
//!
//! Connections are known by number. Which transports have died and which are
//! held elsewhere is told by the caller, as is the time.

use vstd::prelude::*;
use vstd::string::*;

use crate::auth::AuthenticationReuseKey;
use crate::auth::ReuseView;
use crate::config::ConfigView;
use crate::config::ConnectionConfig;
use crate::config::Span;
use crate::text_map::TextMap;

verus! {

pub const DEFAULT_MAX_CONNECTIONS: usize = 64;

pub const DEFAULT_IDLE_SECS: u64 = 900;

#[derive(Debug, Clone, Copy, PartialEq, Eq)]
pub struct ConnectionManagerConfig {
    pub max_connections: usize,
    pub idle_timeout: Span,
}

impl Default for ConnectionManagerConfig {
    fn default() -> (r: Self)
        ensures
            r.max_connections == DEFAULT_MAX_CONNECTIONS,
            r.idle_timeout == (Span { secs: DEFAULT_IDLE_SECS, nanos: 0 }),
    {
        ConnectionManagerConfig {
            max_connections: DEFAULT_MAX_CONNECTIONS,
            idle_timeout: Span { secs: DEFAULT_IDLE_SECS, nanos: 0 },
        }
    }
}

/// What is told of one connection.
#[derive(Debug, Clone, PartialEq, Eq)]
pub struct ConnectionSnapshot {
    pub name: String,
    pub idle_for: Span,
    pub in_use: bool,
    /// Number of leases on the connection.
    pub active_leases: usize,
}

#[verifier::ext_equal]
pub struct ConnectionSnapshotView {
    pub name: Seq<char>,
    pub idle_for: Span,
    pub in_use: bool,
    pub active_leases: usize,
}

impl View for ConnectionSnapshot {
    type V = ConnectionSnapshotView;

    open spec fn view(&self) -> ConnectionSnapshotView {
        ConnectionSnapshotView {
            name: self.name@,
            idle_for: self.idle_for,
            in_use: self.in_use,
            active_leases: self.active_leases,
        }
    }
}

/// What is told of the pool as a whole.
#[derive(Debug, Clone, Copy, PartialEq, Eq)]
pub struct ConnectionManagerSnapshot {
    pub total_connections: usize,
    pub in_use_connections: usize,
    pub active_leases: usize,
    pub max_connections: usize,
    pub available_capacity: usize,
}

#[derive(Debug, Clone, Copy, PartialEq, Eq, Structural)]
pub enum PoolProblem {
    EmptyName,
    DifferentConfiguration,
    DifferentAuthentication,
    CapacityReached,
}

impl PoolProblem {
    pub open spec fn text(self) -> Seq<char> {
        match self {
            PoolProblem::EmptyName => "connection name cannot be empty"@,
            PoolProblem::DifferentConfiguration =>
                "connection name is already bound to a different SSH configuration"@,
            PoolProblem::DifferentAuthentication =>
                "connection name is already bound to a different or non-reusable authentication source"@,
            PoolProblem::CapacityReached => "connection manager capacity reached"@,
        }
    }

    pub fn message(self) -> (r: &'static str)
        ensures
            r@ == self.text(),
    {
        match self {
            PoolProblem::EmptyName => "connection name cannot be empty",
            PoolProblem::DifferentConfiguration =>
                "connection name is already bound to a different SSH configuration",
            PoolProblem::DifferentAuthentication =>
                "connection name is already bound to a different or non-reusable authentication source",
            PoolProblem::CapacityReached => "connection manager capacity reached",
        }
    }
}

/// Why a connection does not serve a request.
pub open spec fn reuse_problem(
    existing: ConfigView,
    requested: ConfigView,
    existing_auth: ReuseView,
    requested_auth: ReuseView,
) -> Option<PoolProblem> {
    if !existing.same(requested) {
        Some(PoolProblem::DifferentConfiguration)
    } else if !existing_auth.serves(requested_auth) {
        Some(PoolProblem::DifferentAuthentication)
    } else {
        None
    }
}

/// Checks that a connection serves a request.
pub fn ensure_reusable(
    existing_config: &ConnectionConfig,
    requested_config: &ConnectionConfig,
    existing_authentication: &AuthenticationReuseKey,
    requested_authentication: &AuthenticationReuseKey,
) -> (r: Result<(), PoolProblem>)
    ensures
        match r {
            Ok(()) => reuse_problem(
                existing_config@,
                requested_config@,
                existing_authentication@,
                requested_authentication@,
            ) is None,
            Err(e) => reuse_problem(
                existing_config@,
                requested_config@,
                existing_authentication@,
                requested_authentication@,
            ) == Some(e),
        },
{
    if !existing_config.same(requested_config) {
        return Err(PoolProblem::DifferentConfiguration);
    }
    if !existing_authentication.can_reuse_with(requested_authentication) {
        return Err(PoolProblem::DifferentAuthentication);
    }
    Ok(())
}

/// A connection of the pool. Times are nanoseconds since the pool was made.
#[derive(Debug, PartialEq, Eq)]
pub struct ManagedConnection {
    pub id: u64,
    pub config: ConnectionConfig,
    pub authentication: AuthenticationReuseKey,
    pub last_used: u64,
    pub active_leases: usize,
}

#[verifier::ext_equal]
pub struct ManagedView {
    pub id: u64,
    pub config: ConfigView,
    pub authentication: ReuseView,
    pub last_used: u64,
    pub active_leases: usize,
}

impl View for ManagedConnection {
    type V = ManagedView;

    open spec fn view(&self) -> ManagedView {
        ManagedView {
            id: self.id,
            config: self.config@,
            authentication: self.authentication@,
            last_used: self.last_used,
            active_leases: self.active_leases,
        }
    }
}

pub open spec fn managed_view() -> spec_fn(ManagedConnection) -> ManagedView {
    |m: ManagedConnection| m@
}

impl ManagedView {
    pub open spec fn touched(self, now: u64) -> ManagedView {
        ManagedView { last_used: now, ..self }
    }

    pub open spec fn idle_nanos(self, now: u64) -> nat {
        if now > self.last_used {
            (now - self.last_used) as nat
        } else {
            0
        }
    }

    /// The connection is leased, or held by someone besides the pool.
    pub open spec fn in_use(self, shared: Seq<u64>) -> bool {
        self.active_leases != 0 || shared.contains(self.id)
    }

    /// The connection may leave the pool.
    pub open spec fn expired(self, shared: Seq<u64>, now: u64, timeout: Span) -> bool {
        !self.in_use(shared) && self.idle_nanos(now) >= span_nanos(timeout)
    }
}

pub open spec fn span_nanos(span: Span) -> nat {
    (span.secs * 1000000000 + span.nanos) as nat
}

pub open spec fn nanos_span(nanos: u64) -> Span {
    Span { secs: nanos / 1000000000, nanos: (nanos % 1000000000) as u32 }
}

fn span_from_nanos(nanos: u64) -> (r: Span)
    ensures
        r == nanos_span(nanos),
{
    Span { secs: nanos / 1000000000, nanos: (nanos % 1000000000) as u32 }
}

fn has_id(list: &[u64], id: u64) -> (r: bool)
    ensures
        r == list@.contains(id),
{
    let mut i: usize = 0;
    while i < list.len()
        invariant
            i <= list@.len(),
            forall|k: int| 0 <= k < i ==> list@[k] != id,
        decreases list@.len() - i,
    {
        if list[i] == id {
            return true;
        }
        i += 1;
    }
    false
}

impl ManagedConnection {
    fn copy_with(&self, last_used: u64, active_leases: usize) -> (r: Self)
        ensures
            r@ == (ManagedView { last_used, active_leases, ..self@ }),
    {
        ManagedConnection {
            id: self.id,
            config: self.config.copy(),
            authentication: self.authentication.copy(),
            last_used,
            active_leases,
        }
    }

    fn idle(&self, now: u64) -> (r: u64)
        ensures
            r == self@.idle_nanos(now),
    {
        if now > self.last_used {
            now - self.last_used
        } else {
            0
        }
    }

    fn busy(&self, shared: &[u64]) -> (r: bool)
        ensures
            r == self@.in_use(shared@),
    {
        self.active_leases != 0 || has_id(shared, self.id)
    }

    fn is_expired(&self, shared: &[u64], now: u64, timeout: Span) -> (r: bool)
        ensures
            r == self@.expired(shared@, now, timeout),
    {
        let limit: u128 = (timeout.secs as u128) * 1000000000 + (timeout.nanos as u128);
        !self.busy(shared) && (self.idle(now) as u128) >= limit
    }
}

/// Who sets up a connection under a name.
#[derive(Debug, Clone, Copy, PartialEq, Eq, Structural)]
pub enum ConnectClaim {
    /// The caller does, under this ticket.
    Leader(u64),
    /// Another caller does; wait until it is done.
    Wait,
}

/// What comes of a request for a connection.
#[derive(Debug, Clone, Copy, PartialEq, Eq, Structural)]
pub enum ConnectDecision {
    /// Use this connection.
    Reuse(u64),
    /// Wait until another caller is done, and ask again.
    Wait,
    /// Set up a connection under this ticket.
    Connect(u64),
}

/// What comes of a connection that has been set up.
#[derive(Debug, Clone, Copy, PartialEq, Eq, Structural)]
pub enum Installed {
    /// It is the connection of its name now.
    Fresh,
    /// This one serves the request; close the new one.
    Existing(u64),
}

/// The pool. It never holds more capacity than it is given.
#[derive(Debug, PartialEq, Eq)]
pub struct ConnectionManager {
    config: ConnectionManagerConfig,
    connections: TextMap<ManagedConnection>,
    connecting: TextMap<u64>,
    held: usize,
    pending: usize,
    tickets: u64,
}

#[verifier::ext_equal]
pub struct PoolView {
    pub config: ConnectionManagerConfig,
    pub connections: Seq<(Seq<char>, ManagedView)>,
    /// Names under which a connection is being set up, with their tickets.
    pub connecting: Seq<(Seq<char>, u64)>,
    /// Capacity in use: by connections of the pool, by those being set up, and
    /// by those that have left the pool and are still held.
    pub held: nat,
    /// Capacity of connections being set up.
    pub pending: nat,
    pub tickets: u64,
}

impl View for ConnectionManager {
    type V = PoolView;

    closed spec fn view(&self) -> PoolView {
        PoolView {
            config: self.config,
            connections: crate::text_map::map_entries(self.connections.entries(), managed_view()),
            connecting: self.connecting.entries(),
            held: self.held as nat,
            pending: self.pending as nat,
            tickets: self.tickets,
        }
    }
}

impl PoolView {
    /// Every connection has its share of the capacity, and no more is held than
    /// there is.
    pub open spec fn wf(self) -> bool {
        &&& self.connections.len() + self.pending <= self.held
        &&& self.held <= self.config.max_connections
        &&& crate::text_map::sorted(self.connections)
        &&& crate::text_map::sorted(self.connecting)
    }

    pub open spec fn with_connection(self, name: Seq<char>, m: ManagedView) -> PoolView {
        PoolView { connections: crate::text_map::put(self.connections, name, m), ..self }
    }

    pub open spec fn without_connection(self, name: Seq<char>) -> PoolView {
        PoolView { connections: crate::text_map::without(self.connections, name), ..self }
    }

    /// The pool without a connection that is dead. Its capacity is free, unless
    /// someone still leases it.
    pub open spec fn without_dead(self, name: Seq<char>, m: ManagedView) -> PoolView {
        PoolView {
            held: if m.active_leases == 0 {
                (self.held - 1) as nat
            } else {
                self.held
            },
            ..self.without_connection(name)
        }
    }

    pub open spec fn without_claim(self, name: Seq<char>) -> PoolView {
        PoolView { connecting: crate::text_map::without(self.connecting, name), ..self }
    }

    /// Looking up a name for a request: pool and connection afterwards. A dead
    /// connection leaves; one that serves the request is touched.
    pub open spec fn looked_up(
        self,
        name: Seq<char>,
        config: ConfigView,
        auth: ReuseView,
        dead: Seq<u64>,
        now: u64,
    ) -> (PoolView, Result<Option<u64>, PoolProblem>) {
        match crate::text_map::lookup(self.connections, name) {
            None => (self, Ok(None)),
            Some(m) => if dead.contains(m.id) {
                (self.without_dead(name, m), Ok(None))
            } else {
                match reuse_problem(m.config, config, m.authentication, auth) {
                    Some(e) => (self, Err(e)),
                    None => (self.with_connection(name, m.touched(now)), Ok(Some(m.id))),
                }
            },
        }
    }

    /// The pool with a claim on the name, and who has it.
    pub open spec fn claimed(self, name: Seq<char>) -> (PoolView, ConnectClaim) {
        if crate::text_map::lookup(self.connecting, name) is Some {
            (self, ConnectClaim::Wait)
        } else {
            let ticket = next_ticket(self.tickets);
            (
                PoolView {
                    connecting: crate::text_map::put(self.connecting, name, ticket),
                    tickets: ticket,
                    ..self
                },
                ConnectClaim::Leader(ticket),
            )
        }
    }

    /// The pool without the idle connections from index `i` on, and the numbers
    /// of those that have left.
    pub open spec fn pruned_from(self, shared: Seq<u64>, now: u64, i: int, left: Seq<u64>) -> (
        PoolView,
        Seq<u64>,
    )
        decreases self.connections.len() - i,
    {
        if i < 0 || i >= self.connections.len() {
            (self, left)
        } else {
            let entry = self.connections[i];
            if entry.1.expired(shared, now, self.config.idle_timeout) {
                PoolView {
                    connections: self.connections.remove(i),
                    held: (self.held - 1) as nat,
                    ..self
                }.pruned_from(shared, now, i, left.push(entry.1.id))
            } else {
                self.pruned_from(shared, now, i + 1, left)
            }
        }
    }

    pub open spec fn pruned(self, shared: Seq<u64>, now: u64) -> (PoolView, Seq<u64>) {
        self.pruned_from(shared, now, 0, Seq::empty())
    }

    /// The pool with capacity set aside for a connection, where there is some.
    pub open spec fn reserved(self) -> Option<PoolView> {
        if self.held < self.config.max_connections {
            Some(PoolView { held: self.held + 1, pending: self.pending + 1, ..self })
        } else {
            None
        }
    }

    /// Pool and decision after a request for a connection.
    pub open spec fn requested(
        self,
        name: Seq<char>,
        config: ConfigView,
        auth: ReuseView,
        dead: Seq<u64>,
        shared: Seq<u64>,
        now: u64,
    ) -> (PoolView, Result<ConnectDecision, PoolProblem>) {
        if name.len() == 0 {
            (self, Err(PoolProblem::EmptyName))
        } else {
            match self.looked_up(name, config, auth, dead, now) {
                (pool, Err(e)) => (pool, Err(e)),
                (pool, Ok(Some(id))) => (pool, Ok(ConnectDecision::Reuse(id))),
                (pool, Ok(None)) => match pool.claimed(name) {
                    (waiting, ConnectClaim::Wait) => (waiting, Ok(ConnectDecision::Wait)),
                    (leading, ConnectClaim::Leader(ticket)) => {
                        let cleared = leading.pruned(shared, now).0;
                        match cleared.reserved() {
                            None => (cleared.without_claim(name), Err(PoolProblem::CapacityReached)),
                            Some(ready) => (ready, Ok(ConnectDecision::Connect(ticket))),
                        }
                    },
                },
            }
        }
    }

    /// The claim of this ticket is the one on the name.
    pub open spec fn has_claim(self, name: Seq<char>, ticket: u64) -> bool {
        crate::text_map::lookup(self.connecting, name) == Some(ticket)
    }

    /// Pool and outcome once a connection has been set up under a claim. A live
    /// connection of that name is kept, and serves where it can; a dead one
    /// makes room.
    pub open spec fn completed(
        self,
        name: Seq<char>,
        m: ManagedView,
        dead: Seq<u64>,
        now: u64,
    ) -> (PoolView, Result<Installed, PoolProblem>) {
        let settled = PoolView { pending: (self.pending - 1) as nat, ..self.without_claim(name) };
        match crate::text_map::lookup(self.connections, name) {
            Some(existing) if !dead.contains(existing.id) => {
                let freed = PoolView { held: (settled.held - 1) as nat, ..settled };
                match reuse_problem(
                    existing.config,
                    m.config,
                    existing.authentication,
                    m.authentication,
                ) {
                    Some(e) => (freed, Err(e)),
                    None => (
                        freed.with_connection(name, existing.touched(now)),
                        Ok(Installed::Existing(existing.id)),
                    ),
                }
            },
            Some(existing) => (
                settled.without_dead(name, existing).with_connection(name, m),
                Ok(Installed::Fresh),
            ),
            None => (settled.with_connection(name, m), Ok(Installed::Fresh)),
        }
    }
}

pub open spec fn next_ticket(ticket: u64) -> u64 {
    if ticket == u64::MAX {
        0
    } else {
        (ticket + 1) as u64
    }
}

pub open spec fn snapshot_of(
    name: Seq<char>,
    m: ManagedView,
    shared: Seq<u64>,
    now: u64,
) -> ConnectionSnapshotView {
    ConnectionSnapshotView {
        name,
        idle_for: nanos_span(m.idle_nanos(now) as u64),
        in_use: m.in_use(shared),
        active_leases: m.active_leases,
    }
}

/// How many of the connections from index `i` on are in use.
pub open spec fn in_use_from(
    connections: Seq<(Seq<char>, ManagedView)>,
    shared: Seq<u64>,
    i: int,
) -> nat
    decreases connections.len() - i,
{
    if i < 0 || i >= connections.len() {
        0
    } else {
        in_use_from(connections, shared, i + 1) + if connections[i].1.in_use(shared) {
            1nat
        } else {
            0nat
        }
    }
}

/// The leases on the connections before index `i`, as far as they can be
/// counted.
pub open spec fn leases_before(connections: Seq<(Seq<char>, ManagedView)>, i: int) -> nat
    decreases i,
{
    if i <= 0 {
        0
    } else {
        let sum = leases_before(connections, i - 1) + connections[i - 1].1.active_leases as nat;
        if sum > usize::MAX {
            usize::MAX as nat
        } else {
            sum
        }
    }
}

/// The connections with entry `i` leased once more or once less.
pub open spec fn with_leases(
    connections: Seq<(Seq<char>, ManagedView)>,
    i: int,
    leases: usize,
    now: u64,
) -> Seq<(Seq<char>, ManagedView)> {
    connections.update(
        i,
        (
            connections[i].0,
            ManagedView { active_leases: leases, last_used: now, ..connections[i].1 },
        ),
    )
}

/// Index of the first connection with this number from index `i` on; the
/// number of connections where there is none.
pub open spec fn id_index(connections: Seq<(Seq<char>, ManagedView)>, id: u64, i: int) -> int
    decreases connections.len() - i,
{
    if i < 0 || i >= connections.len() {
        connections.len() as int
    } else if connections[i].1.id == id {
        i
    } else {
        id_index(connections, id, i + 1)
    }
}

proof fn lemma_put_at<V>(entries: Seq<(Seq<char>, V)>, i: int, value: V)
    requires
        crate::text_map::sorted(entries),
        0 <= i < entries.len(),
    ensures
        crate::text_map::put(entries, entries[i].0, value) == entries.update(
            i,
            (entries[i].0, value),
        ),
        crate::text_map::without(entries, entries[i].0) == entries.remove(i),
        crate::text_map::lookup(entries, entries[i].0) == Some(entries[i].1),
{
    let key = entries[i].0;
    crate::text::lemma_text_less_irreflexive(key);
    assert forall|k: int| 0 <= k < i implies crate::text::text_less(#[trigger] entries[k].0, key) by {}
    crate::text_map::lemma_rank_is(entries, key, i);
    assert(crate::text_map::put(entries, key, value) =~= entries.update(i, (key, value)));
    assert(crate::text_map::without(entries, key) =~= entries.remove(i));
}

impl ConnectionManager {
    pub fn new(config: ConnectionManagerConfig) -> (r: Self)
        ensures
            r@ == (PoolView {
                config,
                connections: Seq::empty(),
                connecting: Seq::empty(),
                held: 0,
                pending: 0,
                tickets: 0,
            }),
            r@.wf(),
    {
        let r = ConnectionManager {
            config,
            connections: TextMap::new(),
            connecting: TextMap::new(),
            held: 0,
            pending: 0,
            tickets: 0,
        };
        assert(r@.connections =~= Seq::<(Seq<char>, ManagedView)>::empty());
        r
    }

    pub fn config(&self) -> (r: &ConnectionManagerConfig)
        ensures
            *r == self@.config,
    {
        &self.config
    }

    pub fn len(&self) -> (r: usize)
        ensures
            r == self@.connections.len(),
    {
        self.connections.len()
    }

    pub fn is_empty(&self) -> (r: bool)
        ensures
            r == (self@.connections.len() == 0),
    {
        self.connections.is_empty()
    }

    fn managed(&self, name: &str) -> (r: Option<&ManagedConnection>)
        ensures
            match r {
                Some(m) => crate::text_map::lookup(self@.connections, name@) == Some(m@),
                None => crate::text_map::lookup(self@.connections, name@) is None,
            },
    {
        self.connections.recall_order();
        proof {
            crate::text_map::lemma_map_entries(self.connections.entries(), managed_view(), name@);
        }
        self.connections.get(name)
    }

    fn store(&mut self, name: &str, m: ManagedConnection)
        ensures
            final(self)@ == old(self)@.with_connection(name@, m@),
    {
        self.connections.recall_order();
        proof {
            crate::text_map::lemma_map_entries(self.connections.entries(), managed_view(), name@);
        }
        self.connections.insert(name.to_owned(), m);
    }

    fn evict(&mut self, name: &str)
        ensures
            final(self)@ == old(self)@.without_connection(name@),
    {
        self.connections.recall_order();
        proof {
            crate::text_map::lemma_map_entries(self.connections.entries(), managed_view(), name@);
        }
        self.connections.remove(name);
    }

    /// Takes out a dead connection with this many leases.
    fn evict_dead(&mut self, name: &str, leases: usize)
        requires
            old(self)@.wf(),
            crate::text_map::lookup(old(self)@.connections, name@) matches Some(m)
                && m.active_leases == leases,
        ensures
            final(self)@.wf(),
            final(self)@ == old(self)@.without_dead(
                name@,
                crate::text_map::lookup(old(self)@.connections, name@)->0,
            ),
            final(self)@.connections.len() + 1 == old(self)@.connections.len(),
    {
        proof {
            crate::text_map::lemma_lookup(self@.connections, name@);
            crate::text_map::lemma_without(self@.connections, name@);
        }
        self.evict(name);
        if leases == 0 {
            self.held = self.held - 1;
        }
    }

    /// What is told of every connection, in the order of their names.
    pub fn connection_snapshots(&self, shared: &[u64], now: u64) -> (r: Vec<ConnectionSnapshot>)
        ensures
            r@.map_values(|s: ConnectionSnapshot| s@) == self@.connections.map_values(
                |e: (Seq<char>, ManagedView)| snapshot_of(e.0, e.1, shared@, now),
            ),
    {
        let count = self.connections.len();
        let mut out: Vec<ConnectionSnapshot> = Vec::new();
        let mut i: usize = 0;
        while i < count
            invariant
                count == self.connections.entries().len(),
                i <= count,
                out@.len() == i,
                forall|k: int|
                    0 <= k < i ==> (#[trigger] out@[k])@ == snapshot_of(
                        self@.connections[k].0,
                        self@.connections[k].1,
                        shared@,
                        now,
                    ),
            decreases count - i,
        {
            let m = self.connections.value_at(i);
            assert(self@.connections[i as int].1 == m@);
            out.push(
                ConnectionSnapshot {
                    name: self.connections.key_at(i).clone(),
                    idle_for: span_from_nanos(m.idle(now)),
                    in_use: m.busy(shared),
                    active_leases: m.active_leases,
                },
            );
            i += 1;
        }
        assert(out@.map_values(|s: ConnectionSnapshot| s@) =~= self@.connections.map_values(
            |e: (Seq<char>, ManagedView)| snapshot_of(e.0, e.1, shared@, now),
        ));
        out
    }

    /// What is told of the pool.
    pub fn snapshot(&self, shared: &[u64]) -> (r: ConnectionManagerSnapshot)
        requires
            self@.wf(),
        ensures
            r.total_connections == self@.connections.len(),
            r.in_use_connections == in_use_from(self@.connections, shared@, 0),
            r.active_leases == leases_before(
                self@.connections,
                self@.connections.len() as int,
            ),
            r.max_connections == self@.config.max_connections,
            r.available_capacity == self@.config.max_connections - self@.held,
    {
        let count = self.connections.len();
        let ghost all = self@.connections;
        let mut used: usize = 0;
        let mut leases: usize = 0;
        let mut i: usize = 0;
        while i < count
            invariant
                all == self@.connections,
                count == self.connections.entries().len(),
                count == all.len(),
                i <= count,
                used <= i,
                in_use_from(all, shared@, 0) == used + in_use_from(all, shared@, i as int),
                leases == leases_before(all, i as int),
            decreases count - i,
        {
            let m = self.connections.value_at(i);
            assert(all[i as int].1 == m@);
            if m.busy(shared) {
                used += 1;
            }
            if m.active_leases > usize::MAX - leases {
                leases = usize::MAX;
            } else {
                leases += m.active_leases;
            }
            i += 1;
        }
        ConnectionManagerSnapshot {
            total_connections: count,
            in_use_connections: used,
            active_leases: leases,
            max_connections: self.config.max_connections,
            available_capacity: self.config.max_connections - self.held,
        }
    }

    /// The connection that is bound to the name, whatever it was set up for. A
    /// dead one leaves the pool; where no one leases it, its capacity is free.
    pub fn get(&mut self, name: &str, dead: &[u64], now: u64) -> (r: Option<u64>)
        requires
            old(self)@.wf(),
        ensures
            final(self)@.wf(),
            match crate::text_map::lookup(old(self)@.connections, name@) {
                None => r is None && final(self)@ == old(self)@,
                Some(m) => if dead@.contains(m.id) {
                    r is None && final(self)@ == old(self)@.without_dead(name@, m)
                } else {
                    r == Some(m.id) && final(self)@ == old(self)@.with_connection(
                        name@,
                        m.touched(now),
                    )
                },
            },
    {
        proof {
            crate::text_map::lemma_lookup(self@.connections, name@);
            crate::text_map::lemma_without(self@.connections, name@);
        }
        match self.managed(name) {
            None => None,
            Some(m) => {
                let id = m.id;
                if has_id(dead, id) {
                    let leases = m.active_leases;
                    self.evict_dead(name, leases);
                    return None;
                }
                let fresh = m.copy_with(now, m.active_leases);
                proof {
                    crate::text_map::lemma_put(self@.connections, name@, fresh@);
                }
                self.store(name, fresh);
                Some(id)
            },
        }
    }

    fn get_reusable(
        &mut self,
        name: &str,
        config: &ConnectionConfig,
        authentication: &AuthenticationReuseKey,
        dead: &[u64],
        now: u64,
    ) -> (r: Result<Option<u64>, PoolProblem>)
        requires
            old(self)@.wf(),
        ensures
            final(self)@.wf(),
            (final(self)@, r) == old(self)@.looked_up(
                name@,
                config@,
                authentication@,
                dead@,
                now,
            ),
    {
        proof {
            crate::text_map::lemma_lookup(self@.connections, name@);
            crate::text_map::lemma_without(self@.connections, name@);
        }
        match self.managed(name) {
            None => Ok(None),
            Some(m) => {
                let id = m.id;
                if has_id(dead, id) {
                    let leases = m.active_leases;
                    self.evict_dead(name, leases);
                    return Ok(None);
                }
                ensure_reusable(&m.config, config, &m.authentication, authentication)?;
                let fresh = m.copy_with(now, m.active_leases);
                proof {
                    crate::text_map::lemma_put(self@.connections, name@, fresh@);
                }
                self.store(name, fresh);
                Ok(Some(id))
            },
        }
    }

    /// Claims the setting up of a connection under a name. One caller at a time
    /// has the claim on a name; different names do not hinder one another.
    pub fn claim_connect(&mut self, name: &str) -> (r: ConnectClaim)
        requires
            old(self)@.wf(),
        ensures
            final(self)@.wf(),
            (final(self)@, r) == old(self)@.claimed(name@),
    {
        if self.connecting.contains_key(name) {
            return ConnectClaim::Wait;
        }
        let ticket = if self.tickets == u64::MAX {
            0
        } else {
            self.tickets + 1
        };
        proof {
            crate::text_map::lemma_put(self.connecting.entries(), name@, ticket);
        }
        self.tickets = ticket;
        self.connecting.insert(name.to_owned(), ticket);
        ConnectClaim::Leader(ticket)
    }

    /// Gives up a claim. A claim that has passed to another caller stays.
    pub fn drop_claim(&mut self, name: &str, ticket: u64) -> (r: bool)
        requires
            old(self)@.wf(),
        ensures
            final(self)@.wf(),
            r == old(self)@.has_claim(name@, ticket),
            final(self)@ == (if r {
                old(self)@.without_claim(name@)
            } else {
                old(self)@
            }),
    {
        let mine = match self.connecting.get(name) {
            Some(current) => *current == ticket,
            None => false,
        };
        if mine {
            proof {
                crate::text_map::lemma_without(self.connecting.entries(), name@);
            }
            self.connecting.remove(name);
        }
        mine
    }

    /// Takes the idle connections out of the pool that no one leases or holds,
    /// and tells their numbers. They are not disconnected.
    pub fn prune_idle(&mut self, shared: &[u64], now: u64) -> (r: Vec<u64>)
        requires
            old(self)@.wf(),
        ensures
            final(self)@.wf(),
            (final(self)@, r@) == old(self)@.pruned(shared@, now),
    {
        let mut left: Vec<u64> = Vec::new();
        let mut i: usize = 0;
        let mut count = self.connections.len();
        while i < count
            invariant
                self@.wf(),
                count == self@.connections.len(),
                count == self.connections.entries().len(),
                i <= count,
                old(self)@.pruned(shared@, now) == self@.pruned_from(
                    shared@,
                    now,
                    i as int,
                    left@,
                ),
            decreases count - i,
        {
            let m = self.connections.value_at(i);
            assert(self@.connections[i as int].1 == m@);
            let id = m.id;
            if m.is_expired(shared, now, self.config.idle_timeout) {
                let name = self.connections.key_at(i).clone();
                let ghost before = self@;
                proof {
                    lemma_put_at(before.connections, i as int, m@);
                    crate::text_map::lemma_without(before.connections, name@);
                }
                self.evict(name.as_str());
                self.held = self.held - 1;
                left.push(id);
                count = self.connections.len();
                assert(self@.connections == before.connections.remove(i as int));
            } else {
                i += 1;
            }
        }
        left
    }

    fn reserve(&mut self) -> (r: bool)
        requires
            old(self)@.wf(),
        ensures
            final(self)@.wf(),
            r == (old(self)@.reserved() is Some),
            final(self)@ == (match old(self)@.reserved() {
                Some(pool) => pool,
                None => old(self)@,
            }),
    {
        if self.held < self.config.max_connections {
            self.held = self.held + 1;
            self.pending = self.pending + 1;
            true
        } else {
            false
        }
    }

    /// Asks for a connection. Where there is one under the name it has to serve
    /// the request; else the caller sets one up, waits for another caller who
    /// does, or is told that there is no capacity.
    pub fn begin_connect(
        &mut self,
        name: &str,
        config: &ConnectionConfig,
        authentication: &AuthenticationReuseKey,
        dead: &[u64],
        shared: &[u64],
        now: u64,
    ) -> (r: Result<ConnectDecision, PoolProblem>)
        requires
            old(self)@.wf(),
        ensures
            final(self)@.wf(),
            (final(self)@, r) == old(self)@.requested(
                name@,
                config@,
                authentication@,
                dead@,
                shared@,
                now,
            ),
    {
        if name.is_empty() {
            return Err(PoolProblem::EmptyName);
        }
        match self.get_reusable(name, config, authentication, dead, now)? {
            Some(id) => Ok(ConnectDecision::Reuse(id)),
            None => match self.claim_connect(name) {
                ConnectClaim::Wait => Ok(ConnectDecision::Wait),
                ConnectClaim::Leader(ticket) => {
                    self.prune_idle(shared, now);
                    if !self.reserve() {
                        proof {
                            crate::text_map::lemma_without(self.connecting.entries(), name@);
                        }
                        self.connecting.remove(name);
                        return Err(PoolProblem::CapacityReached);
                    }
                    Ok(ConnectDecision::Connect(ticket))
                },
            },
        }
    }

    /// Puts a connection that has been set up under a claim into the pool. A
    /// dead one under the name makes room. Nothing happens where the claim is
    /// not the caller's.
    pub fn finish_connect(
        &mut self,
        name: &str,
        ticket: u64,
        connection: ManagedConnection,
        dead: &[u64],
        now: u64,
    ) -> (r: Option<Result<Installed, PoolProblem>>)
        requires
            old(self)@.wf(),
        ensures
            final(self)@.wf(),
            match r {
                Some(outcome) => {
                    &&& old(self)@.has_claim(name@, ticket) && old(self)@.pending > 0
                    &&& (final(self)@, outcome) == old(self)@.completed(
                        name@,
                        connection@,
                        dead@,
                        now,
                    )
                },
                None => {
                    &&& !(old(self)@.has_claim(name@, ticket) && old(self)@.pending > 0)
                    &&& final(self)@ == old(self)@
                },
            },
    {
        let mine = match self.connecting.get(name) {
            Some(current) => *current == ticket,
            None => false,
        };
        if !mine || self.pending == 0 {
            return None;
        }
        proof {
            crate::text_map::lemma_without(self.connecting.entries(), name@);
            crate::text_map::lemma_lookup(self@.connections, name@);
            crate::text_map::lemma_put(self@.connections, name@, connection@);
        }
        let mut replaced: Option<usize> = None;
        let problem = match self.managed(name) {
            Some(existing) => if has_id(dead, existing.id) {
                replaced = Some(existing.active_leases);
                None
            } else {
                let fresh = existing.copy_with(now, existing.active_leases);
                Some(
                    (
                        ensure_reusable(
                            &existing.config,
                            &connection.config,
                            &existing.authentication,
                            &connection.authentication,
                        ),
                        fresh,
                    ),
                )
            },
            None => None,
        };
        self.connecting.remove(name);
        self.pending = self.pending - 1;
        match problem {
            None => {
                if let Some(leases) = replaced {
                    self.evict_dead(name, leases);
                }
                proof {
                    crate::text_map::lemma_lookup(self@.connections, name@);
                    crate::text_map::lemma_put(self@.connections, name@, connection@);
                }
                self.store(name, connection);
                Some(Ok(Installed::Fresh))
            },
            Some((verdict, fresh)) => {
                self.held = self.held - 1;
                match verdict {
                    Err(e) => Some(Err(e)),
                    Ok(()) => {
                        let id = fresh.id;
                        proof {
                            crate::text_map::lemma_put(self@.connections, name@, fresh@);
                        }
                        self.store(name, fresh);
                        Some(Ok(Installed::Existing(id)))
                    },
                }
            },
        }
    }

    /// Gives back claim and capacity of a connection that was not set up.
    pub fn abandon_connect(&mut self, name: &str, ticket: u64) -> (r: bool)
        requires
            old(self)@.wf(),
        ensures
            final(self)@.wf(),
            r == (old(self)@.has_claim(name@, ticket) && old(self)@.pending > 0),
            final(self)@ == (if r {
                PoolView {
                    held: (old(self)@.held - 1) as nat,
                    pending: (old(self)@.pending - 1) as nat,
                    ..old(self)@.without_claim(name@)
                }
            } else {
                old(self)@
            }),
    {
        let mine = match self.connecting.get(name) {
            Some(current) => *current == ticket,
            None => false,
        };
        if !mine || self.pending == 0 {
            return false;
        }
        proof {
            crate::text_map::lemma_without(self.connecting.entries(), name@);
        }
        self.connecting.remove(name);
        self.pending = self.pending - 1;
        self.held = self.held - 1;
        true
    }

    fn index_of(&self, id: u64) -> (r: Option<usize>)
        ensures
            match r {
                Some(p) => p == id_index(self@.connections, id, 0) && p < self@.connections.len(),
                None => id_index(self@.connections, id, 0) >= self@.connections.len(),
            },
            crate::text_map::sorted(self@.connections),
    {
        let count = self.connections.len();
        proof {
            crate::text_map::lemma_map_entries(
                self.connections.entries(),
                managed_view(),
                Seq::empty(),
            );
        }
        let mut i: usize = 0;
        while i < count
            invariant
                count == self.connections.entries().len(),
                i <= count,
                id_index(self@.connections, id, 0) == id_index(self@.connections, id, i as int),
                crate::text_map::sorted(self@.connections),
            decreases count - i,
        {
            let m = self.connections.value_at(i);
            assert(self@.connections[i as int].1 == m@);
            if m.id == id {
                return Some(i);
            }
            i += 1;
        }
        None
    }

    fn set_leases(&mut self, i: usize, leases: usize, now: u64)
        requires
            old(self)@.wf(),
            i < old(self)@.connections.len(),
        ensures
            final(self)@.wf(),
            final(self)@ == (PoolView {
                connections: with_leases(old(self)@.connections, i as int, leases, now),
                ..old(self)@
            }),
    {
        self.connections.recall_order();
        let m = self.connections.value_at(i);
        assert(self@.connections[i as int].1 == m@);
        let changed = m.copy_with(now, leases);
        let name = self.connections.key_at(i).clone();
        proof {
            lemma_put_at(self@.connections, i as int, changed@);
            crate::text_map::lemma_put(self@.connections, name@, changed@);
        }
        self.store(name.as_str(), changed);
    }

    /// Leases a connection. False where the pool does not have it, or it cannot
    /// be leased once more.
    pub fn acquire_lease(&mut self, id: u64, now: u64) -> (r: bool)
        requires
            old(self)@.wf(),
        ensures
            final(self)@.wf(),
            ({
                let p = id_index(old(self)@.connections, id, 0);
                let leases = old(self)@.connections[p].1.active_leases;
                if p < old(self)@.connections.len() && leases < usize::MAX {
                    r && final(self)@ == (PoolView {
                        connections: with_leases(
                            old(self)@.connections,
                            p,
                            (leases + 1) as usize,
                            now,
                        ),
                        ..old(self)@
                    })
                } else {
                    !r && final(self)@ == old(self)@
                }
            }),
    {
        match self.index_of(id) {
            None => false,
            Some(i) => {
                let m = self.connections.value_at(i);
                assert(self@.connections[i as int].1 == m@);
                let leases = m.active_leases;
                if leases == usize::MAX {
                    return false;
                }
                self.set_leases(i, leases + 1, now);
                true
            },
        }
    }

    /// Gives back a lease. The connection is idle from now on.
    pub fn release_lease(&mut self, id: u64, now: u64) -> (r: bool)
        requires
            old(self)@.wf(),
        ensures
            final(self)@.wf(),
            ({
                let p = id_index(old(self)@.connections, id, 0);
                let leases = old(self)@.connections[p].1.active_leases;
                if p < old(self)@.connections.len() && leases > 0 {
                    r && final(self)@ == (PoolView {
                        connections: with_leases(
                            old(self)@.connections,
                            p,
                            (leases - 1) as usize,
                            now,
                        ),
                        ..old(self)@
                    })
                } else {
                    !r && final(self)@ == old(self)@
                }
            }),
    {
        match self.index_of(id) {
            None => false,
            Some(i) => {
                let m = self.connections.value_at(i);
                assert(self@.connections[i as int].1 == m@);
                let leases = m.active_leases;
                if leases == 0 {
                    return false;
                }
                self.set_leases(i, leases - 1, now);
                true
            },
        }
    }

    /// Takes a connection out of the pool, for the caller to close. Its
    /// capacity is free once `release_capacity` is called.
    pub fn remove(&mut self, name: &str) -> (r: Option<u64>)
        requires
            old(self)@.wf(),
        ensures
            final(self)@.wf(),
            final(self)@ == old(self)@.without_connection(name@),
            r == (match crate::text_map::lookup(old(self)@.connections, name@) {
                Some(m) => Some(m.id),
                None => None,
            }),
    {
        proof {
            crate::text_map::lemma_lookup(self@.connections, name@);
            crate::text_map::lemma_without(self@.connections, name@);
        }
        let id = match self.managed(name) {
            Some(m) => Some(m.id),
            None => None,
        };
        self.evict(name);
        id
    }

    /// Takes every connection out of the pool, for the caller to close.
    pub fn close_all(&mut self) -> (r: Vec<u64>)
        requires
            old(self)@.wf(),
        ensures
            final(self)@.wf(),
            final(self)@ == (PoolView { connections: Seq::empty(), ..old(self)@ }),
            r@ == old(self)@.connections.map_values(|e: (Seq<char>, ManagedView)| e.1.id),
    {
        let count = self.connections.len();
        let mut ids: Vec<u64> = Vec::new();
        let mut i: usize = 0;
        while i < count
            invariant
                *self == *old(self),
                count == self.connections.entries().len(),
                i <= count,
                ids@.len() == i,
                forall|k: int| 0 <= k < i ==> #[trigger] ids@[k] == self@.connections[k].1.id,
            decreases count - i,
        {
            let m = self.connections.value_at(i);
            assert(self@.connections[i as int].1 == m@);
            ids.push(m.id);
            i += 1;
        }
        assert(ids@ =~= self@.connections.map_values(|e: (Seq<char>, ManagedView)| e.1.id));
        self.connections = TextMap::new();
        assert(self@.connections =~= Seq::<(Seq<char>, ManagedView)>::empty());
        ids
    }

    /// The last holder of a connection that has left the pool is gone: its
    /// capacity is free again.
    pub fn release_capacity(&mut self) -> (r: bool)
        requires
            old(self)@.wf(),
        ensures
            final(self)@.wf(),
            r == (old(self)@.connections.len() + old(self)@.pending < old(self)@.held),
            final(self)@ == (if r {
                PoolView { held: (old(self)@.held - 1) as nat, ..old(self)@ }
            } else {
                old(self)@
            }),
    {
        let count = self.connections.len();
        if self.pending < self.held && count < self.held - self.pending {
            self.held = self.held - 1;
            true
        } else {
            false
        }
    }
}

/// A connection that is leased, or held outside the pool, never leaves as an
/// idle one; neither does one that has not been idle for long enough.
pub proof fn pruning_spares_connections_in_use(
    pool: PoolView,
    shared: Seq<u64>,
    now: u64,
    i: int,
    left: Seq<u64>,
    name: Seq<char>,
)
    requires
        pool.wf(),
        0 <= i <= pool.connections.len(),
        crate::text_map::lookup(pool.connections, name) matches Some(m) && !m.expired(
            shared,
            now,
            pool.config.idle_timeout,
        ),
    ensures
        crate::text_map::lookup(pool.pruned_from(shared, now, i, left).0.connections, name)
            == crate::text_map::lookup(pool.connections, name),
    decreases pool.connections.len() - i,
{
    if i < pool.connections.len() {
        let entry = pool.connections[i];
        if entry.1.expired(shared, now, pool.config.idle_timeout) {
            let next = PoolView {
                connections: pool.connections.remove(i),
                held: (pool.held - 1) as nat,
                ..pool
            };
            lemma_put_at(pool.connections, i, entry.1);
            crate::text_map::lemma_without(pool.connections, entry.0);
            pruning_spares_connections_in_use(
                next,
                shared,
                now,
                i,
                left.push(entry.1.id),
                name,
            );
        } else {
            pruning_spares_connections_in_use(pool, shared, now, i + 1, left, name);
        }
    }
}

proof fn lemma_pruning_frees(pool: PoolView, shared: Seq<u64>, now: u64, i: int, left: Seq<u64>)
    requires
        pool.connections.len() <= pool.held,
    ensures
        pool.pruned_from(shared, now, i, left).0.held <= pool.held,
        pool.pruned_from(shared, now, i, left).0.config == pool.config,
    decreases pool.connections.len() - i,
{
    if 0 <= i < pool.connections.len() {
        let entry = pool.connections[i];
        if entry.1.expired(shared, now, pool.config.idle_timeout) {
            let next = PoolView {
                connections: pool.connections.remove(i),
                held: (pool.held - 1) as nat,
                ..pool
            };
            lemma_pruning_frees(next, shared, now, i, left.push(entry.1.id));
        } else {
            lemma_pruning_frees(pool, shared, now, i + 1, left);
        }
    }
}

/// A dead connection does not stand in the way of a fresh one under its name:
/// unless someone leases it or another caller is at work on the name, the
/// caller is told to connect, even where the pool was full.
pub proof fn dead_connections_make_room(
    pool: PoolView,
    name: Seq<char>,
    config: ConfigView,
    auth: ReuseView,
    dead: Seq<u64>,
    shared: Seq<u64>,
    now: u64,
)
    requires
        pool.wf(),
        name.len() > 0,
        crate::text_map::lookup(pool.connections, name) matches Some(m) && dead.contains(m.id)
            && m.active_leases == 0,
        crate::text_map::lookup(pool.connecting, name) is None,
    ensures
        pool.requested(name, config, auth, dead, shared, now).1 matches Ok(
            ConnectDecision::Connect(_),
        ),
{
    let m = crate::text_map::lookup(pool.connections, name)->0;
    crate::text_map::lemma_lookup(pool.connections, name);
    crate::text_map::lemma_without(pool.connections, name);
    let leading = pool.without_dead(name, m).claimed(name).0;
    lemma_pruning_frees(leading, shared, now, 0, Seq::empty());
}

/// While one caller has the claim on a name, no other gets it; another name can
/// be claimed all the same.
pub proof fn claims_are_exclusive(pool: PoolView, name: Seq<char>, other: Seq<char>)
    requires
        pool.wf(),
        crate::text_map::lookup(pool.connecting, name) is None,
        crate::text_map::lookup(pool.connecting, other) is None,
        name != other,
    ensures
        pool.claimed(name).1 is Leader,
        pool.claimed(name).0.claimed(name).1 == ConnectClaim::Wait,
        pool.claimed(name).0.claimed(other).1 is Leader,
        pool.claimed(name).0.without_claim(name).claimed(name).1 is Leader,
{
    let ticket = next_ticket(pool.tickets);
    crate::text_map::lemma_put(pool.connecting, name, ticket);
    let after = crate::text_map::put(pool.connecting, name, ticket);
    crate::text_map::lemma_without(after, name);
}

/// A request is served by a connection only where its configuration is that of
/// the request and its source of authentication serves it.
pub proof fn reuse_is_compatible(
    pool: PoolView,
    name: Seq<char>,
    config: ConfigView,
    auth: ReuseView,
    dead: Seq<u64>,
    shared: Seq<u64>,
    now: u64,
)
    ensures
        pool.requested(name, config, auth, dead, shared, now).1 matches Ok(ConnectDecision::Reuse(id))
            ==> {
            &&& crate::text_map::lookup(pool.connections, name) matches Some(m)
            &&& m.id == id
            &&& !dead.contains(id)
            &&& m.config.same(config)
            &&& m.authentication.serves(auth)
        },
{
}

} // verus!
