//! What a client decides when its server presents a key or opens a channel.

use vstd::prelude::*;
use vstd::string::*;

use crate::config::HostKeyPolicy;
use crate::diagnostics::HostKeyVerification;
use crate::diagnostics::ServerHostKeyInfo;
use crate::host_trust::HostKey;
use crate::host_trust::HostTrustPolicy;
use crate::host_trust::HostTrustProblem;
use crate::text::same_text;

verus! {

pub const REMOTE_FORWARD_CONNECT_TIMEOUT_SECS: u64 = 10;

pub const AGENT_FORWARD_CONNECT_TIMEOUT_SECS: u64 = 5;

pub const MAX_SERVER_INITIATED_FORWARD_CHANNELS: usize = 128;

/// A bounded number of connections at a time.
#[derive(Debug, PartialEq, Eq)]
pub struct Slots {
    pub limit: usize,
    pub used: usize,
}

impl Slots {
    pub open spec fn wf(&self) -> bool {
        self.used <= self.limit
    }

    pub fn new(limit: usize) -> (r: Self)
        ensures
            r.wf(),
            r.limit == limit,
            r.used == 0,
    {
        Slots { limit, used: 0 }
    }

    /// Takes a slot where one is free.
    pub fn try_acquire(&mut self) -> (r: bool)
        requires
            old(self).wf(),
        ensures
            final(self).wf(),
            final(self).limit == old(self).limit,
            r == (old(self).used < old(self).limit),
            final(self).used == old(self).used + if r {
                1int
            } else {
                0int
            },
    {
        if self.used < self.limit {
            self.used += 1;
            true
        } else {
            false
        }
    }

    /// Gives a slot back.
    pub fn release(&mut self)
        requires
            old(self).wf(),
        ensures
            final(self).wf(),
            final(self).limit == old(self).limit,
            final(self).used == if old(self).used > 0 {
                old(self).used - 1
            } else {
                0int
            },
    {
        if self.used > 0 {
            self.used -= 1;
        }
    }
}

/// Where a forwarded connection goes.
#[derive(Debug, Clone, PartialEq, Eq)]
pub struct ForwardTarget {
    pub host: String,
    pub port: u16,
}

#[verifier::ext_equal]
pub struct TargetView {
    pub host: Seq<char>,
    pub port: u16,
}

impl View for ForwardTarget {
    type V = TargetView;

    open spec fn view(&self) -> TargetView {
        TargetView { host: self.host@, port: self.port }
    }
}

impl ForwardTarget {
    pub fn copy(&self) -> (r: Self)
        ensures
            r@ == self@,
    {
        ForwardTarget { host: self.host.clone(), port: self.port }
    }
}

/// A listener at the server and where its connections go.
#[derive(Debug, PartialEq, Eq)]
pub struct Route {
    pub bind_address: String,
    pub bind_port: u32,
    pub target: ForwardTarget,
}

#[verifier::ext_equal]
pub struct RouteView {
    pub address: Seq<char>,
    pub port: u32,
    pub target: TargetView,
}

impl View for Route {
    type V = RouteView;

    open spec fn view(&self) -> RouteView {
        RouteView {
            address: self.bind_address@,
            port: self.bind_port,
            target: self.target@,
        }
    }
}

pub open spec fn route_views(routes: Seq<Route>) -> Seq<RouteView> {
    routes.map_values(|r: Route| r@)
}

/// No listener has two routes.
pub open spec fn distinct_routes(routes: Seq<RouteView>) -> bool {
    forall|i: int, j: int|
        0 <= i < j < routes.len() ==> (#[trigger] routes[i]).address != (
        #[trigger] routes[j]).address || routes[i].port != routes[j].port
}

/// The index of the route of a listener, from index `i` on.
pub open spec fn route_from(routes: Seq<RouteView>, address: Seq<char>, port: u32, i: int) -> int
    decreases routes.len() - i,
{
    if i < 0 || i >= routes.len() || routes[i].address == address && routes[i].port == port {
        i
    } else {
        route_from(routes, address, port, i + 1)
    }
}

proof fn lemma_route_from(routes: Seq<RouteView>, address: Seq<char>, port: u32, i: int)
    requires
        0 <= i <= routes.len(),
    ensures
        i <= route_from(routes, address, port, i) <= routes.len(),
        forall|k: int|
            i <= k < route_from(routes, address, port, i) ==> (#[trigger] routes[k]).address
                != address || routes[k].port != port,
    decreases routes.len() - i,
{
    if i < routes.len() && !(routes[i].address == address && routes[i].port == port) {
        lemma_route_from(routes, address, port, i + 1);
    }
}

/// The listener takes connections to any address.
pub open spec fn any_address(address: Seq<char>) -> bool {
    address.len() == 0 || address == "*"@
}

pub fn is_wildcard_bind(address: &str) -> (r: bool)
    ensures
        r == any_address(address@),
{
    address.is_empty() || same_text(address, "*")
}

pub open spec fn registered(
    routes: Seq<RouteView>,
    address: Seq<char>,
    port: u32,
    target: TargetView,
) -> Seq<RouteView> {
    let p = route_from(routes, address, port, 0);
    let route = RouteView { address, port, target };
    if 0 <= p < routes.len() {
        routes.update(p, route)
    } else {
        routes.push(route)
    }
}

pub open spec fn unregistered(routes: Seq<RouteView>, address: Seq<char>, port: u32) -> Seq<
    RouteView,
> {
    let p = route_from(routes, address, port, 0);
    if 0 <= p < routes.len() {
        routes.remove(p)
    } else {
        routes
    }
}

/// What the routes say of a connection that a server opens: the route of that
/// very listener, or else one of a listener on the same port that takes any
/// address.
pub open spec fn leads_to(
    routes: Seq<RouteView>,
    address: Seq<char>,
    port: u32,
    target: Option<TargetView>,
) -> bool {
    let p = route_from(routes, address, port, 0);
    if 0 <= p < routes.len() {
        target == Some(routes[p].target)
    } else {
        match target {
            Some(t) => exists|k: int|
                0 <= k < routes.len() && (#[trigger] routes[k]).port == port && any_address(
                    routes[k].address,
                ) && routes[k].target == t,
            None => forall|k: int|
                0 <= k < routes.len() ==> (#[trigger] routes[k]).port != port || !any_address(
                    routes[k].address,
                ),
        }
    }
}

pub open spec fn target_view(target: Option<ForwardTarget>) -> Option<TargetView> {
    match target {
        Some(t) => Some(t@),
        None => None,
    }
}

/// The answer to a channel that a server opens.
#[derive(Debug, PartialEq, Eq)]
pub enum ChannelAnswer {
    /// Refused for want of leave.
    Prohibited,
    /// Refused because too many are open.
    Shortage,
    /// Refused because the place it leads to cannot be reached.
    ConnectFailed,
    /// The place it leads to is to be reached first. A slot is taken.
    Connect(ForwardTarget),
    /// The agent is to be reached first. A slot is taken.
    ConnectAgent(String),
}

/// What a client keeps while it is connected.
#[derive(Debug, PartialEq, Eq)]
pub struct HandlerState {
    pub remote_forwards: Vec<Route>,
    pub server_host_key: Option<ServerHostKeyInfo>,
    pub agent_forwarding: bool,
    pub server_forward_slots: Slots,
}

impl Default for HandlerState {
    fn default() -> (r: Self)
        ensures
            r.wf(),
            r.routes().len() == 0,
            r.server_host_key is None,
            !r.agent_forwarding,
            r.server_forward_slots.limit == MAX_SERVER_INITIATED_FORWARD_CHANNELS,
            r.server_forward_slots.used == 0,
    {
        HandlerState {
            remote_forwards: Vec::new(),
            server_host_key: None,
            agent_forwarding: false,
            server_forward_slots: Slots::new(MAX_SERVER_INITIATED_FORWARD_CHANNELS),
        }
    }
}

impl HandlerState {
    pub open spec fn routes(&self) -> Seq<RouteView> {
        route_views(self.remote_forwards@)
    }

    pub open spec fn wf(&self) -> bool {
        &&& distinct_routes(self.routes())
        &&& self.server_forward_slots.wf()
    }

    /// Apart from its routes the state is the same.
    pub open spec fn same_rest(&self, other: &HandlerState) -> bool {
        &&& self.server_host_key == other.server_host_key
        &&& self.agent_forwarding == other.agent_forwarding
        &&& self.server_forward_slots == other.server_forward_slots
    }

    fn find_route(&self, address: &str, port: u32) -> (r: usize)
        ensures
            r == route_from(self.routes(), address@, port, 0),
            r <= self.routes().len(),
    {
        let ghost all = self.routes();
        let mut i: usize = 0;
        while i < self.remote_forwards.len()
            invariant
                all == self.routes(),
                i <= all.len(),
                all.len() == self.remote_forwards@.len(),
                route_from(all, address@, port, 0) == route_from(all, address@, port, i as int),
            decreases all.len() - i,
        {
            assert(all[i as int] == self.remote_forwards@[i as int]@);
            if self.remote_forwards[i].bind_port == port && same_text(
                self.remote_forwards[i].bind_address.as_str(),
                address,
            ) {
                return i;
            }
            i += 1;
        }
        i
    }

    pub fn register_remote_forward(
        &mut self,
        bind_address: String,
        bind_port: u32,
        target: ForwardTarget,
    )
        requires
            old(self).wf(),
        ensures
            final(self).wf(),
            final(self).same_rest(old(self)),
            final(self).routes() == registered(
                old(self).routes(),
                bind_address@,
                bind_port,
                target@,
            ),
    {
        let ghost all = self.routes();
        let ghost name = bind_address@;
        let ghost place = target@;
        let p = self.find_route(bind_address.as_str(), bind_port);
        proof {
            lemma_route_from(all, name, bind_port, 0);
            if p < all.len() {
                lemma_found(all, name, bind_port, 0);
            }
        }
        let route = Route { bind_address, bind_port, target };
        if p < self.remote_forwards.len() {
            self.remote_forwards.set(p, route);
        } else {
            self.remote_forwards.push(route);
        }
        proof {
            let now = self.routes();
            assert(now =~= registered(all, name, bind_port, place));
            assert forall|i: int, j: int| 0 <= i < j < now.len() implies (
            #[trigger] now[i]).address != (#[trigger] now[j]).address || now[i].port
                != now[j].port by {
                if j < all.len() {
                    assert(all[i].address == now[i].address && all[i].port == now[i].port);
                    assert(all[j].address == now[j].address && all[j].port == now[j].port);
                } else {
                    assert(all[i] == now[i]);
                }
            }
        }
    }

    pub fn unregister_remote_forward(&mut self, bind_address: &str, bind_port: u32) -> (r: Option<
        ForwardTarget,
    >)
        requires
            old(self).wf(),
        ensures
            final(self).wf(),
            final(self).same_rest(old(self)),
            final(self).routes() == unregistered(old(self).routes(), bind_address@, bind_port),
            ({
                let p = route_from(old(self).routes(), bind_address@, bind_port, 0);
                match r {
                    Some(t) => p < old(self).routes().len() && t@ == old(self).routes()[p].target,
                    None => p >= old(self).routes().len(),
                }
            }),
    {
        let ghost all = self.routes();
        let p = self.find_route(bind_address, bind_port);
        if p >= self.remote_forwards.len() {
            return None;
        }
        assert(all[p as int] == self.remote_forwards@[p as int]@);
        let route = self.remote_forwards.remove(p);
        proof {
            let now = self.routes();
            assert(now =~= all.remove(p as int));
            assert forall|i: int, j: int| 0 <= i < j < now.len() implies (
            #[trigger] now[i]).address != (#[trigger] now[j]).address || now[i].port
                != now[j].port by {
                let oi = if i < p { i } else { i + 1 };
                let oj = if j < p { j } else { j + 1 };
                assert(all[oi] == now[i]);
                assert(all[oj] == now[j]);
            }
        }
        Some(route.target)
    }

    pub fn remote_forward(&self, address: &str, port: u32) -> (r: Option<ForwardTarget>)
        ensures
            leads_to(self.routes(), address@, port, target_view(r)),
    {
        let ghost all = self.routes();
        let p = self.find_route(address, port);
        if p < self.remote_forwards.len() {
            assert(all[p as int] == self.remote_forwards@[p as int]@);
            return Some(self.remote_forwards[p].target.copy());
        }
        let mut i: usize = 0;
        while i < self.remote_forwards.len()
            invariant
                all == self.routes(),
                i <= all.len(),
                all.len() == self.remote_forwards@.len(),
                route_from(all, address@, port, 0) >= all.len(),
                forall|k: int|
                    0 <= k < i ==> (#[trigger] all[k]).port != port || !any_address(
                        all[k].address,
                    ),
            decreases all.len() - i,
        {
            assert(all[i as int] == self.remote_forwards@[i as int]@);
            if self.remote_forwards[i].bind_port == port && is_wildcard_bind(
                self.remote_forwards[i].bind_address.as_str(),
            ) {
                return Some(self.remote_forwards[i].target.copy());
            }
            i += 1;
        }
        None
    }

    pub fn try_acquire_server_forward_slot(&mut self) -> (r: bool)
        requires
            old(self).wf(),
        ensures
            final(self).wf(),
            final(self).routes() == old(self).routes(),
            final(self).server_host_key == old(self).server_host_key,
            final(self).agent_forwarding == old(self).agent_forwarding,
            final(self).server_forward_slots.limit == old(self).server_forward_slots.limit,
            r == (old(self).server_forward_slots.used < old(self).server_forward_slots.limit),
            final(self).server_forward_slots.used == old(self).server_forward_slots.used + if r {
                1int
            } else {
                0int
            },
    {
        self.server_forward_slots.try_acquire()
    }

    /// Decides over a connection to a listener at the server.
    pub fn open_forwarded(&mut self, address: &str, port: u32) -> (r: ChannelAnswer)
        requires
            old(self).wf(),
        ensures
            final(self).wf(),
            final(self).routes() == old(self).routes(),
            final(self).server_host_key == old(self).server_host_key,
            final(self).agent_forwarding == old(self).agent_forwarding,
            final(self).server_forward_slots.limit == old(self).server_forward_slots.limit,
            ({
                let free = old(self).server_forward_slots.used
                    < old(self).server_forward_slots.limit;
                let routes = old(self).routes();
                match r {
                    ChannelAnswer::Prohibited => leads_to(routes, address@, port, None),
                    ChannelAnswer::Shortage => !leads_to(routes, address@, port, None) && !free,
                    ChannelAnswer::Connect(t) => leads_to(routes, address@, port, Some(t@)) && free
                        && final(self).server_forward_slots.used
                        == old(self).server_forward_slots.used + 1,
                    _ => false,
                }
            }),
            !(r is Connect) ==> final(self).server_forward_slots == old(
                self,
            ).server_forward_slots,
    {
        let ghost all = self.routes();
        proof {
            lemma_route_from(all, address@, port, 0);
        }
        match self.remote_forward(address, port) {
            None => ChannelAnswer::Prohibited,
            Some(target) => {
                assert(!leads_to(all, address@, port, None)) by {
                    if route_from(all, address@, port, 0) >= all.len() {
                        let k = choose|k: int|
                            0 <= k < all.len() && (#[trigger] all[k]).port == port && any_address(
                                all[k].address,
                            ) && all[k].target == target@;
                        assert(all[k].port == port);
                    }
                }
                if self.try_acquire_server_forward_slot() {
                    ChannelAnswer::Connect(target)
                } else {
                    ChannelAnswer::Shortage
                }
            },
        }
    }

    /// Decides over a channel to the agent, given the agent's socket.
    pub fn open_agent(&mut self, socket: Option<&str>) -> (r: ChannelAnswer)
        requires
            old(self).wf(),
        ensures
            final(self).wf(),
            final(self).routes() == old(self).routes(),
            final(self).server_host_key == old(self).server_host_key,
            final(self).agent_forwarding == old(self).agent_forwarding,
            final(self).server_forward_slots.limit == old(self).server_forward_slots.limit,
            ({
                let free = old(self).server_forward_slots.used
                    < old(self).server_forward_slots.limit;
                if !old(self).agent_forwarding {
                    r is Prohibited
                } else if !free {
                    r is Shortage
                } else {
                    match socket {
                        None => r is ConnectFailed,
                        Some(path) => r matches ChannelAnswer::ConnectAgent(p) && p@ == path@
                            && final(self).server_forward_slots.used
                            == old(self).server_forward_slots.used + 1,
                    }
                }
            }),
            !(r is ConnectAgent) ==> final(self).server_forward_slots == old(
                self,
            ).server_forward_slots,
    {
        if !self.agent_forwarding {
            return ChannelAnswer::Prohibited;
        }
        if self.server_forward_slots.used >= self.server_forward_slots.limit {
            return ChannelAnswer::Shortage;
        }
        match socket {
            None => ChannelAnswer::ConnectFailed,
            Some(path) => {
                self.server_forward_slots.try_acquire();
                ChannelAnswer::ConnectAgent(path.to_owned())
            },
        }
    }

    /// Notes the key that the server presented.
    pub fn record_server_host_key(&mut self, info: ServerHostKeyInfo)
        requires
            old(self).wf(),
        ensures
            final(self).wf(),
            final(self).routes() == old(self).routes(),
            final(self).server_host_key == Some(info),
            final(self).agent_forwarding == old(self).agent_forwarding,
            final(self).server_forward_slots == old(self).server_forward_slots,
    {
        self.server_host_key = Some(info);
    }
}

/// The SHA-256 fingerprint of a key in binary form, as `PublicKey::fingerprint`
/// of the `ssh_key` crate prints it.
pub uninterp spec fn sha256_fingerprint(blob: Seq<u8>) -> Option<Seq<char>>;

/// `PublicKey::from_bytes` reads the binary form of a key, and `fingerprint`
/// prints the hash of it. What comes out depends on the bytes alone.
#[verifier::external_body]
fn fingerprint_of(blob: &[u8]) -> (r: Option<String>)
    ensures
        match r {
            Some(text) => sha256_fingerprint(blob@) == Some(text@),
            None => sha256_fingerprint(blob@) is None,
        },
{
    let key = russh::keys::PublicKey::from_bytes(blob).ok()?;
    Some(key.fingerprint(russh::keys::HashAlg::Sha256).to_string())
}

/// What is told of a key that the server presented. A key whose binary form
/// cannot be read has no fingerprint, and nothing is told of it.
pub fn server_key_info(key: &HostKey, verification: HostKeyVerification) -> (r: Option<
    ServerHostKeyInfo,
>)
    ensures
        match r {
            Some(info) => info.algorithm@ == key@.algorithm && info.verification == verification
                && sha256_fingerprint(key@.blob) == Some(info.fingerprint_sha256@),
            None => sha256_fingerprint(key@.blob) is None,
        },
{
    match fingerprint_of(key.blob.as_slice()) {
        Some(text) => Some(
            ServerHostKeyInfo {
                algorithm: key.algorithm.clone(),
                fingerprint_sha256: text,
                verification,
            },
        ),
        None => None,
    }
}

/// Why a server's key is refused.
#[derive(Debug, Clone, Copy, PartialEq, Eq, Structural)]
pub enum HostKeyRefusal {
    Revoked,
    Certificate(HostTrustProblem),
    Changed,
    Unknown,
}

#[derive(Debug, Clone, Copy, PartialEq, Eq, Structural)]
pub enum HostKeyStep {
    /// The key is looked up among the known hosts first.
    LookUp,
    Accept(HostKeyVerification),
    /// The key is added to the known hosts, and then accepted as learned.
    Learn,
    Refuse(HostKeyRefusal),
}

/// What the known hosts say of a key.
#[derive(Debug, Clone, Copy, PartialEq, Eq, Structural)]
pub enum KnownHost {
    Known,
    Unknown,
    /// Another key of the same kind is known.
    Changed,
}

/// The first step with a server's key. A revoked key is refused whatever the
/// policy; a certificate counts where an authority may vouch for the host.
pub open spec fn first_step(
    policy: HostKeyPolicy,
    revoked: bool,
    certificate: Option<Option<HostTrustProblem>>,
) -> HostKeyStep {
    if revoked {
        HostKeyStep::Refuse(HostKeyRefusal::Revoked)
    } else if policy is Insecure {
        HostKeyStep::Accept(HostKeyVerification::Insecure)
    } else {
        match certificate {
            Some(None) => HostKeyStep::Accept(HostKeyVerification::CertificateAuthority),
            Some(Some(problem)) => HostKeyStep::Refuse(HostKeyRefusal::Certificate(problem)),
            None => HostKeyStep::LookUp,
        }
    }
}

/// Decides on a server's key, given what was found of its certificate: nothing
/// where there is none or no authority is trusted, else the problem with it.
pub fn start_host_key(
    policy: HostKeyPolicy,
    revoked: bool,
    certificate: Option<Option<HostTrustProblem>>,
) -> (r: HostKeyStep)
    ensures
        r == first_step(policy, revoked, certificate),
{
    if revoked {
        return HostKeyStep::Refuse(HostKeyRefusal::Revoked);
    }
    if policy == HostKeyPolicy::Insecure {
        return HostKeyStep::Accept(HostKeyVerification::Insecure);
    }
    match certificate {
        Some(None) => HostKeyStep::Accept(HostKeyVerification::CertificateAuthority),
        Some(Some(problem)) => HostKeyStep::Refuse(HostKeyRefusal::Certificate(problem)),
        None => HostKeyStep::LookUp,
    }
}

/// What the trusted authorities say of a certificate.
pub open spec fn certificate_standing(
    trust: HostTrustPolicy,
    host: Seq<char>,
    certificate: Option<Seq<u8>>,
    now: u64,
) -> Option<Option<HostTrustProblem>> {
    match certificate {
        Some(encoded) => if crate::host_trust::vouching(trust.trusted()).len() == 0 {
            None
        } else {
            Some(
                match crate::host_trust::certificate_facts(encoded) {
                    None => Some(HostTrustProblem::UnreadableCertificate),
                    Some(c) => crate::host_trust::certificate_problem(
                        trust.trusted(),
                        trust.revoked(),
                        host,
                        c,
                        crate::host_trust::vouched_for(
                            encoded,
                            now,
                            crate::host_trust::vouching(trust.trusted()),
                        ),
                    ),
                },
            )
        },
        None => None,
    }
}

/// Takes the first step with the key, or the certificate, that a server
/// presents.
pub fn check_server_key(
    policy: HostKeyPolicy,
    trust: &HostTrustPolicy,
    host: &str,
    key: &HostKey,
    certificate: Option<&[u8]>,
    now: u64,
) -> (r: HostKeyStep)
    ensures
        r == first_step(
            policy,
            trust.revoked().contains(key@),
            certificate_standing(
                *trust,
                host@,
                match certificate {
                    Some(encoded) => Some(encoded@),
                    None => None,
                },
                now,
            ),
        ),
{
    let standing: Option<Option<HostTrustProblem>> = match certificate {
        Some(encoded) => if trust.has_certificate_authority() {
            match trust.verify_host_certificate(host, encoded, now) {
                Ok(()) => Some(None),
                Err(problem) => Some(Some(problem)),
            }
        } else {
            None
        },
        None => None,
    };
    start_host_key(policy, trust.is_revoked(key), standing)
}

/// The step after the lookup.
pub open spec fn second_step(policy: HostKeyPolicy, known: KnownHost) -> HostKeyStep {
    match known {
        KnownHost::Known => HostKeyStep::Accept(HostKeyVerification::Known),
        KnownHost::Changed => HostKeyStep::Refuse(HostKeyRefusal::Changed),
        KnownHost::Unknown => if policy is Strict {
            HostKeyStep::Refuse(HostKeyRefusal::Unknown)
        } else {
            HostKeyStep::Learn
        },
    }
}

pub fn settle_host_key(policy: HostKeyPolicy, known: KnownHost) -> (r: HostKeyStep)
    ensures
        r == second_step(policy, known),
{
    match known {
        KnownHost::Known => HostKeyStep::Accept(HostKeyVerification::Known),
        KnownHost::Changed => HostKeyStep::Refuse(HostKeyRefusal::Changed),
        KnownHost::Unknown => if policy == HostKeyPolicy::Strict {
            HostKeyStep::Refuse(HostKeyRefusal::Unknown)
        } else {
            HostKeyStep::Learn
        },
    }
}

/// Under the strict policy no key is ever learned, and a key that is not known
/// is accepted only where an authority vouches for it.
pub proof fn strict_policy_learns_nothing(
    revoked: bool,
    certificate: Option<Option<HostTrustProblem>>,
    known: KnownHost,
)
    ensures
        ({
            let first = first_step(HostKeyPolicy::Strict, revoked, certificate);
            let second = second_step(HostKeyPolicy::Strict, known);
            &&& !(first is Learn)
            &&& !(second is Learn)
            &&& first is Accept ==> certificate == Some(None::<HostTrustProblem>)
            &&& second is Accept ==> known is Known
        }),
{
}

/// A revoked key is refused under every policy.
pub proof fn revoked_keys_are_never_accepted(
    policy: HostKeyPolicy,
    certificate: Option<Option<HostTrustProblem>>,
)
    ensures
        first_step(policy, true, certificate) == HostKeyStep::Refuse(HostKeyRefusal::Revoked),
{
}

/// A key that differs from the known one is refused, unless hosts are not
/// identified at all.
pub proof fn changed_keys_are_refused(policy: HostKeyPolicy)
    ensures
        second_step(policy, KnownHost::Changed) == HostKeyStep::Refuse(HostKeyRefusal::Changed),
{
}

/// A route that was taken back leads nowhere, unless a listener that takes any
/// address is left on the port.
pub proof fn closed_routes_lead_nowhere(
    routes: Seq<RouteView>,
    address: Seq<char>,
    port: u32,
)
    requires
        distinct_routes(routes),
        forall|k: int|
            0 <= k < routes.len() && (#[trigger] routes[k]).port == port && any_address(
                routes[k].address,
            ) ==> routes[k].address == address,
    ensures
        leads_to(unregistered(routes, address, port), address, port, None),
{
    let p = route_from(routes, address, port, 0);
    let left = unregistered(routes, address, port);
    lemma_route_from(routes, address, port, 0);
    lemma_route_from(left, address, port, 0);
    assert forall|k: int| 0 <= k < left.len() implies (#[trigger] left[k]).address != address
        || left[k].port != port by {
        if p < routes.len() {
            let o = if k < p { k } else { k + 1 };
            assert(left[k] == routes[o]);
            assert(routes[p].address == address && routes[p].port == port) by {
                lemma_found(routes, address, port, 0);
            }
        } else {
            assert(left[k] == routes[k]);
        }
    }
    let q = route_from(left, address, port, 0);
    if q < left.len() {
        lemma_found(left, address, port, 0);
    }
    assert forall|k: int| 0 <= k < left.len() implies (#[trigger] left[k]).port != port
        || !any_address(left[k].address) by {
        let o = if p >= routes.len() || k < p { k } else { k + 1 };
        assert(left[k] == routes[o]);
    }
}

proof fn lemma_found(routes: Seq<RouteView>, address: Seq<char>, port: u32, i: int)
    requires
        0 <= i,
        route_from(routes, address, port, i) < routes.len(),
    ensures
        ({
            let p = route_from(routes, address, port, i);
            p >= i && routes[p].address == address && routes[p].port == port
        }),
    decreases routes.len() - i,
{
    if i < routes.len() && !(routes[i].address == address && routes[i].port == port) {
        lemma_found(routes, address, port, i + 1);
    }
}

/// A registered route leads to its target.
pub proof fn registered_routes_lead_to_their_target(
    routes: Seq<RouteView>,
    address: Seq<char>,
    port: u32,
    target: TargetView,
)
    requires
        distinct_routes(routes),
    ensures
        leads_to(registered(routes, address, port, target), address, port, Some(target)),
{
    let now = registered(routes, address, port, target);
    let p = route_from(routes, address, port, 0);
    lemma_route_from(routes, address, port, 0);
    lemma_route_from(now, address, port, 0);
    let q = route_from(now, address, port, 0);
    assert(now[p] == (RouteView { address, port, target }));
    if q < now.len() {
        lemma_found(now, address, port, 0);
    }
    if q < p {
        assert(now[q] == routes[q]);
    }
    if q > p {
        assert(now[p].address == address && now[p].port == port);
    }
}

} // verus!
