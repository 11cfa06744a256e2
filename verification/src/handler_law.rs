//! Laws of what a server may open, and of which keys it is known by.

use vstd::prelude::*;

use crate::config::HostKeyPolicy;
use crate::diagnostics::HostKeyVerification;
use crate::handler::HostKeyRefusal;
use crate::handler::HostKeyStep;
use crate::handler::KnownHost;
use crate::handler::RouteView;
use crate::handler::TargetView;
use crate::host_trust::HostTrustPolicy;
use crate::host_trust::HostTrustProblem;

verus! {

proof fn lemma_route_from(routes: Seq<RouteView>, address: Seq<char>, port: u32, i: int)
    requires
        0 <= i <= routes.len(),
    ensures
        ({
            let p = crate::handler::route_from(routes, address, port, i);
            &&& i <= p <= routes.len()
            &&& p < routes.len() ==> routes[p].address == address && routes[p].port == port
            &&& forall|k: int|
                i <= k < p ==> (#[trigger] routes[k]).address != address || routes[k].port != port
        }),
    decreases routes.len() - i,
{
    if i < routes.len() && !(routes[i].address == address && routes[i].port == port) {
        lemma_route_from(routes, address, port, i + 1);
    }
}

/// A route for an address goes before one for every address; with no address, or
/// a star in its place, a route is for every address. Without a route nothing is
/// opened.
pub proof fn channels_follow_their_route(
    routes: Seq<RouteView>,
    address: Seq<char>,
    port: u32,
    target: Option<TargetView>,
)
    requires
        crate::handler::distinct_routes(routes),
        crate::handler::leads_to(routes, address, port, target),
    ensures
        forall|k: int|
            0 <= k < routes.len() && (#[trigger] routes[k]).address == address && routes[k].port
                == port ==> target == Some(routes[k].target),
        target matches Some(t) ==> exists|k: int|
            0 <= k < routes.len() && (#[trigger] routes[k]).port == port && routes[k].target == t
                && (routes[k].address == address || routes[k].address.len() == 0
                || routes[k].address == "*"@),
        target is None ==> forall|k: int|
            0 <= k < routes.len() && (#[trigger] routes[k]).port == port ==> routes[k].address
                != address && routes[k].address.len() > 0 && routes[k].address != "*"@,
{
    lemma_route_from(routes, address, port, 0);
    let p = crate::handler::route_from(routes, address, port, 0);
    if p < routes.len() {
        assert forall|k: int|
            0 <= k < routes.len() && (#[trigger] routes[k]).address == address && routes[k].port
                == port implies target == Some(routes[k].target) by {
            if k != p {
                assert(routes[k].address == routes[p].address);
            }
        }
    }
}

/// A route that is registered takes the place of one for the same address and
/// port, and leaves the others as they are.
pub proof fn other_routes_stay(
    routes: Seq<RouteView>,
    address: Seq<char>,
    port: u32,
    target: TargetView,
)
    requires
        crate::handler::distinct_routes(routes),
    ensures
        ({
            let more = crate::handler::registered(routes, address, port, target);
            let fewer = crate::handler::unregistered(routes, address, port);
            &&& exists|k: int|
                0 <= k < more.len() && (#[trigger] more[k]).address == address && more[k].port
                    == port && more[k].target == target
            &&& forall|k: int|
                0 <= k < more.len() && (#[trigger] more[k]).address == address && more[k].port
                    == port ==> more[k].target == target
            &&& forall|k: int|
                0 <= k < fewer.len() ==> (#[trigger] fewer[k]).address != address || fewer[k].port
                    != port
            &&& forall|k: int|
                0 <= k < routes.len() && ((#[trigger] routes[k]).address != address
                    || routes[k].port != port) ==> more.contains(routes[k]) && fewer.contains(
                    routes[k],
                )
            &&& forall|k: int|
                0 <= k < fewer.len() ==> routes.contains(#[trigger] fewer[k])
            &&& forall|k: int|
                0 <= k < more.len() && ((#[trigger] more[k]).address != address || more[k].port
                    != port) ==> routes.contains(more[k])
        }),
{
    lemma_route_from(routes, address, port, 0);
    let p = crate::handler::route_from(routes, address, port, 0);
    let more = crate::handler::registered(routes, address, port, target);
    let fewer = crate::handler::unregistered(routes, address, port);
    assert(more[p].address == address && more[p].port == port && more[p].target == target);
    assert forall|k: int|
        0 <= k < routes.len() && ((#[trigger] routes[k]).address != address || routes[k].port
            != port) implies more.contains(routes[k]) && fewer.contains(routes[k]) by {
        assert(more[k] == routes[k]);
        if k < p {
            assert(fewer[k] == routes[k]);
        } else {
            assert(fewer[k - 1] == routes[k]);
        }
    }
    assert forall|k: int| 0 <= k < fewer.len() implies routes.contains(#[trigger] fewer[k]) && (
    fewer[k].address != address || fewer[k].port != port) by {
        let j = if k < p {
            k
        } else {
            k + 1
        };
        if p < routes.len() {
            assert(fewer[k] == routes[j]);
            if j > p {
                assert(routes[p].address != routes[j].address || routes[p].port != routes[j].port);
            }
        } else {
            assert(fewer[k] == routes[k]);
        }
    }
    assert forall|k: int|
        0 <= k < more.len() && ((#[trigger] more[k]).address != address || more[k].port
            != port) implies routes.contains(more[k]) by {
        assert(more[k] == routes[k]);
    }
    assert forall|k: int|
        0 <= k < more.len() && (#[trigger] more[k]).address == address && more[k].port
            == port implies more[k].target == target by {
        if k != p {
            assert(more[k] == routes[k]);
            if p < routes.len() {
                assert(routes[k].address == routes[p].address);
            }
        }
    }
}

/// What is done with a key at first: a revoked one is refused; without checks
/// any other is taken; a certificate decides where there is one that counts; else
/// the known hosts are asked.
pub proof fn keys_are_settled_in_order(
    policy: HostKeyPolicy,
    revoked: bool,
    certificate: Option<Option<HostTrustProblem>>,
)
    ensures
        ({
            let step = crate::handler::first_step(policy, revoked, certificate);
            &&& revoked == (step == HostKeyStep::Refuse(HostKeyRefusal::Revoked))
            &&& (!revoked && policy is Insecure) == (step == HostKeyStep::Accept(
                HostKeyVerification::Insecure,
            ))
            &&& !revoked && !(policy is Insecure) && certificate == Some(
                None::<HostTrustProblem>,
            ) ==> step == HostKeyStep::Accept(HostKeyVerification::CertificateAuthority)
            &&& !revoked && !(policy is Insecure) && certificate is None ==> step
                == HostKeyStep::LookUp
            &&& step is LookUp ==> certificate is None && !revoked && !(policy is Insecure)
            &&& step == HostKeyStep::Accept(HostKeyVerification::CertificateAuthority)
                ==> certificate == Some(None::<HostTrustProblem>)
            &&& !(step is Learn)
            &&& step matches HostKeyStep::Refuse(HostKeyRefusal::Certificate(problem))
                ==> certificate == Some(Some(problem)) && !revoked
        }),
        !revoked && !(policy is Insecure) && certificate is Some && certificate->0 is Some
            ==> crate::handler::first_step(policy, revoked, certificate) == HostKeyStep::Refuse(
            HostKeyRefusal::Certificate(certificate->0->0),
        ),
{
}

/// What the known hosts say settles the rest: a known key is accepted, a changed
/// one refused, and an unknown one learned unless only known ones are wanted.
pub proof fn known_hosts_settle_keys(policy: HostKeyPolicy, known: KnownHost)
    ensures
        ({
            let step = crate::handler::second_step(policy, known);
            &&& known is Known == (step == HostKeyStep::Accept(HostKeyVerification::Known))
            &&& known is Changed == (step == HostKeyStep::Refuse(HostKeyRefusal::Changed))
            &&& (known is Unknown && policy is Strict) == (step == HostKeyStep::Refuse(
                HostKeyRefusal::Unknown,
            ))
            &&& (known is Unknown && !(policy is Strict)) == (step is Learn)
        }),
{
}

/// A certificate is accepted only where it is one for hosts, neither its key nor
/// its signer is revoked, one of the trusted authorities that can be checked has
/// signed it and it is valid now, it asks for nothing special, and it is for this
/// host or for every one.
pub proof fn accepted_certificates_are_vouched_for(
    trust: HostTrustPolicy,
    host: Seq<char>,
    encoded: Seq<u8>,
    now: u64,
)
    ensures
        crate::handler::certificate_standing(trust, host, Some(encoded), now) == Some(
            None::<HostTrustProblem>,
        ) ==> {
            &&& crate::host_trust::certificate_facts(encoded) matches Some(c)
            &&& c.for_host
            &&& !trust.revoked().contains(c.key) && !trust.revoked().contains(c.authority)
            &&& c.critical_options.len() == 0
            &&& c.principals.len() == 0 || exists|i: int|
                0 <= i < c.principals.len() && crate::host_trust::host_matches(
                    #[trigger] c.principals[i],
                    host,
                )
            &&& exists|i: int|
                0 <= i < trust.trusted().len() && crate::host_trust::valid_certificate(
                    encoded,
                    now,
                    (#[trigger] trust.trusted()[i]).blob,
                ) && crate::host_trust_law::can_be_checked(trust.trusted()[i].algorithm)
            &&& crate::host_trust_law::can_be_checked(c.authority.algorithm)
        },
        crate::handler::certificate_standing(trust, host, None, now) is None,
        crate::handler::certificate_standing(trust, host, Some(encoded), now) is None == forall|
            i: int,
        |
            0 <= i < trust.trusted().len() ==> !crate::host_trust_law::can_be_checked(
                (#[trigger] trust.trusted()[i]).algorithm,
            ),
{
    crate::host_trust_law::lemma_vouching(trust.trusted());
    let vouching = crate::host_trust::vouching(trust.trusted());
    if crate::handler::certificate_standing(trust, host, Some(encoded), now) == Some(
        None::<HostTrustProblem>,
    ) {
        let j = choose|j: int|
            0 <= j < vouching.len() && crate::host_trust::valid_certificate(
                encoded,
                now,
                (#[trigger] vouching[j]).blob,
            );
        assert(vouching.contains(vouching[j]));
        let i = choose|i: int| 0 <= i < trust.trusted().len() && trust.trusted()[i] == vouching[j];
        assert(trust.trusted()[i] == vouching[j]);
    }
    if vouching.len() > 0 {
        assert(vouching.contains(vouching[0]));
        let i = choose|i: int| 0 <= i < trust.trusted().len() && trust.trusted()[i] == vouching[0];
        assert(crate::host_trust_law::can_be_checked(trust.trusted()[i].algorithm));
    } else {
        assert forall|i: int|
            0 <= i < trust.trusted().len() implies !crate::host_trust_law::can_be_checked(
            (#[trigger] trust.trusted()[i]).algorithm,
        ) by {
            assert(trust.trusted().contains(trust.trusted()[i]));
            assert(!vouching.contains(trust.trusted()[i]));
        }
    }
}

} // verus!
