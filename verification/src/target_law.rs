//! Laws of connection targets: a target is what was put together.

use vstd::prelude::*;

use crate::target::TargetProblem;
use crate::target::TargetView;

verus! {

/// Text without white space, control characters, `@` and brackets.
pub open spec fn is_part(s: Seq<char>) -> bool {
    s.len() > 0 && forall|i: int|
        0 <= i < s.len() ==> {
            let c = #[trigger] s[i];
            !crate::text::is_whitespace(c) && !crate::text::is_control(c) && c != '@' && c != '['
                && c != ']'
        }
}

/// Text that ends with a colon and digits, and has no other colon.
pub open spec fn names_a_port(host: Seq<char>) -> bool {
    exists|p: int|
        #![trigger host[p]]
        0 < p < host.len() - 1 && host[p] == ':' && (forall|i: int|
            0 <= i < p ==> #[trigger] host[i] != ':') && (forall|i: int|
            p < i < host.len() ==> '0' <= #[trigger] host[i] <= '9')
}

proof fn lemma_names_a_port(host: Seq<char>)
    ensures
        crate::target::is_host_port(host) == names_a_port(host),
{
    crate::text::lemma_position(host, ':');
    let p = crate::text::position(host, ':');
    if crate::target::is_host_port(host) {
        let tail = host.skip(p + 1);
        assert forall|i: int| p < i < host.len() implies '0' <= #[trigger] host[i] <= '9' by {
            assert(tail[i - p - 1] == host[i]);
        }
        assert(host[p] == ':');
    }
    if names_a_port(host) {
        let q = choose|q: int|
            #![trigger host[q]]
            0 < q < host.len() - 1 && host[q] == ':' && (forall|i: int|
                0 <= i < q ==> #[trigger] host[i] != ':') && (forall|i: int|
                q < i < host.len() ==> '0' <= #[trigger] host[i] <= '9');
        crate::text::lemma_position_is(host, ':', q);
        let tail = host.skip(q + 1);
        assert forall|i: int| 0 <= i < tail.len() implies '0' <= #[trigger] tail[i] <= '9' by {
            assert(tail[i] == host[q + 1 + i]);
        }
        if tail.contains(':') {
            let i = choose|i: int| 0 <= i < tail.len() && tail[i] == ':';
            assert('0' <= tail[i] <= '9');
        }
    }
}

proof fn lemma_plain(s: Seq<char>)
    requires
        is_part(s),
    ensures
        !s.contains('@') && !s.contains('[') && !s.contains(']'),
        !crate::target::has_blank_or_control(s),
        crate::target::last_position(s, '@') == -1,
{
    crate::target::lemma_last_position(s, '@');
    if crate::target::has_blank_or_control(s) {
        let i = choose|i: int|
            0 <= i < s.len() && crate::target::is_blank_or_control(#[trigger] s[i]);
        assert(!crate::text::is_whitespace(s[i]));
    }
}

/// A host alone is the target, without a user. One that names a port is refused.
pub proof fn hosts_are_targets(host: Seq<char>)
    requires
        is_part(host),
    ensures
        crate::target::parsed_target(host) == (if names_a_port(host) {
            Err(TargetProblem::PortSyntax)
        } else {
            Ok::<TargetView, TargetProblem>(TargetView { host, username: None })
        }),
{
    lemma_plain(host);
    lemma_names_a_port(host);
}

/// The user is what stands before the `@`, the host what stands behind it.
pub proof fn users_come_before_their_host(user: Seq<char>, host: Seq<char>)
    requires
        is_part(user),
        is_part(host),
    ensures
        crate::target::parsed_target(user + seq!['@'] + host) == (if names_a_port(host) {
            Err(TargetProblem::PortSyntax)
        } else {
            Ok::<TargetView, TargetProblem>(TargetView { host, username: Some(user) })
        }),
{
    lemma_at(user, host);
    lemma_plain(host);
    lemma_plain(user);
    lemma_names_a_port(host);
}

proof fn lemma_at(user: Seq<char>, rest: Seq<char>)
    requires
        is_part(user),
        rest.len() > 0,
        !rest.contains('@'),
        !crate::target::has_blank_or_control(rest),
    ensures
        ({
            let s = user + seq!['@'] + rest;
            &&& crate::target::last_position(s, '@') == user.len()
            &&& s.take(user.len() as int) == user && s.skip(user.len() as int + 1) == rest
            &&& !crate::target::has_blank_or_control(s)
        }),
{
    let s = user + seq!['@'] + rest;
    let n = user.len() as int;
    lemma_plain(user);
    crate::target::lemma_last_position(s, '@');
    assert(s[n] == '@');
    assert forall|i: int| n < i < s.len() implies #[trigger] s[i] != '@' by {
        assert(s[i] == rest[i - n - 1]);
    }
    assert(s.take(n) =~= user);
    assert(s.skip(n + 1) =~= rest);
    if crate::target::has_blank_or_control(s) {
        let i = choose|i: int|
            0 <= i < s.len() && crate::target::is_blank_or_control(#[trigger] s[i]);
        if i < n {
            assert(crate::target::is_blank_or_control(user[i]));
        } else if i > n {
            assert(crate::target::is_blank_or_control(rest[i - n - 1]));
        }
    }
}

/// A host may stand in brackets, with or without a user before it. What is in
/// them is the host, colons and digits and all.
pub proof fn bracketed_hosts_are_targets(user: Seq<char>, host: Seq<char>)
    requires
        is_part(user),
        is_part(host),
    ensures
        ({
            let bracketed = seq!['['] + host + seq![']'];
            &&& crate::target::parsed_target(bracketed) == Ok::<TargetView, TargetProblem>(
                TargetView { host, username: None },
            )
            &&& crate::target::parsed_target(user + seq!['@'] + bracketed) == Ok::<
                TargetView,
                TargetProblem,
            >(TargetView { host, username: Some(user) })
        }),
{
    let bracketed = seq!['['] + host + seq![']'];
    lemma_plain(host);
    lemma_plain(user);
    crate::target::lemma_last_position(bracketed, '@');
    assert forall|i: int| 0 <= i < bracketed.len() implies #[trigger] bracketed[i] != '@'
        && !crate::target::is_blank_or_control(bracketed[i]) by {
        if 0 < i < bracketed.len() - 1 {
            assert(bracketed[i] == host[i - 1]);
            assert(!crate::target::is_blank_or_control(host[i - 1]));
        }
    }
    assert(bracketed.subrange(1, bracketed.len() - 1) =~= host);
    lemma_at(user, bracketed);
}

/// A target with two `@` is refused, and so is one without a user or a host
/// beside it.
pub proof fn targets_have_one_user(a: Seq<char>, b: Seq<char>)
    requires
        is_part(a),
        is_part(b),
    ensures
        crate::target::parsed_target(a + seq!['@'] + b + seq!['@'] + a) == Err::<
            TargetView,
            TargetProblem,
        >(TargetProblem::SeveralAts),
        crate::target::parsed_target(seq!['@'] + a) == Err::<TargetView, TargetProblem>(
            TargetProblem::EmptyUsername,
        ),
        crate::target::parsed_target(a + seq!['@']) == Err::<TargetView, TargetProblem>(
            TargetProblem::EmptyHost,
        ),
{
    lemma_plain(a);
    lemma_plain(b);
    lemma_at(a, b);
    let front = a + seq!['@'] + b;
    let s = front + seq!['@'] + a;
    let n = front.len() as int;
    crate::target::lemma_last_position(s, '@');
    assert(s[n] == '@');
    assert forall|i: int| n < i < s.len() implies #[trigger] s[i] != '@' by {
        assert(s[i] == a[i - n - 1]);
    }
    assert(s.take(n) =~= front);
    assert(front[a.len() as int] == '@');
    assert forall|i: int| 0 <= i < s.len() implies !crate::target::is_blank_or_control(
        #[trigger] s[i],
    ) by {
        if i < n {
            assert(!crate::target::is_blank_or_control(front[i]));
        } else if i > n {
            assert(!crate::target::is_blank_or_control(a[i - n - 1]));
        }
    }
    let t = seq!['@'] + a;
    crate::target::lemma_last_position(t, '@');
    assert(t[0] == '@');
    assert forall|i: int| 0 <= i < t.len() implies !crate::target::is_blank_or_control(
        #[trigger] t[i],
    ) && (i > 0 ==> t[i] != '@') by {
        if i > 0 {
            assert(!crate::target::is_blank_or_control(a[i - 1]));
            assert(t[i] == a[i - 1]);
        }
    }
    let u = a + seq!['@'];
    crate::target::lemma_last_position(u, '@');
    assert(u[a.len() as int] == '@');
    assert forall|i: int| 0 <= i < u.len() implies !crate::target::is_blank_or_control(
        #[trigger] u[i],
    ) by {
        if i < a.len() {
            assert(!crate::target::is_blank_or_control(a[i]));
        }
    }
}

} // verus!
