//! What a jump specification and OpenSSH settings say is what a connection does.

use vstd::prelude::*;

use crate::config::BookView;
use crate::config::ConfigFault;
use crate::config::ConfigProblem;
use crate::config::ConfigView;
use crate::config::HostKeyPolicy;
use crate::config::JumpHostView;
use crate::config::RouteView;
use crate::config::Span;

verus! {

/// A name of a user or a host without anything that has a meaning in a jump
/// specification.
pub open spec fn plain_word(s: Seq<char>) -> bool {
    s.len() > 0 && forall|i: int|
        0 <= i < s.len() ==> {
            let c = #[trigger] s[i];
            !crate::text::is_whitespace(c) && !crate::text::is_control(c) && c != '@' && c != ':'
                && c != '/' && c != '[' && c != ']' && c != ',' && c != '?' && c != '#'
        }
}

/// A hop as it is written: `user@host:port`, where user and port may be missing.
pub open spec fn hop_text(user: Option<Seq<char>>, host: Seq<char>, port: Option<u16>) -> Seq<
    char,
> {
    (match user {
        Some(name) => name + seq!['@'],
        None => Seq::empty(),
    }) + host_text(host, port)
}

pub open spec fn host_text(host: Seq<char>, port: Option<u16>) -> Seq<char> {
    host + (match port {
        Some(number) => seq![':'] + crate::text::decimal(number as nat),
        None => Seq::empty(),
    })
}

proof fn lemma_digits_are_plain(n: nat, i: int)
    requires
        0 <= i < crate::text::decimal(n).len(),
    ensures
        '0' <= crate::text::decimal(n)[i] <= '9',
{
    crate::text::lemma_decimal(n);
    assert(crate::text::is_ascii_digit(crate::text::decimal(n)[i]));
}

/// Nothing in a host with its port has another meaning.
proof fn lemma_host_chars(host: Seq<char>, port: Option<u16>, i: int)
    requires
        plain_word(host),
        0 <= i < host_text(host, port).len(),
    ensures
        ({
            let c = host_text(host, port)[i];
            !crate::text::is_whitespace(c) && !crate::text::is_control(c) && c != '@' && c != '/'
                && c != '[' && c != ']' && c != ',' && c != '?' && c != '#' && (c == ':' ==> i
                == host.len())
        }),
{
    let s = host_text(host, port);
    if i < host.len() {
        assert(s[i] == host[i]);
    } else if i > host.len() {
        let n = port->0 as nat;
        assert(s[i] == crate::text::decimal(n)[i - host.len() - 1]);
        lemma_digits_are_plain(n, i - host.len() - 1);
    }
}

proof fn lemma_host_port(host: Seq<char>, port: Option<u16>)
    requires
        plain_word(host),
    ensures
        crate::config::host_port(host_text(host, port)) == Ok::<
            (Seq<char>, Option<u16>),
            ConfigFault,
        >((host, port)),
{
    let s = host_text(host, port);
    assert forall|i: int| 0 <= i < s.len() implies !crate::text::is_whitespace(#[trigger] s[i])
        && !crate::text::is_control(s[i]) && s[i] != '[' && s[i] != ']' && s[i] != '@' && s[i]
        != '/' by {
        lemma_host_chars(host, port, i);
    }
    assert(s[0] != '[');
    assert forall|i: int| 0 <= i < host.len() implies s[i] != ':' by {
        lemma_host_chars(host, port, i);
    }
    match port {
        None => {
            assert(s =~= host);
            crate::text::lemma_position_is(s, ':', s.len() as int);
        },
        Some(number) => {
            let digits = crate::text::decimal(number as nat);
            assert(s[host.len() as int] == ':');
            crate::text::lemma_position_is(s, ':', host.len() as int);
            assert(s.skip(host.len() as int + 1) =~= digits);
            assert(s.take(host.len() as int) =~= host);
            crate::text::lemma_decimal(number as nat);
            crate::text::lemma_decimal_parses(number as nat, u16::MAX as nat);
            assert forall|i: int| 0 <= i < digits.len() implies digits[i] != ':' by {
                lemma_digits_are_plain(number as nat, i);
            }
        },
    }
}

proof fn lemma_no_scheme(s: Seq<char>)
    requires
        !s.contains('/'),
    ensures
        !"ssh://"@.is_prefix_of(s),
        !crate::text::has_text(s, "://"@),
{
    reveal_strlit("ssh://");
    reveal_strlit("://");
    if "ssh://"@.is_prefix_of(s) {
        assert(s[4] == "ssh://"@[4]);
        assert(s.contains(s[4]));
    }
    if crate::text::has_text(s, "://"@) {
        let i = choose|i: int|
            0 <= i && i + "://"@.len() <= s.len() && #[trigger] s.subrange(i, i + "://"@.len())
                == "://"@;
        assert(s.subrange(i, i + 3)[1] == s[i + 1]);
        assert(s.contains(s[i + 1]));
    }
}

proof fn lemma_destination(user: Option<Seq<char>>, host: Seq<char>, port: Option<u16>)
    requires
        plain_word(host),
        user is Some ==> plain_word(user->0),
    ensures
        !crate::config::has_blank(hop_text(user, host, port)),
        !hop_text(user, host, port).contains(','),
        hop_text(user, host, port).len() > 0,
        crate::config::jump_destination(hop_text(user, host, port)) == Ok::<
            (Option<Seq<char>>, Seq<char>),
            ConfigFault,
        >((user, host_text(host, port))),
        crate::config::jump_destination("ssh://"@ + hop_text(user, host, port)) == Ok::<
            (Option<Seq<char>>, Seq<char>),
            ConfigFault,
        >((user, host_text(host, port))),
        !crate::config::has_blank("ssh://"@ + hop_text(user, host, port)),
{
    let s = hop_text(user, host, port);
    let rest = host_text(host, port);
    let p = match user {
        Some(name) => name.len() as int,
        None => s.len() as int,
    };
    assert forall|i: int| 0 <= i < s.len() implies !crate::text::is_whitespace(#[trigger] s[i])
        && !crate::text::is_control(s[i]) && s[i] != '/' && s[i] != ',' && (s[i] == '@' ==> i == p)
        && s[i] != '?' && s[i] != '#' by {
        match user {
            Some(name) => {
                if i < name.len() {
                    assert(s[i] == name[i]);
                } else if i > name.len() {
                    assert(s[i] == rest[i - name.len() - 1]);
                    lemma_host_chars(host, port, i - name.len() - 1);
                } else {
                    assert(s[i] == '@');
                }
            },
            None => {
                assert(s =~= rest);
                lemma_host_chars(host, port, i);
            },
        }
    }
    lemma_no_scheme(s);
    match user {
        Some(name) => {
            crate::text::lemma_position_is(s, '@', p);
            assert(s.take(p) =~= name);
            assert(s.skip(p + 1) =~= rest);
            assert forall|i: int| 0 <= i < rest.len() implies rest[i] != '@' by {
                lemma_host_chars(host, port, i);
            }
        },
        None => {
            assert(s =~= rest);
            crate::text::lemma_position_is(s, '@', p);
        },
    }
    let uri = "ssh://"@ + s;
    reveal_strlit("ssh://");
    assert(uri.skip(6) =~= s);
    assert("ssh://"@ =~= uri.subrange(0, 6));
    assert forall|i: int| 0 <= i < uri.len() implies !crate::text::is_whitespace(#[trigger] uri[i])
        && !crate::text::is_control(uri[i]) by {
        if i >= 6 {
            assert(uri[i] == s[i - 6]);
        } else {
            assert(uri[i] == "ssh://"@[i]);
        }
    }
}

/// A hop goes where it says: to the alias behind the `@`, as the user before it,
/// at the port behind the colon. The settings of the alias count for what the
/// hop leaves out, and for the rest of the way to it.
pub proof fn hops_go_where_they_say(
    user: Option<Seq<char>>,
    host: Seq<char>,
    port: Option<u16>,
    untrusted: bool,
    book: BookView,
    i: int,
)
    requires
        plain_word(host),
        user is Some ==> plain_word(user->0),
        book.configured,
        crate::text_map::sorted(book.records),
        0 <= i < book.records.len(),
        book.records[i].0 == host,
    ensures
        ({
            let settings = book.records[i].1;
            match crate::config::jump_host_of(hop_text(user, host, port), untrusted, book) {
                Ok(jump) => {
                    &&& jump.alias == host
                    &&& jump.username == (match (user, settings.user) {
                        (Some(name), _) => name,
                        (None, Some(name)) => name,
                        (None, None) => book.local_user,
                    })
                    &&& jump.port == (match (port, settings.port) {
                        (Some(number), _) => number,
                        (None, Some(number)) => number,
                        (None, None) => 22,
                    })
                    &&& jump.host == (match settings.hostname {
                        Some(name) => name,
                        None => settings.host_name,
                    })
                    &&& jump.identity_files == settings.identity_files
                    &&& jump.known_hosts_file == settings.known_hosts_file
                    &&& jump.host_key_policy == (match settings.strict_host_key_checking {
                        Some(strict) => if strict {
                            HostKeyPolicy::Strict
                        } else {
                            HostKeyPolicy::Insecure
                        },
                        None => HostKeyPolicy::AcceptNew,
                    })
                },
                Err(_) => untrusted,
            }
        }),
{
    lemma_destination(user, host, port);
    lemma_host_port(host, port);
    crate::text_map::lemma_lookup(book.records, host);
}

/// Where there is no configuration, a hop goes to the host that it names, at
/// port 22 and as the local user where it says nothing else.
pub proof fn hops_need_no_configuration(
    user: Option<Seq<char>>,
    host: Seq<char>,
    port: Option<u16>,
    untrusted: bool,
    book: BookView,
)
    requires
        plain_word(host),
        user is Some ==> plain_word(user->0),
        !book.configured,
    ensures
        match crate::config::jump_host_of(hop_text(user, host, port), untrusted, book) {
            Ok(jump) => {
                &&& jump.alias == host && jump.host == host
                &&& user is Some ==> jump.username == user->0
                &&& user is None ==> jump.username == book.local_user
                &&& port is Some ==> jump.port == port->0
                &&& port is None ==> jump.port == 22
                &&& jump.identity_files.len() == 0 && jump.known_hosts_file is None
                &&& jump.host_key_policy == HostKeyPolicy::AcceptNew
            },
            Err(_) => untrusted,
        },
{
    lemma_destination(user, host, port);
    lemma_host_port(host, port);
}

/// A hop that is written as an address with `ssh://` before it is the same hop.
pub proof fn hops_may_have_a_scheme(
    user: Option<Seq<char>>,
    host: Seq<char>,
    port: Option<u16>,
    untrusted: bool,
    book: BookView,
)
    requires
        plain_word(host),
        user is Some ==> plain_word(user->0),
    ensures
        crate::config::jump_host_of("ssh://"@ + hop_text(user, host, port), untrusted, book)
            == crate::config::jump_host_of(hop_text(user, host, port), untrusted, book),
{
    lemma_destination(user, host, port);
    lemma_host_port(host, port);
}

/// What comes from a user is a plain token: a hop is refused whose host or user
/// begins with a dash or holds a character that a shell acts on, and taken
/// otherwise.
pub proof fn untrusted_hops_are_tokens(
    user: Option<Seq<char>>,
    host: Seq<char>,
    port: Option<u16>,
    book: BookView,
)
    requires
        plain_word(host),
        user is Some ==> plain_word(user->0),
        !book.configured,
    ensures
        crate::config::jump_host_of(hop_text(user, host, port), true, book) is Ok == (is_token(host)
            && (user is Some ==> is_token(user->0))),
{
    lemma_destination(user, host, port);
    lemma_host_port(host, port);
    tokens_hold_nothing_active(host, "ProxyJump host"@);
    if user is Some {
        tokens_hold_nothing_active(user->0, "ProxyJump username"@);
    }
}

/// A text without a dash in front, white space, and what a shell acts on.
pub open spec fn is_token(s: Seq<char>) -> bool {
    s.len() > 0 && s[0] != '-' && forall|i: int|
        0 <= i < s.len() ==> {
            let c = #[trigger] s[i];
            !crate::text::is_whitespace(c) && !crate::text::is_control(c) && c != '\'' && c != '`'
                && c != '"' && c != '$' && c != '\\' && c != ';' && c != '&' && c != '<' && c != '>'
                && c != '|' && c != '(' && c != ')' && c != '{' && c != '}'
        }
}

/// A token that is accepted holds nothing that a shell acts on.
pub proof fn tokens_hold_nothing_active(s: Seq<char>, role: Seq<char>)
    ensures
        crate::config::token_fault(s, role) is None == is_token(s),
        s.len() == 0 ==> crate::config::token_fault(s, role) == Some(
            ConfigFault { problem: ConfigProblem::TokenEmpty, subject: role },
        ),
        s.len() > 0 && s[0] == '-' ==> crate::config::token_fault(s, role) == Some(
            ConfigFault { problem: ConfigProblem::TokenDash, subject: role },
        ),
{
    if !crate::config::has_unsafe_char(s) {
        assert forall|i: int| 0 <= i < s.len() implies {
            let c = #[trigger] s[i];
            !crate::text::is_whitespace(c) && !crate::text::is_control(c) && c != '\'' && c != '`'
                && c != '"' && c != '$' && c != '\\' && c != ';' && c != '&' && c != '<' && c != '>'
                && c != '|' && c != '(' && c != ')' && c != '{' && c != '}'
        } by {
            assert(!crate::config::is_unsafe_token_char(s[i]));
        }
    }
}

proof fn lemma_hosts_after(
    done: Seq<JumpHostView>,
    hops: Seq<Seq<char>>,
    more: Seq<Seq<char>>,
    i: int,
    untrusted: bool,
    book: BookView,
)
    requires
        0 <= i <= hops.len(),
    ensures
        crate::config::jump_hosts_from(done, hops + more, i, untrusted, book) == match
        crate::config::jump_hosts_from(done, hops, i, untrusted, book) {
            Ok(jumps) => crate::config::jump_hosts_from(
                jumps,
                hops + more,
                hops.len() as int,
                untrusted,
                book,
            ),
            Err(e) => Err(e),
        },
    decreases hops.len() - i,
{
    let all = hops + more;
    if i < hops.len() {
        assert(all[i] == hops[i]);
        match crate::config::jump_host_of(hops[i], untrusted, book) {
            Ok(jump) => lemma_hosts_after(done.push(jump), hops, more, i + 1, untrusted, book),
            Err(_) => {},
        }
    }
}

proof fn lemma_hosts_shift(
    done: Seq<JumpHostView>,
    hops: Seq<Seq<char>>,
    more: Seq<Seq<char>>,
    i: int,
    untrusted: bool,
    book: BookView,
    begun: Seq<JumpHostView>,
)
    requires
        0 <= i <= more.len(),
    ensures
        crate::config::jump_hosts_from(
            done + begun,
            hops + more,
            hops.len() + i,
            untrusted,
            book,
        ) == match crate::config::jump_hosts_from(begun, more, i, untrusted, book) {
            Ok(jumps) => Ok(done + jumps),
            Err(e) => Err(e),
        },
    decreases more.len() - i,
{
    let all = hops + more;
    if i < more.len() {
        assert(all[hops.len() + i] == more[i]);
        match crate::config::jump_host_of(more[i], untrusted, book) {
            Ok(jump) => {
                assert((done + begun).push(jump) =~= done + begun.push(jump));
                lemma_hosts_shift(done, hops, more, i + 1, untrusted, book, begun.push(jump));
            },
            Err(_) => {},
        }
    }
}

/// A text with neither white space nor a comma at its ends.
pub open spec fn tight(s: Seq<char>) -> bool {
    s.len() > 0 && !crate::text::is_whitespace(s[0]) && !crate::text::is_whitespace(s.last())
}

/// A route of two parts goes through the hosts of the first and then through
/// those of the second; where one of them leads nowhere, so does the whole.
pub proof fn routes_lead_on(a: Seq<char>, b: Seq<char>, untrusted: bool, book: BookView)
    requires
        tight(a),
        tight(b),
    ensures
        match crate::config::jump_route(a + seq![','] + b, untrusted, book) {
            Ok(jumps) => {
                &&& crate::config::jump_route(a, untrusted, book) matches Ok(first)
                &&& crate::config::jump_route(b, untrusted, book) matches Ok(second)
                &&& jumps == first + second
                &&& first.len() > 0 && second.len() > 0
            },
            Err(_) => {
                ||| crate::config::jump_route(a, untrusted, book) is Err
                ||| crate::config::jump_route(b, untrusted, book) is Err
                ||| crate::text::same_ignoring_case(a, "none"@)
                ||| crate::text::same_ignoring_case(b, "none"@)
                ||| crate::config::jump_route(a, untrusted, book)->Ok_0.len()
                    + crate::config::jump_route(b, untrusted, book)->Ok_0.len() > 8
            },
        },
{
    let x = crate::config::hop_texts(a);
    let y = crate::config::hop_texts(b);
    lemma_hops_join(a, b);
    lemma_some_hop(x, y);
    lemma_none_alone(a);
    lemma_none_alone(b);
    let none = Seq::<JumpHostView>::empty();
    lemma_hosts_after(none, x, y, 0, untrusted, book);
    match crate::config::jump_hosts_from(none, x, 0, untrusted, book) {
        Ok(first) => {
            assert(first + none =~= first);
            lemma_hosts_shift(first, x, y, 0, untrusted, book, none);
            lemma_route_len(none, x, 0, untrusted, book);
            lemma_route_len(none, y, 0, untrusted, book);
        },
        Err(_) => {},
    }
}

/// The hops of two parts are those of the first and then those of the second.
proof fn lemma_hops_join(a: Seq<char>, b: Seq<char>)
    requires
        tight(a),
        tight(b),
    ensures
        ({
            let all = a + seq![','] + b;
            &&& crate::config::hop_texts(all) == crate::config::hop_texts(a)
                + crate::config::hop_texts(b)
            &&& crate::text::trim(all) == all && all.len() > 0
            &&& crate::text::trim(a) == a && crate::text::trim(b) == b
            &&& !crate::text::same_ignoring_case(all, "none"@)
            &&& crate::config::hop_texts(a).len() > 0 && crate::config::hop_texts(b).len() > 0
        }),
{
    let all = a + seq![','] + b;
    assert(all[0] == a[0] && all.last() == b.last());
    crate::text_law::tight_text_stays(a);
    crate::text_law::tight_text_stays(b);
    crate::text_law::tight_text_stays(all);
    crate::text_law::splitting_undoes_joining(a, b, ',');
    assert(crate::config::hop_texts(all) =~= crate::config::hop_texts(a)
        + crate::config::hop_texts(b));
    crate::text_law::parts_hold_no_separator(a, ',');
    crate::text_law::parts_hold_no_separator(b, ',');
    reveal_strlit("none");
    crate::text_law::case_is_that_of_letters(all, "none"@);
    let n = a.len() as int;
    assert(all[n] == ',');
    if crate::text::same_ignoring_case(all, "none"@) {
        let c = "none"@[n];
        assert(c == 'n' || c == 'o' || c == 'e');
    }
}

proof fn lemma_route_len(
    done: Seq<JumpHostView>,
    hops: Seq<Seq<char>>,
    i: int,
    untrusted: bool,
    book: BookView,
)
    requires
        0 <= i <= hops.len(),
    ensures
        crate::config::jump_hosts_from(done, hops, i, untrusted, book) matches Ok(jumps)
            ==> jumps.len() == done.len() + hops.len() - i,
    decreases hops.len() - i,
{
    if i < hops.len() {
        match crate::config::jump_host_of(hops[i], untrusted, book) {
            Ok(jump) => lemma_route_len(done.push(jump), hops, i + 1, untrusted, book),
            Err(_) => {},
        }
    }
}

proof fn lemma_some_hop(x: Seq<Seq<char>>, y: Seq<Seq<char>>)
    ensures
        crate::config::has_empty_hop(x + y) == (crate::config::has_empty_hop(x)
            || crate::config::has_empty_hop(y)),
        crate::config::has_none_hop(x + y) == (crate::config::has_none_hop(x)
            || crate::config::has_none_hop(y)),
{
    let z = x + y;
    assert forall|i: int| 0 <= i < x.len() implies #[trigger] z[i] == x[i] by {}
    assert forall|i: int| 0 <= i < y.len() implies z[x.len() + i] == #[trigger] y[i] by {}
    if crate::config::has_empty_hop(x) {
        let i = choose|i: int| 0 <= i < x.len() && (#[trigger] x[i]).len() == 0;
        assert(z[i].len() == 0);
    }
    if crate::config::has_empty_hop(y) {
        let i = choose|i: int| 0 <= i < y.len() && (#[trigger] y[i]).len() == 0;
        assert(z[x.len() + i].len() == 0);
    }
    if crate::config::has_empty_hop(z) {
        let i = choose|i: int| 0 <= i < z.len() && (#[trigger] z[i]).len() == 0;
        if i < x.len() {
            assert(x[i].len() == 0);
        } else {
            assert(y[i - x.len()].len() == 0);
        }
    }
    let n = "none"@;
    if crate::config::has_none_hop(x) {
        let i = choose|i: int|
            0 <= i < x.len() && crate::text::same_ignoring_case(#[trigger] x[i], n);
        assert(crate::text::same_ignoring_case(z[i], n));
    }
    if crate::config::has_none_hop(y) {
        let i = choose|i: int|
            0 <= i < y.len() && crate::text::same_ignoring_case(#[trigger] y[i], n);
        assert(crate::text::same_ignoring_case(z[x.len() + i], n));
    }
    if crate::config::has_none_hop(z) {
        let i = choose|i: int|
            0 <= i < z.len() && crate::text::same_ignoring_case(#[trigger] z[i], n);
        if i < x.len() {
            assert(crate::text::same_ignoring_case(x[i], n));
        } else {
            assert(crate::text::same_ignoring_case(y[i - x.len()], n));
        }
    }
}

/// A part that is `none` is one hop, which is `none`.
proof fn lemma_none_alone(a: Seq<char>)
    requires
        tight(a),
    ensures
        crate::text::same_ignoring_case(a, "none"@) ==> crate::config::has_none_hop(
            crate::config::hop_texts(a),
        ),
{
    reveal_strlit("none");
    crate::text_law::case_is_that_of_letters(a, "none"@);
    if crate::text::same_ignoring_case(a, "none"@) {
        if a.contains(',') {
            let i = choose|i: int| 0 <= i < a.len() && a[i] == ',';
            let c = "none"@[i];
            assert(c == 'n' || c == 'o' || c == 'e');
        }
        crate::text_law::plain_text_is_one_part(a, ',');
        crate::text_law::tight_text_stays(a);
        let hops = crate::config::hop_texts(a);
        assert(hops =~= seq![a]);
        assert(hops[0] == a);
    }
}

/// A route of one hop goes through that host alone; `none` and nothing stand for
/// no route.
pub proof fn single_hops_are_routes(hop: Seq<char>, untrusted: bool, book: BookView)
    requires
        tight(hop),
        !hop.contains(','),
    ensures
        crate::config::jump_route(hop, untrusted, book) == (if crate::text::same_ignoring_case(
            hop,
            "none"@,
        ) {
            Ok(Seq::empty())
        } else {
            match crate::config::jump_host_of(hop, untrusted, book) {
                Ok(jump) => Ok::<Seq<JumpHostView>, ConfigFault>(seq![jump]),
                Err(e) => Err(e),
            }
        }),
        crate::config::jump_route(Seq::empty(), untrusted, book) == Ok::<
            Seq<JumpHostView>,
            ConfigFault,
        >(Seq::empty()),
{
    crate::text_law::tight_text_stays(hop);
    crate::text_law::plain_text_is_one_part(hop, ',');
    let hops = crate::config::hop_texts(hop);
    assert(hops =~= seq![hop]);
    if crate::config::has_empty_hop(hops) {
        let i = choose|i: int| 0 <= i < hops.len() && (#[trigger] hops[i]).len() == 0;
        assert(hops[i] == hop);
    }
    if crate::config::has_none_hop(hops) {
        let i = choose|i: int|
            0 <= i < hops.len() && crate::text::same_ignoring_case(#[trigger] hops[i], "none"@);
        assert(hops[i] == hop);
    }
    let none = Seq::<JumpHostView>::empty();
    reveal_with_fuel(crate::config::jump_hosts_from, 2);
    match crate::config::jump_host_of(hop, untrusted, book) {
        Ok(jump) => {
            assert(none.push(jump) =~= seq![jump]);
        },
        Err(_) => {},
    }
    assert(crate::text::trim(Seq::<char>::empty()) =~= Seq::<char>::empty());
}

/// A route has at most eight hops.
pub proof fn routes_have_eight_hops_at_most(value: Seq<char>, untrusted: bool, book: BookView)
    ensures
        crate::config::jump_route(value, untrusted, book) matches Ok(jumps) ==> jumps.len() <= 8,
{
    crate::config::jump_routes_are_bounded(value, untrusted, book);
}

/// The configuration of an alias is what its settings say. A user or a port that
/// is asked for comes first; the jump route of the settings is taken, and their
/// proxy command where there is no route.
pub proof fn configurations_follow_their_settings(
    alias: Seq<char>,
    user: Option<Seq<char>>,
    port: Option<u16>,
    book: BookView,
    i: int,
)
    requires
        book.configured,
        crate::text_map::sorted(book.records),
        0 <= i < book.records.len(),
        book.records[i].0 == alias,
    ensures
        ({
            let settings = book.records[i].1;
            match crate::config::openssh_config(alias, user, port, book) {
                Ok(config) => {
                    &&& config.alias == alias
                    &&& config.host == (match settings.hostname {
                        Some(name) => name,
                        None => settings.host_name,
                    })
                    &&& config.username == (match (user, settings.user) {
                        (Some(name), _) => name,
                        (None, Some(name)) => name,
                        (None, None) => book.local_user,
                    })
                    &&& config.port == (match (port, settings.port) {
                        (Some(number), _) => number,
                        (None, Some(number)) => number,
                        (None, None) => 22,
                    })
                    &&& config.identity_files == settings.identity_files
                    &&& config.known_hosts_file == settings.known_hosts_file
                    &&& settings.strict_host_key_checking == Some(true) ==> config.host_key_policy
                        == HostKeyPolicy::Strict
                    &&& settings.strict_host_key_checking == Some(false) ==> config.host_key_policy
                        == HostKeyPolicy::Insecure
                    &&& settings.strict_host_key_checking is None ==> config.host_key_policy
                        == HostKeyPolicy::AcceptNew
                    &&& settings.proxy_jump is None ==> config.jump_hosts.len() == 0
                    &&& settings.proxy_jump is Some ==> crate::config::jump_route(
                        settings.proxy_jump->0,
                        false,
                        book,
                    ) == Ok::<Seq<JumpHostView>, ConfigFault>(config.jump_hosts)
                    &&& config.jump_hosts.len() == 0 ==> config.proxy_command
                        == settings.proxy_command
                    &&& config.jump_hosts.len() > 0 ==> config.proxy_command is None
                    &&& has_usual_times(config)
                },
                Err(e) => {
                    ||| !is_token(alias)
                    ||| user is Some && !is_token(user->0)
                    ||| settings.proxy_jump is Some && crate::config::jump_route(
                        settings.proxy_jump->0,
                        false,
                        book,
                    ) == Err::<Seq<JumpHostView>, ConfigFault>(e)
                },
            }
        }),
        crate::config::openssh_config(alias, user, port, book) is Ok ==> is_token(alias) && (user
            is Some ==> is_token(user->0)),
{
    crate::text_map::lemma_lookup(book.records, alias);
    tokens_hold_nothing_active(alias, "SSH host"@);
    if user is Some {
        tokens_hold_nothing_active(user->0, "SSH username"@);
    }
}

/// An alias without settings is the host that it names: reached directly, as the
/// local user and at port 22 where nothing else is asked for.
pub proof fn configurations_need_no_settings(
    alias: Seq<char>,
    user: Option<Seq<char>>,
    port: Option<u16>,
    book: BookView,
)
    requires
        !book.configured,
        is_token(alias),
        user is Some ==> is_token(user->0),
    ensures
        crate::config::openssh_config(alias, user, port, book) matches Ok(config) && {
            &&& config.alias == alias && config.host == alias
            &&& user is Some ==> config.username == user->0
            &&& user is None ==> config.username == book.local_user
            &&& port is Some ==> config.port == port->0
            &&& port is None ==> config.port == 22
            &&& config.identity_files.len() == 0 && config.known_hosts_file is None
            &&& config.host_key_policy == HostKeyPolicy::AcceptNew
            &&& config.jump_hosts.len() == 0 && config.proxy_command is None
            &&& has_usual_times(config)
        },
{
    tokens_hold_nothing_active(alias, "SSH host"@);
    if user is Some {
        tokens_hold_nothing_active(user->0, "SSH username"@);
    }
}

/// Nothing was said of times: 15 seconds to connect, to open a channel and for
/// an answer, 30 to authenticate, and a sign of life every 30.
pub open spec fn has_usual_times(config: ConfigView) -> bool {
    &&& config.connect_timeout == Span { secs: 15, nanos: 0 }
    &&& config.channel_open_timeout == Span { secs: 15, nanos: 0 }
    &&& config.channel_request_timeout == Span { secs: 15, nanos: 0 }
    &&& config.authentication_timeout == Span { secs: 30, nanos: 0 }
    &&& config.keepalive_interval == Some(Span { secs: 30, nanos: 0 })
    &&& config.inactivity_timeout is None
    &&& !config.agent_forwarding
}

/// What OpenSSH settings say leaves the times as they usually are.
pub proof fn openssh_times_are_usual(
    alias: Seq<char>,
    user: Option<Seq<char>>,
    port: Option<u16>,
    book: BookView,
)
    ensures
        crate::config::openssh_config(alias, user, port, book) matches Ok(config)
            ==> has_usual_times(config),
{
}

/// A host of which nothing else is known is reached directly, at port 22, under
/// its own name, and a new key of it is accepted.
pub proof fn new_configurations_are_plain(host: Seq<char>, username: Seq<char>)
    ensures
        ({
            let config = crate::config::default_config(host, username);
            &&& config.alias == host && config.host == host && config.username == username
            &&& config.port == 22
            &&& config.identity_files.len() == 0 && config.known_hosts_file is None
            &&& config.host_key_policy == HostKeyPolicy::AcceptNew
            &&& config.jump_hosts.len() == 0 && config.proxy_command is None
            &&& has_usual_times(config)
        }),
{
}

/// What may be shown of a configuration is so, and says how it is routed.
pub proof fn snapshots_show_what_is_so(config: ConfigView)
    ensures
        ({
            let shown = config.snapshot();
            &&& shown.alias == config.alias && shown.host == config.host && shown.port
                == config.port && shown.username == config.username
            &&& shown.identity_files == config.identity_files && shown.known_hosts_file
                == config.known_hosts_file && shown.host_key_policy == config.host_key_policy
            &&& shown.keepalive_interval == config.keepalive_interval && shown.inactivity_timeout
                == config.inactivity_timeout && shown.agent_forwarding == config.agent_forwarding
            &&& config.jump_hosts.len() > 0 ==> shown.route == RouteView::ProxyJump(
                config.jump_hosts,
            )
            &&& config.jump_hosts.len() == 0 && config.proxy_command is Some ==> shown.route
                == RouteView::ProxyCommand
            &&& config.jump_hosts.len() == 0 && config.proxy_command is None ==> shown.route
                == RouteView::Direct
        }),
{
}

/// Times are refused exactly where one of them is nothing.
pub proof fn times_are_never_nothing(config: ConfigView)
    ensures
        config.timeout_fault() is None == (lasts(config.connect_timeout) && lasts(
            config.channel_open_timeout,
        ) && lasts(config.channel_request_timeout) && lasts(config.authentication_timeout)),
{
}

pub open spec fn lasts(span: Span) -> bool {
    span.secs > 0 || span.nanos > 0
}

/// Two configurations are the same transport only where host, port, user, policy,
/// route, command and times agree; being the same goes both ways, and every
/// configuration is the same as itself.
pub proof fn same_transports_agree(a: ConfigView, b: ConfigView)
    ensures
        a.same(a),
        a.same(b) == b.same(a),
        a.same(b) ==> {
            &&& a.alias == b.alias && a.host == b.host && a.port == b.port && a.username
                == b.username
            &&& a.host_key_policy == b.host_key_policy
            &&& a.identity_files.len() == b.identity_files.len()
            &&& a.known_hosts_file is Some == b.known_hosts_file is Some
            &&& a.proxy_command == b.proxy_command
            &&& a.jump_hosts.len() == b.jump_hosts.len()
            &&& a.agent_forwarding == b.agent_forwarding
            &&& a.connect_timeout == b.connect_timeout && a.channel_open_timeout
                == b.channel_open_timeout && a.channel_request_timeout
                == b.channel_request_timeout && a.authentication_timeout
                == b.authentication_timeout && a.keepalive_interval == b.keepalive_interval
                && a.inactivity_timeout == b.inactivity_timeout
        },
        a.same(b) ==> forall|k: int|
            0 <= k < a.jump_hosts.len() ==> (#[trigger] a.jump_hosts[k]).host
                == b.jump_hosts[k].host && a.jump_hosts[k].port == b.jump_hosts[k].port
                && a.jump_hosts[k].username == b.jump_hosts[k].username && a.jump_hosts[k].alias
                == b.jump_hosts[k].alias && a.jump_hosts[k].host_key_policy
                == b.jump_hosts[k].host_key_policy,
{
    assert forall|k: int| 0 <= k < a.jump_hosts.len() implies (#[trigger] a.jump_hosts[k]).same(
        a.jump_hosts[k],
    ) by {}
    if a.same(b) {
        assert forall|k: int| 0 <= k < b.jump_hosts.len() implies (#[trigger] b.jump_hosts[k]).same(
            a.jump_hosts[k],
        ) by {
            assert(a.jump_hosts[k].same(b.jump_hosts[k]));
        }
    }
    if b.same(a) {
        assert forall|k: int| 0 <= k < a.jump_hosts.len() implies (#[trigger] a.jump_hosts[k]).same(
            b.jump_hosts[k],
        ) by {
            assert(b.jump_hosts[k].same(a.jump_hosts[k]));
        }
    }
}

/// One thing that differs makes another transport; files that are spelt otherwise
/// and lie at the same path make none.
pub proof fn one_difference_is_enough(a: ConfigView, b: ConfigView)
    ensures
        (ConfigView { alias: b.alias, ..a }).same(a) == (b.alias == a.alias),
        (ConfigView { host: b.host, ..a }).same(a) == (b.host == a.host),
        (ConfigView { port: b.port, ..a }).same(a) == (b.port == a.port),
        (ConfigView { username: b.username, ..a }).same(a) == (b.username == a.username),
        (ConfigView { host_key_policy: b.host_key_policy, ..a }).same(a) == (b.host_key_policy == a.host_key_policy),
        (ConfigView { keepalive_interval: b.keepalive_interval, ..a }).same(a) == (b.keepalive_interval == a.keepalive_interval),
        (ConfigView { inactivity_timeout: b.inactivity_timeout, ..a }).same(a) == (b.inactivity_timeout == a.inactivity_timeout),
        (ConfigView { connect_timeout: b.connect_timeout, ..a }).same(a) == (b.connect_timeout == a.connect_timeout),
        (ConfigView { channel_open_timeout: b.channel_open_timeout, ..a }).same(a) == (b.channel_open_timeout == a.channel_open_timeout),
        (ConfigView { channel_request_timeout: b.channel_request_timeout, ..a }).same(a) == (b.channel_request_timeout == a.channel_request_timeout),
        (ConfigView { authentication_timeout: b.authentication_timeout, ..a }).same(a) == (b.authentication_timeout == a.authentication_timeout),
        (ConfigView { proxy_command: b.proxy_command, ..a }).same(a) == (b.proxy_command == a.proxy_command),
        (ConfigView { agent_forwarding: b.agent_forwarding, ..a }).same(a) == (b.agent_forwarding == a.agent_forwarding),
        (ConfigView { identity_files: b.identity_files, ..a }).same(a) == files_agree(
            b.identity_files,
            a.identity_files,
        ),
        (ConfigView { known_hosts_file: b.known_hosts_file, ..a }).same(a) == file_agrees(
            b.known_hosts_file,
            a.known_hosts_file,
        ),
{
    same_transports_agree(a, a);
}

pub open spec fn file_agrees(a: Option<Seq<char>>, b: Option<Seq<char>>) -> bool {
    &&& a is Some == b is Some
    &&& a is Some ==> crate::paths::same_path(a->0, b->0)
}

pub open spec fn files_agree(a: Seq<Seq<char>>, b: Seq<Seq<char>>) -> bool {
    &&& a.len() == b.len()
    &&& forall|k: int| 0 <= k < a.len() ==> crate::paths::same_path(#[trigger] a[k], b[k])
}

/// One thing that differs at one hop makes another transport too.
pub proof fn one_other_hop_is_enough(a: ConfigView, k: int, hop: JumpHostView)
    requires
        0 <= k < a.jump_hosts.len(),
    ensures
        (ConfigView { jump_hosts: a.jump_hosts.update(k, hop), ..a }).same(a) == {
            let old_hop = a.jump_hosts[k];
            &&& hop.alias == old_hop.alias && hop.host == old_hop.host && hop.port == old_hop.port
            &&& hop.username == old_hop.username && hop.host_key_policy == old_hop.host_key_policy
            &&& files_agree(hop.identity_files, old_hop.identity_files)
            &&& file_agrees(hop.known_hosts_file, old_hop.known_hosts_file)
        },
        !(ConfigView { jump_hosts: a.jump_hosts.push(hop), ..a }).same(a),
{
    let hops = a.jump_hosts.update(k, hop);
    let b = ConfigView { jump_hosts: hops, ..a };
    same_transports_agree(a, a);
    assert(hops[k] == hop);
    if hop.same(a.jump_hosts[k]) {
        assert forall|i: int| 0 <= i < hops.len() implies (#[trigger] hops[i]).same(
            a.jump_hosts[i],
        ) by {
            if i != k {
                assert(a.jump_hosts[i].same(a.jump_hosts[i]));
            }
        }
    }
    if b.same(a) {
        assert(b.jump_hosts[k].same(a.jump_hosts[k]));
    }
}

/// A hop of a user, where it names one, and a destination.
pub open spec fn hop_of(user: Option<Seq<char>>, destination: Seq<char>) -> Seq<char> {
    match user {
        Some(name) => name + seq!['@'] + destination,
        None => destination,
    }
}

proof fn lemma_hop_of(user: Option<Seq<char>>, destination: Seq<char>)
    requires
        user is Some ==> !user->0.contains('@'),
        !destination.contains('@'),
        !"ssh://"@.is_prefix_of(hop_of(user, destination)),
    ensures
        crate::config::jump_destination(hop_of(user, destination)) matches Ok(found) ==> found == (
            user,
            destination,
        ),
{
    let hop = hop_of(user, destination);
    crate::text::lemma_position(hop, '@');
    let p = crate::text::position(hop, '@');
    match user {
        Some(name) => {
            let n = name.len() as int;
            assert(hop[n] == '@');
            assert forall|i: int| 0 <= i < n implies #[trigger] hop[i] != '@' by {
                assert(hop[i] == name[i]);
                assert(name.contains(name[i]));
            }
            crate::text::lemma_position_is(hop, '@', n);
            assert(hop.take(n) =~= name);
            assert(hop.skip(n + 1) =~= destination);
        },
        None => {
            if p < hop.len() {
                assert(hop.contains('@'));
            }
        },
    }
}

/// Whatever a hop looks like that is accepted, its user is the text before the
/// `@`; the settings of the alias count only where there is none, and the local
/// user only where they say nothing. So it is with its port.
pub proof fn accepted_hops_keep_user_and_port(
    user: Option<Seq<char>>,
    destination: Seq<char>,
    untrusted: bool,
    book: BookView,
)
    requires
        user is Some ==> !user->0.contains('@'),
        !destination.contains('@'),
        !"ssh://"@.is_prefix_of(hop_of(user, destination)),
    ensures
        crate::config::jump_host_of(hop_of(user, destination), untrusted, book) matches Ok(jump)
            ==> {
            &&& crate::config::host_port(destination) matches Ok((alias, port))
            &&& book.record(alias) matches Some(settings)
            &&& jump.alias == alias
            &&& jump.username == (match (user, settings.user) {
                (Some(name), _) => name,
                (None, Some(name)) => name,
                (None, None) => book.local_user,
            })
            &&& jump.port == (match (port, settings.port) {
                (Some(number), _) => number,
                (None, Some(number)) => number,
                (None, None) => 22,
            })
        },
{
    lemma_hop_of(user, destination);
}

/// A destination that ends with a colon and digits, with no colon before them,
/// is the host before the colon at the port behind it.
pub proof fn ports_come_behind_their_host(host: Seq<char>, digits: Seq<char>)
    requires
        !host.contains(':'),
        !host.contains('['),
        !digits.contains(':'),
    ensures
        crate::config::host_port(host + seq![':'] + digits) matches Ok((alias, port)) ==> {
            &&& alias == host
            &&& port matches Some(number)
            &&& crate::text::parse_unsigned(digits, 65535) == Some(number as nat)
        },
        crate::config::host_port(host) matches Ok((alias, port)) ==> alias == host && port is None,
{
    let all = host + seq![':'] + digits;
    let n = host.len() as int;
    assert(all[n] == ':');
    assert forall|i: int| 0 <= i < n implies #[trigger] all[i] != ':' by {
        assert(all[i] == host[i]);
        assert(host.contains(host[i]));
    }
    crate::text::lemma_position_is(all, ':', n);
    assert(all.take(n) =~= host);
    assert(all.skip(n + 1) =~= digits);
    if n > 0 {
        assert(all[0] == host[0] && host.contains(host[0]));
    }
    crate::text::lemma_position(host, ':');
    if crate::text::position(host, ':') < host.len() {
        assert(host.contains(':'));
    }
    if n == 0 {
        assert(all[0] == ':');
    }
}

/// An address in brackets is the host between them, at the port behind a colon
/// where there is one.
pub proof fn bracketed_addresses_are_hosts(address: Seq<char>, port: u16)
    requires
        crate::net::is_ipv6(address),
        address.len() > 0,
        !address.contains(']'),
        !crate::config::has_blank(address),
    ensures
        crate::config::host_port(seq!['['] + address + seq![']']) == Ok::<
            (Seq<char>, Option<u16>),
            ConfigFault,
        >((address, None)),
        crate::config::host_port(
            seq!['['] + address + seq![']', ':'] + crate::text::decimal(port as nat),
        ) == Ok::<(Seq<char>, Option<u16>), ConfigFault>((address, Some(port))),
{
    let n = address.len() as int;
    let digits = crate::text::decimal(port as nat);
    let short = seq!['['] + address + seq![']'];
    let long = seq!['['] + address + seq![']', ':'] + digits;
    crate::text_law::numbers_come_through(port as nat, 65535);
    crate::text::lemma_decimal(port as nat);
    lemma_bracketed(address, Seq::empty());
    lemma_bracketed(address, seq![':'] + digits);
    assert(short =~= seq!['['] + address + seq![']'] + Seq::empty());
    assert(long =~= seq!['['] + address + seq![']'] + (seq![':'] + digits));
    assert((seq![':'] + digits).skip(1) =~= digits);
    assert forall|i: int| 0 <= i < long.len() implies !crate::text::is_whitespace(#[trigger] long[i])
        && !crate::text::is_control(long[i]) by {
        if 0 < i <= n {
            assert(long[i] == address[i - 1]);
            lemma_no_blank(address, i - 1);
        } else if i > n + 2 {
            assert(long[i] == digits[i - n - 3]);
            lemma_digits_are_plain(port as nat, i - n - 3);
        }
    }
    assert forall|i: int| 0 <= i < short.len() implies !crate::text::is_whitespace(
        #[trigger] short[i],
    ) && !crate::text::is_control(short[i]) by {
        if 0 < i <= n {
            assert(short[i] == address[i - 1]);
            lemma_no_blank(address, i - 1);
        }
    }
}

proof fn lemma_no_blank(s: Seq<char>, i: int)
    requires
        !crate::config::has_blank(s),
        0 <= i < s.len(),
    ensures
        !crate::text::is_whitespace(s[i]),
        !crate::text::is_control(s[i]),
{
    assert(!(crate::text::is_whitespace(s[i]) || crate::text::is_control(s[i])));
}

proof fn lemma_bracketed(address: Seq<char>, suffix: Seq<char>)
    requires
        !address.contains(']'),
    ensures
        ({
            let rest = (seq!['['] + address + seq![']'] + suffix).skip(1);
            let n = address.len() as int;
            &&& crate::text::position(rest, ']') == n && n < rest.len()
            &&& rest.take(n) == address && rest.skip(n + 1) == suffix
        }),
{
    let rest = (seq!['['] + address + seq![']'] + suffix).skip(1);
    let n = address.len() as int;
    assert(rest =~= address + seq![']'] + suffix);
    assert(rest[n] == ']');
    assert forall|i: int| 0 <= i < n implies #[trigger] rest[i] != ']' by {
        assert(rest[i] == address[i]);
        assert(address.contains(address[i]));
    }
    crate::text::lemma_position_is(rest, ']', n);
    assert(rest.take(n) =~= address);
    assert(rest.skip(n + 1) =~= suffix);
}

} // verus!
