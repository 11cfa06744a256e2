//! Laws of inventories: what a line declares, and whom a group holds.

use vstd::prelude::*;

use crate::inventory::Declared;
use crate::inventory::GroupView;
use crate::inventory::InventoryFault;
use crate::inventory::InventoryProblem;
use crate::inventory::InventoryView;
use crate::inventory::MemberView;

verus! {

/// What stands behind a hash sign does not count.
pub proof fn comments_do_not_count(line: Seq<char>, comment: Seq<char>)
    requires
        !line.contains('#'),
    ensures
        crate::inventory::line_tokens(line) == crate::text::spaced_words(line),
        crate::inventory::line_tokens(line + seq!['#'] + comment) == crate::text::spaced_words(line),
{
    crate::text::lemma_position(line, '#');
    assert(line.take(line.len() as int) =~= line);
    let all = line + seq!['#'] + comment;
    assert(all[line.len() as int] == '#');
    assert forall|i: int| 0 <= i < line.len() implies #[trigger] all[i] != '#' by {
        assert(all[i] == line[i]);
        assert(line.contains(line[i]));
    }
    crate::text::lemma_position_is(all, '#', line.len() as int);
    assert(all.take(line.len() as int) =~= line);
}

/// A group goes by one to 64 letters, digits, dots, underscores and dashes.
pub proof fn group_names_are_plain(name: Seq<char>)
    ensures
        crate::inventory::is_group_name(name) == (1 <= vstd::utf8::encode_utf8(name).len() <= 64
            && forall|i: int|
            0 <= i < name.len() ==> {
                let c = #[trigger] name[i];
                'a' <= c <= 'z' || 'A' <= c <= 'Z' || '0' <= c <= '9' || c == '.' || c == '_' || c
                    == '-'
            }),
{
    if crate::inventory::is_group_name(name) {
        assert forall|i: int| 0 <= i < name.len() implies {
            let c = #[trigger] name[i];
            'a' <= c <= 'z' || 'A' <= c <= 'Z' || '0' <= c <= '9' || c == '.' || c == '_' || c
                == '-'
        } by {
            assert(crate::inventory::is_group_char(name[i]));
        }
    }
}

/// A member with an `@` before it is a group, and any other one a host.
pub proof fn members_are_hosts_or_groups(token: Seq<char>, line: nat)
    ensures
        crate::inventory::is_group_name(token) ==> crate::inventory::member_of(
            seq!['@'] + token,
            line,
        ) == Ok::<MemberView, InventoryFault>(MemberView::Group(token)),
        token.len() > 0 && token[0] != '@' && crate::target::parsed_target(token) is Ok
            ==> crate::inventory::member_of(token, line) == Ok::<MemberView, InventoryFault>(
            MemberView::Host(token),
        ),
        token.len() > 0 && token[0] != '@' && crate::target::parsed_target(token) is Err
            ==> crate::inventory::member_of(token, line) is Err,
        !crate::inventory::is_group_name(token) ==> crate::inventory::member_of(
            seq!['@'] + token,
            line,
        ) is Err,
{
    assert((seq!['@'] + token).skip(1) =~= token);
}

/// The members of a line are read in their order, none of them twice, and all
/// are counted, up to 8192 in the whole.
pub proof fn members_are_read_in_order(
    done: Seq<MemberView>,
    total: nat,
    tokens: Seq<Seq<char>>,
    k: int,
    line: nat,
)
    requires
        0 <= k <= tokens.len(),
        done.no_duplicates(),
    ensures
        crate::inventory::members_read(done, total, tokens, k, line) matches Ok((members, count))
            ==> {
            &&& members.len() == done.len() + tokens.len() - k
            &&& count == total + tokens.len() - k
            &&& count > total ==> count <= 8192
            &&& members.no_duplicates()
            &&& forall|j: int| 0 <= j < done.len() ==> #[trigger] members[j] == done[j]
            &&& forall|j: int|
                k <= j < tokens.len() ==> crate::inventory::member_of(#[trigger] tokens[j], line)
                    == Ok::<MemberView, InventoryFault>(members[done.len() + j - k])
        },
    decreases tokens.len() - k,
{
    if k < tokens.len() {
        match crate::inventory::member_of(tokens[k], line) {
            Ok(member) => {
                if !done.contains(member) && total < 8192 {
                    let more = done.push(member);
                    assert(more.no_duplicates());
                    members_are_read_in_order(more, total + 1, tokens, k + 1, line);
                    match crate::inventory::members_read(more, total + 1, tokens, k + 1, line) {
                        Ok((members, count)) => {
                            assert(members[done.len() as int] == more[done.len() as int]);
                            assert forall|j: int| 0 <= j < done.len() implies #[trigger] members[j]
                                == done[j] by {
                                assert(members[j] == more[j]);
                            }
                        },
                        Err(_) => {},
                    }
                }
            },
            Err(_) => {},
        }
    }
}

/// The line declares the host.
pub open spec fn declares_host(line: Seq<char>, host: Seq<char>) -> bool {
    crate::inventory::line_tokens(line) == seq!["host"@, host]
}

proof fn lemma_put_key<V>(entries: Seq<(Seq<char>, V)>, key: Seq<char>, value: V, other: Seq<char>)
    requires
        crate::text_map::sorted(entries),
    ensures
        crate::text_map::sorted(crate::text_map::put(entries, key, value)),
        crate::text_map::has_key(crate::text_map::put(entries, key, value), other) == (
        crate::text_map::has_key(entries, other) || other == key),
{
    crate::text_map::lemma_put(entries, key, value);
    crate::text_map::lemma_lookup(entries, other);
    crate::text_map::lemma_lookup(crate::text_map::put(entries, key, value), other);
}

/// A host is declared exactly where some line declares it.
pub proof fn hosts_are_declared_by_lines(
    state: Declared,
    all: Seq<Seq<char>>,
    i: int,
    host: Seq<char>,
)
    requires
        0 <= i <= all.len(),
        crate::text_map::sorted(state.hosts),
    ensures
        crate::inventory::lines_declared(state, all, i) matches Ok(end) ==> {
            &&& crate::text_map::sorted(end.hosts)
            &&& crate::text_map::has_key(end.hosts, host) == (crate::text_map::has_key(
                state.hosts,
                host,
            ) || exists|j: int| i <= j < all.len() && declares_host(#[trigger] all[j], host))
        },
    decreases all.len() - i,
{
    if i < all.len() {
        let tokens = crate::inventory::line_tokens(all[i]);
        reveal_strlit("host");
        reveal_strlit("group");
        match crate::inventory::line_declared(state, tokens, (i + 1) as nat) {
            Ok(next) => {
                if tokens.len() == 2 && tokens[0] == "host"@ {
                    lemma_put_key(state.hosts, tokens[1], true, host);
                    assert(tokens =~= seq!["host"@, tokens[1]]);
                    if host == tokens[1] {
                        assert(declares_host(all[i], host));
                    }
                    if declares_host(all[i], host) {
                        assert(seq!["host"@, host][1] == host);
                    }
                } else if declares_host(all[i], host) {
                    assert(tokens[0] == "host"@);
                }
                hosts_are_declared_by_lines(next, all, i + 1, host);
            },
            Err(_) => {},
        }
    }
}

/// What may be in an inventory: at most 4096 hosts, none of them declared twice.
pub proof fn hosts_are_declared_once(state: Declared, host: Seq<char>, line: nat)
    requires
        crate::text_map::sorted(state.hosts),
    ensures
        ({
            let known = exists|j: int| 0 <= j < state.hosts.len() && #[trigger] state.hosts[j].0
                == host;
            match crate::inventory::line_declared(state, seq!["host"@, host], line) {
                Ok(next) => {
                    &&& !known && state.hosts.len() < 4096
                    &&& crate::target::parsed_target(host) is Ok
                    &&& next.hosts.len() == state.hosts.len() + 1
                    &&& next.groups == state.groups && next.members == state.members
                },
                Err(e) => {
                    &&& e.line == Some(line) && e.subject == host
                    &&& e.problem == InventoryProblem::DuplicateHost ==> known
                    &&& e.problem == InventoryProblem::TooManyHosts ==> state.hosts.len() >= 4096
                    &&& known || state.hosts.len() >= 4096 || crate::target::parsed_target(
                        host,
                    ) is Err
                },
            }
        }),
{
    crate::text_map::lemma_put(state.hosts, host, true);
}

/// A line is empty, or begins with `host` or `group`; nothing else is read.
pub proof fn other_lines_are_refused(state: Declared, tokens: Seq<Seq<char>>, line: nat)
    ensures
        tokens.len() == 0 ==> crate::inventory::line_declared(state, tokens, line) == Ok::<
            Declared,
            InventoryFault,
        >(state),
        tokens.len() > 0 && tokens[0] != "host"@ && tokens[0] != "group"@
            ==> crate::inventory::line_declared(state, tokens, line) == Err::<
            Declared,
            InventoryFault,
        >(
            InventoryFault {
                problem: InventoryProblem::Directive,
                line: Some(line),
                subject: tokens[0],
            },
        ),
{
}

/// A group line declares its group, once, with its members.
pub proof fn groups_are_declared_once(state: Declared, tokens: Seq<Seq<char>>, line: nat)
    requires
        crate::text_map::sorted(state.groups),
        tokens.len() >= 3,
        tokens[0] == "group"@,
    ensures
        crate::inventory::line_declared(state, tokens, line) matches Ok(next) ==> {
            &&& crate::inventory::is_group_name(tokens[1])
            &&& forall|j: int|
                0 <= j < state.groups.len() ==> #[trigger] state.groups[j].0 != tokens[1]
            &&& state.groups.len() < 512 && next.groups.len() == state.groups.len() + 1
            &&& next.hosts == state.hosts && next.members == state.members + tokens.len() - 2
            &&& crate::text_map::lookup(next.groups, tokens[1]) matches Some(members)
            &&& members.len() == tokens.len() - 2
            &&& forall|j: int|
                2 <= j < tokens.len() ==> crate::inventory::member_of(#[trigger] tokens[j], line)
                    == Ok::<MemberView, InventoryFault>(members[j - 2])
        },
{
    reveal_strlit("host");
    reveal_strlit("group");
    assert("host"@.len() == 4 && "group"@.len() == 5);
    members_are_read_in_order(Seq::empty(), state.members, tokens, 2, line);
    match crate::inventory::members_read(Seq::empty(), state.members, tokens, 2, line) {
        Ok((members, _)) => {
            crate::text_map::lemma_put(state.groups, tokens[1], members);
        },
        Err(_) => {},
    }
}

/// The host that is reached from the group at `p` by going from member to
/// member.
pub open spec fn reached(groups: Seq<GroupView>, p: int, way: Seq<int>) -> Option<Seq<char>>
    decreases way.len(),
{
    if !(0 <= p < groups.len()) || way.len() == 0 || !(0 <= way[0] < groups[p].members.len()) {
        None
    } else {
        match groups[p].members[way[0]] {
            MemberView::Host(host) => if way.len() == 1 {
                Some(host)
            } else {
                None
            },
            MemberView::Group(group) => reached(
                groups,
                crate::inventory::group_index(groups, group, 0),
                way.skip(1),
            ),
        }
    }
}

proof fn lemma_holds_group(
    groups: Seq<GroupView>,
    visiting: Seq<Seq<char>>,
    out: Seq<Seq<char>>,
    name: Seq<char>,
    way: Seq<int>,
    kept: Seq<char>,
)
    ensures
        crate::inventory::group_expanded(groups, visiting, out, name) matches Ok(list) ==> {
            &&& out.contains(kept) ==> list.contains(kept)
            &&& reached(
                groups,
                crate::inventory::group_index(groups, name, 0),
                way,
            ) matches Some(host) ==> list.contains(host)
        },
    decreases crate::inventory::unvisited(groups, visiting, 0), 0nat, 0int,
{
    let p = crate::inventory::group_index(groups, name, 0);
    crate::inventory::lemma_group_index(groups, name, 0);
    if !visiting.contains(name) && p < groups.len() {
        crate::inventory::lemma_unvisited(groups, visiting, name, 0);
        lemma_holds_members(groups, visiting.push(name), out, p, 0, name, way, kept);
    }
}

proof fn lemma_holds_members(
    groups: Seq<GroupView>,
    visiting: Seq<Seq<char>>,
    out: Seq<Seq<char>>,
    p: int,
    k: int,
    name: Seq<char>,
    way: Seq<int>,
    kept: Seq<char>,
)
    requires
        0 <= p < groups.len(),
        0 <= k <= groups[p].members.len(),
    ensures
        crate::inventory::members_expanded(
            groups,
            visiting,
            out,
            groups[p].members,
            k,
            name,
        ) matches Ok(list) ==> {
            &&& out.contains(kept) ==> list.contains(kept)
            &&& reached(groups, p, way) matches Some(host) ==> (way[0] >= k ==> list.contains(host))
        },
    decreases crate::inventory::unvisited(groups, visiting, 0), 1nat, groups[p].members.len() - k,
{
    let members = groups[p].members;
    if k < members.len() {
        match members[k] {
            MemberView::Host(host) => {
                if out.contains(host) {
                    lemma_holds_members(groups, visiting, out, p, k + 1, name, way, kept);
                    lemma_holds_members(groups, visiting, out, p, k + 1, name, way, host);
                } else {
                    let more = out.push(host);
                    assert(more[out.len() as int] == host);
                    if out.contains(kept) {
                        let i = choose|i: int| 0 <= i < out.len() && out[i] == kept;
                        assert(more[i] == kept);
                    }
                    lemma_holds_members(groups, visiting, more, p, k + 1, name, way, kept);
                    lemma_holds_members(groups, visiting, more, p, k + 1, name, way, host);
                }
            },
            MemberView::Group(group) => {
                lemma_holds_group(groups, visiting, out, group, way.skip(1), kept);
                match crate::inventory::group_expanded(groups, visiting, out, group) {
                    Ok(longer) => {
                        lemma_holds_members(groups, visiting, longer, p, k + 1, name, way, kept);
                        if let Some(host) = reached(groups, p, way) {
                            lemma_holds_members(groups, visiting, longer, p, k + 1, name, way, host);
                        }
                    },
                    Err(_) => {},
                }
            },
        }
    }
}

/// A group holds every host that is a member of it, of a group that is a member
/// of it, and so on.
pub proof fn groups_hold_the_members_of_their_groups(
    groups: Seq<GroupView>,
    p: int,
    way: Seq<int>,
)
    requires
        0 <= p < groups.len(),
        forall|q: int| 0 <= q < p ==> (#[trigger] groups[q]).name != groups[p].name,
    ensures
        crate::inventory::hosts_of_group(groups, groups[p].name) matches Ok(list) ==> (reached(
            groups,
            p,
            way,
        ) matches Some(host) ==> list.contains(host)),
{
    crate::inventory::lemma_group_index(groups, groups[p].name, 0);
    let q = crate::inventory::group_index(groups, groups[p].name, 0);
    assert(q == p) by {
        if q > p {
            assert(groups[p].name != groups[p].name);
        }
    }
    lemma_holds_group(
        groups,
        Seq::empty(),
        Seq::empty(),
        groups[p].name,
        way,
        Seq::empty(),
    );
}

proof fn lemma_within_group(
    groups: Seq<GroupView>,
    visiting: Seq<Seq<char>>,
    out: Seq<Seq<char>>,
    name: Seq<char>,
    host: Seq<char>,
) -> (way: Seq<int>)
    ensures
        crate::inventory::group_expanded(groups, visiting, out, name) matches Ok(list) ==> (
        list.contains(host) ==> out.contains(host) || reached(
            groups,
            crate::inventory::group_index(groups, name, 0),
            way,
        ) == Some(host)),
    decreases crate::inventory::unvisited(groups, visiting, 0), 0nat, 0int,
{
    let p = crate::inventory::group_index(groups, name, 0);
    crate::inventory::lemma_group_index(groups, name, 0);
    if !visiting.contains(name) && p < groups.len() {
        crate::inventory::lemma_unvisited(groups, visiting, name, 0);
        lemma_within_members(groups, visiting.push(name), out, p, 0, name, host)
    } else {
        Seq::empty()
    }
}

proof fn lemma_within_members(
    groups: Seq<GroupView>,
    visiting: Seq<Seq<char>>,
    out: Seq<Seq<char>>,
    p: int,
    k: int,
    name: Seq<char>,
    host: Seq<char>,
) -> (way: Seq<int>)
    requires
        0 <= p < groups.len(),
        0 <= k <= groups[p].members.len(),
    ensures
        crate::inventory::members_expanded(
            groups,
            visiting,
            out,
            groups[p].members,
            k,
            name,
        ) matches Ok(list) ==> (list.contains(host) ==> out.contains(host) || reached(
            groups,
            p,
            way,
        ) == Some(host)),
    decreases crate::inventory::unvisited(groups, visiting, 0), 1nat, groups[p].members.len() - k,
{
    let members = groups[p].members;
    if k < members.len() {
        match members[k] {
            MemberView::Host(member) => {
                let way = seq![k];
                reveal_with_fuel(reached, 2);
                if out.contains(member) {
                    lemma_within_members(groups, visiting, out, p, k + 1, name, host)
                } else {
                    let more = out.push(member);
                    let deeper = lemma_within_members(
                        groups,
                        visiting,
                        more,
                        p,
                        k + 1,
                        name,
                        host,
                    );
                    if member == host {
                        way
                    } else {
                        if more.contains(host) {
                            let i = choose|i: int| 0 <= i < more.len() && more[i] == host;
                            assert(out[i] == host);
                        }
                        deeper
                    }
                }
            },
            MemberView::Group(group) => {
                let inner = lemma_within_group(groups, visiting, out, group, host);
                let way = seq![k] + inner;
                assert(way.skip(1) =~= inner);
                match crate::inventory::group_expanded(groups, visiting, out, group) {
                    Ok(longer) => {
                        let deeper = lemma_within_members(
                            groups,
                            visiting,
                            longer,
                            p,
                            k + 1,
                            name,
                            host,
                        );
                        if longer.contains(host) {
                            way
                        } else {
                            deeper
                        }
                    },
                    Err(_) => way,
                }
            },
        }
    } else {
        Seq::empty()
    }
}

/// A group holds no host that is not reached from it by going from member to
/// member.
pub proof fn groups_hold_nobody_else(groups: Seq<GroupView>, p: int, host: Seq<char>) -> (way: Seq<
    int,
>)
    requires
        0 <= p < groups.len(),
        forall|q: int| 0 <= q < p ==> (#[trigger] groups[q]).name != groups[p].name,
    ensures
        crate::inventory::hosts_of_group(groups, groups[p].name) matches Ok(list) ==> (
        list.contains(host) ==> reached(groups, p, way) == Some(host)),
{
    crate::inventory::lemma_group_index(groups, groups[p].name, 0);
    let q = crate::inventory::group_index(groups, groups[p].name, 0);
    assert(q == p) by {
        if q > p {
            assert(groups[p].name != groups[p].name);
        }
    }
    lemma_within_group(groups, Seq::empty(), Seq::empty(), groups[p].name, host)
}

/// An inventory of more than a mebibyte, or one that is no text, is not read.
pub proof fn inventories_are_bounded_texts(path: Seq<char>, bytes: Seq<u8>)
    ensures
        bytes.len() > 1048576 ==> crate::inventory::loaded_inventory(path, bytes) == Err::<
            InventoryView,
            InventoryFault,
        >(InventoryFault { problem: InventoryProblem::TooLarge, line: None, subject: path }),
        bytes.len() <= 1048576 && !vstd::utf8::valid_utf8(bytes)
            ==> crate::inventory::loaded_inventory(path, bytes) == Err::<
            InventoryView,
            InventoryFault,
        >(InventoryFault { problem: InventoryProblem::NotText, line: None, subject: path }),
        bytes.len() <= 1048576 && vstd::utf8::valid_utf8(bytes)
            ==> crate::inventory::loaded_inventory(path, bytes)
            == crate::inventory::parsed_inventory(vstd::utf8::decode_utf8(bytes), Some(path)),
{
}

/// The parts that the groups of an inventory speak of are those that its lines
/// declare, and where they came from is kept.
pub proof fn inventories_hold_what_was_declared(
    text: Seq<char>,
    source: Option<Seq<char>>,
    host: Seq<char>,
)
    ensures
        crate::inventory::parsed_inventory(text, source) matches Ok(inventory) ==> {
            &&& inventory.source == source
            &&& inventory.hosts.contains(host) == exists|j: int|
                0 <= j < crate::text::lines(text).len() && declares_host(
                    #[trigger] crate::text::lines(text)[j],
                    host,
                )
        },
{
    let start = crate::inventory::nothing_declared();
    let all = crate::text::lines(text);
    hosts_are_declared_by_lines(start, all, 0, host);
    match crate::inventory::lines_declared(start, all, 0) {
        Ok(end) => {
            let hosts = crate::inventory::declared_hosts(end);
            if crate::text_map::has_key(end.hosts, host) {
                let j = choose|j: int| 0 <= j < end.hosts.len() && #[trigger] end.hosts[j].0 == host;
                assert(hosts[j] == host);
            }
            if hosts.contains(host) {
                let j = choose|j: int| 0 <= j < hosts.len() && hosts[j] == host;
                assert(end.hosts[j].0 == host);
            }
        },
        Err(_) => {},
    }
}

/// A group that is not declared is not found, and one that holds itself is refused
/// whatever else it holds before.
pub proof fn unknown_groups_are_not_found(groups: Seq<GroupView>, name: Seq<char>)
    ensures
        (forall|k: int| 0 <= k < groups.len() ==> (#[trigger] groups[k]).name != name) ==> (
        crate::inventory::hosts_of_group(groups, name) matches Err(fault) && fault.problem
            == InventoryProblem::GroupNotFound && fault.subject == name && fault.line is None),
        crate::inventory::hosts_of_group(groups, name) is Ok ==> exists|k: int|
            0 <= k < groups.len() && (#[trigger] groups[k]).name == name
                && !groups[k].members.contains(MemberView::Group(name)),
{
    crate::inventory::lemma_group_index(groups, name, 0);
    let p = crate::inventory::group_index(groups, name, 0);
    if p < groups.len() && groups[p].members.contains(MemberView::Group(name)) {
        let members = groups[p].members;
        let k = choose|k: int| 0 <= k < members.len() && members[k] == MemberView::Group(name);
        let visiting = Seq::<Seq<char>>::empty().push(name);
        assert(visiting[0] == name);
        lemma_own_member(groups, visiting, Seq::empty(), members, 0, name, k);
    }
}

proof fn lemma_own_member(
    groups: Seq<GroupView>,
    visiting: Seq<Seq<char>>,
    out: Seq<Seq<char>>,
    members: Seq<MemberView>,
    i: int,
    name: Seq<char>,
    k: int,
)
    requires
        0 <= i <= k < members.len(),
        members[k] == MemberView::Group(name),
        visiting.contains(name),
    ensures
        crate::inventory::members_expanded(groups, visiting, out, members, i, name) is Err,
    decreases k - i,
{
    if i == k {
        assert(crate::inventory::group_expanded(groups, visiting, out, name) is Err);
    } else {
        match members[i] {
            MemberView::Host(host) => {
                if out.contains(host) {
                    lemma_own_member(groups, visiting, out, members, i + 1, name, k);
                } else {
                    lemma_own_member(groups, visiting, out.push(host), members, i + 1, name, k);
                }
            },
            MemberView::Group(group) => {
                if let Ok(longer) = crate::inventory::group_expanded(groups, visiting, out, group) {
                    lemma_own_member(groups, visiting, longer, members, i + 1, name, k);
                }
            },
        }
    }
}

} // verus!
