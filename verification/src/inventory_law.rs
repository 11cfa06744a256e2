//! What holds of every inventory that is accepted.

use vstd::prelude::*;

use crate::inventory::Declared;
use crate::inventory::GroupView;
use crate::inventory::InventoryFault;
use crate::inventory::MemberView;
use crate::inventory::MAX_EXPANDED_GROUP_HOSTS;

verus! {

/// Every host that is a member of a group is one of these.
pub open spec fn members_among(groups: Seq<GroupView>, hosts: Seq<Seq<char>>) -> bool {
    forall|i: int, k: int|
        #![trigger groups[i].members[k]]
        0 <= i < groups.len() && 0 <= k < groups[i].members.len() ==> (
        groups[i].members[k] matches MemberView::Host(host) ==> hosts.contains(host))
}

/// A list of distinct hosts within the limit, all of them among `hosts`.
pub open spec fn is_host_list(list: Seq<Seq<char>>, hosts: Seq<Seq<char>>) -> bool {
    &&& list.no_duplicates()
    &&& list.len() <= MAX_EXPANDED_GROUP_HOSTS
    &&& forall|i: int| 0 <= i < list.len() ==> hosts.contains(#[trigger] list[i])
}

proof fn lemma_group(
    groups: Seq<GroupView>,
    hosts: Seq<Seq<char>>,
    visiting: Seq<Seq<char>>,
    out: Seq<Seq<char>>,
    name: Seq<char>,
)
    requires
        members_among(groups, hosts),
        is_host_list(out, hosts),
    ensures
        crate::inventory::group_expanded(groups, visiting, out, name) matches Ok(list)
            ==> is_host_list(list, hosts),
    decreases crate::inventory::unvisited(groups, visiting, 0), 0nat, 0int,
{
    let p = crate::inventory::group_index(groups, name, 0);
    crate::inventory::lemma_group_index(groups, name, 0);
    if !visiting.contains(name) && p < groups.len() {
        crate::inventory::lemma_unvisited(groups, visiting, name, 0);
        lemma_members(groups, hosts, visiting.push(name), out, p, 0, name);
    }
}

proof fn lemma_members(
    groups: Seq<GroupView>,
    hosts: Seq<Seq<char>>,
    visiting: Seq<Seq<char>>,
    out: Seq<Seq<char>>,
    p: int,
    k: int,
    name: Seq<char>,
)
    requires
        0 <= p < groups.len(),
        0 <= k <= groups[p].members.len(),
        members_among(groups, hosts),
        is_host_list(out, hosts),
    ensures
        crate::inventory::members_expanded(groups, visiting, out, groups[p].members, k, name)
            matches Ok(list) ==> is_host_list(list, hosts),
    decreases
            crate::inventory::unvisited(groups, visiting, 0),
            1nat,
            groups[p].members.len() - k,
{
    if k < groups[p].members.len() {
        match groups[p].members[k] {
            MemberView::Host(host) => {
                if out.contains(host) {
                    lemma_members(groups, hosts, visiting, out, p, k + 1, name);
                } else if out.len() < MAX_EXPANDED_GROUP_HOSTS {
                    let longer = out.push(host);
                    assert forall|i: int, j: int|
                        0 <= i < longer.len() && 0 <= j < longer.len() && i != j implies longer[i]
                        != longer[j] by {
                        if i == out.len() {
                            assert(out.contains(out[j]));
                        } else if j == out.len() {
                            assert(out.contains(out[i]));
                        }
                    }
                    lemma_members(groups, hosts, visiting, longer, p, k + 1, name);
                }
            },
            MemberView::Group(group) => {
                lemma_group(groups, hosts, visiting, out, group);
                if let Ok(longer) = crate::inventory::group_expanded(groups, visiting, out, group) {
                    lemma_members(groups, hosts, visiting, longer, p, k + 1, name);
                }
            },
        }
    }
}

proof fn lemma_references(state: Declared, i: int, p: int, k: int)
    requires
        0 <= i <= p < state.groups.len(),
        0 <= k < state.groups[p].1.len(),
        crate::inventory::references_fault(state, i) is None,
    ensures
        crate::inventory::member_fault(state, state.groups[p].1[k]) is None,
    decreases state.groups.len() - i,
{
    if i < p {
        lemma_references(state, i + 1, p, k);
    } else {
        lemma_member_references(state, state.groups[p].1, 0, k);
    }
}

proof fn lemma_member_references(state: Declared, members: Seq<MemberView>, j: int, k: int)
    requires
        0 <= j <= k < members.len(),
        crate::inventory::members_fault(state, members, j) is None,
    ensures
        crate::inventory::member_fault(state, members[k]) is None,
    decreases members.len() - j,
{
    if j < k {
        lemma_member_references(state, members, j + 1, k);
    }
}

proof fn lemma_expands(groups: Seq<GroupView>, i: int, p: int)
    requires
        0 <= i <= p < groups.len(),
        crate::inventory::expansion_fault(groups, i) is None,
    ensures
        crate::inventory::hosts_of_group(groups, groups[p].name) is Ok,
    decreases groups.len() - i,
{
    if i < p {
        lemma_expands(groups, i + 1, p);
    }
}

proof fn lemma_sorted_lines(state: Declared, all: Seq<Seq<char>>, i: int)
    requires
        crate::text_map::sorted(state.hosts),
        crate::text_map::sorted(state.groups),
    ensures
        crate::inventory::lines_declared(state, all, i) matches Ok(after)
            ==> crate::text_map::sorted(after.hosts) && crate::text_map::sorted(after.groups),
    decreases all.len() - i,
{
    if 0 <= i < all.len() {
        let tokens = crate::inventory::line_tokens(all[i]);
        if let Ok(next) = crate::inventory::line_declared(state, tokens, (i + 1) as nat) {
            if tokens.len() > 1 {
                crate::text_map::lemma_put(state.hosts, tokens[1], true);
                if let Ok((members, _)) = crate::inventory::members_read(
                    Seq::empty(),
                    state.members,
                    tokens,
                    2,
                    (i + 1) as nat,
                ) {
                    crate::text_map::lemma_put(state.groups, tokens[1], members);
                }
            }
            lemma_sorted_lines(next, all, i + 1);
        }
    }
}

/// Every group of an inventory that is accepted expands, to distinct hosts
/// within the limit that are all declared; the declared hosts are in strictly
/// ascending order.
pub proof fn accepted_inventory_expands(text: Seq<char>, source: Option<Seq<char>>)
    ensures
        crate::inventory::parsed_inventory(text, source) matches Ok(inventory) ==> {
            &&& crate::host_catalog::ascending(inventory.hosts)
            &&& forall|p: int|
                0 <= p < inventory.groups.len() ==> (crate::inventory::hosts_of_group(
                    inventory.groups,
                    (#[trigger] inventory.groups[p]).name,
                ) matches Ok(list) && is_host_list(list, inventory.hosts))
        },
{
    if let Ok(inventory) = crate::inventory::parsed_inventory(text, source) {
        let start = crate::inventory::nothing_declared();
        let lines = crate::text::lines(text);
        let state = crate::inventory::lines_declared(start, lines, 0)->Ok_0;
        lemma_sorted_lines(start, lines, 0);
        assert forall|i: int, j: int| 0 <= i < j < inventory.hosts.len() implies
            crate::text::text_less(#[trigger] inventory.hosts[i], #[trigger] inventory.hosts[j]) by {
            assert(inventory.hosts[i] == state.hosts[i].0);
            assert(inventory.hosts[j] == state.hosts[j].0);
        }
        assert forall|i: int, k: int|
            #![trigger inventory.groups[i].members[k]]
            0 <= i < inventory.groups.len() && 0 <= k < inventory.groups[i].members.len() implies (
        inventory.groups[i].members[k] matches MemberView::Host(host) ==> inventory.hosts.contains(
            host,
        )) by {
            assert(inventory.groups[i].members == state.groups[i].1);
            lemma_references(state, 0, i, k);
            if let MemberView::Host(host) = inventory.groups[i].members[k] {
                let h = choose|h: int| 0 <= h < state.hosts.len() && state.hosts[h].0 == host;
                assert(inventory.hosts[h] == host);
            }
        }
        assert forall|p: int| 0 <= p < inventory.groups.len() implies (
        crate::inventory::hosts_of_group(
            inventory.groups,
            (#[trigger] inventory.groups[p]).name,
        ) matches Ok(list) && is_host_list(list, inventory.hosts)) by {
            lemma_expands(inventory.groups, 0, p);
            lemma_group(
                inventory.groups,
                inventory.hosts,
                Seq::empty(),
                Seq::empty(),
                inventory.groups[p].name,
            );
        }
    }
}

/// The words declare a group of this name with these members, in this order.
pub open spec fn declares_group(
    tokens: Seq<Seq<char>>,
    name: Seq<char>,
    members: Seq<MemberView>,
    line: nat,
) -> bool {
    &&& tokens.len() == members.len() + 2
    &&& tokens[0] == "group"@
    &&& tokens[1] == name
    &&& forall|k: int|
        0 <= k < members.len() ==> crate::inventory::member_of(tokens[k + 2], line) == Ok::<
            MemberView,
            InventoryFault,
        >(#[trigger] members[k])
}

/// Some line declares the group.
pub open spec fn is_declared(lines: Seq<Seq<char>>, name: Seq<char>, members: Seq<MemberView>) -> bool {
    exists|n: int|
        0 <= n < lines.len() && declares_group(
            crate::inventory::line_tokens(#[trigger] lines[n]),
            name,
            members,
            (n + 1) as nat,
        )
}

/// The members are one or more, none of them occurs twice, and some line
/// declares the group with them in this order.
pub open spec fn is_proper_group(
    lines: Seq<Seq<char>>,
    name: Seq<char>,
    members: Seq<MemberView>,
) -> bool {
    members.len() > 0 && members.no_duplicates() && is_declared(lines, name, members)
}

proof fn lemma_members_read(
    done: Seq<MemberView>,
    total: nat,
    tokens: Seq<Seq<char>>,
    k: int,
    line: nat,
)
    requires
        2 <= k <= tokens.len(),
        done.len() == k - 2,
        done.no_duplicates(),
        forall|j: int|
            0 <= j < done.len() ==> crate::inventory::member_of(tokens[j + 2], line) == Ok::<
                MemberView,
                InventoryFault,
            >(#[trigger] done[j]),
    ensures
        crate::inventory::members_read(done, total, tokens, k, line) matches Ok((members, _)) ==> {
            &&& members.len() == tokens.len() - 2
            &&& members.no_duplicates()
            &&& forall|j: int|
                0 <= j < members.len() ==> crate::inventory::member_of(tokens[j + 2], line) == Ok::<
                    MemberView,
                    InventoryFault,
                >(#[trigger] members[j])
        },
    decreases tokens.len() - k,
{
    if k < tokens.len() {
        if let Ok(member) = crate::inventory::member_of(tokens[k], line) {
            if !done.contains(member) {
                let longer = done.push(member);
                assert forall|i: int, j: int|
                    0 <= i < longer.len() && 0 <= j < longer.len() && i != j implies longer[i]
                    != longer[j] by {
                    if i == done.len() {
                        assert(done.contains(done[j]));
                    } else if j == done.len() {
                        assert(done.contains(done[i]));
                    }
                }
                lemma_members_read(longer, total + 1, tokens, k + 1, line);
            }
        }
    }
}

proof fn lemma_proper_lines(state: Declared, all: Seq<Seq<char>>, i: int)
    requires
        0 <= i <= all.len(),
        forall|p: int|
            0 <= p < state.groups.len() ==> is_proper_group(
                all,
                (#[trigger] state.groups[p]).0,
                state.groups[p].1,
            ),
    ensures
        crate::inventory::lines_declared(state, all, i) matches Ok(after) ==> forall|p: int|
            0 <= p < after.groups.len() ==> is_proper_group(
                all,
                (#[trigger] after.groups[p]).0,
                after.groups[p].1,
            ),
    decreases all.len() - i,
{
    if i < all.len() {
        let tokens = crate::inventory::line_tokens(all[i]);
        let line = (i + 1) as nat;
        if let Ok(next) = crate::inventory::line_declared(state, tokens, line) {
            if next.groups != state.groups {
                lemma_members_read(Seq::empty(), state.members, tokens, 2, line);
                let members = crate::inventory::members_read(
                    Seq::empty(),
                    state.members,
                    tokens,
                    2,
                    line,
                )->Ok_0.0;
                assert(declares_group(tokens, tokens[1], members, line));
                assert(is_declared(all, tokens[1], members));
                assert forall|p: int| 0 <= p < next.groups.len() implies is_proper_group(
                    all,
                    (#[trigger] next.groups[p]).0,
                    next.groups[p].1,
                ) by {
                    lemma_put_entry(state.groups, tokens[1], members, p);
                    if next.groups[p] != (tokens[1], members) {
                        let q = choose|q: int|
                            0 <= q < state.groups.len() && #[trigger] state.groups[q]
                                == next.groups[p];
                        assert(is_proper_group(all, state.groups[q].0, state.groups[q].1));
                    }
                }
            }
            lemma_proper_lines(next, all, i + 1);
        }
    }
}

/// What is in a map after something was put there was in it before, or is what
/// was put.
proof fn lemma_put_entry<V>(entries: Seq<(Seq<char>, V)>, key: Seq<char>, value: V, p: int)
    requires
        0 <= p < crate::text_map::put(entries, key, value).len(),
    ensures
        crate::text_map::put(entries, key, value)[p] == (key, value) || exists|q: int|
            0 <= q < entries.len() && #[trigger] entries[q] == crate::text_map::put(
                entries,
                key,
                value,
            )[p],
{
    let at = crate::text_map::rank(entries, key);
    lemma_rank_bounds(entries, key);
    let after = crate::text_map::put(entries, key, value);
    if after[p] != (key, value) {
        if at < entries.len() && entries[at].0 == key {
            assert(entries[p] == after[p]);
        } else if p < at {
            assert(entries[p] == after[p]);
        } else {
            assert(entries[p - 1] == after[p]);
        }
    }
}

proof fn lemma_rank_bounds<V>(entries: Seq<(Seq<char>, V)>, key: Seq<char>)
    ensures
        0 <= crate::text_map::rank(entries, key) <= entries.len(),
    decreases entries.len(),
{
    if entries.len() > 0 {
        lemma_rank_bounds(entries.drop_first(), key);
    }
}

/// The groups of an inventory that is accepted have strictly ascending names.
/// Each has one or more members, all distinct and in the order of the line that
/// declares it; its hosts are declared, and the groups it nests are there.
pub proof fn accepted_groups_are_proper(text: Seq<char>, source: Option<Seq<char>>)
    ensures
        crate::inventory::parsed_inventory(text, source) matches Ok(inventory) ==> {
            &&& crate::host_catalog::ascending(
                inventory.groups.map_values(|g: GroupView| g.name),
            )
            &&& forall|p: int|
                0 <= p < inventory.groups.len() ==> is_proper_group(
                    crate::text::lines(text),
                    (#[trigger] inventory.groups[p]).name,
                    inventory.groups[p].members,
                )
            &&& forall|p: int, k: int|
                #![trigger inventory.groups[p].members[k]]
                0 <= p < inventory.groups.len() && 0 <= k < inventory.groups[p].members.len()
                    ==> match inventory.groups[p].members[k] {
                    MemberView::Host(host) => inventory.hosts.contains(host),
                    MemberView::Group(group) => crate::inventory::has_group(
                        inventory.groups,
                        group,
                    ),
                }
        },
{
    if let Ok(inventory) = crate::inventory::parsed_inventory(text, source) {
        let start = crate::inventory::nothing_declared();
        let lines = crate::text::lines(text);
        let state = crate::inventory::lines_declared(start, lines, 0)->Ok_0;
        lemma_sorted_lines(start, lines, 0);
        lemma_proper_lines(start, lines, 0);
        let names = inventory.groups.map_values(|g: GroupView| g.name);
        assert forall|i: int, j: int| 0 <= i < j < names.len() implies crate::text::text_less(
            #[trigger] names[i],
            #[trigger] names[j],
        ) by {
            assert(names[i] == state.groups[i].0);
            assert(names[j] == state.groups[j].0);
        }
        assert forall|p: int| 0 <= p < inventory.groups.len() implies is_proper_group(
            lines,
            (#[trigger] inventory.groups[p]).name,
            inventory.groups[p].members,
        ) by {
            assert(is_proper_group(lines, state.groups[p].0, state.groups[p].1));
        }
        assert forall|p: int, k: int|
            #![trigger inventory.groups[p].members[k]]
            0 <= p < inventory.groups.len() && 0 <= k
                < inventory.groups[p].members.len() implies match inventory.groups[p].members[k] {
            MemberView::Host(host) => inventory.hosts.contains(host),
            MemberView::Group(group) => crate::inventory::has_group(inventory.groups, group),
        } by {
            assert(inventory.groups[p].members == state.groups[p].1);
            lemma_references(state, 0, p, k);
            match inventory.groups[p].members[k] {
                MemberView::Host(host) => {
                    let h = choose|h: int| 0 <= h < state.hosts.len() && state.hosts[h].0 == host;
                    assert(inventory.hosts[h] == host);
                },
                MemberView::Group(group) => {
                    let h = choose|h: int|
                        0 <= h < state.groups.len() && state.groups[h].0 == group;
                    assert(inventory.groups[h].name == group);
                    crate::inventory::lemma_group_index(inventory.groups, group, 0);
                },
            }
        }
    }
}

} // verus!
