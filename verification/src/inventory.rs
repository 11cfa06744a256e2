//! Inventories: declared hosts and groups of them.

use vstd::prelude::*;
use vstd::string::*;

use crate::directories::entry_of;
use crate::directories::DirectoryVariables;
use crate::directories::DirectoryView;
use crate::directories::Platform;
use crate::target::ConnectionTarget;
use crate::target::TargetProblem;
use crate::text::ascii_alphanumeric;
use crate::text::byte_len;
use crate::text::chars_of;
use crate::text::decimal_text;
use crate::text::joined;
use crate::text::joined3;
use crate::text::joined_texts;
use crate::text::lines_of;
use crate::text::position_from;
use crate::text::same_text;
use crate::text::spaced_words_of;
use crate::text::text_between;
use crate::text::texts_contain;
use crate::text::trimmed;
use crate::text_map::TextMap;

verus! {

pub const MAX_INVENTORY_BYTES: usize = 1048576;

pub const MAX_HOSTS: usize = 4096;

pub const MAX_GROUPS: usize = 512;

pub const MAX_GROUP_MEMBERS: usize = 8192;

pub const MAX_EXPANDED_GROUP_HOSTS: usize = 1024;

pub const MAX_GROUP_NAME_BYTES: usize = 64;

#[derive(Debug, Clone, Copy, PartialEq, Eq, Structural)]
pub enum InventoryProblem {
    TooLarge,
    NotText,
    NoPath,
    HostArity,
    HostTarget(TargetProblem),
    DuplicateHost,
    TooManyHosts,
    GroupArity,
    GroupName,
    DuplicateGroup,
    TooManyGroups,
    Reference,
    MemberTarget(TargetProblem),
    DuplicateMember,
    TooManyMembers,
    Directive,
    UndeclaredHost,
    UnknownGroup,
    GroupNotFound,
    Cycle,
    ExpandsTooFar,
}

impl InventoryProblem {
    pub open spec fn text(self) -> Seq<char> {
        match self {
            InventoryProblem::TooLarge => "inventory exceeds the size limit"@,
            InventoryProblem::NotText => "inventory must be valid UTF-8"@,
            InventoryProblem::NoPath =>
                "cannot determine inventory path; set KADUOX_SSH_INVENTORY explicitly"@,
            InventoryProblem::HostArity => "host requires exactly one target"@,
            InventoryProblem::HostTarget(_) => "invalid host target"@,
            InventoryProblem::DuplicateHost => "duplicate host target"@,
            InventoryProblem::TooManyHosts => "inventory cannot contain more hosts"@,
            InventoryProblem::GroupArity => "group requires a name and at least one member"@,
            InventoryProblem::GroupName => "invalid group name"@,
            InventoryProblem::DuplicateGroup => "duplicate group"@,
            InventoryProblem::TooManyGroups => "inventory cannot contain more groups"@,
            InventoryProblem::Reference => "invalid nested group reference"@,
            InventoryProblem::MemberTarget(_) => "invalid host member"@,
            InventoryProblem::DuplicateMember => "duplicate member"@,
            InventoryProblem::TooManyMembers => "inventory cannot contain more group members"@,
            InventoryProblem::Directive => "unsupported directive, expected host or group"@,
            InventoryProblem::UndeclaredHost => "inventory group references undeclared host"@,
            InventoryProblem::UnknownGroup => "inventory group references unknown group"@,
            InventoryProblem::GroupNotFound => "inventory group not found"@,
            InventoryProblem::Cycle => "inventory group cycle detected"@,
            InventoryProblem::ExpandsTooFar => "inventory group expands beyond the host limit"@,
        }
    }

    fn words(self) -> (r: &'static str)
        ensures
            r@ == self.text(),
    {
        match self {
            InventoryProblem::TooLarge => "inventory exceeds the size limit",
            InventoryProblem::NotText => "inventory must be valid UTF-8",
            InventoryProblem::NoPath =>
                "cannot determine inventory path; set KADUOX_SSH_INVENTORY explicitly",
            InventoryProblem::HostArity => "host requires exactly one target",
            InventoryProblem::HostTarget(_) => "invalid host target",
            InventoryProblem::DuplicateHost => "duplicate host target",
            InventoryProblem::TooManyHosts => "inventory cannot contain more hosts",
            InventoryProblem::GroupArity => "group requires a name and at least one member",
            InventoryProblem::GroupName => "invalid group name",
            InventoryProblem::DuplicateGroup => "duplicate group",
            InventoryProblem::TooManyGroups => "inventory cannot contain more groups",
            InventoryProblem::Reference => "invalid nested group reference",
            InventoryProblem::MemberTarget(_) => "invalid host member",
            InventoryProblem::DuplicateMember => "duplicate member",
            InventoryProblem::TooManyMembers => "inventory cannot contain more group members",
            InventoryProblem::Directive => "unsupported directive, expected host or group",
            InventoryProblem::UndeclaredHost => "inventory group references undeclared host",
            InventoryProblem::UnknownGroup => "inventory group references unknown group",
            InventoryProblem::GroupNotFound => "inventory group not found",
            InventoryProblem::Cycle => "inventory group cycle detected",
            InventoryProblem::ExpandsTooFar => "inventory group expands beyond the host limit",
        }
    }
}

/// The first problem found, with its line where it has one (the first is 1)
/// and the text that it was found in.
#[derive(Debug, PartialEq, Eq)]
pub struct InventoryError {
    pub problem: InventoryProblem,
    pub line: Option<usize>,
    pub subject: String,
}

#[verifier::ext_equal]
pub struct InventoryFault {
    pub problem: InventoryProblem,
    pub line: Option<nat>,
    pub subject: Seq<char>,
}

impl View for InventoryError {
    type V = InventoryFault;

    open spec fn view(&self) -> InventoryFault {
        InventoryFault {
            problem: self.problem,
            line: match self.line {
                Some(n) => Some(n as nat),
                None => None,
            },
            subject: self.subject@,
        }
    }
}

impl InventoryFault {
    pub open spec fn text(self) -> Seq<char> {
        let plain = self.problem.text() + ": "@ + self.subject;
        match self.line {
            Some(n) => "inventory line "@ + crate::text::decimal(n) + ": "@ + plain,
            None => plain,
        }
    }
}

impl InventoryError {
    pub fn message(&self) -> (r: String)
        ensures
            r@ == self@.text(),
    {
        let plain = joined3(self.problem.words(), ": ", self.subject.as_str());
        match self.line {
            Some(n) => {
                let number = decimal_text(n as u64);
                let head = joined3("inventory line ", number.as_str(), ": ");
                joined(head.as_str(), plain.as_str())
            },
            None => plain,
        }
    }
}

pub open spec fn line_fault(problem: InventoryProblem, line: nat, subject: Seq<char>) -> InventoryFault {
    InventoryFault { problem, line: Some(line), subject }
}

pub open spec fn whole_fault(problem: InventoryProblem, subject: Seq<char>) -> InventoryFault {
    InventoryFault { problem, line: None, subject }
}

fn line_error(problem: InventoryProblem, line: usize, subject: &str) -> (r: InventoryError)
    ensures
        r@ == line_fault(problem, line as nat, subject@),
{
    InventoryError { problem, line: Some(line), subject: subject.to_owned() }
}

fn whole_error(problem: InventoryProblem, subject: &str) -> (r: InventoryError)
    ensures
        r@ == whole_fault(problem, subject@),
{
    InventoryError { problem, line: None, subject: subject.to_owned() }
}

#[derive(Debug, Clone, PartialEq, Eq)]
pub enum InventoryMember {
    Host(String),
    Group(String),
}

#[verifier::ext_equal]
pub enum MemberView {
    Host(Seq<char>),
    Group(Seq<char>),
}

impl View for InventoryMember {
    type V = MemberView;

    open spec fn view(&self) -> MemberView {
        match *self {
            InventoryMember::Host(host) => MemberView::Host(host@),
            InventoryMember::Group(group) => MemberView::Group(group@),
        }
    }
}

pub open spec fn member_views(members: Seq<InventoryMember>) -> Seq<MemberView> {
    members.map_values(|m: InventoryMember| m@)
}

#[derive(Debug, Clone, PartialEq, Eq)]
pub struct InventoryGroup {
    pub name: String,
    pub members: Vec<InventoryMember>,
}

#[verifier::ext_equal]
pub struct GroupView {
    pub name: Seq<char>,
    pub members: Seq<MemberView>,
}

impl View for InventoryGroup {
    type V = GroupView;

    open spec fn view(&self) -> GroupView {
        GroupView { name: self.name@, members: member_views(self.members@) }
    }
}

pub open spec fn group_views(groups: Seq<InventoryGroup>) -> Seq<GroupView> {
    groups.map_values(|g: InventoryGroup| g@)
}

#[derive(Debug, Clone, PartialEq, Eq)]
pub struct HostInventory {
    source: Option<String>,
    hosts: Vec<String>,
    groups: Vec<InventoryGroup>,
}

#[verifier::ext_equal]
pub struct InventoryView {
    pub source: Option<Seq<char>>,
    pub hosts: Seq<Seq<char>>,
    pub groups: Seq<GroupView>,
}

impl View for HostInventory {
    type V = InventoryView;

    closed spec fn view(&self) -> InventoryView {
        InventoryView {
            source: crate::model::option_view(self.source),
            hosts: crate::text::views(self.hosts@),
            groups: group_views(self.groups@),
        }
    }
}

/// Index of the first group of this name from index `i` on; the number of
/// groups where there is none.
pub open spec fn group_index(groups: Seq<GroupView>, name: Seq<char>, i: int) -> int
    decreases groups.len() - i,
{
    if i < 0 || i >= groups.len() {
        groups.len() as int
    } else if groups[i].name == name {
        i
    } else {
        group_index(groups, name, i + 1)
    }
}

pub open spec fn has_group(groups: Seq<GroupView>, name: Seq<char>) -> bool {
    group_index(groups, name, 0) < groups.len()
}

pub proof fn lemma_group_index(groups: Seq<GroupView>, name: Seq<char>, i: int)
    requires
        0 <= i <= groups.len(),
    ensures
        i <= group_index(groups, name, i) <= groups.len(),
        group_index(groups, name, i) < groups.len() ==> groups[group_index(groups, name, i)].name
            == name,
        forall|k: int| i <= k < group_index(groups, name, i) ==> groups[k].name != name,
    decreases groups.len() - i,
{
    if i < groups.len() && groups[i].name != name {
        lemma_group_index(groups, name, i + 1);
    }
}

/// How many groups from index `i` on are not being expanded.
pub open spec fn unvisited(groups: Seq<GroupView>, visiting: Seq<Seq<char>>, i: int) -> nat
    decreases groups.len() - i,
{
    if i < 0 || i >= groups.len() {
        0
    } else if visiting.contains(groups[i].name) {
        unvisited(groups, visiting, i + 1)
    } else {
        1 + unvisited(groups, visiting, i + 1)
    }
}

pub proof fn lemma_unvisited(groups: Seq<GroupView>, visiting: Seq<Seq<char>>, name: Seq<char>, i: int)
    requires
        0 <= i <= groups.len(),
    ensures
        unvisited(groups, visiting.push(name), i) <= unvisited(groups, visiting, i),
        !visiting.contains(name) && group_index(groups, name, i) < groups.len() ==> unvisited(
            groups,
            visiting.push(name),
            i,
        ) < unvisited(groups, visiting, i),
    decreases groups.len() - i,
{
    if i < groups.len() {
        lemma_unvisited(groups, visiting, name, i + 1);
        let longer = visiting.push(name);
        assert(longer.contains(groups[i].name) <==> (visiting.contains(groups[i].name)
            || groups[i].name == name)) by {
            if visiting.contains(groups[i].name) {
                let k = choose|k: int| 0 <= k < visiting.len() && visiting[k] == groups[i].name;
                assert(longer[k] == groups[i].name);
            }
            assert(longer[visiting.len() as int] == name);
        }
    }
}

/// The names from the one that is met again on, and that name.
pub open spec fn cycle_text(visiting: Seq<Seq<char>>, name: Seq<char>) -> Seq<char> {
    crate::text::join(visiting.skip(visiting.index_of_first(name)->0).push(name), " -> "@)
}

/// `out` with the hosts of a group behind it, each host once. `visiting` holds
/// the groups that are being expanded around it.
pub open spec fn group_expanded(
    groups: Seq<GroupView>,
    visiting: Seq<Seq<char>>,
    out: Seq<Seq<char>>,
    name: Seq<char>,
) -> Result<Seq<Seq<char>>, InventoryFault>
    decreases unvisited(groups, visiting, 0), 0nat, 0int,
{
    let p = group_index(groups, name, 0);
    if visiting.contains(name) {
        Err(whole_fault(InventoryProblem::Cycle, cycle_text(visiting, name)))
    } else if p >= groups.len() {
        Err(whole_fault(InventoryProblem::GroupNotFound, name))
    } else {
        proof {
            lemma_unvisited(groups, visiting, name, 0);
        }
        members_expanded(groups, visiting.push(name), out, groups[p].members, 0, name)
    }
}

/// `out` with the hosts of the members from index `k` on behind it.
pub open spec fn members_expanded(
    groups: Seq<GroupView>,
    visiting: Seq<Seq<char>>,
    out: Seq<Seq<char>>,
    members: Seq<MemberView>,
    k: int,
    name: Seq<char>,
) -> Result<Seq<Seq<char>>, InventoryFault>
    decreases unvisited(groups, visiting, 0), 1nat, members.len() - k,
{
    if k < 0 || k >= members.len() {
        Ok(out)
    } else {
        match members[k] {
            MemberView::Host(host) => if out.contains(host) {
                members_expanded(groups, visiting, out, members, k + 1, name)
            } else if out.len() >= MAX_EXPANDED_GROUP_HOSTS {
                Err(whole_fault(InventoryProblem::ExpandsTooFar, name))
            } else {
                members_expanded(groups, visiting, out.push(host), members, k + 1, name)
            },
            MemberView::Group(group) => match group_expanded(groups, visiting, out, group) {
                Err(e) => Err(e),
                Ok(longer) => members_expanded(groups, visiting, longer, members, k + 1, name),
            },
        }
    }
}

/// The hosts of a group, those of its nested groups in place.
pub open spec fn hosts_of_group(groups: Seq<GroupView>, name: Seq<char>) -> Result<
    Seq<Seq<char>>,
    InventoryFault,
> {
    group_expanded(groups, Seq::empty(), Seq::empty(), name)
}

fn find_group(groups: &Vec<InventoryGroup>, name: &str) -> (r: Option<usize>)
    ensures
        match r {
            Some(p) => p == group_index(group_views(groups@), name@, 0) && p < groups@.len(),
            None => !has_group(group_views(groups@), name@),
        },
{
    let ghost all = group_views(groups@);
    let mut i: usize = 0;
    while i < groups.len()
        invariant
            all == group_views(groups@),
            i <= groups@.len(),
            group_index(all, name@, 0) == group_index(all, name@, i as int),
        decreases groups@.len() - i,
    {
        assert(all[i as int] == groups@[i as int]@);
        if same_text(groups[i].name.as_str(), name) {
            return Some(i);
        }
        i += 1;
    }
    None
}

fn cycle_error(visiting: &Vec<String>, name: &str) -> (r: InventoryError)
    requires
        crate::text::views(visiting@).contains(name@),
    ensures
        r@ == whole_fault(InventoryProblem::Cycle, cycle_text(crate::text::views(visiting@), name@)),
{
    let ghost all = crate::text::views(visiting@);
    let mut p: usize = 0;
    let ghost at = choose|k: int| 0 <= k < all.len() && all[k] == name@;
    while p < visiting.len() && !same_text(visiting[p].as_str(), name)
        invariant
            all == crate::text::views(visiting@),
            0 <= at < all.len(),
            all[at] == name@,
            p <= at,
            forall|k: int| 0 <= k < p ==> all[k] != name@,
        decreases visiting@.len() - p,
    {
        assert(all[p as int] == visiting@[p as int]@);
        p += 1;
    }
    assert(all[p as int] == visiting@[p as int]@);
    proof {
        all.index_of_first_ensures(name@);
        let q = all.index_of_first(name@)->0;
        assert(q == p);
    }
    let mut cycle: Vec<String> = Vec::new();
    let mut i: usize = p;
    while i < visiting.len()
        invariant
            all == crate::text::views(visiting@),
            p <= i <= visiting@.len(),
            crate::text::views(cycle@) == all.subrange(p as int, i as int),
        decreases visiting@.len() - i,
    {
        assert(all[i as int] == visiting@[i as int]@);
        let entry = visiting[i].clone();
        proof {
            crate::text::lemma_views_push(cycle@, entry);
        }
        cycle.push(entry);
        assert(all.subrange(p as int, i + 1) =~= all.subrange(p as int, i as int).push(
            all[i as int],
        ));
        i += 1;
    }
    let last = name.to_owned();
    proof {
        crate::text::lemma_views_push(cycle@, last);
        assert(all.subrange(p as int, all.len() as int) =~= all.skip(p as int));
    }
    cycle.push(last);
    let text = joined_texts(&cycle, " -> ");
    whole_error(InventoryProblem::Cycle, text.as_str())
}

fn expand_group_inner(
    name: &str,
    groups: &Vec<InventoryGroup>,
    visiting: &mut Vec<String>,
    expanded: &mut Vec<String>,
) -> (r: Result<(), InventoryError>)
    ensures
        match r {
            Ok(()) => {
                &&& group_expanded(
                    group_views(groups@),
                    crate::text::views(old(visiting)@),
                    crate::text::views(old(expanded)@),
                    name@,
                ) == Ok::<Seq<Seq<char>>, InventoryFault>(crate::text::views(final(expanded)@))
                &&& final(visiting)@ == old(visiting)@
            },
            Err(e) => group_expanded(
                group_views(groups@),
                crate::text::views(old(visiting)@),
                crate::text::views(old(expanded)@),
                name@,
            ) == Err::<Seq<Seq<char>>, InventoryFault>(e@),
        },
    decreases unvisited(group_views(groups@), crate::text::views(old(visiting)@), 0),
{
    let ghost all = group_views(groups@);
    let ghost around = crate::text::views(visiting@);
    let ghost whole = group_expanded(all, around, crate::text::views(expanded@), name@);
    if texts_contain(visiting, name) {
        return Err(cycle_error(visiting, name));
    }
    let p = match find_group(groups, name) {
        Some(p) => p,
        None => {
            return Err(whole_error(InventoryProblem::GroupNotFound, name));
        },
    };
    let entered = name.to_owned();
    proof {
        crate::text::lemma_views_push(visiting@, entered);
        lemma_unvisited(all, around, name@, 0);
    }
    visiting.push(entered);
    let ghost inside = crate::text::views(visiting@);
    let ghost members = all[p as int].members;
    assert(members == member_views(groups@[p as int].members@));
    let mut k: usize = 0;
    while k < groups[p].members.len()
        invariant
            all == group_views(groups@),
            p < groups@.len(),
            members == member_views(groups@[p as int].members@),
            visiting@ == old(visiting)@.push(entered),
            inside == crate::text::views(visiting@),
            around == crate::text::views(old(visiting)@),
            unvisited(all, inside, 0) < unvisited(all, around, 0),
            k <= members.len(),
            whole == group_expanded(all, around, crate::text::views(old(expanded)@), name@),
            whole == members_expanded(
                all,
                inside,
                crate::text::views(expanded@),
                members,
                k as int,
                name@,
            ),
        decreases members.len() - k,
    {
        assert(members[k as int] == groups@[p as int].members@[k as int]@);
        match &groups[p].members[k] {
            InventoryMember::Host(host) => {
                if !texts_contain(expanded, host.as_str()) {
                    if expanded.len() >= MAX_EXPANDED_GROUP_HOSTS {
                        return Err(whole_error(InventoryProblem::ExpandsTooFar, name));
                    }
                    let added = host.clone();
                    proof {
                        crate::text::lemma_views_push(expanded@, added);
                    }
                    expanded.push(added);
                }
            },
            InventoryMember::Group(group) => {
                expand_group_inner(group.as_str(), groups, visiting, expanded)?;
            },
        }
        k += 1;
    }
    visiting.pop();
    assert(visiting@ =~= old(visiting)@);
    Ok(())
}

fn expand_in(groups: &Vec<InventoryGroup>, name: &str) -> (r: Result<Vec<String>, InventoryError>)
    ensures
        match r {
            Ok(list) => hosts_of_group(group_views(groups@), name@) == Ok::<
                Seq<Seq<char>>,
                InventoryFault,
            >(crate::text::views(list@)),
            Err(e) => hosts_of_group(group_views(groups@), name@) == Err::<
                Seq<Seq<char>>,
                InventoryFault,
            >(e@),
        },
{
    let mut visiting: Vec<String> = Vec::new();
    let mut expanded: Vec<String> = Vec::new();
    assert(crate::text::views(visiting@) =~= Seq::<Seq<char>>::empty());
    expand_group_inner(name, groups, &mut visiting, &mut expanded)?;
    Ok(expanded)
}

impl HostInventory {
    pub fn source(&self) -> (r: Option<&str>)
        ensures
            match r {
                Some(path) => self@.source == Some(path@),
                None => self@.source is None,
            },
    {
        match &self.source {
            Some(path) => Some(path.as_str()),
            None => None,
        }
    }

    pub fn hosts(&self) -> (r: &[String])
        ensures
            crate::text::views(r@) == self@.hosts,
    {
        self.hosts.as_slice()
    }

    pub fn groups(&self) -> (r: &[InventoryGroup])
        ensures
            group_views(r@) == self@.groups,
    {
        self.groups.as_slice()
    }

    pub fn group(&self, name: &str) -> (r: Option<&InventoryGroup>)
        ensures
            match r {
                Some(group) => has_group(self@.groups, name@) && group@
                    == self@.groups[group_index(self@.groups, name@, 0)],
                None => !has_group(self@.groups, name@),
            },
    {
        match find_group(&self.groups, name) {
            Some(p) => {
                assert(self@.groups[p as int] == self.groups@[p as int]@);
                Some(&self.groups[p])
            },
            None => None,
        }
    }

    /// The hosts of a group in the order of its members, each host once.
    pub fn expand_group(&self, name: &str) -> (r: Result<Vec<String>, InventoryError>)
        ensures
            match r {
                Ok(list) => hosts_of_group(self@.groups, name@) == Ok::<
                    Seq<Seq<char>>,
                    InventoryFault,
                >(crate::text::views(list@)),
                Err(e) => hosts_of_group(self@.groups, name@) == Err::<
                    Seq<Seq<char>>,
                    InventoryFault,
                >(e@),
            },
    {
        expand_in(&self.groups, name)
    }
}

pub open spec fn is_group_char(c: char) -> bool {
    crate::text::is_ascii_alphanumeric(c) || c == '.' || c == '_' || c == '-'
}

pub open spec fn is_group_name(name: Seq<char>) -> bool {
    &&& 1 <= crate::text::utf8_len(name) <= MAX_GROUP_NAME_BYTES
    &&& forall|i: int| 0 <= i < name.len() ==> is_group_char(#[trigger] name[i])
}

fn valid_group_name(name: &str) -> (r: bool)
    ensures
        r == is_group_name(name@),
{
    let size = byte_len(name);
    if size == 0 || size > MAX_GROUP_NAME_BYTES {
        return false;
    }
    let chars = chars_of(name);
    let mut i: usize = 0;
    while i < chars.len()
        invariant
            chars@ == name@,
            i <= chars@.len(),
            forall|k: int| 0 <= k < i ==> is_group_char(#[trigger] chars@[k]),
        decreases chars@.len() - i,
    {
        let c = chars[i];
        if !(ascii_alphanumeric(c) || c == '.' || c == '_' || c == '-') {
            assert(!is_group_char(name@[i as int]));
            return false;
        }
        i += 1;
    }
    true
}

/// What has been declared so far, and how many members all groups have.
#[verifier::ext_equal]
pub struct Declared {
    pub hosts: Seq<(Seq<char>, bool)>,
    pub groups: Seq<(Seq<char>, Seq<MemberView>)>,
    pub members: nat,
}

/// What a word stands for as a member of a group.
pub open spec fn member_of(token: Seq<char>, line: nat) -> Result<MemberView, InventoryFault> {
    if token.len() > 0 && token[0] == '@' {
        if is_group_name(token.skip(1)) {
            Ok(MemberView::Group(token.skip(1)))
        } else {
            Err(line_fault(InventoryProblem::Reference, line, token))
        }
    } else {
        match crate::target::parsed_target(token) {
            Ok(_) => Ok(MemberView::Host(token)),
            Err(e) => Err(line_fault(InventoryProblem::MemberTarget(e), line, token)),
        }
    }
}

/// The members of a group with those of the words from index `k` on, and how
/// many members all groups have then.
pub open spec fn members_read(
    done: Seq<MemberView>,
    total: nat,
    tokens: Seq<Seq<char>>,
    k: int,
    line: nat,
) -> Result<(Seq<MemberView>, nat), InventoryFault>
    decreases tokens.len() - k,
{
    if k < 0 || k >= tokens.len() {
        Ok((done, total))
    } else {
        match member_of(tokens[k], line) {
            Err(e) => Err(e),
            Ok(member) => if done.contains(member) {
                Err(line_fault(InventoryProblem::DuplicateMember, line, tokens[k]))
            } else if total >= MAX_GROUP_MEMBERS {
                Err(line_fault(InventoryProblem::TooManyMembers, line, tokens[k]))
            } else {
                members_read(done.push(member), total + 1, tokens, k + 1, line)
            },
        }
    }
}

/// The words of a line before a comment.
pub open spec fn line_tokens(line: Seq<char>) -> Seq<Seq<char>> {
    crate::text::spaced_words(crate::openssh_match::before_hash(line))
}

/// What has been declared after one more line.
pub open spec fn line_declared(state: Declared, tokens: Seq<Seq<char>>, line: nat) -> Result<
    Declared,
    InventoryFault,
> {
    if tokens.len() == 0 {
        Ok(state)
    } else if tokens[0] == "host"@ {
        if tokens.len() != 2 {
            Err(line_fault(InventoryProblem::HostArity, line, tokens[0]))
        } else {
            match crate::target::parsed_target(tokens[1]) {
                Err(e) => Err(line_fault(InventoryProblem::HostTarget(e), line, tokens[1])),
                Ok(_) => if crate::text_map::has_key(state.hosts, tokens[1]) {
                    Err(line_fault(InventoryProblem::DuplicateHost, line, tokens[1]))
                } else if state.hosts.len() >= MAX_HOSTS {
                    Err(line_fault(InventoryProblem::TooManyHosts, line, tokens[1]))
                } else {
                    Ok(
                        Declared {
                            hosts: crate::text_map::put(state.hosts, tokens[1], true),
                            ..state
                        },
                    )
                },
            }
        }
    } else if tokens[0] == "group"@ {
        if tokens.len() < 3 {
            Err(line_fault(InventoryProblem::GroupArity, line, tokens[0]))
        } else if !is_group_name(tokens[1]) {
            Err(line_fault(InventoryProblem::GroupName, line, tokens[1]))
        } else if crate::text_map::has_key(state.groups, tokens[1]) {
            Err(line_fault(InventoryProblem::DuplicateGroup, line, tokens[1]))
        } else if state.groups.len() >= MAX_GROUPS {
            Err(line_fault(InventoryProblem::TooManyGroups, line, tokens[1]))
        } else {
            match members_read(Seq::empty(), state.members, tokens, 2, line) {
                Err(e) => Err(e),
                Ok((members, total)) => Ok(
                    Declared {
                        groups: crate::text_map::put(state.groups, tokens[1], members),
                        members: total,
                        ..state
                    },
                ),
            }
        }
    } else {
        Err(line_fault(InventoryProblem::Directive, line, tokens[0]))
    }
}

/// What the lines from index `i` on declare.
pub open spec fn lines_declared(state: Declared, all: Seq<Seq<char>>, i: int) -> Result<
    Declared,
    InventoryFault,
>
    decreases all.len() - i,
{
    if i < 0 || i >= all.len() {
        Ok(state)
    } else {
        match line_declared(state, line_tokens(all[i]), (i + 1) as nat) {
            Err(e) => Err(e),
            Ok(next) => lines_declared(next, all, i + 1),
        }
    }
}

/// What the member refers to is not declared.
pub open spec fn member_fault(state: Declared, member: MemberView) -> Option<InventoryFault> {
    match member {
        MemberView::Host(host) => if crate::text_map::has_key(state.hosts, host) {
            None
        } else {
            Some(whole_fault(InventoryProblem::UndeclaredHost, host))
        },
        MemberView::Group(group) => if crate::text_map::has_key(state.groups, group) {
            None
        } else {
            Some(whole_fault(InventoryProblem::UnknownGroup, group))
        },
    }
}

pub open spec fn members_fault(state: Declared, members: Seq<MemberView>, k: int) -> Option<
    InventoryFault,
>
    decreases members.len() - k,
{
    if k < 0 || k >= members.len() {
        None
    } else if member_fault(state, members[k]) is Some {
        member_fault(state, members[k])
    } else {
        members_fault(state, members, k + 1)
    }
}

/// The first reference from group `i` on to what is not declared.
pub open spec fn references_fault(state: Declared, i: int) -> Option<InventoryFault>
    decreases state.groups.len() - i,
{
    if i < 0 || i >= state.groups.len() {
        None
    } else if members_fault(state, state.groups[i].1, 0) is Some {
        members_fault(state, state.groups[i].1, 0)
    } else {
        references_fault(state, i + 1)
    }
}

/// The first problem with expanding the groups from index `i` on.
pub open spec fn expansion_fault(groups: Seq<GroupView>, i: int) -> Option<InventoryFault>
    decreases groups.len() - i,
{
    if i < 0 || i >= groups.len() {
        None
    } else {
        match hosts_of_group(groups, groups[i].name) {
            Err(e) => Some(e),
            Ok(_) => expansion_fault(groups, i + 1),
        }
    }
}

pub open spec fn declared_hosts(state: Declared) -> Seq<Seq<char>> {
    state.hosts.map_values(|e: (Seq<char>, bool)| e.0)
}

pub open spec fn declared_groups(state: Declared) -> Seq<GroupView> {
    state.groups.map_values(
        |e: (Seq<char>, Seq<MemberView>)| GroupView { name: e.0, members: e.1 },
    )
}

pub open spec fn nothing_declared() -> Declared {
    Declared { hosts: Seq::empty(), groups: Seq::empty(), members: 0 }
}

/// What an inventory text says.
pub open spec fn parsed_inventory(text: Seq<char>, source: Option<Seq<char>>) -> Result<
    InventoryView,
    InventoryFault,
> {
    match lines_declared(nothing_declared(), crate::text::lines(text), 0) {
        Err(e) => Err(e),
        Ok(state) => if references_fault(state, 0) is Some {
            Err(references_fault(state, 0)->0)
        } else if expansion_fault(declared_groups(state), 0) is Some {
            Err(expansion_fault(declared_groups(state), 0)->0)
        } else {
            Ok(
                InventoryView {
                    source,
                    hosts: declared_hosts(state),
                    groups: declared_groups(state),
                },
            )
        },
    }
}

pub open spec fn members_view() -> spec_fn(Vec<InventoryMember>) -> Seq<MemberView> {
    |members: Vec<InventoryMember>| member_views(members@)
}

struct Reading {
    hosts: TextMap<bool>,
    groups: TextMap<Vec<InventoryMember>>,
    members: usize,
}

impl View for Reading {
    type V = Declared;

    closed spec fn view(&self) -> Declared {
        Declared {
            hosts: self.hosts.entries(),
            groups: crate::text_map::map_entries(self.groups.entries(), members_view()),
            members: self.members as nat,
        }
    }
}

fn read_member(token: &str, line: usize) -> (r: Result<InventoryMember, InventoryError>)
    ensures
        match r {
            Ok(member) => member_of(token@, line as nat) == Ok::<MemberView, InventoryFault>(
                member@,
            ),
            Err(e) => member_of(token@, line as nat) == Err::<MemberView, InventoryFault>(e@),
        },
{
    let chars = chars_of(token);
    if chars.len() > 0 && chars[0] == '@' {
        let group = text_between(chars.as_slice(), 1, chars.len());
        assert(group@ =~= token@.skip(1));
        if !valid_group_name(group.as_str()) {
            return Err(line_error(InventoryProblem::Reference, line, token));
        }
        return Ok(InventoryMember::Group(group));
    }
    match ConnectionTarget::parse(token) {
        Ok(_) => Ok(InventoryMember::Host(token.to_owned())),
        Err(e) => Err(line_error(InventoryProblem::MemberTarget(e), line, token)),
    }
}

fn has_member(members: &Vec<InventoryMember>, wanted: &InventoryMember) -> (r: bool)
    ensures
        r == member_views(members@).contains(wanted@),
{
    let ghost all = member_views(members@);
    let mut i: usize = 0;
    while i < members.len()
        invariant
            all == member_views(members@),
            i <= members@.len(),
            forall|k: int| 0 <= k < i ==> all[k] != wanted@,
        decreases members@.len() - i,
    {
        assert(all[i as int] == members@[i as int]@);
        let same = match (&members[i], wanted) {
            (InventoryMember::Host(a), InventoryMember::Host(b)) => same_text(
                a.as_str(),
                b.as_str(),
            ),
            (InventoryMember::Group(a), InventoryMember::Group(b)) => same_text(
                a.as_str(),
                b.as_str(),
            ),
            _ => false,
        };
        if same {
            assert(all[i as int] == wanted@);
            return true;
        }
        i += 1;
    }
    false
}

fn read_members(total: usize, tokens: &Vec<String>, line: usize) -> (r: Result<
    (Vec<InventoryMember>, usize),
    InventoryError,
>)
    requires
        total <= MAX_GROUP_MEMBERS,
        tokens@.len() >= 2,
    ensures
        match r {
            Ok((members, count)) => members_read(
                Seq::empty(),
                total as nat,
                crate::text::views(tokens@),
                2,
                line as nat,
            ) == Ok::<(Seq<MemberView>, nat), InventoryFault>(
                (member_views(members@), count as nat),
            ) && count <= MAX_GROUP_MEMBERS,
            Err(e) => members_read(
                Seq::empty(),
                total as nat,
                crate::text::views(tokens@),
                2,
                line as nat,
            ) == Err::<(Seq<MemberView>, nat), InventoryFault>(e@),
        },
{
    let ghost all = crate::text::views(tokens@);
    let mut members: Vec<InventoryMember> = Vec::new();
    let mut count = total;
    let mut k: usize = 2;
    assert(member_views(members@) =~= Seq::<MemberView>::empty());
    while k < tokens.len()
        invariant
            all == crate::text::views(tokens@),
            2 <= k <= tokens@.len(),
            count <= MAX_GROUP_MEMBERS,
            members_read(Seq::empty(), total as nat, all, 2, line as nat) == members_read(
                member_views(members@),
                count as nat,
                all,
                k as int,
                line as nat,
            ),
        decreases tokens@.len() - k,
    {
        assert(all[k as int] == tokens@[k as int]@);
        let token = tokens[k].as_str();
        let member = read_member(token, line)?;
        if has_member(&members, &member) {
            return Err(line_error(InventoryProblem::DuplicateMember, line, token));
        }
        if count >= MAX_GROUP_MEMBERS {
            return Err(line_error(InventoryProblem::TooManyMembers, line, token));
        }
        let ghost before = member_views(members@);
        members.push(member);
        assert(member_views(members@) =~= before.push(member@));
        count += 1;
        k += 1;
    }
    Ok((members, count))
}

impl Reading {
    fn read_line(&mut self, raw: &str, line: usize) -> (r: Result<(), InventoryError>)
        requires
            old(self).members <= MAX_GROUP_MEMBERS,
        ensures
            final(self).members <= MAX_GROUP_MEMBERS,
            match r {
                Ok(()) => line_declared(old(self)@, line_tokens(raw@), line as nat) == Ok::<
                    Declared,
                    InventoryFault,
                >(final(self)@),
                Err(e) => line_declared(old(self)@, line_tokens(raw@), line as nat) == Err::<
                    Declared,
                    InventoryFault,
                >(e@),
            },
    {
        let chars = chars_of(raw);
        assert(raw@.skip(0) =~= raw@);
        let end = position_from(chars.as_slice(), '#', 0);
        let kept = text_between(chars.as_slice(), 0, end);
        assert(kept@ =~= crate::openssh_match::before_hash(raw@));
        let tokens = spaced_words_of(kept.as_str());
        let ghost all = crate::text::views(tokens@);
        assert(all == line_tokens(raw@));
        if tokens.len() == 0 {
            return Ok(());
        }
        assert(all[0] == tokens@[0]@);
        let directive = tokens[0].as_str();
        if same_text(directive, "host") {
            if tokens.len() != 2 {
                return Err(line_error(InventoryProblem::HostArity, line, directive));
            }
            assert(all[1] == tokens@[1]@);
            let target = tokens[1].as_str();
            match ConnectionTarget::parse(target) {
                Ok(_) => {},
                Err(e) => {
                    return Err(line_error(InventoryProblem::HostTarget(e), line, target));
                },
            }
            if self.hosts.contains_key(target) {
                return Err(line_error(InventoryProblem::DuplicateHost, line, target));
            }
            if self.hosts.len() >= MAX_HOSTS {
                return Err(line_error(InventoryProblem::TooManyHosts, line, target));
            }
            self.hosts.insert(target.to_owned(), true);
            return Ok(());
        }
        if same_text(directive, "group") {
            if tokens.len() < 3 {
                return Err(line_error(InventoryProblem::GroupArity, line, directive));
            }
            assert(all[1] == tokens@[1]@);
            let name = tokens[1].as_str();
            if !valid_group_name(name) {
                return Err(line_error(InventoryProblem::GroupName, line, name));
            }
            let count = self.groups.len();
            proof {
                crate::text_map::lemma_map_entries(self.groups.entries(), members_view(), name@);
            }
            if self.groups.contains_key(name) {
                return Err(line_error(InventoryProblem::DuplicateGroup, line, name));
            }
            if count >= MAX_GROUPS {
                return Err(line_error(InventoryProblem::TooManyGroups, line, name));
            }
            let (members, total) = read_members(self.members, &tokens, line)?;
            self.groups.insert(name.to_owned(), members);
            self.members = total;
            return Ok(());
        }
        Err(line_error(InventoryProblem::Directive, line, directive))
    }

    fn check_references(&self) -> (r: Result<(), InventoryError>)
        ensures
            match r {
                Ok(()) => references_fault(self@, 0) is None,
                Err(e) => references_fault(self@, 0) == Some(e@),
            },
    {
        let count = self.groups.len();
        let mut i: usize = 0;
        while i < count
            invariant
                count == self.groups.entries().len(),
                crate::text_map::sorted(self.groups.entries()),
                i <= count,
                references_fault(self@, 0) == references_fault(self@, i as int),
            decreases count - i,
        {
            let members = self.groups.value_at(i);
            let ghost views = self@.groups[i as int].1;
            assert(views == member_views(members@));
            let mut k: usize = 0;
            while k < members.len()
                invariant
                    count == self.groups.entries().len(),
                    crate::text_map::sorted(self.groups.entries()),
                    i < count,
                    views == self@.groups[i as int].1,
                    views == member_views(members@),
                    k <= members@.len(),
                    references_fault(self@, 0) == references_fault(self@, i as int),
                    members_fault(self@, views, 0) == members_fault(self@, views, k as int),
                decreases members@.len() - k,
            {
                assert(views[k as int] == members@[k as int]@);
                match &members[k] {
                    InventoryMember::Host(host) => {
                        if !self.hosts.contains_key(host.as_str()) {
                            return Err(
                                whole_error(InventoryProblem::UndeclaredHost, host.as_str()),
                            );
                        }
                    },
                    InventoryMember::Group(group) => {
                        proof {
                            crate::text_map::lemma_map_entries(
                                self.groups.entries(),
                                members_view(),
                                group@,
                            );
                        }
                        if !self.groups.contains_key(group.as_str()) {
                            return Err(
                                whole_error(InventoryProblem::UnknownGroup, group.as_str()),
                            );
                        }
                    },
                }
                k += 1;
            }
            i += 1;
        }
        Ok(())
    }
}

fn copy_members(members: &Vec<InventoryMember>) -> (r: Vec<InventoryMember>)
    ensures
        member_views(r@) == member_views(members@),
{
    let mut out: Vec<InventoryMember> = Vec::new();
    let mut i: usize = 0;
    while i < members.len()
        invariant
            i <= members@.len(),
            out@.len() == i,
            forall|k: int| 0 <= k < i ==> (#[trigger] out@[k])@ == members@[k]@,
        decreases members@.len() - i,
    {
        let member = match &members[i] {
            InventoryMember::Host(host) => InventoryMember::Host(host.clone()),
            InventoryMember::Group(group) => InventoryMember::Group(group.clone()),
        };
        out.push(member);
        i += 1;
    }
    assert(member_views(out@) =~= member_views(members@));
    out
}

/// Reads an inventory. References to what is not declared, cycles of groups
/// and groups that are too large are refused here, before anything is done
/// with it.
pub fn parse_inventory(text: &str, source: Option<&str>) -> (r: Result<HostInventory, InventoryError>)
    ensures
        match r {
            Ok(inventory) => parsed_inventory(text@, crate::config::option_str(source)) == Ok::<
                InventoryView,
                InventoryFault,
            >(inventory@),
            Err(e) => parsed_inventory(text@, crate::config::option_str(source)) == Err::<
                InventoryView,
                InventoryFault,
            >(e@),
        },
{
    let all = lines_of(text);
    let ghost lines = crate::text::lines(text@);
    let mut reading = Reading { hosts: TextMap::new(), groups: TextMap::new(), members: 0 };
    assert(reading@ =~= nothing_declared());
    let mut i: usize = 0;
    while i < all.len()
        invariant
            lines == crate::text::views(all@),
            lines == crate::text::lines(text@),
            i <= all@.len(),
            reading.members <= MAX_GROUP_MEMBERS,
            lines_declared(nothing_declared(), lines, 0) == lines_declared(
                reading@,
                lines,
                i as int,
            ),
        decreases all@.len() - i,
    {
        assert(lines[i as int] == all@[i as int]@);
        reading.read_line(all[i].as_str(), i + 1)?;
        i += 1;
    }
    reading.check_references()?;
    let host_count = reading.hosts.len();
    let mut hosts: Vec<String> = Vec::new();
    let mut h: usize = 0;
    while h < host_count
        invariant
            host_count == reading.hosts.entries().len(),
            h <= host_count,
            hosts@.len() == h,
            forall|k: int| 0 <= k < h ==> (#[trigger] hosts@[k])@ == reading.hosts.entries()[k].0,
        decreases host_count - h,
    {
        hosts.push(reading.hosts.key_at(h).clone());
        h += 1;
    }
    assert(crate::text::views(hosts@) =~= declared_hosts(reading@));
    let group_count = reading.groups.len();
    let mut groups: Vec<InventoryGroup> = Vec::new();
    let mut g: usize = 0;
    while g < group_count
        invariant
            group_count == reading.groups.entries().len(),
            g <= group_count,
            groups@.len() == g,
            forall|k: int|
                0 <= k < g ==> (#[trigger] groups@[k])@ == (GroupView {
                    name: reading.groups.entries()[k].0,
                    members: member_views(reading.groups.entries()[k].1@),
                }),
        decreases group_count - g,
    {
        let name = reading.groups.key_at(g).clone();
        groups.push(InventoryGroup { name, members: copy_members(reading.groups.value_at(g)) });
        g += 1;
    }
    let ghost views = group_views(groups@);
    assert(views =~= declared_groups(reading@));
    let mut e: usize = 0;
    while e < groups.len()
        invariant
            views == group_views(groups@),
            views == declared_groups(reading@),
            lines == crate::text::lines(text@),
            lines_declared(nothing_declared(), lines, 0) == Ok::<Declared, InventoryFault>(
                reading@,
            ),
            references_fault(reading@, 0) is None,
            e <= groups@.len(),
            expansion_fault(views, 0) == expansion_fault(views, e as int),
        decreases groups@.len() - e,
    {
        assert(views[e as int] == groups@[e as int]@);
        expand_in(&groups, groups[e].name.as_str())?;
        e += 1;
    }
    let place = match source {
        Some(path) => Some(path.to_owned()),
        None => None,
    };
    Ok(HostInventory { source: place, hosts, groups })
}

/// What the bytes of an inventory file say.
pub open spec fn loaded_inventory(path: Seq<char>, bytes: Seq<u8>) -> Result<
    InventoryView,
    InventoryFault,
> {
    if bytes.len() > MAX_INVENTORY_BYTES {
        Err(whole_fault(InventoryProblem::TooLarge, path))
    } else if !vstd::utf8::valid_utf8(bytes) {
        Err(whole_fault(InventoryProblem::NotText, path))
    } else {
        parsed_inventory(vstd::utf8::decode_utf8(bytes), Some(path))
    }
}

/// Reads the bytes of an inventory file.
pub fn load_inventory(path: &str, bytes: &[u8]) -> (r: Result<HostInventory, InventoryError>)
    ensures
        match r {
            Ok(inventory) => loaded_inventory(path@, bytes@) == Ok::<InventoryView, InventoryFault>(
                inventory@,
            ),
            Err(e) => loaded_inventory(path@, bytes@) == Err::<InventoryView, InventoryFault>(e@),
        },
{
    if bytes.len() > MAX_INVENTORY_BYTES {
        return Err(whole_error(InventoryProblem::TooLarge, path));
    }
    match crate::text::text_from_utf8(bytes) {
        Some(text) => parse_inventory(text.as_str(), Some(path)),
        None => Err(whole_error(InventoryProblem::NotText, path)),
    }
}

/// Reads the inventory at its default path. Where no file is there the
/// inventory is empty.
pub fn discover_inventory(path: &str, bytes: Option<&[u8]>) -> (r: Result<
    HostInventory,
    InventoryError,
>)
    ensures
        match (r, bytes) {
            (Ok(inventory), Some(b)) => loaded_inventory(path@, b@) == Ok::<
                InventoryView,
                InventoryFault,
            >(inventory@),
            (Err(e), Some(b)) => loaded_inventory(path@, b@) == Err::<
                InventoryView,
                InventoryFault,
            >(e@),
            (Ok(inventory), None) => inventory@ == (InventoryView {
                source: Some(path@),
                hosts: Seq::empty(),
                groups: Seq::empty(),
            }),
            (Err(_), None) => false,
        },
{
    match bytes {
        Some(b) => load_inventory(path, b),
        None => {
            let r = HostInventory {
                source: Some(path.to_owned()),
                hosts: Vec::new(),
                groups: Vec::new(),
            };
            assert(r@.hosts =~= Seq::<Seq<char>>::empty());
            assert(r@.groups =~= Seq::<GroupView>::empty());
            Ok(r)
        },
    }
}

/// The setting holds more than white space.
pub open spec fn is_given(value: Option<Seq<char>>) -> bool {
    value is Some && crate::text::trim(value->0).len() > 0
}

/// Where the inventory is looked for: at the path that is set, else in the
/// directory for the configuration of programs.
pub open spec fn inventory_path(
    explicit: Option<Seq<char>>,
    platform: Platform,
    variables: DirectoryView,
) -> Option<Seq<char>> {
    if is_given(explicit) {
        explicit
    } else if platform is Windows && is_given(variables.app_data) {
        Some(
            crate::directories::entry_path(
                crate::directories::entry_path(variables.app_data->0, "Kaduox-SSH"@, platform),
                "inventory"@,
                platform,
            ),
        )
    } else if !(platform is Windows) && is_given(variables.xdg_config_home) {
        Some(
            crate::directories::entry_path(
                crate::directories::entry_path(variables.xdg_config_home->0, "kaduox-ssh"@, platform),
                "inventory"@,
                platform,
            ),
        )
    } else if is_given(variables.home) {
        Some(
            crate::directories::entry_path(
                crate::directories::entry_path(
                    crate::directories::entry_path(variables.home->0, ".config"@, platform),
                    "kaduox-ssh"@,
                    platform,
                ),
                "inventory"@,
                platform,
            ),
        )
    } else {
        None
    }
}

fn given(value: Option<&str>) -> (r: Option<&str>)
    ensures
        match r {
            Some(v) => is_given(crate::config::option_str(value)) && value == Some(v),
            None => !is_given(crate::config::option_str(value)),
        },
{
    match value {
        Some(v) => {
            let bare = trimmed(v);
            if bare.as_str().is_empty() {
                None
            } else {
                Some(v)
            }
        },
        None => None,
    }
}

fn given_variable(value: &Option<String>) -> (r: Option<&str>)
    ensures
        match r {
            Some(v) => is_given(crate::model::option_view(*value)) && crate::model::option_view(
                *value,
            ) == Some(v@),
            None => !is_given(crate::model::option_view(*value)),
        },
{
    match value {
        Some(v) => given(Some(v.as_str())),
        None => None,
    }
}

pub fn default_inventory_path(
    explicit: Option<&str>,
    platform: Platform,
    variables: &DirectoryVariables,
) -> (r: Result<String, InventoryError>)
    ensures
        match r {
            Ok(path) => inventory_path(crate::config::option_str(explicit), platform, variables@)
                == Some(path@),
            Err(e) => inventory_path(crate::config::option_str(explicit), platform, variables@)
                is None && e@.problem == InventoryProblem::NoPath,
        },
{
    if let Some(path) = given(explicit) {
        return Ok(path.to_owned());
    }
    match platform {
        Platform::Windows => {
            if let Some(base) = given_variable(&variables.app_data) {
                let own = entry_of(base, "Kaduox-SSH", platform);
                return Ok(entry_of(own.as_str(), "inventory", platform));
            }
        },
        _ => {
            if let Some(base) = given_variable(&variables.xdg_config_home) {
                let own = entry_of(base, "kaduox-ssh", platform);
                return Ok(entry_of(own.as_str(), "inventory", platform));
            }
        },
    }
    if let Some(base) = given_variable(&variables.home) {
        let config = entry_of(base, ".config", platform);
        let own = entry_of(config.as_str(), "kaduox-ssh", platform);
        return Ok(entry_of(own.as_str(), "inventory", platform));
    }
    Err(whole_error(InventoryProblem::NoPath, ""))
}

} // verus!
