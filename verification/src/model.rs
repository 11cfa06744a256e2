//! The host library: host records, jump chains, and what makes them valid.

use vstd::prelude::*;
use vstd::string::*;

use crate::text::byte_len;
use crate::text::chars_of;
use crate::text::contains_char;
use crate::text::control;
use crate::text::joined;
use crate::text::same_text;
use crate::text_map::TextMap;

verus! {

pub const DATABASE_VERSION: u32 = 1;

pub const MAX_HOSTS: usize = 4096;

pub const MAX_CHAINS: usize = 512;

pub const MAX_CHAIN_HOPS: usize = 8;

pub const MAX_LABELS_PER_HOST: usize = 64;

pub const MAX_TEXT_BYTES: usize = 4096;

/// What is wrong with a stored value.
#[derive(Debug, Clone, Copy, PartialEq, Eq, Structural)]
pub enum HostProblem {
    NameLength,
    NameCharacters,
    EndpointLength,
    EndpointControl,
    ZeroPort,
    BadPath,
    TooManyLabels,
    DuplicateLabel,
    TextLength,
    TextNul,
    EmptyChain,
    TooManyHops,
    RepeatedHop,
    UnsupportedVersion,
    TooManyHosts,
    TooManyChains,
    HostKeyMismatch,
    MissingChain,
    ChainKeyMismatch,
    MissingHost,
    RoutingLoop,
    UnknownHostKeyPolicy,
    UnknownAuthMethod,
    HostExists,
    ChainExists,
    HostUnknown,
    ChainUnknown,
    HostReferenced,
    ChainBound,
    CounterOverflow,
    StoreTooLarge,
}

/// The first problem found, with the field or name it was found in.
#[derive(Debug, PartialEq, Eq)]
pub struct HostError {
    pub problem: HostProblem,
    pub subject: String,
}

/// A `HostError` as a value.
#[verifier::ext_equal]
pub struct HostFault {
    pub problem: HostProblem,
    pub subject: Seq<char>,
}

impl View for HostError {
    type V = HostFault;

    open spec fn view(&self) -> HostFault {
        HostFault { problem: self.problem, subject: self.subject@ }
    }
}

pub open spec fn fault(problem: HostProblem, subject: Seq<char>) -> Option<HostFault> {
    Some(HostFault { problem, subject })
}

/// The result of a check that has found `fault`.
pub open spec fn reports(r: Result<(), HostError>, fault: Option<HostFault>) -> bool {
    match r {
        Ok(()) => fault is None,
        Err(e) => fault == Some(e@),
    }
}

pub fn host_error(problem: HostProblem, subject: &str) -> (r: HostError)
    ensures
        r@ == (HostFault { problem, subject: subject@ }),
{
    HostError { problem, subject: subject.to_owned() }
}

/// What a problem reads like after its subject.
pub open spec fn problem_text(problem: HostProblem) -> Seq<char> {
    match problem {
        HostProblem::NameLength => " must contain 1..=128 bytes"@,
        HostProblem::NameCharacters => " contains unsupported characters"@,
        HostProblem::EndpointLength => " must contain 1..=512 bytes"@,
        HostProblem::EndpointControl => " must not contain control characters or NUL"@,
        HostProblem::ZeroPort => " uses invalid port 0"@,
        HostProblem::BadPath => " is empty, too long, or contains control characters"@,
        HostProblem::TooManyLabels => " labels exceed the maximum of 64"@,
        HostProblem::DuplicateLabel => " label is duplicated"@,
        HostProblem::TextLength => " exceeds 4096 bytes"@,
        HostProblem::TextNul => " must not contain NUL"@,
        HostProblem::EmptyChain => " jump chain must contain at least one hop"@,
        HostProblem::TooManyHops => " jump chain contains more than 8 hops"@,
        HostProblem::RepeatedHop => " jump chain repeats a hop"@,
        HostProblem::UnsupportedVersion => " version is unsupported"@,
        HostProblem::TooManyHosts => " contains too many hosts (max 4096)"@,
        HostProblem::TooManyChains => " contains too many chains (max 512)"@,
        HostProblem::HostKeyMismatch => " host map key does not match the stored alias"@,
        HostProblem::MissingChain => " references a missing jump chain"@,
        HostProblem::ChainKeyMismatch => " chain map key does not match the stored name"@,
        HostProblem::MissingHost => " jump chain references a missing host"@,
        HostProblem::RoutingLoop => " is a member of its own jump chain (routing loop)"@,
        HostProblem::UnknownHostKeyPolicy => " is an unknown host-key policy"@,
        HostProblem::UnknownAuthMethod => " is an unknown authentication method"@,
        HostProblem::HostExists => " host alias already exists"@,
        HostProblem::ChainExists => " jump chain already exists"@,
        HostProblem::HostUnknown => " host alias does not exist"@,
        HostProblem::ChainUnknown => " jump chain does not exist"@,
        HostProblem::HostReferenced => " jump chain references the host"@,
        HostProblem::ChainBound => " host is bound to the jump chain"@,
        HostProblem::CounterOverflow => " host connection counter overflow"@,
        HostProblem::StoreTooLarge => " exceeds 4194304 bytes"@,
    }
}

impl HostError {
    pub fn message(&self) -> (r: String)
        ensures
            r@ == self.subject@ + problem_text(self.problem),
    {
        let text = match self.problem {
            HostProblem::NameLength => " must contain 1..=128 bytes",
            HostProblem::NameCharacters => " contains unsupported characters",
            HostProblem::EndpointLength => " must contain 1..=512 bytes",
            HostProblem::EndpointControl => " must not contain control characters or NUL",
            HostProblem::ZeroPort => " uses invalid port 0",
            HostProblem::BadPath => " is empty, too long, or contains control characters",
            HostProblem::TooManyLabels => " labels exceed the maximum of 64",
            HostProblem::DuplicateLabel => " label is duplicated",
            HostProblem::TextLength => " exceeds 4096 bytes",
            HostProblem::TextNul => " must not contain NUL",
            HostProblem::EmptyChain => " jump chain must contain at least one hop",
            HostProblem::TooManyHops => " jump chain contains more than 8 hops",
            HostProblem::RepeatedHop => " jump chain repeats a hop",
            HostProblem::UnsupportedVersion => " version is unsupported",
            HostProblem::TooManyHosts => " contains too many hosts (max 4096)",
            HostProblem::TooManyChains => " contains too many chains (max 512)",
            HostProblem::HostKeyMismatch => " host map key does not match the stored alias",
            HostProblem::MissingChain => " references a missing jump chain",
            HostProblem::ChainKeyMismatch => " chain map key does not match the stored name",
            HostProblem::MissingHost => " jump chain references a missing host",
            HostProblem::RoutingLoop => " is a member of its own jump chain (routing loop)",
            HostProblem::UnknownHostKeyPolicy => " is an unknown host-key policy",
            HostProblem::UnknownAuthMethod => " is an unknown authentication method",
            HostProblem::HostExists => " host alias already exists",
            HostProblem::ChainExists => " jump chain already exists",
            HostProblem::HostUnknown => " host alias does not exist",
            HostProblem::ChainUnknown => " jump chain does not exist",
            HostProblem::HostReferenced => " jump chain references the host",
            HostProblem::ChainBound => " host is bound to the jump chain",
            HostProblem::CounterOverflow => " host connection counter overflow",
            HostProblem::StoreTooLarge => " exceeds 4194304 bytes",
        };
        joined(self.subject.as_str(), text)
    }
}

#[derive(Debug, Clone, Copy, PartialEq, Eq, Structural)]
pub enum StoredHostKeyPolicy {
    Strict,
    AcceptNew,
    Insecure,
}

impl Default for StoredHostKeyPolicy {
    fn default() -> (r: Self)
        ensures
            r == StoredHostKeyPolicy::AcceptNew,
    {
        StoredHostKeyPolicy::AcceptNew
    }
}

impl StoredHostKeyPolicy {
    pub open spec fn name(self) -> Seq<char> {
        match self {
            StoredHostKeyPolicy::Strict => "strict"@,
            StoredHostKeyPolicy::AcceptNew => "accept-new"@,
            StoredHostKeyPolicy::Insecure => "insecure"@,
        }
    }

    /// The policy that has this name.
    pub open spec fn named(value: Seq<char>) -> Option<Self> {
        if value == StoredHostKeyPolicy::Strict.name() {
            Some(StoredHostKeyPolicy::Strict)
        } else if value == StoredHostKeyPolicy::AcceptNew.name() {
            Some(StoredHostKeyPolicy::AcceptNew)
        } else if value == StoredHostKeyPolicy::Insecure.name() {
            Some(StoredHostKeyPolicy::Insecure)
        } else {
            None
        }
    }

    pub fn as_str(self) -> (r: &'static str)
        ensures
            r@ == self.name(),
    {
        match self {
            StoredHostKeyPolicy::Strict => "strict",
            StoredHostKeyPolicy::AcceptNew => "accept-new",
            StoredHostKeyPolicy::Insecure => "insecure",
        }
    }

    pub fn parse(value: &str) -> (r: Result<Self, HostError>)
        ensures
            match r {
                Ok(policy) => Self::named(value@) == Some(policy),
                Err(e) => Self::named(value@) is None && fault(
                    HostProblem::UnknownHostKeyPolicy,
                    value@,
                ) == Some(e@),
            },
    {
        if same_text(value, "strict") {
            Ok(StoredHostKeyPolicy::Strict)
        } else if same_text(value, "accept-new") {
            Ok(StoredHostKeyPolicy::AcceptNew)
        } else if same_text(value, "insecure") {
            Ok(StoredHostKeyPolicy::Insecure)
        } else {
            Err(host_error(HostProblem::UnknownHostKeyPolicy, value))
        }
    }

    /// A policy is the one that its own name parses to.
    pub proof fn lemma_name_parses(self)
        ensures
            Self::named(self.name()) == Some(self),
    {
        reveal_strlit("strict");
        reveal_strlit("accept-new");
        reveal_strlit("insecure");
        assert("strict"@.len() == 6);
        assert("accept-new"@.len() == 10);
        assert("insecure"@.len() == 8);
    }
}

#[derive(Debug, Clone, Copy, PartialEq, Eq, Structural)]
pub enum StoredAuthMethod {
    Agent,
    PrivateKey,
    Password,
    KeyboardInteractive,
    Auto,
}

impl StoredAuthMethod {
    pub open spec fn name(self) -> Seq<char> {
        match self {
            StoredAuthMethod::Agent => "agent"@,
            StoredAuthMethod::PrivateKey => "private-key"@,
            StoredAuthMethod::Password => "password"@,
            StoredAuthMethod::KeyboardInteractive => "keyboard-interactive"@,
            StoredAuthMethod::Auto => "auto"@,
        }
    }

    /// The method that has this name.
    pub open spec fn named(value: Seq<char>) -> Option<Self> {
        if value == StoredAuthMethod::Agent.name() {
            Some(StoredAuthMethod::Agent)
        } else if value == StoredAuthMethod::PrivateKey.name() {
            Some(StoredAuthMethod::PrivateKey)
        } else if value == StoredAuthMethod::Password.name() {
            Some(StoredAuthMethod::Password)
        } else if value == StoredAuthMethod::KeyboardInteractive.name() {
            Some(StoredAuthMethod::KeyboardInteractive)
        } else if value == StoredAuthMethod::Auto.name() {
            Some(StoredAuthMethod::Auto)
        } else {
            None
        }
    }

    pub fn as_str(self) -> (r: &'static str)
        ensures
            r@ == self.name(),
    {
        match self {
            StoredAuthMethod::Agent => "agent",
            StoredAuthMethod::PrivateKey => "private-key",
            StoredAuthMethod::Password => "password",
            StoredAuthMethod::KeyboardInteractive => "keyboard-interactive",
            StoredAuthMethod::Auto => "auto",
        }
    }

    pub fn parse(value: &str) -> (r: Result<Self, HostError>)
        ensures
            match r {
                Ok(method) => Self::named(value@) == Some(method),
                Err(e) => Self::named(value@) is None && fault(
                    HostProblem::UnknownAuthMethod,
                    value@,
                ) == Some(e@),
            },
    {
        if same_text(value, "agent") {
            Ok(StoredAuthMethod::Agent)
        } else if same_text(value, "private-key") {
            Ok(StoredAuthMethod::PrivateKey)
        } else if same_text(value, "password") {
            Ok(StoredAuthMethod::Password)
        } else if same_text(value, "keyboard-interactive") {
            Ok(StoredAuthMethod::KeyboardInteractive)
        } else if same_text(value, "auto") {
            Ok(StoredAuthMethod::Auto)
        } else {
            Err(host_error(HostProblem::UnknownAuthMethod, value))
        }
    }

    /// A method is the one that its own name parses to.
    pub proof fn lemma_name_parses(self)
        ensures
            Self::named(self.name()) == Some(self),
    {
        reveal_strlit("agent");
        reveal_strlit("private-key");
        reveal_strlit("password");
        reveal_strlit("keyboard-interactive");
        reveal_strlit("auto");
        assert("agent"@.len() == 5);
        assert("private-key"@.len() == 11);
        assert("password"@.len() == 8);
        assert("keyboard-interactive"@.len() == 20);
        assert("auto"@.len() == 4);
    }
}

/// Use of a host so far.
#[derive(Debug, Clone, Copy, PartialEq, Eq)]
pub struct HostStats {
    pub last_connected_unix: Option<u64>,
    pub connection_count: u64,
    pub last_auth_method: Option<StoredAuthMethod>,
}

impl Default for HostStats {
    fn default() -> (r: Self)
        ensures
            r == (HostStats {
                last_connected_unix: None,
                connection_count: 0,
                last_auth_method: None,
            }),
    {
        HostStats { last_connected_unix: None, connection_count: 0, last_auth_method: None }
    }
}

pub open spec fn option_view(value: Option<String>) -> Option<Seq<char>> {
    match value {
        Some(text) => Some(text@),
        None => None,
    }
}

/// One entry of the host library.
#[derive(Debug, Clone, PartialEq, Eq)]
pub struct HostRecord {
    pub alias: String,
    pub address: String,
    pub port: u16,
    pub user: String,
    pub identity_file: Option<String>,
    pub groups: Vec<String>,
    pub tags: Vec<String>,
    pub note: Option<String>,
    pub host_key_policy: StoredHostKeyPolicy,
    pub jump_chain: Option<String>,
    pub stats: HostStats,
}

#[verifier::ext_equal]
pub struct HostRecordView {
    pub alias: Seq<char>,
    pub address: Seq<char>,
    pub port: u16,
    pub user: Seq<char>,
    pub identity_file: Option<Seq<char>>,
    pub groups: Seq<Seq<char>>,
    pub tags: Seq<Seq<char>>,
    pub note: Option<Seq<char>>,
    pub host_key_policy: StoredHostKeyPolicy,
    pub jump_chain: Option<Seq<char>>,
    pub stats: HostStats,
}

impl View for HostRecord {
    type V = HostRecordView;

    open spec fn view(&self) -> HostRecordView {
        HostRecordView {
            alias: self.alias@,
            address: self.address@,
            port: self.port,
            user: self.user@,
            identity_file: option_view(self.identity_file),
            groups: crate::text::views(self.groups@),
            tags: crate::text::views(self.tags@),
            note: option_view(self.note),
            host_key_policy: self.host_key_policy,
            jump_chain: option_view(self.jump_chain),
            stats: self.stats,
        }
    }
}

/// A jump node with its own parameters.
#[derive(Debug, Clone, PartialEq, Eq)]
pub struct InlineJump {
    pub alias: String,
    pub host: String,
    pub port: u16,
    pub user: String,
    pub identity_file: Option<String>,
    pub host_key_policy: StoredHostKeyPolicy,
}

#[verifier::ext_equal]
pub struct InlineJumpView {
    pub alias: Seq<char>,
    pub host: Seq<char>,
    pub port: u16,
    pub user: Seq<char>,
    pub identity_file: Option<Seq<char>>,
    pub host_key_policy: StoredHostKeyPolicy,
}

impl View for InlineJump {
    type V = InlineJumpView;

    open spec fn view(&self) -> InlineJumpView {
        InlineJumpView {
            alias: self.alias@,
            host: self.host@,
            port: self.port,
            user: self.user@,
            identity_file: option_view(self.identity_file),
            host_key_policy: self.host_key_policy,
        }
    }
}

#[derive(Debug, Clone, PartialEq, Eq)]
pub enum JumpHop {
    /// Reuse a host definition from this host library as a jump node.
    Host(String),
    /// Resolve a concrete OpenSSH alias only for this hop.
    OpenSshAlias(String),
    /// Fully inline jump-node parameters.
    Inline(InlineJump),
}

#[verifier::ext_equal]
pub enum JumpHopView {
    Host(Seq<char>),
    OpenSshAlias(Seq<char>),
    Inline(InlineJumpView),
}

impl View for JumpHop {
    type V = JumpHopView;

    open spec fn view(&self) -> JumpHopView {
        match *self {
            JumpHop::Host(alias) => JumpHopView::Host(alias@),
            JumpHop::OpenSshAlias(alias) => JumpHopView::OpenSshAlias(alias@),
            JumpHop::Inline(jump) => JumpHopView::Inline(jump@),
        }
    }
}

impl JumpHopView {
    /// The name under which the hop is known in its chain.
    pub open spec fn name(self) -> Seq<char> {
        match self {
            JumpHopView::Host(alias) => alias,
            JumpHopView::OpenSshAlias(alias) => alias,
            JumpHopView::Inline(jump) => jump.alias,
        }
    }
}

#[derive(Debug, Clone, PartialEq, Eq)]
pub struct JumpChain {
    pub name: String,
    pub hops: Vec<JumpHop>,
}

#[verifier::ext_equal]
pub struct JumpChainView {
    pub name: Seq<char>,
    pub hops: Seq<JumpHopView>,
}

pub open spec fn hop_views(hops: Seq<JumpHop>) -> Seq<JumpHopView> {
    hops.map_values(|hop: JumpHop| hop@)
}

impl View for JumpChain {
    type V = JumpChainView;

    open spec fn view(&self) -> JumpChainView {
        JumpChainView { name: self.name@, hops: hop_views(self.hops@) }
    }
}

/// The whole host library.
#[derive(Debug, PartialEq, Eq)]
pub struct HostDatabase {
    pub version: u32,
    pub hosts: TextMap<HostRecord>,
    pub chains: TextMap<JumpChain>,
}

#[verifier::ext_equal]
pub struct HostDatabaseView {
    pub version: u32,
    pub hosts: Seq<(Seq<char>, HostRecordView)>,
    pub chains: Seq<(Seq<char>, JumpChainView)>,
}

pub open spec fn record_view() -> spec_fn(HostRecord) -> HostRecordView {
    |record: HostRecord| record@
}

pub open spec fn chain_view() -> spec_fn(JumpChain) -> JumpChainView {
    |chain: JumpChain| chain@
}

impl View for HostDatabase {
    type V = HostDatabaseView;

    open spec fn view(&self) -> HostDatabaseView {
        HostDatabaseView {
            version: self.version,
            hosts: crate::text_map::map_entries(self.hosts.entries(), record_view()),
            chains: crate::text_map::map_entries(self.chains.entries(), chain_view()),
        }
    }
}

/// A character of the portable part of a name.
pub open spec fn is_portable_char(c: char) -> bool {
    crate::text::is_ascii_alphanumeric(c) || c == '.' || c == '_' || c == '-' || c == ':'
}

/// A Chinese character.
pub open spec fn is_ideograph(c: char) -> bool {
    let u = c as u32;
    ||| u == 0x3007
    ||| 0x3400 <= u <= 0x4dbf
    ||| 0x4e00 <= u <= 0x9fff
    ||| 0xf900 <= u <= 0xfaff
    ||| 0x20000 <= u <= 0x2fa1f
}

/// A space or a parenthesis, of either width.
pub open spec fn is_name_separator(c: char) -> bool {
    c == ' ' || c == '(' || c == ')' || c as u32 == 0xff08 || c as u32 == 0xff09
}

pub open spec fn is_name_char(c: char) -> bool {
    is_portable_char(c) || is_ideograph(c) || is_name_separator(c)
}

pub open spec fn all_name_chars(value: Seq<char>) -> bool {
    forall|i: int| 0 <= i < value.len() ==> is_name_char(#[trigger] value[i])
}

pub open spec fn all_portable_chars(value: Seq<char>) -> bool {
    forall|i: int| 0 <= i < value.len() ==> is_portable_char(#[trigger] value[i])
}

pub open spec fn has_control(value: Seq<char>) -> bool {
    exists|i: int| 0 <= i < value.len() && crate::text::is_control(#[trigger] value[i])
}

pub open spec fn name_fault(value: Seq<char>, field: Seq<char>) -> Option<HostFault> {
    if value.len() == 0 || crate::text::utf8_len(value) > 128 {
        fault(HostProblem::NameLength, field)
    } else if !all_name_chars(value) {
        fault(HostProblem::NameCharacters, field)
    } else {
        None
    }
}

pub open spec fn portable_name_fault(value: Seq<char>, field: Seq<char>) -> Option<HostFault> {
    if value.len() == 0 || crate::text::utf8_len(value) > 128 {
        fault(HostProblem::NameLength, field)
    } else if !all_portable_chars(value) {
        fault(HostProblem::NameCharacters, field)
    } else {
        None
    }
}

pub open spec fn endpoint_fault(value: Seq<char>, field: Seq<char>) -> Option<HostFault> {
    if value.len() == 0 || crate::text::utf8_len(value) > 512 {
        fault(HostProblem::EndpointLength, field)
    } else if has_control(value) {
        fault(HostProblem::EndpointControl, field)
    } else {
        None
    }
}

pub open spec fn path_fault(path: Option<Seq<char>>, field: Seq<char>) -> Option<HostFault> {
    match path {
        Some(value) => if value.len() == 0 || crate::text::utf8_len(value) > 4096 || has_control(
            value,
        ) {
            fault(HostProblem::BadPath, field)
        } else {
            None
        },
        None => None,
    }
}

pub open spec fn text_fault(value: Seq<char>, field: Seq<char>) -> Option<HostFault> {
    if crate::text::utf8_len(value) > MAX_TEXT_BYTES {
        fault(HostProblem::TextLength, field)
    } else if value.contains('\0') {
        fault(HostProblem::TextNul, field)
    } else {
        None
    }
}

/// The first problem among the labels from index `i` on.
pub open spec fn label_fault_from(values: Seq<Seq<char>>, kind: Seq<char>, i: int) -> Option<
    HostFault,
>
    decreases values.len() - i,
{
    if i < 0 || i >= values.len() {
        None
    } else if name_fault(values[i], kind) is Some {
        name_fault(values[i], kind)
    } else if values.take(i).contains(values[i]) {
        fault(HostProblem::DuplicateLabel, values[i])
    } else {
        label_fault_from(values, kind, i + 1)
    }
}

pub open spec fn labels_fault(values: Seq<Seq<char>>, kind: Seq<char>) -> Option<HostFault> {
    if values.len() > MAX_LABELS_PER_HOST {
        fault(HostProblem::TooManyLabels, kind)
    } else {
        label_fault_from(values, kind, 0)
    }
}

impl HostRecordView {
    /// The first problem of the record, field by field.
    pub open spec fn fault(self) -> Option<HostFault> {
        if name_fault(self.alias, "host alias"@) is Some {
            name_fault(self.alias, "host alias"@)
        } else if endpoint_fault(self.address, "host address"@) is Some {
            endpoint_fault(self.address, "host address"@)
        } else if self.port == 0 {
            fault(HostProblem::ZeroPort, self.alias)
        } else if endpoint_fault(self.user, "SSH user"@) is Some {
            endpoint_fault(self.user, "SSH user"@)
        } else if path_fault(self.identity_file, "identity file"@) is Some {
            path_fault(self.identity_file, "identity file"@)
        } else if labels_fault(self.groups, "group"@) is Some {
            labels_fault(self.groups, "group"@)
        } else if labels_fault(self.tags, "tag"@) is Some {
            labels_fault(self.tags, "tag"@)
        } else if self.note is Some && text_fault(self.note->0, "host note"@) is Some {
            text_fault(self.note->0, "host note"@)
        } else if self.jump_chain is Some && name_fault(self.jump_chain->0, "jump chain"@) is Some {
            name_fault(self.jump_chain->0, "jump chain"@)
        } else {
            None
        }
    }
}

impl InlineJumpView {
    pub open spec fn fault(self) -> Option<HostFault> {
        if portable_name_fault(self.alias, "inline jump alias"@) is Some {
            portable_name_fault(self.alias, "inline jump alias"@)
        } else if endpoint_fault(self.host, "inline jump host"@) is Some {
            endpoint_fault(self.host, "inline jump host"@)
        } else if self.port == 0 {
            fault(HostProblem::ZeroPort, self.alias)
        } else if endpoint_fault(self.user, "inline jump user"@) is Some {
            endpoint_fault(self.user, "inline jump user"@)
        } else {
            path_fault(self.identity_file, "inline jump identity file"@)
        }
    }
}

impl JumpHopView {
    pub open spec fn fault(self) -> Option<HostFault> {
        match self {
            JumpHopView::Host(alias) => name_fault(alias, "jump host reference"@),
            JumpHopView::OpenSshAlias(alias) => portable_name_fault(alias, "OpenSSH jump alias"@),
            JumpHopView::Inline(jump) => jump.fault(),
        }
    }
}

impl JumpChainView {
    /// The first problem among the hops from index `i` on.
    pub open spec fn hop_fault_from(self, i: int) -> Option<HostFault>
        decreases self.hops.len() - i,
    {
        if i < 0 || i >= self.hops.len() {
            None
        } else if self.hops[i].fault() is Some {
            self.hops[i].fault()
        } else if exists|k: int| 0 <= k < i && #[trigger] self.hops[k].name() == self.hops[i].name() {
            fault(HostProblem::RepeatedHop, self.name)
        } else {
            self.hop_fault_from(i + 1)
        }
    }

    pub open spec fn fault(self) -> Option<HostFault> {
        if name_fault(self.name, "jump chain"@) is Some {
            name_fault(self.name, "jump chain"@)
        } else if self.hops.len() == 0 {
            fault(HostProblem::EmptyChain, self.name)
        } else if self.hops.len() > MAX_CHAIN_HOPS {
            fault(HostProblem::TooManyHops, self.name)
        } else {
            self.hop_fault_from(0)
        }
    }

    /// Some hop goes by this name.
    pub open spec fn passes_through(self, alias: Seq<char>) -> bool {
        exists|i: int| 0 <= i < self.hops.len() && #[trigger] self.hops[i].name() == alias
    }
}

impl HostDatabaseView {
    /// The first problem among the hosts from index `i` on.
    pub open spec fn host_fault_from(self, i: int) -> Option<HostFault>
        decreases self.hosts.len() - i,
    {
        if i < 0 || i >= self.hosts.len() {
            None
        } else {
            let key = self.hosts[i].0;
            let host = self.hosts[i].1;
            if key != host.alias {
                fault(HostProblem::HostKeyMismatch, key)
            } else if host.fault() is Some {
                host.fault()
            } else if host.jump_chain is Some && !crate::text_map::has_key(
                self.chains,
                host.jump_chain->0,
            ) {
                fault(HostProblem::MissingChain, key)
            } else {
                self.host_fault_from(i + 1)
            }
        }
    }

    /// Some hop from index `j` on names no host of the library.
    pub open spec fn missing_host_from(self, chain: JumpChainView, j: int) -> bool {
        exists|k: int|
            j <= k < chain.hops.len() && (#[trigger] chain.hops[k] matches JumpHopView::Host(alias)
                && !crate::text_map::has_key(self.hosts, alias))
    }

    /// The first problem among the chains from index `i` on.
    pub open spec fn chain_fault_from(self, i: int) -> Option<HostFault>
        decreases self.chains.len() - i,
    {
        if i < 0 || i >= self.chains.len() {
            None
        } else {
            let key = self.chains[i].0;
            let chain = self.chains[i].1;
            if key != chain.name {
                fault(HostProblem::ChainKeyMismatch, key)
            } else if chain.fault() is Some {
                chain.fault()
            } else if self.missing_host_from(chain, 0) {
                fault(HostProblem::MissingHost, key)
            } else {
                self.chain_fault_from(i + 1)
            }
        }
    }

    /// The host at `i` is reached through a chain that passes through the host itself.
    pub open spec fn loops_at(self, i: int) -> bool {
        &&& self.hosts[i].1.jump_chain is Some
        &&& crate::text_map::lookup(self.chains, self.hosts[i].1.jump_chain->0) is Some
        &&& crate::text_map::lookup(
            self.chains,
            self.hosts[i].1.jump_chain->0,
        )->0.passes_through(self.hosts[i].1.alias)
    }

    pub open spec fn loop_fault_from(self, i: int) -> Option<HostFault>
        decreases self.hosts.len() - i,
    {
        if i < 0 || i >= self.hosts.len() {
            None
        } else if self.loops_at(i) {
            fault(HostProblem::RoutingLoop, self.hosts[i].1.alias)
        } else {
            self.loop_fault_from(i + 1)
        }
    }

    /// The first problem of the library.
    pub open spec fn fault(self) -> Option<HostFault> {
        if self.version != DATABASE_VERSION {
            fault(HostProblem::UnsupportedVersion, "host database"@)
        } else if self.hosts.len() > MAX_HOSTS {
            fault(HostProblem::TooManyHosts, "host database"@)
        } else if self.chains.len() > MAX_CHAINS {
            fault(HostProblem::TooManyChains, "host database"@)
        } else if self.host_fault_from(0) is Some {
            self.host_fault_from(0)
        } else if self.chain_fault_from(0) is Some {
            self.chain_fault_from(0)
        } else {
            self.loop_fault_from(0)
        }
    }

    pub open spec fn valid(self) -> bool {
        self.fault() is None
    }

    /// Both maps are ordered by their keys.
    pub open spec fn sorted(self) -> bool {
        crate::text_map::sorted(self.hosts) && crate::text_map::sorted(self.chains)
    }
}

pub fn portable_char(c: char) -> (r: bool)
    ensures
        r == is_portable_char(c),
{
    crate::text::ascii_alphanumeric(c) || c == '.' || c == '_' || c == '-' || c == ':'
}

fn name_char(c: char) -> (r: bool)
    ensures
        r == is_name_char(c),
{
    let u: u32 = c as u32;
    portable_char(c) || u == 0x3007 || (0x3400 <= u && u <= 0x4dbf) || (0x4e00 <= u && u <= 0x9fff)
        || (0xf900 <= u && u <= 0xfaff) || (0x20000 <= u && u <= 0x2fa1f) || c == ' ' || c == '(' || c
        == ')' || u == 0xff08 || u == 0xff09
}

pub fn any_control(value: &str) -> (r: bool)
    ensures
        r == has_control(value@),
{
    let chars = chars_of(value);
    let mut i: usize = 0;
    while i < chars.len()
        invariant
            chars@ == value@,
            i <= chars@.len(),
            forall|k: int| 0 <= k < i ==> !crate::text::is_control(#[trigger] value@[k]),
        decreases chars@.len() - i,
    {
        if control(chars[i]) {
            assert(crate::text::is_control(value@[i as int]));
            return true;
        }
        i += 1;
    }
    false
}

/// A name for people, as hosts, their labels and jump chains have: portable
/// characters, Chinese characters, spaces and parentheses, 1 to 128 bytes in all.
pub fn validate_name(value: &str, field: &str) -> (r: Result<(), HostError>)
    ensures
        reports(r, name_fault(value@, field@)),
{
    if value.is_empty() || byte_len(value) > 128 {
        return Err(host_error(HostProblem::NameLength, field));
    }
    let chars = chars_of(value);
    let mut i: usize = 0;
    while i < chars.len()
        invariant
            chars@ == value@,
            i <= chars@.len(),
            value@.len() > 0,
            crate::text::utf8_len(value@) <= 128,
            forall|k: int| 0 <= k < i ==> is_name_char(#[trigger] value@[k]),
        decreases chars@.len() - i,
    {
        if !name_char(chars[i]) {
            assert(!is_name_char(value@[i as int]));
            return Err(host_error(HostProblem::NameCharacters, field));
        }
        i += 1;
    }
    Ok(())
}

/// A name that can stand as an OpenSSH alias or for a jump that is written out:
/// ASCII letters, digits, `.`, `_`, `-` and `:`, 1 to 128 bytes in all.
pub fn validate_portable_name(value: &str, field: &str) -> (r: Result<(), HostError>)
    ensures
        reports(r, portable_name_fault(value@, field@)),
{
    if value.is_empty() || byte_len(value) > 128 {
        return Err(host_error(HostProblem::NameLength, field));
    }
    let chars = chars_of(value);
    let mut i: usize = 0;
    while i < chars.len()
        invariant
            chars@ == value@,
            i <= chars@.len(),
            value@.len() > 0,
            crate::text::utf8_len(value@) <= 128,
            forall|k: int| 0 <= k < i ==> is_portable_char(#[trigger] value@[k]),
        decreases chars@.len() - i,
    {
        if !portable_char(chars[i]) {
            assert(!is_portable_char(value@[i as int]));
            return Err(host_error(HostProblem::NameCharacters, field));
        }
        i += 1;
    }
    Ok(())
}

pub fn validate_endpoint_token(value: &str, field: &str) -> (r: Result<(), HostError>)
    ensures
        reports(r, endpoint_fault(value@, field@)),
{
    if value.is_empty() || byte_len(value) > 512 {
        return Err(host_error(HostProblem::EndpointLength, field));
    }
    if any_control(value) {
        return Err(host_error(HostProblem::EndpointControl, field));
    }
    Ok(())
}

fn validate_labels(values: &Vec<String>, kind: &str) -> (r: Result<(), HostError>)
    ensures
        reports(r, labels_fault(crate::text::views(values@), kind@)),
{
    if values.len() > MAX_LABELS_PER_HOST {
        return Err(host_error(HostProblem::TooManyLabels, kind));
    }
    let ghost all = crate::text::views(values@);
    let mut i: usize = 0;
    while i < values.len()
        invariant
            all == crate::text::views(values@),
            i <= values@.len() <= MAX_LABELS_PER_HOST,
            label_fault_from(all, kind@, 0) == label_fault_from(all, kind@, i as int),
        decreases values@.len() - i,
    {
        assert(all[i as int] == values@[i as int]@);
        validate_name(values[i].as_str(), kind)?;
        let mut k: usize = 0;
        while k < i
            invariant
                all == crate::text::views(values@),
                k <= i < values@.len() <= MAX_LABELS_PER_HOST,
                all[i as int] == values@[i as int]@,
                label_fault_from(all, kind@, 0) == label_fault_from(all, kind@, i as int),
                name_fault(all[i as int], kind@) is None,
                forall|j: int| 0 <= j < k ==> #[trigger] all[j] != all[i as int],
            decreases i - k,
        {
            assert(all[k as int] == values@[k as int]@);
            if values[k] == values[i] {
                assert(all.take(i as int)[k as int] == all[i as int]);
                return Err(host_error(HostProblem::DuplicateLabel, values[i].as_str()));
            }
            k += 1;
        }
        assert(!all.take(i as int).contains(all[i as int]));
        i += 1;
    }
    Ok(())
}

fn validate_optional_path(path: &Option<String>, field: &str) -> (r: Result<(), HostError>)
    ensures
        reports(r, path_fault(option_view(*path), field@)),
{
    match path {
        Some(value) => {
            if value.as_str().is_empty() || byte_len(value.as_str()) > 4096 || any_control(
                value.as_str(),
            ) {
                return Err(host_error(HostProblem::BadPath, field));
            }
            Ok(())
        },
        None => Ok(()),
    }
}

fn validate_text(value: &str, field: &str) -> (r: Result<(), HostError>)
    ensures
        reports(r, text_fault(value@, field@)),
{
    if byte_len(value) > MAX_TEXT_BYTES {
        return Err(host_error(HostProblem::TextLength, field));
    }
    if contains_char(value, '\0') {
        return Err(host_error(HostProblem::TextNul, field));
    }
    Ok(())
}

pub fn copy_option(value: &Option<String>) -> (r: Option<String>)
    ensures
        option_view(r) == option_view(*value),
{
    match value {
        Some(text) => Some(text.clone()),
        None => None,
    }
}

pub fn copy_texts(values: &Vec<String>) -> (r: Vec<String>)
    ensures
        crate::text::views(r@) == crate::text::views(values@),
{
    let mut out: Vec<String> = Vec::new();
    let mut i: usize = 0;
    while i < values.len()
        invariant
            i <= values@.len(),
            out@.len() == i,
            forall|k: int| 0 <= k < i ==> (#[trigger] out@[k])@ == values@[k]@,
        decreases values@.len() - i,
    {
        out.push(values[i].clone());
        i += 1;
    }
    assert(crate::text::views(out@) =~= crate::text::views(values@));
    out
}

impl HostRecord {
    /// A record on the standard port with nothing optional set.
    pub fn new(alias: &str, address: &str, user: &str) -> (r: Self)
        ensures
            r@ == (HostRecordView {
                alias: alias@,
                address: address@,
                port: 22,
                user: user@,
                identity_file: None,
                groups: Seq::empty(),
                tags: Seq::empty(),
                note: None,
                host_key_policy: StoredHostKeyPolicy::AcceptNew,
                jump_chain: None,
                stats: HostStats {
                    last_connected_unix: None,
                    connection_count: 0,
                    last_auth_method: None,
                },
            }),
    {
        let r = HostRecord {
            alias: alias.to_owned(),
            address: address.to_owned(),
            port: 22,
            user: user.to_owned(),
            identity_file: None,
            groups: Vec::new(),
            tags: Vec::new(),
            note: None,
            host_key_policy: StoredHostKeyPolicy::AcceptNew,
            jump_chain: None,
            stats: HostStats { last_connected_unix: None, connection_count: 0, last_auth_method: None },
        };
        assert(r@.groups =~= Seq::<Seq<char>>::empty());
        assert(r@.tags =~= Seq::<Seq<char>>::empty());
        r
    }

    pub fn copy(&self) -> (r: Self)
        ensures
            r@ == self@,
    {
        HostRecord {
            alias: self.alias.clone(),
            address: self.address.clone(),
            port: self.port,
            user: self.user.clone(),
            identity_file: copy_option(&self.identity_file),
            groups: copy_texts(&self.groups),
            tags: copy_texts(&self.tags),
            note: copy_option(&self.note),
            host_key_policy: self.host_key_policy,
            jump_chain: copy_option(&self.jump_chain),
            stats: self.stats,
        }
    }

    pub fn validate(&self) -> (r: Result<(), HostError>)
        ensures
            reports(r, self@.fault()),
    {
        validate_name(self.alias.as_str(), "host alias")?;
        validate_endpoint_token(self.address.as_str(), "host address")?;
        if self.port == 0 {
            return Err(host_error(HostProblem::ZeroPort, self.alias.as_str()));
        }
        validate_endpoint_token(self.user.as_str(), "SSH user")?;
        validate_optional_path(&self.identity_file, "identity file")?;
        validate_labels(&self.groups, "group")?;
        validate_labels(&self.tags, "tag")?;
        if let Some(note) = &self.note {
            validate_text(note.as_str(), "host note")?;
        }
        if let Some(chain) = &self.jump_chain {
            validate_name(chain.as_str(), "jump chain")?;
        }
        Ok(())
    }
}

impl InlineJump {
    pub fn copy(&self) -> (r: Self)
        ensures
            r@ == self@,
    {
        InlineJump {
            alias: self.alias.clone(),
            host: self.host.clone(),
            port: self.port,
            user: self.user.clone(),
            identity_file: copy_option(&self.identity_file),
            host_key_policy: self.host_key_policy,
        }
    }

    pub fn validate(&self) -> (r: Result<(), HostError>)
        ensures
            reports(r, self@.fault()),
    {
        validate_portable_name(self.alias.as_str(), "inline jump alias")?;
        validate_endpoint_token(self.host.as_str(), "inline jump host")?;
        if self.port == 0 {
            return Err(host_error(HostProblem::ZeroPort, self.alias.as_str()));
        }
        validate_endpoint_token(self.user.as_str(), "inline jump user")?;
        validate_optional_path(&self.identity_file, "inline jump identity file")?;
        Ok(())
    }
}

impl JumpHop {
    pub fn copy(&self) -> (r: Self)
        ensures
            r@ == self@,
    {
        match self {
            JumpHop::Host(value) => JumpHop::Host(value.clone()),
            JumpHop::OpenSshAlias(value) => JumpHop::OpenSshAlias(value.clone()),
            JumpHop::Inline(value) => JumpHop::Inline(value.copy()),
        }
    }

    pub fn display_name(&self) -> (r: &str)
        ensures
            r@ == self@.name(),
    {
        match self {
            JumpHop::Host(value) => value.as_str(),
            JumpHop::OpenSshAlias(value) => value.as_str(),
            JumpHop::Inline(value) => value.alias.as_str(),
        }
    }

    pub fn validate(&self) -> (r: Result<(), HostError>)
        ensures
            reports(r, self@.fault()),
    {
        match self {
            JumpHop::Host(alias) => validate_name(alias.as_str(), "jump host reference"),
            JumpHop::OpenSshAlias(alias) => validate_portable_name(
                alias.as_str(),
                "OpenSSH jump alias",
            ),
            JumpHop::Inline(jump) => jump.validate(),
        }
    }
}

impl JumpChain {
    pub fn copy(&self) -> (r: Self)
        ensures
            r@ == self@,
    {
        let mut hops: Vec<JumpHop> = Vec::new();
        let mut i: usize = 0;
        while i < self.hops.len()
            invariant
                i <= self.hops@.len(),
                hops@.len() == i,
                forall|k: int| 0 <= k < i ==> (#[trigger] hops@[k])@ == self.hops@[k]@,
            decreases self.hops@.len() - i,
        {
            hops.push(self.hops[i].copy());
            i += 1;
        }
        assert(hop_views(hops@) =~= hop_views(self.hops@));
        JumpChain { name: self.name.clone(), hops }
    }

    pub fn validate(&self) -> (r: Result<(), HostError>)
        ensures
            reports(r, self@.fault()),
    {
        validate_name(self.name.as_str(), "jump chain")?;
        if self.hops.is_empty() {
            return Err(host_error(HostProblem::EmptyChain, self.name.as_str()));
        }
        if self.hops.len() > MAX_CHAIN_HOPS {
            return Err(host_error(HostProblem::TooManyHops, self.name.as_str()));
        }
        let ghost view = self@;
        let mut i: usize = 0;
        while i < self.hops.len()
            invariant
                view == self@,
                name_fault(view.name, "jump chain"@) is None,
                0 < self.hops@.len() <= MAX_CHAIN_HOPS,
                i <= self.hops@.len(),
                view.hop_fault_from(0) == view.hop_fault_from(i as int),
            decreases self.hops@.len() - i,
        {
            assert(view.hops[i as int] == self.hops@[i as int]@);
            self.hops[i].validate()?;
            let mut k: usize = 0;
            while k < i
                invariant
                    view == self@,
                    name_fault(view.name, "jump chain"@) is None,
                    0 < self.hops@.len() <= MAX_CHAIN_HOPS,
                    k <= i < self.hops@.len(),
                    view.hops[i as int] == self.hops@[i as int]@,
                    view.hops[i as int].fault() is None,
                    view.hop_fault_from(0) == view.hop_fault_from(i as int),
                    forall|j: int|
                        0 <= j < k ==> #[trigger] view.hops[j].name() != view.hops[i as int].name(),
                decreases i - k,
            {
                assert(view.hops[k as int] == self.hops@[k as int]@);
                if same_text(self.hops[k].display_name(), self.hops[i].display_name()) {
                    assert(view.hops[k as int].name() == view.hops[i as int].name());
                    return Err(host_error(HostProblem::RepeatedHop, self.name.as_str()));
                }
                k += 1;
            }
            i += 1;
        }
        Ok(())
    }

    fn passes_through(&self, alias: &str) -> (r: bool)
        ensures
            r == self@.passes_through(alias@),
    {
        let mut i: usize = 0;
        while i < self.hops.len()
            invariant
                i <= self.hops@.len(),
                forall|k: int| 0 <= k < i ==> #[trigger] self@.hops[k].name() != alias@,
            decreases self.hops@.len() - i,
        {
            assert(self@.hops[i as int] == self.hops@[i as int]@);
            if same_text(self.hops[i].display_name(), alias) {
                assert(self@.hops[i as int].name() == alias@);
                return true;
            }
            i += 1;
        }
        false
    }
}

impl Default for HostDatabase {
    fn default() -> (r: Self)
        ensures
            r@ == (HostDatabaseView {
                version: DATABASE_VERSION,
                hosts: Seq::empty(),
                chains: Seq::empty(),
            }),
    {
        let r = HostDatabase {
            version: DATABASE_VERSION,
            hosts: TextMap::new(),
            chains: TextMap::new(),
        };
        assert(r@.hosts =~= Seq::<(Seq<char>, HostRecordView)>::empty());
        assert(r@.chains =~= Seq::<(Seq<char>, JumpChainView)>::empty());
        r
    }
}

impl Clone for HostDatabase {
    fn clone(&self) -> (r: Self)
        ensures
            r@ == self@,
    {
        self.copy()
    }
}

impl HostDatabase {
    pub fn copy(&self) -> (r: Self)
        ensures
            r@ == self@,
            r@.sorted(),
    {
        let count = self.hosts.len();
        let mut hosts: TextMap<HostRecord> = TextMap::new();
        let mut i: usize = 0;
        let ghost host_entries = self.hosts.entries();
        assert(crate::text_map::map_entries(hosts.entries(), record_view())
            =~= crate::text_map::map_entries(host_entries.take(0), record_view()));
        while i < count
            invariant
                i <= count == host_entries.len(),
                host_entries == self.hosts.entries(),
                crate::text_map::sorted(host_entries),
                crate::text_map::map_entries(hosts.entries(), record_view())
                    == crate::text_map::map_entries(host_entries.take(i as int), record_view()),
            decreases count - i,
        {
            let key = self.hosts.key_at(i);
            let value = self.hosts.value_at(i);
            let ghost before = hosts.entries();
            let size = hosts.len();
            let fresh = value.copy();
            proof {
                let f = record_view();
                let (k, v) = host_entries[i as int];
                crate::text_map::lemma_map_entries(before, f, k);
                assert(host_entries.take(i + 1) =~= host_entries.take(i as int).push((k, v)));
                assert(crate::text_map::sorted(host_entries.take(i + 1)));
                crate::text_map::lemma_map_entries(host_entries.take(i + 1), f, k);
                assert(crate::text_map::map_entries(host_entries.take(i + 1), f)
                    =~= crate::text_map::map_entries(before, f).push((k, f(v))));
                crate::text_map::lemma_put_last(crate::text_map::map_entries(before, f), k, f(v));
                assert(f(fresh) == f(v));
            }
            hosts.insert(key.clone(), fresh);
            i += 1;
        }
        assert(host_entries.take(count as int) =~= host_entries);
        let chain_count = self.chains.len();
        let mut chains: TextMap<JumpChain> = TextMap::new();
        let mut j: usize = 0;
        let ghost chain_entries = self.chains.entries();
        assert(crate::text_map::map_entries(chains.entries(), chain_view())
            =~= crate::text_map::map_entries(chain_entries.take(0), chain_view()));
        while j < chain_count
            invariant
                j <= chain_count == chain_entries.len(),
                chain_entries == self.chains.entries(),
                crate::text_map::sorted(chain_entries),
                crate::text_map::map_entries(chains.entries(), chain_view())
                    == crate::text_map::map_entries(chain_entries.take(j as int), chain_view()),
            decreases chain_count - j,
        {
            let key = self.chains.key_at(j);
            let value = self.chains.value_at(j);
            let ghost before = chains.entries();
            chains.recall_order();
            let fresh = value.copy();
            proof {
                let f = chain_view();
                let (k, v) = chain_entries[j as int];
                crate::text_map::lemma_map_entries(before, f, k);
                assert(chain_entries.take(j + 1) =~= chain_entries.take(j as int).push((k, v)));
                assert(crate::text_map::sorted(chain_entries.take(j + 1)));
                crate::text_map::lemma_map_entries(chain_entries.take(j + 1), f, k);
                assert(crate::text_map::map_entries(chain_entries.take(j + 1), f)
                    =~= crate::text_map::map_entries(before, f).push((k, f(v))));
                crate::text_map::lemma_put_last(crate::text_map::map_entries(before, f), k, f(v));
                assert(f(fresh) == f(v));
            }
            chains.insert(key.clone(), fresh);
            j += 1;
        }
        assert(chain_entries.take(chain_count as int) =~= chain_entries);
        proof {
            crate::text_map::lemma_map_entries(host_entries, record_view(), Seq::empty());
            crate::text_map::lemma_map_entries(chain_entries, chain_view(), Seq::empty());
        }
        HostDatabase { version: self.version, hosts, chains }
    }

    pub fn validate(&self) -> (r: Result<(), HostError>)
        ensures
            reports(r, self@.fault()),
            self@.sorted(),
    {
        let host_count = self.hosts.len();
        let chain_count = self.chains.len();
        let ghost view = self@;
        proof {
            crate::text_map::lemma_map_entries(self.hosts.entries(), record_view(), Seq::empty());
            crate::text_map::lemma_map_entries(self.chains.entries(), chain_view(), Seq::empty());
        }
        if self.version != DATABASE_VERSION {
            return Err(host_error(HostProblem::UnsupportedVersion, "host database"));
        }
        if host_count > MAX_HOSTS {
            return Err(host_error(HostProblem::TooManyHosts, "host database"));
        }
        if chain_count > MAX_CHAINS {
            return Err(host_error(HostProblem::TooManyChains, "host database"));
        }
        self.validate_hosts()?;
        self.validate_chains()?;
        self.validate_routes()?;
        Ok(())
    }

    fn validate_hosts(&self) -> (r: Result<(), HostError>)
        ensures
            reports(r, self@.host_fault_from(0)),
    {
        let ghost view = self@;
        let count = self.hosts.len();
        self.chains.recall_order();
        let mut i: usize = 0;
        while i < count
            invariant
                view == self@,
                count == self.hosts.entries().len(),
                i <= count,
                crate::text_map::sorted(self.chains.entries()),
                view.host_fault_from(0) == view.host_fault_from(i as int),
            decreases count - i,
        {
            let alias = self.hosts.key_at(i);
            let host = self.hosts.value_at(i);
            assert(view.hosts[i as int] == (alias@, host@));
            if *alias != host.alias {
                return Err(host_error(HostProblem::HostKeyMismatch, alias.as_str()));
            }
            host.validate()?;
            if let Some(chain) = &host.jump_chain {
                proof {
                    crate::text_map::lemma_map_entries(
                        self.chains.entries(),
                        chain_view(),
                        chain@,
                    );
                }
                if !self.chains.contains_key(chain.as_str()) {
                    return Err(host_error(HostProblem::MissingChain, alias.as_str()));
                }
            }
            i += 1;
        }
        Ok(())
    }

    fn validate_chains(&self) -> (r: Result<(), HostError>)
        ensures
            reports(r, self@.chain_fault_from(0)),
    {
        let ghost view = self@;
        let count = self.chains.len();
        self.hosts.recall_order();
        let mut i: usize = 0;
        while i < count
            invariant
                view == self@,
                count == self.chains.entries().len(),
                i <= count,
                crate::text_map::sorted(self.hosts.entries()),
                view.chain_fault_from(0) == view.chain_fault_from(i as int),
            decreases count - i,
        {
            let name = self.chains.key_at(i);
            let chain = self.chains.value_at(i);
            assert(view.chains[i as int] == (name@, chain@));
            if *name != chain.name {
                return Err(host_error(HostProblem::ChainKeyMismatch, name.as_str()));
            }
            chain.validate()?;
            if self.references_missing_host(chain) {
                return Err(host_error(HostProblem::MissingHost, name.as_str()));
            }
            i += 1;
        }
        Ok(())
    }

    fn references_missing_host(&self, chain: &JumpChain) -> (r: bool)
        ensures
            r == self@.missing_host_from(chain@, 0),
    {
        self.hosts.recall_order();
        let mut j: usize = 0;
        while j < chain.hops.len()
            invariant
                j <= chain.hops@.len(),
                crate::text_map::sorted(self.hosts.entries()),
                forall|k: int|
                    0 <= k < j ==> !(#[trigger] chain@.hops[k] matches JumpHopView::Host(alias)
                        && !crate::text_map::has_key(self@.hosts, alias)),
            decreases chain.hops@.len() - j,
        {
            assert(chain@.hops[j as int] == chain.hops@[j as int]@);
            if let JumpHop::Host(alias) = &chain.hops[j] {
                proof {
                    crate::text_map::lemma_map_entries(self.hosts.entries(), record_view(), alias@);
                }
                if !self.hosts.contains_key(alias.as_str()) {
                    return true;
                }
            }
            j += 1;
        }
        false
    }

    /// A target must never be routed through itself. Host references in a chain
    /// are endpoint definitions whose own chain is not expanded, so looking at
    /// the chain alone finds every such loop.
    fn validate_routes(&self) -> (r: Result<(), HostError>)
        ensures
            reports(r, self@.loop_fault_from(0)),
    {
        let ghost view = self@;
        let count = self.hosts.len();
        self.chains.recall_order();
        let mut i: usize = 0;
        while i < count
            invariant
                view == self@,
                count == self.hosts.entries().len(),
                i <= count,
                crate::text_map::sorted(self.chains.entries()),
                view.loop_fault_from(0) == view.loop_fault_from(i as int),
            decreases count - i,
        {
            let host = self.hosts.value_at(i);
            assert(view.hosts[i as int].1 == host@);
            if let Some(chain_name) = &host.jump_chain {
                proof {
                    crate::text_map::lemma_map_entries(
                        self.chains.entries(),
                        chain_view(),
                        chain_name@,
                    );
                }
                if let Some(chain) = self.chains.get(chain_name.as_str()) {
                    if chain.passes_through(host.alias.as_str()) {
                        return Err(host_error(HostProblem::RoutingLoop, host.alias.as_str()));
                    }
                }
            }
            i += 1;
        }
        Ok(())
    }
}

} // verus!
