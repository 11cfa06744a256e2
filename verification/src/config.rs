//! Connection configuration: defaults, what OpenSSH settings add to them, and
//! the jump route.

use vstd::prelude::*;
use vstd::string::*;

use crate::model::copy_option;
use crate::model::copy_texts;
use crate::text::chars_of;
use crate::text::contains_char;
use crate::text::contains_text;
use crate::text::control;
use crate::text::equal_ignoring_case;
use crate::text::lines_of;
use crate::text::parse_number;
use crate::text::position_from;
use crate::text::same_text;
use crate::text::split_on;
use crate::text::starts_with;
use crate::text::text_between;
use crate::text::trimmed;
use crate::text::trimmed_start;
use crate::text::whitespace;
use crate::text::words_of;
use crate::text_map::TextMap;

verus! {

pub const MAX_JUMP_HOPS: usize = 8;

/// A length of time.
#[derive(Debug, Clone, Copy, PartialEq, Eq, Structural)]
pub struct Span {
    pub secs: u64,
    pub nanos: u32,
}

impl Span {
    pub fn from_secs(secs: u64) -> (r: Self)
        ensures
            r == (Span { secs, nanos: 0 }),
    {
        Span { secs, nanos: 0 }
    }

    pub fn is_zero(&self) -> (r: bool)
        ensures
            r == (self.secs == 0 && self.nanos == 0),
    {
        self.secs == 0 && self.nanos == 0
    }
}

pub const DEFAULT_CONNECT_SECS: u64 = 15;

pub const DEFAULT_CHANNEL_OPEN_SECS: u64 = 15;

pub const DEFAULT_CHANNEL_REQUEST_SECS: u64 = 15;

pub const DEFAULT_AUTHENTICATION_SECS: u64 = 30;

pub const DEFAULT_KEEPALIVE_SECS: u64 = 30;

/// What is wrong with a configuration value.
#[derive(Debug, Clone, Copy, PartialEq, Eq, Structural)]
pub enum ConfigProblem {
    TokenEmpty,
    TokenDash,
    TokenActive,
    EmptyHop,
    CombinedNone,
    TooManyHops,
    HopCharacters,
    UriEmpty,
    UriPath,
    UriScheme,
    ManyAt,
    UserEmpty,
    HostEmpty,
    HostCharacters,
    BracketOpen,
    BracketEmpty,
    BadIpv6,
    PortEmpty,
    BadPort,
    BadSuffix,
    BracketPlacement,
    ConnectTimeout,
    ChannelOpenTimeout,
    ChannelRequestTimeout,
    AuthenticationTimeout,
    StructuralDirective,
    Malformed,
    Unread,
}

/// The first problem found, with the role or text it was found in. `Unread`
/// says that the OpenSSH settings of that alias have not been looked up yet.
#[derive(Debug, PartialEq, Eq)]
pub struct ConfigError {
    pub problem: ConfigProblem,
    pub subject: String,
}

#[verifier::ext_equal]
pub struct ConfigFault {
    pub problem: ConfigProblem,
    pub subject: Seq<char>,
}

impl View for ConfigError {
    type V = ConfigFault;

    open spec fn view(&self) -> ConfigFault {
        ConfigFault { problem: self.problem, subject: self.subject@ }
    }
}

pub fn config_error(problem: ConfigProblem, subject: &str) -> (r: ConfigError)
    ensures
        r@ == (ConfigFault { problem, subject: subject@ }),
{
    ConfigError { problem, subject: subject.to_owned() }
}

pub open spec fn config_fault(problem: ConfigProblem, subject: Seq<char>) -> ConfigFault {
    ConfigFault { problem, subject }
}

/// The result of a check that has found `fault`.
pub open spec fn reports(r: Result<(), ConfigError>, fault: Option<ConfigFault>) -> bool {
    match r {
        Ok(()) => fault is None,
        Err(e) => fault == Some(e@),
    }
}

#[derive(Debug, Clone, Copy, PartialEq, Eq, Structural)]
pub enum HostKeyPolicy {
    Strict,
    AcceptNew,
    Insecure,
}

impl Default for HostKeyPolicy {
    fn default() -> (r: Self)
        ensures
            r == HostKeyPolicy::AcceptNew,
    {
        HostKeyPolicy::AcceptNew
    }
}

#[derive(Debug, Clone, PartialEq, Eq)]
pub struct JumpHost {
    pub alias: String,
    pub host: String,
    pub port: u16,
    pub username: String,
    pub identity_files: Vec<String>,
    pub host_key_policy: HostKeyPolicy,
    pub known_hosts_file: Option<String>,
}

#[verifier::ext_equal]
pub struct JumpHostView {
    pub alias: Seq<char>,
    pub host: Seq<char>,
    pub port: u16,
    pub username: Seq<char>,
    pub identity_files: Seq<Seq<char>>,
    pub host_key_policy: HostKeyPolicy,
    pub known_hosts_file: Option<Seq<char>>,
}

impl View for JumpHost {
    type V = JumpHostView;

    open spec fn view(&self) -> JumpHostView {
        JumpHostView {
            alias: self.alias@,
            host: self.host@,
            port: self.port,
            username: self.username@,
            identity_files: crate::text::views(self.identity_files@),
            host_key_policy: self.host_key_policy,
            known_hosts_file: crate::model::option_view(self.known_hosts_file),
        }
    }
}

pub open spec fn jump_views(jumps: Seq<JumpHost>) -> Seq<JumpHostView> {
    jumps.map_values(|jump: JumpHost| jump@)
}

impl JumpHostView {
    /// Same hop, with paths compared by where they lead.
    pub open spec fn same(self, other: JumpHostView) -> bool {
        &&& self.alias == other.alias
        &&& self.host == other.host
        &&& self.port == other.port
        &&& self.username == other.username
        &&& crate::paths::same_paths(self.identity_files, other.identity_files)
        &&& self.host_key_policy == other.host_key_policy
        &&& crate::paths::same_optional_path(self.known_hosts_file, other.known_hosts_file)
    }
}

impl JumpHost {
    pub fn copy(&self) -> (r: Self)
        ensures
            r@ == self@,
    {
        JumpHost {
            alias: self.alias.clone(),
            host: self.host.clone(),
            port: self.port,
            username: self.username.clone(),
            identity_files: copy_texts(&self.identity_files),
            host_key_policy: self.host_key_policy,
            known_hosts_file: copy_option(&self.known_hosts_file),
        }
    }

    pub fn same(&self, other: &JumpHost) -> (r: bool)
        ensures
            r == self@.same(other@),
    {
        self.alias == other.alias && self.host == other.host && self.port == other.port
            && self.username == other.username && crate::paths::path_lists_match(
            &self.identity_files,
            &other.identity_files,
        ) && self.host_key_policy == other.host_key_policy && crate::paths::optional_paths_match(
            &self.known_hosts_file,
            &other.known_hosts_file,
        )
    }
}

pub fn copy_jumps(jumps: &Vec<JumpHost>) -> (r: Vec<JumpHost>)
    ensures
        jump_views(r@) == jump_views(jumps@),
{
    let mut out: Vec<JumpHost> = Vec::new();
    let mut i: usize = 0;
    while i < jumps.len()
        invariant
            i <= jumps@.len(),
            out@.len() == i,
            forall|k: int| 0 <= k < i ==> (#[trigger] out@[k])@ == jumps@[k]@,
        decreases jumps@.len() - i,
    {
        out.push(jumps[i].copy());
        i += 1;
    }
    assert(jump_views(out@) =~= jump_views(jumps@));
    out
}

/// How a connection is routed, without the text of a proxy command.
#[derive(Debug, Clone, PartialEq, Eq)]
pub enum ConnectionRouteSnapshot {
    Direct,
    ProxyCommand,
    ProxyJump(Vec<JumpHost>),
}

#[verifier::ext_equal]
pub enum RouteView {
    Direct,
    ProxyCommand,
    ProxyJump(Seq<JumpHostView>),
}

impl View for ConnectionRouteSnapshot {
    type V = RouteView;

    open spec fn view(&self) -> RouteView {
        match *self {
            ConnectionRouteSnapshot::Direct => RouteView::Direct,
            ConnectionRouteSnapshot::ProxyCommand => RouteView::ProxyCommand,
            ConnectionRouteSnapshot::ProxyJump(jumps) => RouteView::ProxyJump(jump_views(jumps@)),
        }
    }
}

/// The parts of a configuration that may be shown.
#[derive(Debug, Clone, PartialEq, Eq)]
pub struct ConnectionConfigSnapshot {
    pub alias: String,
    pub host: String,
    pub port: u16,
    pub username: String,
    pub identity_files: Vec<String>,
    pub host_key_policy: HostKeyPolicy,
    pub known_hosts_file: Option<String>,
    pub keepalive_interval: Option<Span>,
    pub inactivity_timeout: Option<Span>,
    pub route: ConnectionRouteSnapshot,
    pub agent_forwarding: bool,
}

#[verifier::ext_equal]
pub struct SnapshotView {
    pub alias: Seq<char>,
    pub host: Seq<char>,
    pub port: u16,
    pub username: Seq<char>,
    pub identity_files: Seq<Seq<char>>,
    pub host_key_policy: HostKeyPolicy,
    pub known_hosts_file: Option<Seq<char>>,
    pub keepalive_interval: Option<Span>,
    pub inactivity_timeout: Option<Span>,
    pub route: RouteView,
    pub agent_forwarding: bool,
}

impl View for ConnectionConfigSnapshot {
    type V = SnapshotView;

    open spec fn view(&self) -> SnapshotView {
        SnapshotView {
            alias: self.alias@,
            host: self.host@,
            port: self.port,
            username: self.username@,
            identity_files: crate::text::views(self.identity_files@),
            host_key_policy: self.host_key_policy,
            known_hosts_file: crate::model::option_view(self.known_hosts_file),
            keepalive_interval: self.keepalive_interval,
            inactivity_timeout: self.inactivity_timeout,
            route: self.route@,
            agent_forwarding: self.agent_forwarding,
        }
    }
}

#[derive(Debug, Clone, PartialEq, Eq)]
pub struct ConnectionConfig {
    pub alias: String,
    pub host: String,
    pub port: u16,
    pub username: String,
    pub identity_files: Vec<String>,
    pub host_key_policy: HostKeyPolicy,
    pub known_hosts_file: Option<String>,
    pub keepalive_interval: Option<Span>,
    pub inactivity_timeout: Option<Span>,
    /// Upper bound for TCP connection establishment and SSH handshakes.
    pub connect_timeout: Span,
    /// Upper bound for SSH channel-open requests used by sessions and ProxyJump.
    pub channel_open_timeout: Span,
    /// Upper bound for channel requests that wait for a server reply, such as exec/shell/subsystem.
    pub channel_request_timeout: Span,
    /// Upper bound for one SSH authentication phase.
    pub authentication_timeout: Span,
    pub proxy_command: Option<String>,
    pub jump_hosts: Vec<JumpHost>,
    pub agent_forwarding: bool,
}

#[verifier::ext_equal]
pub struct ConfigView {
    pub alias: Seq<char>,
    pub host: Seq<char>,
    pub port: u16,
    pub username: Seq<char>,
    pub identity_files: Seq<Seq<char>>,
    pub host_key_policy: HostKeyPolicy,
    pub known_hosts_file: Option<Seq<char>>,
    pub keepalive_interval: Option<Span>,
    pub inactivity_timeout: Option<Span>,
    pub connect_timeout: Span,
    pub channel_open_timeout: Span,
    pub channel_request_timeout: Span,
    pub authentication_timeout: Span,
    pub proxy_command: Option<Seq<char>>,
    pub jump_hosts: Seq<JumpHostView>,
    pub agent_forwarding: bool,
}

impl View for ConnectionConfig {
    type V = ConfigView;

    open spec fn view(&self) -> ConfigView {
        ConfigView {
            alias: self.alias@,
            host: self.host@,
            port: self.port,
            username: self.username@,
            identity_files: crate::text::views(self.identity_files@),
            host_key_policy: self.host_key_policy,
            known_hosts_file: crate::model::option_view(self.known_hosts_file),
            keepalive_interval: self.keepalive_interval,
            inactivity_timeout: self.inactivity_timeout,
            connect_timeout: self.connect_timeout,
            channel_open_timeout: self.channel_open_timeout,
            channel_request_timeout: self.channel_request_timeout,
            authentication_timeout: self.authentication_timeout,
            proxy_command: crate::model::option_view(self.proxy_command),
            jump_hosts: jump_views(self.jump_hosts@),
            agent_forwarding: self.agent_forwarding,
        }
    }
}

/// The configuration of a host with nothing but defaults.
pub open spec fn default_config(host: Seq<char>, username: Seq<char>) -> ConfigView {
    ConfigView {
        alias: host,
        host,
        port: 22,
        username,
        identity_files: Seq::empty(),
        host_key_policy: HostKeyPolicy::AcceptNew,
        known_hosts_file: None,
        keepalive_interval: Some(Span { secs: DEFAULT_KEEPALIVE_SECS, nanos: 0 }),
        inactivity_timeout: None,
        connect_timeout: Span { secs: DEFAULT_CONNECT_SECS, nanos: 0 },
        channel_open_timeout: Span { secs: DEFAULT_CHANNEL_OPEN_SECS, nanos: 0 },
        channel_request_timeout: Span { secs: DEFAULT_CHANNEL_REQUEST_SECS, nanos: 0 },
        authentication_timeout: Span { secs: DEFAULT_AUTHENTICATION_SECS, nanos: 0 },
        proxy_command: None,
        jump_hosts: Seq::empty(),
        agent_forwarding: false,
    }
}

impl ConfigView {
    /// A jump route wins over a proxy command.
    pub open spec fn route(self) -> RouteView {
        if self.jump_hosts.len() > 0 {
            RouteView::ProxyJump(self.jump_hosts)
        } else if self.proxy_command is Some {
            RouteView::ProxyCommand
        } else {
            RouteView::Direct
        }
    }

    pub open spec fn snapshot(self) -> SnapshotView {
        SnapshotView {
            alias: self.alias,
            host: self.host,
            port: self.port,
            username: self.username,
            identity_files: self.identity_files,
            host_key_policy: self.host_key_policy,
            known_hosts_file: self.known_hosts_file,
            keepalive_interval: self.keepalive_interval,
            inactivity_timeout: self.inactivity_timeout,
            route: self.route(),
            agent_forwarding: self.agent_forwarding,
        }
    }

    pub open spec fn timeout_fault(self) -> Option<ConfigFault> {
        let zero = Span { secs: 0, nanos: 0 };
        if self.connect_timeout == zero {
            Some(config_fault(ConfigProblem::ConnectTimeout, "SSH connect timeout"@))
        } else if self.channel_open_timeout == zero {
            Some(config_fault(ConfigProblem::ChannelOpenTimeout, "SSH channel-open timeout"@))
        } else if self.channel_request_timeout == zero {
            Some(config_fault(ConfigProblem::ChannelRequestTimeout, "SSH channel request timeout"@))
        } else if self.authentication_timeout == zero {
            Some(config_fault(ConfigProblem::AuthenticationTimeout, "SSH authentication timeout"@))
        } else {
            None
        }
    }

    /// Same transport, with paths compared by where they lead.
    pub open spec fn same(self, other: ConfigView) -> bool {
        &&& self.alias == other.alias
        &&& self.host == other.host
        &&& self.port == other.port
        &&& self.username == other.username
        &&& crate::paths::same_paths(self.identity_files, other.identity_files)
        &&& self.host_key_policy == other.host_key_policy
        &&& crate::paths::same_optional_path(self.known_hosts_file, other.known_hosts_file)
        &&& self.keepalive_interval == other.keepalive_interval
        &&& self.inactivity_timeout == other.inactivity_timeout
        &&& self.connect_timeout == other.connect_timeout
        &&& self.channel_open_timeout == other.channel_open_timeout
        &&& self.channel_request_timeout == other.channel_request_timeout
        &&& self.authentication_timeout == other.authentication_timeout
        &&& self.proxy_command == other.proxy_command
        &&& self.jump_hosts.len() == other.jump_hosts.len()
        &&& forall|i: int|
            0 <= i < self.jump_hosts.len() ==> (#[trigger] self.jump_hosts[i]).same(
                other.jump_hosts[i],
            )
        &&& self.agent_forwarding == other.agent_forwarding
    }
}

/// The OpenSSH settings that apply to one alias.
#[derive(Debug, PartialEq, Eq)]
pub struct OpenSshRecord {
    pub host_name: String,
    pub user: Option<String>,
    pub hostname: Option<String>,
    pub port: Option<u16>,
    pub identity_files: Vec<String>,
    pub known_hosts_file: Option<String>,
    pub proxy_command: Option<String>,
    pub proxy_jump: Option<String>,
    pub strict_host_key_checking: Option<bool>,
}

#[verifier::ext_equal]
pub struct OpenSshView {
    pub host_name: Seq<char>,
    pub user: Option<Seq<char>>,
    pub hostname: Option<Seq<char>>,
    pub port: Option<u16>,
    pub identity_files: Seq<Seq<char>>,
    pub known_hosts_file: Option<Seq<char>>,
    pub proxy_command: Option<Seq<char>>,
    pub proxy_jump: Option<Seq<char>>,
    pub strict_host_key_checking: Option<bool>,
}

impl View for OpenSshRecord {
    type V = OpenSshView;

    open spec fn view(&self) -> OpenSshView {
        OpenSshView {
            host_name: self.host_name@,
            user: crate::model::option_view(self.user),
            hostname: crate::model::option_view(self.hostname),
            port: self.port,
            identity_files: crate::text::views(self.identity_files@),
            known_hosts_file: crate::model::option_view(self.known_hosts_file),
            proxy_command: crate::model::option_view(self.proxy_command),
            proxy_jump: crate::model::option_view(self.proxy_jump),
            strict_host_key_checking: self.strict_host_key_checking,
        }
    }
}

impl OpenSshView {
    /// The settings that no home directory enters.
    pub open spec fn without_paths(self) -> OpenSshView {
        OpenSshView { identity_files: Seq::empty(), known_hosts_file: None, ..self }
    }

    /// The two differ at most in what a home directory enters: the texts of
    /// their paths, but not which paths there are.
    pub open spec fn differs_by_home(self, other: OpenSshView) -> bool {
        &&& self.without_paths() == other.without_paths()
        &&& self.identity_files.len() == other.identity_files.len()
        &&& self.known_hosts_file is Some == other.known_hosts_file is Some
    }

    pub open spec fn host(self) -> Seq<char> {
        match self.hostname {
            Some(h) => h,
            None => self.host_name,
        }
    }

    pub open spec fn effective_port(self) -> u16 {
        match self.port {
            Some(p) => p,
            None => 22,
        }
    }

    pub open spec fn effective_user(self, local_user: Seq<char>) -> Seq<char> {
        match self.user {
            Some(u) => u,
            None => local_user,
        }
    }
}

/// The settings of an alias that no configuration mentions.
pub open spec fn default_record(alias: Seq<char>) -> OpenSshView {
    OpenSshView {
        host_name: alias,
        user: None,
        hostname: None,
        port: None,
        identity_files: Seq::empty(),
        known_hosts_file: None,
        proxy_command: None,
        proxy_jump: None,
        strict_host_key_checking: None,
    }
}

/// The OpenSSH settings looked up so far, and the name of the local user.
#[derive(Debug, PartialEq, Eq)]
pub struct OpenSshBook {
    /// The local user, who logs in where no user is configured.
    pub local_user: String,
    /// Whether there is a user configuration at all.
    pub configured: bool,
    pub records: TextMap<OpenSshRecord>,
}

#[verifier::ext_equal]
pub struct BookView {
    pub local_user: Seq<char>,
    pub configured: bool,
    pub records: Seq<(Seq<char>, OpenSshView)>,
}

pub open spec fn openssh_view() -> spec_fn(OpenSshRecord) -> OpenSshView {
    |record: OpenSshRecord| record@
}

impl View for OpenSshBook {
    type V = BookView;

    open spec fn view(&self) -> BookView {
        BookView {
            local_user: self.local_user@,
            configured: self.configured,
            records: crate::text_map::map_entries(self.records.entries(), openssh_view()),
        }
    }
}

impl BookView {
    /// The settings of an alias, where they are known.
    pub open spec fn record(self, alias: Seq<char>) -> Option<OpenSshView> {
        if self.configured {
            crate::text_map::lookup(self.records, alias)
        } else {
            Some(default_record(alias))
        }
    }
}

impl OpenSshRecord {
    pub fn default_for(alias: &str) -> (r: Self)
        ensures
            r@ == default_record(alias@),
    {
        let r = OpenSshRecord {
            host_name: alias.to_owned(),
            user: None,
            hostname: None,
            port: None,
            identity_files: Vec::new(),
            known_hosts_file: None,
            proxy_command: None,
            proxy_jump: None,
            strict_host_key_checking: None,
        };
        assert(r@.identity_files =~= Seq::<Seq<char>>::empty());
        r
    }

    pub fn copy(&self) -> (r: Self)
        ensures
            r@ == self@,
    {
        OpenSshRecord {
            host_name: self.host_name.clone(),
            user: copy_option(&self.user),
            hostname: copy_option(&self.hostname),
            port: self.port,
            identity_files: copy_texts(&self.identity_files),
            known_hosts_file: copy_option(&self.known_hosts_file),
            proxy_command: copy_option(&self.proxy_command),
            proxy_jump: copy_option(&self.proxy_jump),
            strict_host_key_checking: self.strict_host_key_checking,
        }
    }

    /// The host to connect to.
    pub fn host(&self) -> (r: String)
        ensures
            r@ == self@.host(),
    {
        match &self.hostname {
            Some(h) => h.clone(),
            None => self.host_name.clone(),
        }
    }

    pub fn effective_port(&self) -> (r: u16)
        ensures
            r == self@.effective_port(),
    {
        match self.port {
            Some(p) => p,
            None => 22,
        }
    }

    pub fn effective_user(&self, local_user: &str) -> (r: String)
        ensures
            r@ == self@.effective_user(local_user@),
    {
        match &self.user {
            Some(u) => u.clone(),
            None => local_user.to_owned(),
        }
    }
}

impl OpenSshBook {
    /// The book of a user who has no OpenSSH configuration.
    pub fn unconfigured(local_user: &str) -> (r: Self)
        ensures
            r@.local_user == local_user@,
            !r@.configured,
            r@.records.len() == 0,
    {
        OpenSshBook { local_user: local_user.to_owned(), configured: false, records: TextMap::new() }
    }

    /// The book of a user whose configuration has not been looked into.
    pub fn unread(local_user: &str) -> (r: Self)
        ensures
            r@.local_user == local_user@,
            r@.configured,
            r@.records.len() == 0,
    {
        OpenSshBook { local_user: local_user.to_owned(), configured: true, records: TextMap::new() }
    }

    /// Notes the settings of an alias.
    pub fn note(&mut self, alias: &str, record: OpenSshRecord)
        ensures
            final(self)@.local_user == old(self)@.local_user,
            final(self)@.configured == old(self)@.configured,
            final(self)@.records == crate::text_map::put(old(self)@.records, alias@, record@),
    {
        self.records.recall_order();
        proof {
            crate::text_map::lemma_map_entries(self.records.entries(), openssh_view(), alias@);
        }
        self.records.insert(alias.to_owned(), record);
    }

    pub fn record(&self, alias: &str) -> (r: Result<OpenSshRecord, ConfigError>)
        ensures
            match r {
                Ok(record) => self@.record(alias@) == Some(record@),
                Err(e) => self@.record(alias@) is None && e@ == config_fault(
                    ConfigProblem::Unread,
                    alias@,
                ),
            },
    {
        if !self.configured {
            return Ok(OpenSshRecord::default_for(alias));
        }
        self.records.recall_order();
        proof {
            crate::text_map::lemma_map_entries(self.records.entries(), openssh_view(), alias@);
        }
        match self.records.get(alias) {
            Some(record) => Ok(record.copy()),
            None => Err(config_error(ConfigProblem::Unread, alias)),
        }
    }
}

/// The line may set a path: it is no comment and starts with another letter
/// than `Host` and `Port` lines do.
pub open spec fn may_set_path(line: Seq<char>) -> bool {
    let s = crate::text::trim_start(line);
    s.len() > 0 && s[0] != '#' && s[0] != 'h' && s[0] != 'H' && s[0] != 'p' && s[0] != 'P'
}

pub open spec fn has_path_line(contents: Seq<char>) -> bool {
    exists|i: int|
        0 <= i < crate::text::lines(contents).len() && may_set_path(
            #[trigger] crate::text::lines(contents)[i],
        )
}

/// A home directory can be asked for: `~/` stands in the text, and some line
/// may set a path.
pub open spec fn asks_home(contents: Seq<char>) -> bool {
    crate::text::has_text(contents, seq!['~', '/']) && has_path_line(contents)
}

/// The error of `russh_config::parse`. Nothing is claimed of what is in it.
#[verifier::external_type_specification]
#[verifier::external_body]
pub struct ExRusshConfigError(russh_config::Error);

/// Characters that a pattern of a `Host` line may have.
pub const MAX_PATTERN_CHARS: usize = 16384;

/// Braces of a pattern of a `Host` line that may be open at once.
pub const MAX_PATTERN_BRACES: usize = 80;

/// How many braces are open at once, at most, where so many are open before the
/// text. A brace that is closed behind a `[` or a backslash counts as open: it
/// may be a plain character there.
pub open spec fn deepest(s: Seq<char>, open: nat, plain: bool) -> nat
    decreases s.len(),
{
    if s.len() == 0 {
        open
    } else {
        let next = if s[0] == '{' {
            open + 1
        } else if s[0] == '}' && plain && open > 0 {
            (open - 1) as nat
        } else {
            open
        };
        let rest = deepest(s.drop_first(), next, plain && s[0] != '[' && s[0] != '\\');
        if rest < open {
            open
        } else {
            rest
        }
    }
}

/// The pattern is small enough to be made into a matcher.
pub open spec fn pattern_fits(pattern: Seq<char>) -> bool {
    pattern.len() <= MAX_PATTERN_CHARS && deepest(pattern, 0, true) <= MAX_PATTERN_BRACES
}

/// The patterns of a line, where its first word, up to a space, is `Host`.
pub open spec fn host_patterns(line: Seq<char>) -> Seq<Seq<char>> {
    let s = crate::text::trim(line);
    let p = crate::text::position(s, ' ');
    if p < s.len() && crate::text::same_ignoring_case(s.take(p), "host"@) {
        crate::text::words(s.skip(p + 1))
    } else {
        Seq::empty()
    }
}

pub open spec fn line_fits(line: Seq<char>) -> bool {
    forall|k: int|
        0 <= k < host_patterns(line).len() ==> pattern_fits(#[trigger] host_patterns(line)[k])
}

/// All patterns of the text are small enough to be made into matchers.
pub open spec fn patterns_fit(contents: Seq<char>) -> bool {
    forall|i: int|
        0 <= i < crate::text::lines(contents).len() ==> line_fits(
            #[trigger] crate::text::lines(contents)[i],
        )
}

fn small_pattern(pattern: &str) -> (r: bool)
    ensures
        r == pattern_fits(pattern@),
{
    let chars = chars_of(pattern);
    if chars.len() > MAX_PATTERN_CHARS {
        return false;
    }
    let mut open: usize = 0;
    let mut plain = true;
    let mut i: usize = 0;
    assert(pattern@.skip(0) =~= pattern@);
    while i < chars.len()
        invariant
            chars@ == pattern@,
            i <= chars@.len() <= MAX_PATTERN_CHARS,
            open <= MAX_PATTERN_BRACES,
            (deepest(pattern@, 0, true) <= MAX_PATTERN_BRACES) == (deepest(
                pattern@.skip(i as int),
                open as nat,
                plain,
            ) <= MAX_PATTERN_BRACES),
        decreases chars@.len() - i,
    {
        let ghost rest = pattern@.skip(i as int);
        assert(rest[0] == chars@[i as int]);
        assert(rest.drop_first() =~= pattern@.skip(i + 1));
        let c = chars[i];
        if c == '{' {
            if open == MAX_PATTERN_BRACES {
                proof {
                    lemma_deepest(rest.drop_first(), (open + 1) as nat, plain);
                }
                return false;
            }
            open += 1;
        } else if c == '}' && plain && open > 0 {
            open -= 1;
        }
        plain = plain && c != '[' && c != '\\';
        i += 1;
    }
    assert(pattern@.skip(i as int).len() == 0);
    true
}

proof fn lemma_deepest(s: Seq<char>, open: nat, plain: bool)
    ensures
        deepest(s, open, plain) >= open,
{
}

fn small_line(line: &str) -> (r: bool)
    ensures
        r == line_fits(line@),
{
    let text = trimmed(line);
    let chars = chars_of(text.as_str());
    let p = position_from(chars.as_slice(), ' ', 0);
    assert(chars@.skip(0) =~= chars@);
    if p == chars.len() {
        return true;
    }
    let word = text_between(chars.as_slice(), 0, p);
    assert(word@ =~= text@.take(p as int));
    if !equal_ignoring_case(word.as_str(), "host") {
        return true;
    }
    let rest = text_between(chars.as_slice(), p + 1, chars.len());
    assert(rest@ =~= text@.skip(p + 1));
    let patterns = words_of(rest.as_str());
    let ghost all = host_patterns(line@);
    let mut i: usize = 0;
    while i < patterns.len()
        invariant
            all == crate::text::views(patterns@),
            all == host_patterns(line@),
            i <= patterns@.len(),
            forall|k: int| 0 <= k < i ==> pattern_fits(#[trigger] all[k]),
        decreases patterns@.len() - i,
    {
        assert(all[i as int] == patterns@[i as int]@);
        if !small_pattern(patterns[i].as_str()) {
            assert(!pattern_fits(host_patterns(line@)[i as int]));
            return false;
        }
        i += 1;
    }
    true
}

/// Whether all patterns of the text are small enough to be made into matchers.
pub fn has_small_patterns(contents: &str) -> (r: bool)
    ensures
        r == patterns_fit(contents@),
{
    let all = lines_of(contents);
    let ghost views = crate::text::lines(contents@);
    let mut i: usize = 0;
    while i < all.len()
        invariant
            views == crate::text::views(all@),
            views == crate::text::lines(contents@),
            i <= all@.len(),
            forall|k: int| 0 <= k < i ==> line_fits(#[trigger] views[k]),
        decreases all@.len() - i,
    {
        assert(views[i as int] == all@[i as int]@);
        if !small_line(all[i].as_str()) {
            assert(!line_fits(crate::text::lines(contents@)[i as int]));
            return false;
        }
        i += 1;
    }
    true
}

/// What `russh_config::parse` finds for a host in a configuration text, where
/// the environment names this home directory, or none.
pub uninterp spec fn openssh_lookup(
    contents: Seq<char>,
    host: Seq<char>,
    home: Option<Seq<char>>,
) -> Option<OpenSshView>;

/// `russh_config::parse` reads a configuration text and collects the settings
/// of the `Host` blocks that match. `IdentityFile` and `UserKnownHostsFile`
/// values that begin with `~/` are joined to the home directory of the
/// environment, and where there is none the text is refused. So what is found
/// is what there is to find with the home directory of the moment, whichever
/// that is; a home directory enters only the texts of paths, and only where one
/// is asked for; and a text that is read without one is always read. The host
/// itself is handed back unchanged.
///
/// Each pattern of a `Host` line is made into a regular expression, and the
/// parser panics where that fails: for groups nested beyond 250 levels, of which
/// a brace that is open takes up to three, and for an automaton of more than ten
/// mebibytes, of which a character takes some hundreds of bytes at most. Small
/// patterns stay clear of both. (Which of the larger ones fail is known only
/// once the expression is built.)
#[verifier::external_body]
pub(crate) fn parse_settings(contents: &str, host: &str) -> (r: Result<OpenSshRecord, russh_config::Error>)
    requires
        patterns_fit(contents@),
    ensures
        match r {
            Ok(record) => {
                &&& record@.host_name == host@
                &&& exists|home: Option<Seq<char>>|
                    #[trigger] openssh_lookup(contents@, host@, home) == Some(record@)
                &&& forall|home: Seq<char>|
                    (#[trigger] openssh_lookup(contents@, host@, Some(home))) matches Some(found)
                        && found.differs_by_home(record@)
            },
            Err(_) => openssh_lookup(contents@, host@, None) is None,
        },
        !asks_home(contents@) ==> forall|home: Option<Seq<char>>|
            (match r {
                Ok(record) => #[trigger] openssh_lookup(contents@, host@, home) == Some(record@),
                Err(_) => openssh_lookup(contents@, host@, home) is None,
            }),
{
    let parsed = russh_config::parse(contents, host)?;
    let found = parsed.host_config;
    let files = found.identity_file.unwrap_or_default();
    Ok(OpenSshRecord {
        host_name: parsed.host_name,
        user: found.user,
        hostname: found.hostname,
        port: found.port,
        identity_files: files.iter().map(|f| f.to_string_lossy().into_owned()).collect(),
        known_hosts_file: found.user_known_hosts_file.map(|f| f.to_string_lossy().into_owned()),
        proxy_command: found.proxy_command,
        proxy_jump: found.proxy_jump,
        strict_host_key_checking: found.strict_host_key_checking,
    })
}

/// The word that starts a line, up to white space or `=`.
pub open spec fn first_word(s: Seq<char>) -> Seq<char>
    decreases s.len(),
{
    if s.len() == 0 || crate::text::is_ascii_whitespace(s[0]) || s[0] == '=' {
        Seq::empty()
    } else {
        seq![s[0]] + first_word(s.drop_first())
    }
}

/// The line holds a directive that only an expanded configuration may lack.
pub open spec fn is_structural(line: Seq<char>) -> bool {
    let rest = crate::text::trim_start(line);
    let word = first_word(rest);
    rest.len() > 0 && rest[0] != '#' && (crate::text::same_ignoring_case(word, "match"@)
        || crate::text::same_ignoring_case(word, "include"@))
}

/// Some line of the text is a `Match` or `Include` directive.
pub open spec fn has_structural(contents: Seq<char>) -> bool {
    exists|i: int|
        0 <= i < crate::text::lines(contents).len() && is_structural(
            #[trigger] crate::text::lines(contents)[i],
        )
}

fn first_word_of(s: &str) -> (r: String)
    ensures
        r@ == first_word(s@),
{
    let chars = chars_of(s);
    let mut out = String::new();
    let mut i: usize = 0;
    assert(s@.skip(0) =~= s@);
    assert(out@ + first_word(s@) =~= first_word(s@));
    while i < chars.len() && !(crate::text::ascii_whitespace(chars[i]) || chars[i] == '=')
        invariant
            chars@ == s@,
            i <= chars@.len(),
            first_word(s@) == out@ + first_word(s@.skip(i as int)),
        decreases chars@.len() - i,
    {
        let ghost before = out@;
        out.push(chars[i]);
        proof {
            let rest = s@.skip(i as int);
            assert(rest.drop_first() =~= s@.skip(i + 1));
            assert(out@ + first_word(s@.skip(i + 1)) =~= before + (seq![rest[0]] + first_word(
                s@.skip(i + 1),
            )));
        }
        i += 1;
    }
    assert(out@ + Seq::<char>::empty() =~= out@);
    out
}

fn structural_line(line: &str) -> (r: bool)
    ensures
        r == is_structural(line@),
{
    let rest = trimmed_start(line);
    let chars = chars_of(rest.as_str());
    if chars.len() == 0 || chars[0] == '#' {
        return false;
    }
    let word = first_word_of(rest.as_str());
    equal_ignoring_case(word.as_str(), "match") || equal_ignoring_case(word.as_str(), "include")
}

/// Refuses a text that still holds `Match` or `Include` directives: with them
/// the settings could be resolved only in part.
pub fn reject_unsupported_structural_directives(contents: &str) -> (r: Result<(), ConfigError>)
    ensures
        match r {
            Ok(()) => !has_structural(contents@),
            Err(e) => has_structural(contents@) && e@.problem
                == ConfigProblem::StructuralDirective,
        },
{
    let all = lines_of(contents);
    let ghost views = crate::text::lines(contents@);
    let mut i: usize = 0;
    while i < all.len()
        invariant
            views == crate::text::views(all@),
            views == crate::text::lines(contents@),
            i <= all@.len(),
            forall|k: int| 0 <= k < i ==> !is_structural(#[trigger] views[k]),
        decreases all@.len() - i,
    {
        assert(views[i as int] == all@[i as int]@);
        if structural_line(all[i].as_str()) {
            assert(is_structural(crate::text::lines(contents@)[i as int]));
            return Err(config_error(ConfigProblem::StructuralDirective, all[i].as_str()));
        }
        i += 1;
    }
    Ok(())
}

/// The settings that an expanded configuration gives to an alias. Paths below
/// the home directory are those of the moment.
pub fn parse_openssh_contents(contents: &str, alias: &str) -> (r: Result<
    OpenSshRecord,
    ConfigError,
>)
    ensures
        match r {
            Ok(record) => {
                &&& !has_structural(contents@)
                &&& patterns_fit(contents@)
                &&& record@.host_name == alias@
                &&& exists|home: Option<Seq<char>>|
                    #[trigger] openssh_lookup(contents@, alias@, home) == Some(record@)
                &&& forall|home: Seq<char>|
                    (#[trigger] openssh_lookup(contents@, alias@, Some(home))) matches Some(found)
                        && found.differs_by_home(record@)
                &&& !asks_home(contents@) ==> openssh_lookup(contents@, alias@, None) == Some(
                    record@,
                )
            },
            Err(e) => {
                ||| has_structural(contents@) && e@.problem == ConfigProblem::StructuralDirective
                ||| !has_structural(contents@) && e@ == config_fault(
                    ConfigProblem::Malformed,
                    alias@,
                ) && (!patterns_fit(contents@) || openssh_lookup(contents@, alias@, None) is None)
            },
        },
{
    reject_unsupported_structural_directives(contents)?;
    if !has_small_patterns(contents) {
        return Err(config_error(ConfigProblem::Malformed, alias));
    }
    match parse_settings(contents, alias) {
        Ok(record) => Ok(record),
        Err(_) => Err(config_error(ConfigProblem::Malformed, alias)),
    }
}

pub open spec fn policy_of(strict: Option<bool>) -> HostKeyPolicy {
    match strict {
        Some(true) => HostKeyPolicy::Strict,
        Some(false) => HostKeyPolicy::Insecure,
        None => HostKeyPolicy::AcceptNew,
    }
}

pub fn host_key_policy_from_config(strict: Option<bool>) -> (r: HostKeyPolicy)
    ensures
        r == policy_of(strict),
{
    match strict {
        Some(true) => HostKeyPolicy::Strict,
        Some(false) => HostKeyPolicy::Insecure,
        None => HostKeyPolicy::AcceptNew,
    }
}

/// A character that a shell would act on.
pub open spec fn is_shell_active(c: char) -> bool {
    c == '\'' || c == '`' || c == '"' || c == '$' || c == '\\' || c == ';' || c == '&' || c == '<'
        || c == '>' || c == '|' || c == '(' || c == ')' || c == '{' || c == '}'
}

pub open spec fn is_unsafe_token_char(c: char) -> bool {
    crate::text::is_whitespace(c) || crate::text::is_control(c) || is_shell_active(c)
}

pub open spec fn has_unsafe_char(value: Seq<char>) -> bool {
    exists|i: int| 0 <= i < value.len() && is_unsafe_token_char(#[trigger] value[i])
}

pub open spec fn token_fault(value: Seq<char>, role: Seq<char>) -> Option<ConfigFault> {
    if value.len() == 0 {
        Some(config_fault(ConfigProblem::TokenEmpty, role))
    } else if value[0] == '-' {
        Some(config_fault(ConfigProblem::TokenDash, role))
    } else if has_unsafe_char(value) {
        Some(config_fault(ConfigProblem::TokenActive, role))
    } else {
        None
    }
}

fn shell_active(c: char) -> (r: bool)
    ensures
        r == is_shell_active(c),
{
    c == '\'' || c == '`' || c == '"' || c == '$' || c == '\\' || c == ';' || c == '&' || c == '<'
        || c == '>' || c == '|' || c == '(' || c == ')' || c == '{' || c == '}'
}

/// A value that may be put into a proxy command without quoting.
pub fn validate_untrusted_shell_token(value: &str, role: &str) -> (r: Result<(), ConfigError>)
    ensures
        reports(r, token_fault(value@, role@)),
{
    let chars = chars_of(value);
    if chars.len() == 0 {
        return Err(config_error(ConfigProblem::TokenEmpty, role));
    }
    if chars[0] == '-' {
        return Err(config_error(ConfigProblem::TokenDash, role));
    }
    let mut i: usize = 0;
    while i < chars.len()
        invariant
            chars@ == value@,
            i <= chars@.len(),
            value@.len() > 0,
            value@[0] != '-',
            forall|k: int| 0 <= k < i ==> !is_unsafe_token_char(#[trigger] value@[k]),
        decreases chars@.len() - i,
    {
        let c = chars[i];
        if whitespace(c) || control(c) || shell_active(c) {
            assert(is_unsafe_token_char(value@[i as int]));
            return Err(config_error(ConfigProblem::TokenActive, role));
        }
        i += 1;
    }
    Ok(())
}

pub open spec fn has_blank(value: Seq<char>) -> bool {
    exists|i: int|
        0 <= i < value.len() && (crate::text::is_whitespace(#[trigger] value[i])
            || crate::text::is_control(value[i]))
}

fn any_blank(value: &str) -> (r: bool)
    ensures
        r == has_blank(value@),
{
    let chars = chars_of(value);
    let mut i: usize = 0;
    while i < chars.len()
        invariant
            chars@ == value@,
            i <= chars@.len(),
            forall|k: int|
                0 <= k < i ==> !(crate::text::is_whitespace(#[trigger] value@[k])
                    || crate::text::is_control(value@[k])),
        decreases chars@.len() - i,
    {
        if whitespace(chars[i]) || control(chars[i]) {
            assert(crate::text::is_whitespace(value@[i as int]) || crate::text::is_control(
                value@[i as int],
            ));
            return true;
        }
        i += 1;
    }
    false
}

/// What a jump specification names: a user, where it gives one, and the host
/// with its port.
pub open spec fn jump_destination(spec: Seq<char>) -> Result<
    (Option<Seq<char>>, Seq<char>),
    ConfigFault,
> {
    let is_uri = "ssh://"@.is_prefix_of(spec);
    let destination = if is_uri {
        spec.skip(6)
    } else {
        spec
    };
    let p = crate::text::position(destination, '@');
    if is_uri && destination.len() == 0 {
        Err(config_fault(ConfigProblem::UriEmpty, spec))
    } else if is_uri && (destination.contains('/') || destination.contains('?')
        || destination.contains('#')) {
        Err(config_fault(ConfigProblem::UriPath, spec))
    } else if !is_uri && crate::text::has_text(spec, "://"@) {
        Err(config_fault(ConfigProblem::UriScheme, spec))
    } else if p >= destination.len() {
        Ok((None, destination))
    } else if destination.skip(p + 1).contains('@') {
        Err(config_fault(ConfigProblem::ManyAt, spec))
    } else if p == 0 {
        Err(config_fault(ConfigProblem::UserEmpty, spec))
    } else if p + 1 == destination.len() {
        Err(config_fault(ConfigProblem::HostEmpty, spec))
    } else {
        Ok((Some(destination.take(p)), destination.skip(p + 1)))
    }
}

/// Splits a jump specification into user and host with port.
pub fn parse_jump_destination(spec: &str) -> (r: Result<(Option<String>, String), ConfigError>)
    ensures
        match r {
            Ok((user, rest)) => jump_destination(spec@) == Ok::<
                (Option<Seq<char>>, Seq<char>),
                ConfigFault,
            >((crate::model::option_view(user), rest@)),
            Err(e) => jump_destination(spec@) == Err::<
                (Option<Seq<char>>, Seq<char>),
                ConfigFault,
            >(e@),
        },
{
    proof {
        reveal_strlit("ssh://");
    }
    let all = chars_of(spec);
    let is_uri = starts_with(spec, "ssh://");
    let destination = if is_uri {
        let rest = text_between(all.as_slice(), 6, all.len());
        assert(rest@ =~= spec@.skip(6));
        rest
    } else {
        spec.to_owned()
    };
    let dest = destination.as_str();
    if is_uri {
        if dest.is_empty() {
            return Err(config_error(ConfigProblem::UriEmpty, spec));
        }
        if contains_char(dest, '/') || contains_char(dest, '?') || contains_char(dest, '#') {
            return Err(config_error(ConfigProblem::UriPath, spec));
        }
    } else if contains_text(spec, "://") {
        return Err(config_error(ConfigProblem::UriScheme, spec));
    }
    let chars = chars_of(dest);
    let p = position_from(chars.as_slice(), '@', 0);
    assert(destination@.skip(0) =~= destination@);
    if p == chars.len() {
        return Ok((None, destination));
    }
    let rest = text_between(chars.as_slice(), p + 1, chars.len());
    assert(rest@ =~= destination@.skip(p + 1));
    if contains_char(rest.as_str(), '@') {
        return Err(config_error(ConfigProblem::ManyAt, spec));
    }
    if p == 0 {
        return Err(config_error(ConfigProblem::UserEmpty, spec));
    }
    if p + 1 == chars.len() {
        return Err(config_error(ConfigProblem::HostEmpty, spec));
    }
    let user = text_between(chars.as_slice(), 0, p);
    assert(user@ =~= destination@.take(p as int));
    Ok((Some(user), rest))
}

/// Host and port of `[address]` or `[address]:port`, after the bracket.
pub open spec fn bracketed_host_port(rest: Seq<char>, value: Seq<char>) -> Result<
    (Seq<char>, Option<u16>),
    ConfigFault,
> {
    let p = crate::text::position(rest, ']');
    let host = rest.take(p);
    let suffix = rest.skip(p + 1);
    if p >= rest.len() {
        Err(config_fault(ConfigProblem::BracketOpen, value))
    } else if host.len() == 0 {
        Err(config_fault(ConfigProblem::BracketEmpty, value))
    } else if !crate::net::is_ipv6(host) {
        Err(config_fault(ConfigProblem::BadIpv6, value))
    } else if suffix.len() == 0 {
        Ok((host, None))
    } else if suffix[0] != ':' {
        Err(config_fault(ConfigProblem::BadSuffix, value))
    } else if suffix.len() == 1 {
        Err(config_fault(ConfigProblem::PortEmpty, value))
    } else {
        match crate::text::parse_unsigned(suffix.skip(1), u16::MAX as nat) {
            Some(n) => Ok((host, Some(n as u16))),
            None => Err(config_fault(ConfigProblem::BadPort, value)),
        }
    }
}

/// Host and port of a jump destination.
pub open spec fn host_port(value: Seq<char>) -> Result<(Seq<char>, Option<u16>), ConfigFault> {
    let p = crate::text::position(value, ':');
    if value.len() == 0 {
        Err(config_fault(ConfigProblem::HostEmpty, value))
    } else if has_blank(value) {
        Err(config_fault(ConfigProblem::HostCharacters, value))
    } else if value[0] == '[' {
        bracketed_host_port(value.skip(1), value)
    } else if value.contains('[') || value.contains(']') {
        Err(config_fault(ConfigProblem::BracketPlacement, value))
    } else if p >= value.len() {
        Ok((value, None))
    } else if value.skip(p + 1).contains(':') {
        if crate::net::is_ipv6(value) {
            Ok((value, None))
        } else {
            Err(config_fault(ConfigProblem::BadIpv6, value))
        }
    } else if p == 0 {
        Err(config_fault(ConfigProblem::HostEmpty, value))
    } else if p + 1 == value.len() {
        Err(config_fault(ConfigProblem::PortEmpty, value))
    } else if !crate::text::all_digits(value.skip(p + 1)) {
        Err(config_fault(ConfigProblem::BadPort, value))
    } else {
        match crate::text::parse_unsigned(value.skip(p + 1), u16::MAX as nat) {
            Some(n) => Ok((value.take(p), Some(n as u16))),
            None => Err(config_fault(ConfigProblem::BadPort, value)),
        }
    }
}

fn parse_bracketed(rest: &str, value: &str) -> (r: Result<(String, Option<u16>), ConfigError>)
    ensures
        match r {
            Ok((host, port)) => bracketed_host_port(rest@, value@) == Ok::<
                (Seq<char>, Option<u16>),
                ConfigFault,
            >((host@, port)),
            Err(e) => bracketed_host_port(rest@, value@) == Err::<
                (Seq<char>, Option<u16>),
                ConfigFault,
            >(e@),
        },
{
    let chars = chars_of(rest);
    let p = position_from(chars.as_slice(), ']', 0);
    assert(rest@.skip(0) =~= rest@);
    if p == chars.len() {
        return Err(config_error(ConfigProblem::BracketOpen, value));
    }
    let host = text_between(chars.as_slice(), 0, p);
    assert(host@ =~= rest@.take(p as int));
    if p == 0 {
        return Err(config_error(ConfigProblem::BracketEmpty, value));
    }
    if !crate::net::ipv6(host.as_str()) {
        return Err(config_error(ConfigProblem::BadIpv6, value));
    }
    let ghost suffix = rest@.skip(p + 1);
    if p + 1 == chars.len() {
        return Ok((host, None));
    }
    assert(suffix[0] == chars@[p + 1]);
    if chars[p + 1] != ':' {
        return Err(config_error(ConfigProblem::BadSuffix, value));
    }
    if p + 2 == chars.len() {
        return Err(config_error(ConfigProblem::PortEmpty, value));
    }
    let port = text_between(chars.as_slice(), p + 2, chars.len());
    assert(port@ =~= suffix.skip(1));
    match parse_number(port.as_str(), 65535) {
        Some(n) => Ok((host, Some(n as u16))),
        None => Err(config_error(ConfigProblem::BadPort, value)),
    }
}

fn digits_only(s: &str) -> (r: bool)
    ensures
        r == crate::text::all_digits(s@),
{
    let chars = chars_of(s);
    let mut i: usize = 0;
    while i < chars.len()
        invariant
            chars@ == s@,
            i <= chars@.len(),
            forall|k: int| 0 <= k < i ==> crate::text::is_ascii_digit(#[trigger] s@[k]),
        decreases chars@.len() - i,
    {
        if !crate::text::ascii_digit(chars[i]) {
            assert(!crate::text::is_ascii_digit(s@[i as int]));
            return false;
        }
        i += 1;
    }
    true
}

/// Splits a jump destination into host and port.
pub fn parse_host_port(value: &str) -> (r: Result<(String, Option<u16>), ConfigError>)
    ensures
        match r {
            Ok((host, port)) => host_port(value@) == Ok::<(Seq<char>, Option<u16>), ConfigFault>(
                (host@, port),
            ),
            Err(e) => host_port(value@) == Err::<(Seq<char>, Option<u16>), ConfigFault>(e@),
        },
{
    if value.is_empty() {
        return Err(config_error(ConfigProblem::HostEmpty, value));
    }
    if any_blank(value) {
        return Err(config_error(ConfigProblem::HostCharacters, value));
    }
    let chars = chars_of(value);
    if chars[0] == '[' {
        let rest = text_between(chars.as_slice(), 1, chars.len());
        assert(rest@ =~= value@.skip(1));
        return parse_bracketed(rest.as_str(), value);
    }
    if contains_char(value, '[') || contains_char(value, ']') {
        return Err(config_error(ConfigProblem::BracketPlacement, value));
    }
    let p = position_from(chars.as_slice(), ':', 0);
    assert(value@.skip(0) =~= value@);
    if p == chars.len() {
        return Ok((value.to_owned(), None));
    }
    let port = text_between(chars.as_slice(), p + 1, chars.len());
    assert(port@ =~= value@.skip(p + 1));
    if contains_char(port.as_str(), ':') {
        if crate::net::ipv6(value) {
            return Ok((value.to_owned(), None));
        }
        return Err(config_error(ConfigProblem::BadIpv6, value));
    }
    if p == 0 {
        return Err(config_error(ConfigProblem::HostEmpty, value));
    }
    if p + 1 == chars.len() {
        return Err(config_error(ConfigProblem::PortEmpty, value));
    }
    if !digits_only(port.as_str()) {
        return Err(config_error(ConfigProblem::BadPort, value));
    }
    let host = text_between(chars.as_slice(), 0, p);
    assert(host@ =~= value@.take(p as int));
    match parse_number(port.as_str(), 65535) {
        Some(n) => Ok((host, Some(n as u16))),
        None => Err(config_error(ConfigProblem::BadPort, value)),
    }
}

/// The jump host that one hop of a jump specification stands for.
pub open spec fn jump_host_of(spec: Seq<char>, untrusted: bool, book: BookView) -> Result<
    JumpHostView,
    ConfigFault,
> {
    if has_blank(spec) {
        Err(config_fault(ConfigProblem::HopCharacters, spec))
    } else {
        match jump_destination(spec) {
            Err(e) => Err(e),
            Ok((user, rest)) => match host_port(rest) {
                Err(e) => Err(e),
                Ok((alias, port)) => if untrusted && token_fault(alias, "ProxyJump host"@) is Some {
                    Err(token_fault(alias, "ProxyJump host"@)->0)
                } else if untrusted && user is Some && token_fault(
                    user->0,
                    "ProxyJump username"@,
                ) is Some {
                    Err(token_fault(user->0, "ProxyJump username"@)->0)
                } else {
                    match book.record(alias) {
                        None => Err(config_fault(ConfigProblem::Unread, alias)),
                        Some(record) => Ok(
                            JumpHostView {
                                alias,
                                host: record.host(),
                                port: match port {
                                    Some(p) => p,
                                    None => record.effective_port(),
                                },
                                username: match user {
                                    Some(u) => u,
                                    None => record.effective_user(book.local_user),
                                },
                                identity_files: record.identity_files,
                                host_key_policy: policy_of(record.strict_host_key_checking),
                                known_hosts_file: record.known_hosts_file,
                            },
                        ),
                    }
                },
            },
        }
    }
}

/// The jump hosts of the hops from index `i` on, after `done`.
pub open spec fn jump_hosts_from(
    done: Seq<JumpHostView>,
    hops: Seq<Seq<char>>,
    i: int,
    untrusted: bool,
    book: BookView,
) -> Result<Seq<JumpHostView>, ConfigFault>
    decreases hops.len() - i,
{
    if i < 0 || i >= hops.len() {
        Ok(done)
    } else {
        match jump_host_of(hops[i], untrusted, book) {
            Err(e) => Err(e),
            Ok(jump) => jump_hosts_from(done.push(jump), hops, i + 1, untrusted, book),
        }
    }
}

/// The hops of a jump specification, without surrounding white space.
pub open spec fn hop_texts(spec: Seq<char>) -> Seq<Seq<char>> {
    crate::text::split(spec, ',').map_values(|hop: Seq<char>| crate::text::trim(hop))
}

pub open spec fn has_empty_hop(hops: Seq<Seq<char>>) -> bool {
    exists|i: int| 0 <= i < hops.len() && (#[trigger] hops[i]).len() == 0
}

pub open spec fn has_none_hop(hops: Seq<Seq<char>>) -> bool {
    exists|i: int|
        0 <= i < hops.len() && crate::text::same_ignoring_case(#[trigger] hops[i], "none"@)
}

/// The jump route that a `ProxyJump` value stands for.
pub open spec fn jump_route(value: Seq<char>, untrusted: bool, book: BookView) -> Result<
    Seq<JumpHostView>,
    ConfigFault,
> {
    let spec = crate::text::trim(value);
    let hops = hop_texts(spec);
    if spec.len() == 0 || crate::text::same_ignoring_case(spec, "none"@) {
        Ok(Seq::empty())
    } else if has_empty_hop(hops) {
        Err(config_fault(ConfigProblem::EmptyHop, spec))
    } else if has_none_hop(hops) {
        Err(config_fault(ConfigProblem::CombinedNone, spec))
    } else if hops.len() > MAX_JUMP_HOPS {
        Err(config_fault(ConfigProblem::TooManyHops, spec))
    } else {
        jump_hosts_from(Seq::empty(), hops, 0, untrusted, book)
    }
}

fn resolve_jump_host(spec: &str, validate_untrusted: bool, book: &OpenSshBook) -> (r: Result<
    JumpHost,
    ConfigError,
>)
    ensures
        match r {
            Ok(jump) => jump_host_of(spec@, validate_untrusted, book@) == Ok::<
                JumpHostView,
                ConfigFault,
            >(jump@),
            Err(e) => jump_host_of(spec@, validate_untrusted, book@) == Err::<
                JumpHostView,
                ConfigFault,
            >(e@),
        },
{
    if any_blank(spec) {
        return Err(config_error(ConfigProblem::HopCharacters, spec));
    }
    let (user, rest) = parse_jump_destination(spec)?;
    let (alias, port) = parse_host_port(rest.as_str())?;
    if validate_untrusted {
        validate_untrusted_shell_token(alias.as_str(), "ProxyJump host")?;
        if let Some(username) = &user {
            validate_untrusted_shell_token(username.as_str(), "ProxyJump username")?;
        }
    }
    let record = book.record(alias.as_str())?;
    let host = record.host();
    let port = match port {
        Some(p) => p,
        None => record.effective_port(),
    };
    let username = match user {
        Some(u) => u,
        None => record.effective_user(book.local_user.as_str()),
    };
    let host_key_policy = host_key_policy_from_config(record.strict_host_key_checking);
    Ok(
        JumpHost {
            alias,
            host,
            port,
            username,
            identity_files: record.identity_files,
            host_key_policy,
            known_hosts_file: record.known_hosts_file,
        },
    )
}

fn split_hops(spec: &str) -> (r: Vec<String>)
    ensures
        crate::text::views(r@) == hop_texts(spec@),
{
    let parts = split_on(spec, ',');
    let mut hops: Vec<String> = Vec::new();
    let mut i: usize = 0;
    while i < parts.len()
        invariant
            crate::text::views(parts@) == crate::text::split(spec@, ','),
            i <= parts@.len(),
            hops@.len() == i,
            forall|k: int| 0 <= k < i ==> (#[trigger] hops@[k])@ == crate::text::trim(parts@[k]@),
        decreases parts@.len() - i,
    {
        hops.push(trimmed(parts[i].as_str()));
        i += 1;
    }
    proof {
        let split = crate::text::split(spec@, ',');
        assert forall|k: int| 0 <= k < hops@.len() implies (#[trigger] hops@[k])@
            == crate::text::trim(split[k]) by {
            assert(split[k] == crate::text::views(parts@)[k]);
        }
        assert(crate::text::views(hops@) =~= hop_texts(spec@));
    }
    hops
}

fn resolve_jump_hosts_internal(value: &str, validate_untrusted: bool, book: &OpenSshBook) -> (r:
    Result<Vec<JumpHost>, ConfigError>)
    ensures
        match r {
            Ok(jumps) => jump_route(value@, validate_untrusted, book@) == Ok::<
                Seq<JumpHostView>,
                ConfigFault,
            >(jump_views(jumps@)),
            Err(e) => jump_route(value@, validate_untrusted, book@) == Err::<
                Seq<JumpHostView>,
                ConfigFault,
            >(e@),
        },
{
    let spec = trimmed(value);
    let mut out: Vec<JumpHost> = Vec::new();
    assert(jump_views(out@) =~= Seq::<JumpHostView>::empty());
    if spec.as_str().is_empty() || equal_ignoring_case(spec.as_str(), "none") {
        return Ok(out);
    }
    let hops = split_hops(spec.as_str());
    let ghost texts = hop_texts(spec@);
    let mut i: usize = 0;
    let mut none = false;
    while i < hops.len()
        invariant
            texts == crate::text::views(hops@),
            texts == hop_texts(spec@),
            spec@ == crate::text::trim(value@),
            !(spec@.len() == 0 || crate::text::same_ignoring_case(spec@, "none"@)),
            i <= hops@.len(),
            forall|k: int| 0 <= k < i ==> (#[trigger] texts[k]).len() > 0,
            none == exists|k: int|
                0 <= k < i && crate::text::same_ignoring_case(#[trigger] texts[k], "none"@),
        decreases hops@.len() - i,
    {
        assert(texts[i as int] == hops@[i as int]@);
        if hops[i].as_str().is_empty() {
            return Err(config_error(ConfigProblem::EmptyHop, spec.as_str()));
        }
        if equal_ignoring_case(hops[i].as_str(), "none") {
            none = true;
        }
        i += 1;
    }
    if none {
        return Err(config_error(ConfigProblem::CombinedNone, spec.as_str()));
    }
    if hops.len() > MAX_JUMP_HOPS {
        return Err(config_error(ConfigProblem::TooManyHops, spec.as_str()));
    }
    let mut j: usize = 0;
    while j < hops.len()
        invariant
            texts == crate::text::views(hops@),
            jump_route(value@, validate_untrusted, book@) == jump_hosts_from(
                Seq::empty(),
                texts,
                0,
                validate_untrusted,
                book@,
            ),
            j <= hops@.len(),
            jump_hosts_from(Seq::empty(), texts, 0, validate_untrusted, book@) == jump_hosts_from(
                jump_views(out@),
                texts,
                j as int,
                validate_untrusted,
                book@,
            ),
        decreases hops@.len() - j,
    {
        assert(texts[j as int] == hops@[j as int]@);
        let jump = resolve_jump_host(hops[j].as_str(), validate_untrusted, book)?;
        let ghost before = out@;
        out.push(jump);
        assert(jump_views(out@) =~= jump_views(before).push(jump@));
        j += 1;
    }
    Ok(out)
}

/// Resolves a jump specification given by a user; each host and user in it
/// must be a plain token.
pub fn resolve_jump_hosts(spec: &str, book: &OpenSshBook) -> (r: Result<
    Vec<JumpHost>,
    ConfigError,
>)
    ensures
        match r {
            Ok(jumps) => jump_route(spec@, true, book@) == Ok::<Seq<JumpHostView>, ConfigFault>(
                jump_views(jumps@),
            ),
            Err(e) => jump_route(spec@, true, book@) == Err::<Seq<JumpHostView>, ConfigFault>(e@),
        },
{
    resolve_jump_hosts_internal(spec, true, book)
}

pub open spec fn option_str(value: Option<&str>) -> Option<Seq<char>> {
    match value {
        Some(s) => Some(s@),
        None => None,
    }
}

/// The configuration of an alias under the OpenSSH settings in the book.
pub open spec fn openssh_config(
    alias: Seq<char>,
    user: Option<Seq<char>>,
    port: Option<u16>,
    book: BookView,
) -> Result<ConfigView, ConfigFault> {
    if token_fault(alias, "SSH host"@) is Some {
        Err(token_fault(alias, "SSH host"@)->0)
    } else if user is Some && token_fault(user->0, "SSH username"@) is Some {
        Err(token_fault(user->0, "SSH username"@)->0)
    } else {
        match book.record(alias) {
            None => Err(config_fault(ConfigProblem::Unread, alias)),
            Some(record) => {
                let route = match record.proxy_jump {
                    Some(value) => jump_route(value, false, book),
                    None => Ok(Seq::empty()),
                };
                match route {
                    Err(e) => Err(e),
                    Ok(jumps) => Ok(
                        ConfigView {
                            alias,
                            port: match port {
                                Some(p) => p,
                                None => record.effective_port(),
                            },
                            identity_files: record.identity_files,
                            known_hosts_file: record.known_hosts_file,
                            proxy_command: if jumps.len() > 0 {
                                None
                            } else {
                                record.proxy_command
                            },
                            jump_hosts: jumps,
                            host_key_policy: policy_of(record.strict_host_key_checking),
                            ..default_config(
                                record.host(),
                                match user {
                                    Some(u) => u,
                                    None => record.effective_user(book.local_user),
                                },
                            )
                        },
                    ),
                }
            },
        }
    }
}

impl ConnectionConfig {
    pub fn new(host: &str, username: &str) -> (r: Self)
        ensures
            r@ == default_config(host@, username@),
    {
        let r = ConnectionConfig {
            alias: host.to_owned(),
            host: host.to_owned(),
            port: 22,
            username: username.to_owned(),
            identity_files: Vec::new(),
            host_key_policy: HostKeyPolicy::AcceptNew,
            known_hosts_file: None,
            keepalive_interval: Some(Span::from_secs(DEFAULT_KEEPALIVE_SECS)),
            inactivity_timeout: None,
            connect_timeout: Span::from_secs(DEFAULT_CONNECT_SECS),
            channel_open_timeout: Span::from_secs(DEFAULT_CHANNEL_OPEN_SECS),
            channel_request_timeout: Span::from_secs(DEFAULT_CHANNEL_REQUEST_SECS),
            authentication_timeout: Span::from_secs(DEFAULT_AUTHENTICATION_SECS),
            proxy_command: None,
            jump_hosts: Vec::new(),
            agent_forwarding: false,
        };
        assert(r@.identity_files =~= Seq::<Seq<char>>::empty());
        assert(r@.jump_hosts =~= Seq::<JumpHostView>::empty());
        r
    }

    pub fn copy(&self) -> (r: Self)
        ensures
            r@ == self@,
    {
        ConnectionConfig {
            alias: self.alias.clone(),
            host: self.host.clone(),
            port: self.port,
            username: self.username.clone(),
            identity_files: copy_texts(&self.identity_files),
            host_key_policy: self.host_key_policy,
            known_hosts_file: copy_option(&self.known_hosts_file),
            keepalive_interval: self.keepalive_interval,
            inactivity_timeout: self.inactivity_timeout,
            connect_timeout: self.connect_timeout,
            channel_open_timeout: self.channel_open_timeout,
            channel_request_timeout: self.channel_request_timeout,
            authentication_timeout: self.authentication_timeout,
            proxy_command: copy_option(&self.proxy_command),
            jump_hosts: copy_jumps(&self.jump_hosts),
            agent_forwarding: self.agent_forwarding,
        }
    }

    /// Tells whether two configurations describe the same transport.
    pub fn same(&self, other: &ConnectionConfig) -> (r: bool)
        ensures
            r == self@.same(other@),
    {
        if !(self.alias == other.alias && self.host == other.host && self.port == other.port
            && self.username == other.username && crate::paths::path_lists_match(
            &self.identity_files,
            &other.identity_files,
        ) && self.host_key_policy == other.host_key_policy && crate::paths::optional_paths_match(
            &self.known_hosts_file,
            &other.known_hosts_file,
        )) {
            return false;
        }
        if !(same_span_option(&self.keepalive_interval, &other.keepalive_interval)
            && same_span_option(&self.inactivity_timeout, &other.inactivity_timeout)
            && self.connect_timeout == other.connect_timeout && self.channel_open_timeout
            == other.channel_open_timeout && self.channel_request_timeout
            == other.channel_request_timeout && self.authentication_timeout
            == other.authentication_timeout) {
            return false;
        }
        if !same_text_option(&self.proxy_command, &other.proxy_command) {
            return false;
        }
        if self.agent_forwarding != other.agent_forwarding {
            return false;
        }
        if self.jump_hosts.len() != other.jump_hosts.len() {
            return false;
        }
        let mut i: usize = 0;
        while i < self.jump_hosts.len()
            invariant
                self.jump_hosts@.len() == other.jump_hosts@.len(),
                i <= self.jump_hosts@.len(),
                forall|k: int|
                    0 <= k < i ==> (#[trigger] self@.jump_hosts[k]).same(other@.jump_hosts[k]),
            decreases self.jump_hosts@.len() - i,
        {
            assert(self@.jump_hosts[i as int] == self.jump_hosts@[i as int]@);
            assert(other@.jump_hosts[i as int] == other.jump_hosts@[i as int]@);
            if !self.jump_hosts[i].same(&other.jump_hosts[i]) {
                assert(!self@.jump_hosts[i as int].same(other@.jump_hosts[i as int]));
                return false;
            }
            i += 1;
        }
        true
    }

    /// Resolves an alias under the OpenSSH settings in the book. An effective
    /// jump route wins over a proxy command, which is then dropped.
    pub fn from_openssh(
        alias: &str,
        username_override: Option<&str>,
        port_override: Option<u16>,
        book: &OpenSshBook,
    ) -> (r: Result<Self, ConfigError>)
        ensures
            match r {
                Ok(config) => openssh_config(
                    alias@,
                    option_str(username_override),
                    port_override,
                    book@,
                ) == Ok::<ConfigView, ConfigFault>(config@),
                Err(e) => openssh_config(
                    alias@,
                    option_str(username_override),
                    port_override,
                    book@,
                ) == Err::<ConfigView, ConfigFault>(e@),
            },
    {
        validate_untrusted_shell_token(alias, "SSH host")?;
        if let Some(username) = username_override {
            validate_untrusted_shell_token(username, "SSH username")?;
        }
        let record = book.record(alias)?;
        let username = match username_override {
            Some(u) => u.to_owned(),
            None => record.effective_user(book.local_user.as_str()),
        };
        let host = record.host();
        let mut config = ConnectionConfig::new(host.as_str(), username.as_str());
        config.alias = alias.to_owned();
        config.port =
        match port_override {
            Some(p) => p,
            None => record.effective_port(),
        };
        config.host_key_policy = host_key_policy_from_config(record.strict_host_key_checking);
        match &record.proxy_jump {
            Some(value) => {
                config.jump_hosts = resolve_jump_hosts_internal(value.as_str(), false, book)?;
            },
            None => {},
        }
        if config.jump_hosts.len() == 0 {
            config.proxy_command = record.proxy_command;
        }
        config.identity_files = record.identity_files;
        config.known_hosts_file = record.known_hosts_file;
        Ok(config)
    }

    /// Routes the connection through the given jump hosts alone.
    pub fn with_proxy_jump(self, spec: &str, book: &OpenSshBook) -> (r: Result<Self, ConfigError>)
        ensures
            match r {
                Ok(config) => jump_route(spec@, true, book@) is Ok && config@ == (ConfigView {
                    jump_hosts: jump_route(spec@, true, book@)->Ok_0,
                    proxy_command: None,
                    ..self@
                }),
                Err(e) => jump_route(spec@, true, book@) == Err::<
                    Seq<JumpHostView>,
                    ConfigFault,
                >(e@),
            },
    {
        let mut config = self;
        config.jump_hosts = resolve_jump_hosts(spec, book)?;
        config.proxy_command = None;
        Ok(config)
    }

    /// The configuration as it may be shown: a proxy command appears as a
    /// route, never with its text.
    pub fn snapshot(&self) -> (r: ConnectionConfigSnapshot)
        ensures
            r@ == self@.snapshot(),
    {
        let route = if self.jump_hosts.len() > 0 {
            ConnectionRouteSnapshot::ProxyJump(copy_jumps(&self.jump_hosts))
        } else if self.proxy_command.is_some() {
            ConnectionRouteSnapshot::ProxyCommand
        } else {
            ConnectionRouteSnapshot::Direct
        };
        ConnectionConfigSnapshot {
            alias: self.alias.clone(),
            host: self.host.clone(),
            port: self.port,
            username: self.username.clone(),
            identity_files: copy_texts(&self.identity_files),
            host_key_policy: self.host_key_policy,
            known_hosts_file: copy_option(&self.known_hosts_file),
            keepalive_interval: self.keepalive_interval,
            inactivity_timeout: self.inactivity_timeout,
            route,
            agent_forwarding: self.agent_forwarding,
        }
    }

    pub fn validate_timeouts(&self) -> (r: Result<(), ConfigError>)
        ensures
            reports(r, self@.timeout_fault()),
    {
        if self.connect_timeout.is_zero() {
            return Err(config_error(ConfigProblem::ConnectTimeout, "SSH connect timeout"));
        }
        if self.channel_open_timeout.is_zero() {
            return Err(config_error(ConfigProblem::ChannelOpenTimeout, "SSH channel-open timeout"));
        }
        if self.channel_request_timeout.is_zero() {
            return Err(
                config_error(ConfigProblem::ChannelRequestTimeout, "SSH channel request timeout"),
            );
        }
        if self.authentication_timeout.is_zero() {
            return Err(
                config_error(ConfigProblem::AuthenticationTimeout, "SSH authentication timeout"),
            );
        }
        Ok(())
    }
}

fn same_span_option(a: &Option<Span>, b: &Option<Span>) -> (r: bool)
    ensures
        r == (*a == *b),
{
    match (a, b) {
        (Some(x), Some(y)) => x.secs == y.secs && x.nanos == y.nanos,
        (None, None) => true,
        _ => false,
    }
}

pub fn same_text_option(a: &Option<String>, b: &Option<String>) -> (r: bool)
    ensures
        r == (crate::model::option_view(*a) == crate::model::option_view(*b)),
{
    match (a, b) {
        (Some(x), Some(y)) => same_text(x.as_str(), y.as_str()),
        (None, None) => true,
        _ => false,
    }
}

/// Two configurations that differ only in the text of the proxy command have
/// the same snapshot: the text never shows.
pub proof fn snapshot_hides_proxy_command(config: ConfigView, other: Seq<char>)
    requires
        config.proxy_command is Some,
    ensures
        (ConfigView { proxy_command: Some(other), ..config }).snapshot() == config.snapshot(),
{
}

/// A configuration resolved from OpenSSH settings never has a jump route and a
/// proxy command at once.
pub proof fn openssh_route_is_unambiguous(
    alias: Seq<char>,
    user: Option<Seq<char>>,
    port: Option<u16>,
    book: BookView,
)
    ensures
        openssh_config(alias, user, port, book) matches Ok(config) ==> config.jump_hosts.len() == 0
            || config.proxy_command is None,
{
}

proof fn lemma_jump_hosts_bound(
    done: Seq<JumpHostView>,
    hops: Seq<Seq<char>>,
    i: int,
    untrusted: bool,
    book: BookView,
)
    requires
        0 <= i <= hops.len(),
    ensures
        jump_hosts_from(done, hops, i, untrusted, book) matches Ok(jumps) ==> jumps.len()
            == done.len() + hops.len() - i,
    decreases hops.len() - i,
{
    if i < hops.len() {
        match jump_host_of(hops[i], untrusted, book) {
            Ok(jump) => lemma_jump_hosts_bound(done.push(jump), hops, i + 1, untrusted, book),
            Err(_) => {},
        }
    }
}

/// No jump route has more hops than the limit.
pub proof fn jump_routes_are_bounded(value: Seq<char>, untrusted: bool, book: BookView)
    ensures
        jump_route(value, untrusted, book) matches Ok(jumps) ==> jumps.len() <= MAX_JUMP_HOPS,
{
    lemma_jump_hosts_bound(Seq::empty(), hop_texts(crate::text::trim(value)), 0, untrusted, book);
}

} // verus!
