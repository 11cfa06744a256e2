//! Sessions on a connection: the route to the host, commands, and shells.

use vstd::prelude::*;
use vstd::string::*;

use crate::command::quote_posix;
use crate::config::ConfigView;
use crate::config::ConnectionConfig;
use crate::config::HostKeyPolicy;
use crate::model::copy_option;
use crate::model::copy_texts;
use crate::text::chars_of;
use crate::text::decimal_text;
use crate::text::equal_ignoring_case;
use crate::text::joined;

verus! {

/// Who runs a remote command.
#[derive(Debug, Clone, PartialEq, Eq)]
pub enum RemoteUser {
    Current,
    Sudo(String),
}

#[verifier::ext_equal]
pub enum RemoteUserView {
    Current,
    Sudo(Seq<char>),
}

impl View for RemoteUser {
    type V = RemoteUserView;

    open spec fn view(&self) -> RemoteUserView {
        match *self {
            RemoteUser::Current => RemoteUserView::Current,
            RemoteUser::Sudo(user) => RemoteUserView::Sudo(user@),
        }
    }
}

impl Default for RemoteUser {
    fn default() -> (r: Self)
        ensures
            r@ == RemoteUserView::Current,
    {
        RemoteUser::Current
    }
}

#[derive(Debug, Clone, PartialEq, Eq)]
pub struct TerminalSpec {
    pub term: String,
    pub columns: u32,
    pub rows: u32,
}

impl Default for TerminalSpec {
    fn default() -> (r: Self)
        ensures
            r.term@ == "xterm-256color"@,
            r.columns == 80,
            r.rows == 24,
    {
        TerminalSpec { term: "xterm-256color".to_owned(), columns: 80, rows: 24 }
    }
}

#[derive(Debug, Clone, Copy, PartialEq, Eq, Structural)]
pub struct TerminalSize {
    pub columns: u32,
    pub rows: u32,
}

/// The line that runs a command as a user.
pub open spec fn user_command(command: Seq<char>, user: RemoteUserView) -> Seq<char> {
    match user {
        RemoteUserView::Current => command,
        RemoteUserView::Sudo(name) => "sudo -n -u "@ + crate::command::posix_word(name)
            + " -- sh -lc "@ + crate::command::posix_word(command),
    }
}

pub fn command_for_user(command: &str, remote_user: &RemoteUser) -> (r: String)
    ensures
        r@ == user_command(command@, remote_user@),
{
    match remote_user {
        RemoteUser::Current => command.to_owned(),
        RemoteUser::Sudo(user) => {
            let name = quote_posix(user.as_str());
            let line = quote_posix(command);
            let mut out = "sudo -n -u ".to_owned();
            out.append(name.as_str());
            out.append(" -- sh -lc ");
            out.append(line.as_str());
            out
        },
    }
}

/// The line that starts a login shell of another user.
pub fn sudo_login_shell(user: &str) -> (r: String)
    ensures
        r@ == "sudo -iu "@ + crate::command::posix_word(user@),
{
    let name = quote_posix(user);
    joined("sudo -iu ", name.as_str())
}

/// What a command has written, and how it ended.
#[derive(Debug, Clone, PartialEq, Eq)]
pub struct CommandOutput {
    pub stdout: Vec<u8>,
    pub stderr: Vec<u8>,
    pub exit_status: Option<u32>,
}

#[verifier::ext_equal]
pub struct OutputView {
    pub stdout: Seq<u8>,
    pub stderr: Seq<u8>,
    pub exit_status: Option<u32>,
}

impl View for CommandOutput {
    type V = OutputView;

    open spec fn view(&self) -> OutputView {
        OutputView {
            stdout: self.stdout@,
            stderr: self.stderr@,
            exit_status: self.exit_status,
        }
    }
}

impl Default for CommandOutput {
    fn default() -> (r: Self)
        ensures
            r@ == no_output(),
    {
        let r = CommandOutput { stdout: Vec::new(), stderr: Vec::new(), exit_status: None };
        assert(r@ =~= no_output());
        r
    }
}

pub open spec fn no_output() -> OutputView {
    OutputView { stdout: Seq::empty(), stderr: Seq::empty(), exit_status: None }
}

/// What comes in on the channel of a command.
#[derive(Debug, PartialEq, Eq)]
pub enum ChannelEvent {
    Data(Vec<u8>),
    ExtendedData(Vec<u8>),
    ExitStatus(u32),
    Other,
}

#[verifier::ext_equal]
pub enum ChannelEventView {
    Data(Seq<u8>),
    ExtendedData(Seq<u8>),
    ExitStatus(u32),
    Other,
}

impl View for ChannelEvent {
    type V = ChannelEventView;

    open spec fn view(&self) -> ChannelEventView {
        match *self {
            ChannelEvent::Data(data) => ChannelEventView::Data(data@),
            ChannelEvent::ExtendedData(data) => ChannelEventView::ExtendedData(data@),
            ChannelEvent::ExitStatus(status) => ChannelEventView::ExitStatus(status),
            ChannelEvent::Other => ChannelEventView::Other,
        }
    }
}

/// The output after one more event.
pub open spec fn output_after(output: OutputView, event: ChannelEventView) -> OutputView {
    match event {
        ChannelEventView::Data(data) => OutputView { stdout: output.stdout + data, ..output },
        ChannelEventView::ExtendedData(data) => OutputView {
            stderr: output.stderr + data,
            ..output
        },
        ChannelEventView::ExitStatus(status) => OutputView { exit_status: Some(status), ..output },
        ChannelEventView::Other => output,
    }
}

fn append_bytes(out: &mut Vec<u8>, more: &Vec<u8>)
    ensures
        final(out)@ == old(out)@ + more@,
{
    let mut i: usize = 0;
    assert(old(out)@ + more@.take(0) =~= old(out)@);
    while i < more.len()
        invariant
            i <= more@.len(),
            out@ == old(out)@ + more@.take(i as int),
        decreases more@.len() - i,
    {
        out.push(more[i]);
        assert(more@.take(i + 1) =~= more@.take(i as int).push(more@[i as int]));
        i += 1;
    }
    assert(more@.take(i as int) =~= more@);
}

impl CommandOutput {
    /// Takes in what has come in on the channel.
    pub fn absorb(&mut self, event: &ChannelEvent)
        ensures
            final(self)@ == output_after(old(self)@, event@),
    {
        match event {
            ChannelEvent::Data(data) => append_bytes(&mut self.stdout, data),
            ChannelEvent::ExtendedData(data) => append_bytes(&mut self.stderr, data),
            ChannelEvent::ExitStatus(status) => self.exit_status = Some(*status),
            ChannelEvent::Other => {},
        }
    }
}

/// What happens in an interactive shell.
#[derive(Debug, PartialEq, Eq)]
pub enum ShellEvent {
    InputEnd,
    InputFailed,
    Input(Vec<u8>),
    Resize(TerminalSize),
    Output(Vec<u8>),
    ExitStatus(u32),
    ChannelClosed,
    Other,
}

/// What is done about it.
#[derive(Debug, PartialEq, Eq)]
pub enum ShellAction {
    SendEof,
    Send(Vec<u8>),
    ChangeWindow(TerminalSize),
    Write(Vec<u8>),
    Finish(Option<u32>),
    Fail,
    Nothing,
}

/// An interactive shell: whether its input has ended, and the exit status that
/// has been told.
#[derive(Debug, Clone, Copy, PartialEq, Eq, Structural)]
pub struct ShellSession {
    pub input_closed: bool,
    pub exit_status: Option<u32>,
}

impl ShellSession {
    pub fn new() -> (r: Self)
        ensures
            !r.input_closed,
            r.exit_status is None,
    {
        ShellSession { input_closed: false, exit_status: None }
    }

    /// Input is read until its end is met.
    pub fn reads_input(&self) -> (r: bool)
        ensures
            r == !self.input_closed,
    {
        !self.input_closed
    }

    /// What to do about an event.
    pub fn step(&mut self, event: ShellEvent) -> (r: ShellAction)
        ensures
            final(self).input_closed == (old(self).input_closed || event is InputEnd),
            final(self).exit_status == (match event {
                ShellEvent::ExitStatus(status) => Some(status),
                _ => old(self).exit_status,
            }),
            r == (match event {
                ShellEvent::InputEnd => ShellAction::SendEof,
                ShellEvent::InputFailed => ShellAction::Fail,
                ShellEvent::Input(data) => ShellAction::Send(data),
                ShellEvent::Resize(size) => ShellAction::ChangeWindow(size),
                ShellEvent::Output(data) => ShellAction::Write(data),
                ShellEvent::ChannelClosed => ShellAction::Finish(old(self).exit_status),
                _ => ShellAction::Nothing,
            }),
    {
        match event {
            ShellEvent::InputEnd => {
                self.input_closed = true;
                ShellAction::SendEof
            },
            ShellEvent::InputFailed => ShellAction::Fail,
            ShellEvent::Input(data) => ShellAction::Send(data),
            ShellEvent::Resize(size) => ShellAction::ChangeWindow(size),
            ShellEvent::Output(data) => ShellAction::Write(data),
            ShellEvent::ExitStatus(status) => {
                self.exit_status = Some(status);
                ShellAction::Nothing
            },
            ShellEvent::ChannelClosed => ShellAction::Finish(self.exit_status),
            ShellEvent::Other => ShellAction::Nothing,
        }
    }
}

/// What an escape in a proxy command stands for.
pub open spec fn proxy_token(c: char, config: ConfigView) -> Seq<char> {
    if c == '%' {
        seq!['%']
    } else if c == 'h' {
        config.host
    } else if c == 'p' {
        crate::text::decimal(config.port as nat)
    } else if c == 'r' {
        config.username
    } else if c == 'n' {
        config.alias
    } else {
        seq!['%', c]
    }
}

/// The proxy command with its escapes replaced.
pub open spec fn proxy_line(template: Seq<char>, config: ConfigView) -> Seq<char>
    decreases template.len(),
{
    if template.len() == 0 {
        Seq::empty()
    } else if template[0] != '%' {
        seq![template[0]] + proxy_line(template.skip(1), config)
    } else if template.len() == 1 {
        seq!['%']
    } else {
        proxy_token(template[1], config) + proxy_line(template.skip(2), config)
    }
}

/// Replaces the escapes `%h`, `%p`, `%r`, `%n` and `%%` of a proxy command.
pub fn expand_proxy_command(template: &str, config: &ConnectionConfig) -> (r: String)
    ensures
        r@ == proxy_line(template@, config@),
{
    let chars = chars_of(template);
    let mut out = String::new();
    let mut i: usize = 0;
    assert(template@.skip(0) =~= template@);
    assert(out@ + proxy_line(template@, config@) =~= proxy_line(template@, config@));
    while i < chars.len()
        invariant
            chars@ == template@,
            i <= chars@.len(),
            proxy_line(template@, config@) == out@ + proxy_line(template@.skip(i as int), config@),
        decreases chars@.len() - i,
    {
        let ghost rest = template@.skip(i as int);
        let ghost before = out@;
        assert(rest[0] == chars@[i as int]);
        if chars[i] != '%' {
            out.push(chars[i]);
            assert(rest.skip(1) =~= template@.skip(i + 1));
            assert(out@ + proxy_line(template@.skip(i + 1), config@) =~= before + proxy_line(
                rest,
                config@,
            ));
            i += 1;
        } else if i + 1 == chars.len() {
            out.push('%');
            assert(template@.skip(i + 1) =~= Seq::<char>::empty());
            assert(out@ + proxy_line(template@.skip(i + 1), config@) =~= before + proxy_line(
                rest,
                config@,
            ));
            i += 1;
        } else {
            let c = chars[i + 1];
            assert(rest[1] == c);
            if c == '%' {
                out.push('%');
            } else if c == 'h' {
                out.append(config.host.as_str());
            } else if c == 'p' {
                let number = decimal_text(config.port as u64);
                out.append(number.as_str());
            } else if c == 'r' {
                out.append(config.username.as_str());
            } else if c == 'n' {
                out.append(config.alias.as_str());
            } else {
                out.push('%');
                out.push(c);
            }
            assert(out@ =~= before + proxy_token(c, config@));
            assert(rest.skip(2) =~= template@.skip(i + 2));
            assert(out@ + proxy_line(template@.skip(i + 2), config@) =~= before + proxy_line(
                rest,
                config@,
            ));
            i += 2;
        }
    }
    assert(template@.skip(i as int) =~= Seq::<char>::empty());
    assert(out@ + Seq::<char>::empty() =~= out@);
    out
}

/// One SSH session on the way to a host: where it goes, whether it runs through
/// the session before it, and how its host key is checked.
#[derive(Debug, PartialEq, Eq)]
pub struct ConnectStep {
    pub alias: String,
    pub host: String,
    pub port: u16,
    pub username: String,
    pub through_previous: bool,
    pub host_key_policy: HostKeyPolicy,
    pub known_hosts_file: Option<String>,
    /// Files for the automatic authentication of a jump host.
    pub identity_files: Vec<String>,
}

#[verifier::ext_equal]
pub struct StepView {
    pub alias: Seq<char>,
    pub host: Seq<char>,
    pub port: u16,
    pub username: Seq<char>,
    pub through_previous: bool,
    pub host_key_policy: HostKeyPolicy,
    pub known_hosts_file: Option<Seq<char>>,
    pub identity_files: Seq<Seq<char>>,
}

impl View for ConnectStep {
    type V = StepView;

    open spec fn view(&self) -> StepView {
        StepView {
            alias: self.alias@,
            host: self.host@,
            port: self.port,
            username: self.username@,
            through_previous: self.through_previous,
            host_key_policy: self.host_key_policy,
            known_hosts_file: crate::model::option_view(self.known_hosts_file),
            identity_files: crate::text::views(self.identity_files@),
        }
    }
}

pub open spec fn step_views(steps: Seq<ConnectStep>) -> Seq<StepView> {
    steps.map_values(|s: ConnectStep| s@)
}

/// The session to jump host `i`. Host keys of all hops are checked as the
/// connection asks for.
pub open spec fn jump_step(config: ConfigView, i: int) -> StepView {
    let jump = config.jump_hosts[i];
    StepView {
        alias: jump.alias,
        host: jump.host,
        port: jump.port,
        username: jump.username,
        through_previous: i > 0,
        host_key_policy: config.host_key_policy,
        known_hosts_file: config.known_hosts_file,
        identity_files: jump.identity_files,
    }
}

/// The session to the host itself.
pub open spec fn final_step(config: ConfigView) -> StepView {
    StepView {
        alias: config.alias,
        host: config.host,
        port: config.port,
        username: config.username,
        through_previous: config.jump_hosts.len() > 0,
        host_key_policy: config.host_key_policy,
        known_hosts_file: config.known_hosts_file,
        identity_files: config.identity_files,
    }
}

pub open spec fn connect_steps(config: ConfigView) -> Seq<StepView> {
    Seq::new(config.jump_hosts.len(), |i: int| jump_step(config, i)).push(final_step(config))
}

/// The sessions to establish, one after the other: each jump host in turn, then
/// the host.
pub fn connection_steps(config: &ConnectionConfig) -> (r: Vec<ConnectStep>)
    ensures
        step_views(r@) == connect_steps(config@),
{
    let mut steps: Vec<ConnectStep> = Vec::new();
    let mut i: usize = 0;
    while i < config.jump_hosts.len()
        invariant
            i <= config.jump_hosts@.len(),
            steps@.len() == i,
            forall|k: int| 0 <= k < i ==> (#[trigger] steps@[k])@ == jump_step(config@, k),
        decreases config.jump_hosts@.len() - i,
    {
        let jump = &config.jump_hosts[i];
        assert(config@.jump_hosts[i as int] == jump@);
        steps.push(
            ConnectStep {
                alias: jump.alias.clone(),
                host: jump.host.clone(),
                port: jump.port,
                username: jump.username.clone(),
                through_previous: i > 0,
                host_key_policy: config.host_key_policy,
                known_hosts_file: copy_option(&config.known_hosts_file),
                identity_files: copy_texts(&jump.identity_files),
            },
        );
        i += 1;
    }
    steps.push(
        ConnectStep {
            alias: config.alias.clone(),
            host: config.host.clone(),
            port: config.port,
            username: config.username.clone(),
            through_previous: config.jump_hosts.len() > 0,
            host_key_policy: config.host_key_policy,
            known_hosts_file: copy_option(&config.known_hosts_file),
            identity_files: copy_texts(&config.identity_files),
        },
    );
    assert(step_views(steps@) =~= connect_steps(config@));
    steps
}

/// How the first session reaches its host.
#[derive(Debug, PartialEq, Eq)]
pub enum Transport {
    /// Over jump hosts, the first of which is reached directly.
    Jumps,
    /// Through the input and output of this command.
    Proxy(String),
    Direct,
    /// A proxy command is set to be none.
    ProxyDisabled,
}

#[verifier::ext_equal]
pub enum TransportView {
    Jumps,
    Proxy(Seq<char>),
    Direct,
    ProxyDisabled,
}

impl View for Transport {
    type V = TransportView;

    open spec fn view(&self) -> TransportView {
        match *self {
            Transport::Jumps => TransportView::Jumps,
            Transport::Proxy(line) => TransportView::Proxy(line@),
            Transport::Direct => TransportView::Direct,
            Transport::ProxyDisabled => TransportView::ProxyDisabled,
        }
    }
}

pub open spec fn transport_of(config: ConfigView) -> TransportView {
    if config.jump_hosts.len() > 0 {
        TransportView::Jumps
    } else {
        match config.proxy_command {
            Some(template) => if crate::text::same_ignoring_case(template, "none"@) {
                TransportView::ProxyDisabled
            } else {
                TransportView::Proxy(proxy_line(template, config))
            },
            None => TransportView::Direct,
        }
    }
}

/// Chooses how to reach the host: jump hosts win over a proxy command.
pub fn choose_transport(config: &ConnectionConfig) -> (r: Transport)
    ensures
        r@ == transport_of(config@),
{
    if config.jump_hosts.len() > 0 {
        return Transport::Jumps;
    }
    match &config.proxy_command {
        Some(template) => if equal_ignoring_case(template.as_str(), "none") {
            Transport::ProxyDisabled
        } else {
            Transport::Proxy(expand_proxy_command(template.as_str(), config))
        },
        None => Transport::Direct,
    }
}

/// Every session but the first runs through the one before it, and the last is
/// the host itself.
pub proof fn sessions_form_a_chain(config: ConfigView)
    ensures
        connect_steps(config).len() == config.jump_hosts.len() + 1,
        connect_steps(config).last() == final_step(config),
        forall|i: int|
            0 <= i < connect_steps(config).len() ==> (#[trigger] connect_steps(
                config,
            )[i]).through_previous == (i > 0),
{
}

/// A command for another user reaches that user's shell as it was given: the
/// words of the line are those of `sudo`, with the user and the command whole.
#[verifier::spinoff_prover]
#[verifier::rlimit(60)]
pub proof fn sudo_keeps_the_command_whole(command: Seq<char>, user: Seq<char>)
    ensures
        crate::command::shell_words(user_command(command, RemoteUserView::Sudo(user))) == Some(
            seq!["sudo"@, "-n"@, "-u"@, user, "--"@, "sh"@, "-lc"@, command],
        ),
{
    reveal_strlit("sudo -n -u ");
    reveal_strlit(" -- sh -lc ");
    reveal_strlit("sudo");
    reveal_strlit("-n");
    reveal_strlit("-u");
    reveal_strlit("--");
    reveal_strlit("sh");
    reveal_strlit("-lc");
    let words = seq!["-n"@, "-u"@, user, "--"@, "sh"@, "-lc"@, command];
    let spec = crate::command::CommandView {
        program: "sudo"@,
        arguments: words,
        environment: Seq::empty(),
        working_directory: None,
    };
    crate::command::rendered_command_keeps_its_words(spec);
    reveal_with_fuel(crate::command::posix_arguments, 8);
    assert(crate::command::all_safe("sudo"@));
    assert(crate::command::all_safe("-n"@));
    assert(crate::command::all_safe("-u"@));
    assert(crate::command::all_safe("--"@));
    assert(crate::command::all_safe("sh"@));
    assert(crate::command::all_safe("-lc"@));
    assert(spec.posix() =~= user_command(command, RemoteUserView::Sudo(user)));
    assert(seq!["sudo"@] + words =~= seq![
        "sudo"@,
        "-n"@,
        "-u"@,
        user,
        "--"@,
        "sh"@,
        "-lc"@,
        command,
    ]);
}

} // verus!
