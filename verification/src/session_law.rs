//! Laws of a session: how it is reached, who is asked for what, and what comes
//! of its output.

use vstd::prelude::*;

use crate::auth::AttemptView;
use crate::auth::AuthOutcome;
use crate::auth::AuthStepView;
use crate::auth::AuthView;
use crate::client::ChannelEventView;
use crate::client::OutputView;
use crate::client::TransportView;
use crate::command::CommandView;
use crate::config::ConfigView;
use crate::config::JumpHostView;
use crate::connect::AuthenticationKind;

verus! {

/// The steps of a connection are its jump hosts in their order and then the host
/// itself, each under its own name, at its own port and as its own user. The
/// policy and the known hosts are those of the connection.
pub proof fn steps_follow_the_route(config: ConfigView, i: int)
    requires
        0 <= i < config.jump_hosts.len(),
    ensures
        ({
            let steps = crate::client::connect_steps(config);
            let n = config.jump_hosts.len() as int;
            let jump = config.jump_hosts[i];
            &&& steps.len() == n + 1
            &&& steps[i].alias == jump.alias && steps[i].host == jump.host && steps[i].port
                == jump.port && steps[i].username == jump.username
            &&& steps[i].identity_files == jump.identity_files
            &&& steps[i].host_key_policy == config.host_key_policy
            &&& steps[i].known_hosts_file == config.known_hosts_file
            &&& steps[i].through_previous == (i > 0)
        }),
{
}

/// The last step goes to the host itself, through a jump host where there is
/// one.
pub proof fn the_last_step_is_the_host(config: ConfigView)
    ensures
        ({
            let last = crate::client::connect_steps(config)[config.jump_hosts.len() as int];
            &&& last.alias == config.alias && last.host == config.host && last.port == config.port
                && last.username == config.username
            &&& last.identity_files == config.identity_files
            &&& last.host_key_policy == config.host_key_policy
            &&& last.known_hosts_file == config.known_hosts_file
            &&& last.through_previous == (config.jump_hosts.len() > 0)
        }),
{
}

/// Jump hosts go before a proxy command, and the word `none` in its place stands
/// for no command.
pub proof fn transports_follow_the_route(config: ConfigView)
    ensures
        ({
            let transport = crate::client::transport_of(config);
            let jumps = config.jump_hosts.len() > 0;
            &&& jumps == (transport == TransportView::Jumps)
            &&& (!jumps && config.proxy_command is None) == (transport == TransportView::Direct)
            &&& !jumps && config.proxy_command is Some ==> {
                if crate::text::same_ignoring_case(config.proxy_command->0, seq!['n', 'o', 'n', 'e']) {
                    transport == TransportView::ProxyDisabled
                } else {
                    transport == TransportView::Proxy(
                        crate::client::proxy_line(config.proxy_command->0, config),
                    )
                }
            }
        }),
{
    reveal_strlit("none");
    assert("none"@ =~= seq!['n', 'o', 'n', 'e']);
}

/// In a proxy command `%h` stands for the host, `%p` for the port, `%r` for the
/// user, `%n` for the alias and `%%` for a percent sign.
pub proof fn proxy_commands_name_the_connection(rest: Seq<char>, config: ConfigView)
    ensures
        crate::client::proxy_line(seq!['%', 'h'] + rest, config) == config.host
            + crate::client::proxy_line(rest, config),
        crate::client::proxy_line(seq!['%', 'p'] + rest, config) == crate::text::decimal(
            config.port as nat,
        ) + crate::client::proxy_line(rest, config),
        crate::client::proxy_line(seq!['%', 'r'] + rest, config) == config.username
            + crate::client::proxy_line(rest, config),
        crate::client::proxy_line(seq!['%', 'n'] + rest, config) == config.alias
            + crate::client::proxy_line(rest, config),
        crate::client::proxy_line(seq!['%', '%'] + rest, config) == seq!['%']
            + crate::client::proxy_line(rest, config),
{
    assert((seq!['%', 'h'] + rest).skip(2) =~= rest);
    assert((seq!['%', 'p'] + rest).skip(2) =~= rest);
    assert((seq!['%', 'r'] + rest).skip(2) =~= rest);
    assert((seq!['%', 'n'] + rest).skip(2) =~= rest);
    assert((seq!['%', '%'] + rest).skip(2) =~= rest);
}

/// Text without a percent sign stays as it is in a proxy command.
pub proof fn other_text_of_proxy_commands_stays(
    text: Seq<char>,
    rest: Seq<char>,
    config: ConfigView,
)
    requires
        !text.contains('%'),
    ensures
        crate::client::proxy_line(text + rest, config) == text + crate::client::proxy_line(
            rest,
            config,
        ),
    decreases text.len(),
{
    if text.len() > 0 {
        let all = text + rest;
        assert(all[0] == text[0] && text.contains(text[0]));
        assert(all.skip(1) =~= text.skip(1) + rest);
        assert(!text.skip(1).contains('%')) by {
            if text.skip(1).contains('%') {
                let i = choose|i: int| 0 <= i < text.skip(1).len() && text.skip(1)[i] == '%';
                assert(text[i + 1] == '%');
            }
        }
        other_text_of_proxy_commands_stays(text.skip(1), rest, config);
        assert(seq![text[0]] + (text.skip(1) + crate::client::proxy_line(rest, config)) =~= text
            + crate::client::proxy_line(rest, config));
    } else {
        assert(text + rest =~= rest);
        assert(text + crate::client::proxy_line(rest, config) =~= crate::client::proxy_line(
            rest,
            config,
        ));
    }
}

/// What comes is added to the output or to the error output, and the last status
/// is kept.
pub proof fn output_is_gathered(output: OutputView, event: ChannelEventView)
    ensures
        ({
            let after = crate::client::output_after(output, event);
            &&& after.stdout == (match event {
                ChannelEventView::Data(data) => output.stdout + data,
                _ => output.stdout,
            })
            &&& after.stderr == (match event {
                ChannelEventView::ExtendedData(data) => output.stderr + data,
                _ => output.stderr,
            })
            &&& after.exit_status == (match event {
                ChannelEventView::ExitStatus(status) => Some(status),
                _ => output.exit_status,
            })
        }),
        crate::client::no_output().stdout.len() == 0,
        crate::client::no_output().stderr.len() == 0,
        crate::client::no_output().exit_status is None,
{
}

/// A way of authenticating that is given is tried once. Where none is given the
/// agent is tried first, and then each key in its order.
pub proof fn attempts_follow_what_is_given(auth: AuthView, place: nat)
    ensures
        auth is Password || auth is KeyboardInteractive || auth is PrivateKey || auth is Agent
            ==> (auth.attempt(place) is Some) == (place == 0),
        auth is Password ==> auth.attempt(0) == Some(AttemptView::Password),
        auth is KeyboardInteractive ==> auth.attempt(0) == Some(AttemptView::KeyboardInteractive),
        auth is Agent ==> auth.attempt(0) == Some(AttemptView::Agent),
        auth matches AuthView::PrivateKey { path, .. } ==> auth.attempt(0) == Some(
            AttemptView::PrivateKey(path),
        ),
        auth matches AuthView::Auto { identity_files, .. } ==> {
            &&& auth.attempt(0) == Some(AttemptView::Agent)
            &&& 0 < place <= identity_files.len() ==> auth.attempt(place) == Some(
                AttemptView::PrivateKey(identity_files[place - 1]),
            )
            &&& place > identity_files.len() ==> auth.attempt(place) is None
        },
{
}

/// A success ends the attempts. A failure ends them where the way was given; else,
/// as after a refusal, the next one is tried, and where there is none the whole is
/// refused.
pub proof fn attempts_go_on_until_success(auth: AuthView, tried: nat, last: Option<AuthOutcome>)
    ensures
        (last == Some(AuthOutcome::Accepted)) == (auth.step(tried, last)
            == AuthStepView::Authenticated),
        (last == Some(AuthOutcome::Failed) && !(auth is Auto)) == (auth.step(tried, last)
            == AuthStepView::Failed),
        last != Some(AuthOutcome::Accepted) && (last != Some(AuthOutcome::Failed) || auth is Auto)
            ==> match auth.attempt(tried) {
            Some(attempt) => auth.step(tried, last) == AuthStepView::Try(attempt),
            None => auth.step(tried, last) == AuthStepView::Refused,
        },
{
}

/// A session that was opened with one key serves a request for the same key; one
/// of the agent serves the agent; and one of several keys serves the same keys.
pub proof fn sessions_serve_the_same_keys(a: AuthView, b: AuthView)
    ensures
        a.reuse_key().serves(b.reuse_key()) == (match (a, b) {
            (
                AuthView::PrivateKey { path: x, .. },
                AuthView::PrivateKey { path: y, .. },
            ) => crate::paths::same_path(x, y),
            (AuthView::Agent, AuthView::Agent) => true,
            (
                AuthView::Auto { identity_files: x, .. },
                AuthView::Auto { identity_files: y, .. },
            ) => x.len() == y.len() && forall|i: int|
                0 <= i < x.len() ==> crate::paths::same_path(#[trigger] x[i], y[i]),
            _ => false,
        }),
{
}

/// Each way of authenticating is shown as what it is.
pub proof fn ways_are_shown_by_their_name(auth: AuthView)
    ensures
        crate::connect::kind_of(auth).name() == (match auth {
            AuthView::Password(_) => "password"@,
            AuthView::KeyboardInteractive(_) => "keyboard-interactive"@,
            AuthView::PrivateKey { .. } => "private-key"@,
            AuthView::Agent => "agent"@,
            AuthView::Auto { .. } => "auto"@,
        }),
        auth is Password == (crate::connect::kind_of(auth) == AuthenticationKind::Password),
        auth is Agent == (crate::connect::kind_of(auth) == AuthenticationKind::Agent),
        auth is Auto == (crate::connect::kind_of(auth) == AuthenticationKind::Auto),
        auth is PrivateKey == (crate::connect::kind_of(auth) == AuthenticationKind::PrivateKey),
{
}

/// A jump host is asked for credentials at most five times; every request says
/// which of them it is, and whether one was refused before. Without anybody to
/// ask only the first is answered, from the keys of the jump host.
pub proof fn jump_hosts_are_asked_five_times(
    jump: JumpHostView,
    index: nat,
    total: nat,
    refused: nat,
)
    ensures
        match crate::connect::jump_request(jump, index, total, refused) {
            Some(request) => {
                &&& refused < 5
                &&& request.index == index && request.total == total && request.jump == jump
                &&& request.attempt == refused + 1 && request.previous_failed == (refused > 0)
                &&& match crate::connect::automatic_answer(request) {
                    Some(answer) => refused == 0 && answer == (AuthView::Auto {
                        identity_files: jump.identity_files,
                        passphrase: None,
                    }),
                    None => refused > 0,
                }
            },
            None => refused >= 5,
        },
{
}

/// An endpoint ends with a colon and its port; the host before it stands in
/// brackets where it holds a colon and had none.
pub proof fn endpoints_end_with_their_port(host: Seq<char>, port: u16)
    ensures
        ({
            let text = crate::credentials::endpoint_text(host, port);
            let digits = crate::text::decimal(port as nat);
            let bracketed = host.len() > 0 && host[0] == '[' && host.last() == ']';
            &&& crate::text::parse_unsigned(digits, 65535) == Some(port as nat)
            &&& !host.contains(':') || bracketed ==> text == host + seq![':'] + digits
            &&& host.contains(':') && !bracketed ==> text == seq!['['] + host + seq![']', ':']
                + digits
        }),
{
    reveal_strlit("[");
    reveal_strlit("]:");
    reveal_strlit(":");
    assert("["@ =~= seq!['[']);
    assert("]:"@ =~= seq![']', ':']);
    assert(":"@ =~= seq![':']);
    crate::text_law::numbers_come_through(port as nat, 65535);
}

/// An account is the user at the endpoint.
pub proof fn accounts_name_user_and_endpoint(config: ConfigView)
    ensures
        crate::credentials::account_text(config) == config.username + seq!['@']
            + crate::credentials::endpoint_text(config.host, config.port),
{
    reveal_strlit("@");
    assert("@"@ =~= seq!['@']);
}

/// One more octal digit at the end makes a number eight times as large, and adds
/// the digit.
pub proof fn octal_digits_count_eightfold(n: nat, d: nat)
    requires
        n > 0,
        d < 8,
    ensures
        crate::text::octal(8 * n + d) == crate::text::octal(n).push(((48 + d) as u32) as char),
        crate::text::octal(d) == seq![((48 + d) as u32) as char],
{
    assert((8 * n + d) / 8 == n && (8 * n + d) % 8 == d) by (nonlinear_arith)
        requires
            d < 8,
    ;
}

proof fn lemma_octal_safe(n: nat)
    ensures
        crate::text::octal(n).len() > 0,
        crate::command::all_safe(crate::text::octal(n)),
    decreases n,
{
    let digit = crate::text::digit_char(n % 8);
    assert(crate::command::is_safe_char(digit));
    if n >= 8 {
        lemma_octal_safe(n / 8);
    } else {
        assert(n % 8 == n);
    }
}

/// The line that installs a file holds two commands. The first installs what was
/// staged beside its destination, with the mode asked for; the second, where
/// that succeeded, moves it there.
pub proof fn installing_moves_into_place(mode: u32, staging: Seq<char>, path: Seq<char>) -> (r: (
    Seq<char>,
    Seq<char>,
))
    ensures
        crate::privileged::install_line(mode, staging, path) == r.0 + " && "@ + r.1,
        crate::command::shell_words(r.0) == Some(
            seq![
                "install"@,
                "-m"@,
                crate::text::octal(mode as nat),
                "--"@,
                staging,
                path + ".kaduox.privileged.part"@,
            ],
        ),
        crate::command::shell_words(r.1) == Some(
            seq!["mv"@, "-f"@, "--"@, path + ".kaduox.privileged.part"@, path],
        ),
{
    let work = path + ".kaduox.privileged.part"@;
    let digits = crate::text::octal(mode as nat);
    lemma_octal_safe(mode as nat);
    lemma_install(digits, staging, work);
    lemma_move(work, path);
    let first = "install -m "@ + digits + " -- "@ + crate::command::posix_word(staging) + " "@
        + crate::command::posix_word(work);
    let second = "mv -f -- "@ + crate::command::posix_word(work) + " "@
        + crate::command::posix_word(path);
    reveal_strlit(" && mv -f -- ");
    reveal_strlit("mv -f -- ");
    reveal_strlit(" && ");
    assert(" && mv -f -- "@ =~= " && "@ + "mv -f -- "@);
    assert(crate::privileged::install_line(mode, staging, path) =~= first + " && "@ + second);
    (first, second)
}

#[verifier::rlimit(30)]
proof fn lemma_install(digits: Seq<char>, staging: Seq<char>, work: Seq<char>)
    requires
        digits.len() > 0,
        crate::command::all_safe(digits),
    ensures
        crate::command::shell_words(
            "install -m "@ + digits + " -- "@ + crate::command::posix_word(staging) + " "@
                + crate::command::posix_word(work),
        ) == Some(seq!["install"@, "-m"@, digits, "--"@, staging, work]),
{
    reveal_strlit("install -m ");
    reveal_strlit(" -- ");
    reveal_strlit(" ");
    reveal_strlit("install");
    reveal_strlit("-m");
    reveal_strlit("--");
    assert(crate::command::all_safe("install"@));
    assert(crate::command::all_safe("-m"@));
    assert(crate::command::all_safe("--"@));
    let command = CommandView {
        program: "install"@,
        arguments: seq!["-m"@, digits, "--"@, staging, work],
        environment: Seq::empty(),
        working_directory: None,
    };
    crate::command::rendered_command_keeps_its_words(command);
    let space = seq![' '];
    let a = command.arguments;
    assert(crate::command::posix_arguments(a, 5) =~= Seq::empty());
    assert(crate::command::posix_arguments(a, 4) =~= space + crate::command::posix_word(work));
    assert(crate::command::posix_arguments(a, 3) =~= space + crate::command::posix_word(staging)
        + space + crate::command::posix_word(work));
    let tail = crate::command::posix_arguments(a, 3);
    assert(crate::command::posix_arguments(a, 2) =~= space + "--"@ + tail);
    assert(crate::command::posix_arguments(a, 1) =~= space + digits + space + "--"@ + tail);
    assert(crate::command::posix_arguments(a, 0) =~= space + "-m"@ + space + digits + space + "--"@
        + tail);
    assert(command.posix() =~= "install"@ + crate::command::posix_arguments(a, 0));
    assert("install -m "@ =~= "install"@ + space + "-m"@ + space);
    assert(" -- "@ =~= space + "--"@ + space);
    assert(" "@ =~= space);
    assert(command.posix() =~= "install -m "@ + digits + " -- "@ + crate::command::posix_word(
        staging,
    ) + " "@ + crate::command::posix_word(work));
    assert(seq!["install"@] + a =~= seq!["install"@, "-m"@, digits, "--"@, staging, work]);
}

#[verifier::rlimit(30)]
proof fn lemma_move(work: Seq<char>, path: Seq<char>)
    ensures
        crate::command::shell_words(
            "mv -f -- "@ + crate::command::posix_word(work) + " "@ + crate::command::posix_word(
                path,
            ),
        ) == Some(seq!["mv"@, "-f"@, "--"@, work, path]),
{
    reveal_strlit("mv -f -- ");
    reveal_strlit(" ");
    reveal_strlit("mv");
    reveal_strlit("-f");
    reveal_strlit("--");
    assert(crate::command::all_safe("mv"@));
    assert(crate::command::all_safe("-f"@));
    assert(crate::command::all_safe("--"@));
    let command = CommandView {
        program: "mv"@,
        arguments: seq!["-f"@, "--"@, work, path],
        environment: Seq::empty(),
        working_directory: None,
    };
    crate::command::rendered_command_keeps_its_words(command);
    let space = seq![' '];
    let a = command.arguments;
    assert(crate::command::posix_arguments(a, 4) =~= Seq::empty());
    assert(crate::command::posix_arguments(a, 3) =~= space + crate::command::posix_word(path));
    assert(crate::command::posix_arguments(a, 2) =~= space + crate::command::posix_word(work)
        + space + crate::command::posix_word(path));
    let tail = crate::command::posix_arguments(a, 2);
    assert(crate::command::posix_arguments(a, 1) =~= space + "--"@ + tail);
    assert(crate::command::posix_arguments(a, 0) =~= space + "-f"@ + space + "--"@ + tail);
    assert(command.posix() =~= "mv"@ + crate::command::posix_arguments(a, 0));
    assert("mv -f -- "@ =~= "mv"@ + space + "-f"@ + space + "--"@ + space);
    assert(" "@ =~= space);
    assert(command.posix() =~= "mv -f -- "@ + crate::command::posix_word(work) + " "@
        + crate::command::posix_word(path));
    assert(seq!["mv"@] + a =~= seq!["mv"@, "-f"@, "--"@, work, path]);
}

} // verus!
