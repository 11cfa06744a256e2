//! Remote commands: what may be in one, and how it is written for a shell.

use vstd::prelude::*;
use vstd::string::*;

use crate::text::ascii_alphanumeric;
use crate::text::ascii_letter;
use crate::text::chars_of;
use crate::text::contains_char;
use crate::text::equal_ignoring_case;
use crate::text::joined;
use crate::text::joined3;
use crate::text::same_text;
use crate::text::whitespace;

verus! {

/// A character that no shell gives a meaning of its own.
pub open spec fn is_safe_char(c: char) -> bool {
    crate::text::is_ascii_alphanumeric(c) || c == '_' || c == '+' || c == '-' || c == '.' || c == '/'
        || c == ':' || c == '@' || c == '%' || c == ',' || c == '='
}

pub open spec fn all_safe(s: Seq<char>) -> bool {
    forall|i: int| 0 <= i < s.len() ==> is_safe_char(#[trigger] s[i])
}

/// The text inside single quotes: a single quote closes them, stands in double
/// quotes, and opens them again.
pub open spec fn escaped_quotes(s: Seq<char>) -> Seq<char>
    decreases s.len(),
{
    if s.len() == 0 {
        Seq::empty()
    } else if s.last() == '\'' {
        escaped_quotes(s.drop_last()) + seq!['\'', '"', '\'', '"', '\'']
    } else {
        escaped_quotes(s.drop_last()).push(s.last())
    }
}

/// The text as one word of a POSIX shell.
pub open spec fn posix_word(s: Seq<char>) -> Seq<char> {
    if s.len() == 0 {
        seq!['\'', '\'']
    } else if all_safe(s) {
        s
    } else {
        seq!['\''] + escaped_quotes(s) + seq!['\'']
    }
}

fn safe_char(c: char) -> (r: bool)
    ensures
        r == is_safe_char(c),
{
    ascii_alphanumeric(c) || c == '_' || c == '+' || c == '-' || c == '.' || c == '/' || c == ':'
        || c == '@' || c == '%' || c == ',' || c == '='
}

/// Writes a text as one word of a POSIX shell.
pub fn quote_posix(value: &str) -> (r: String)
    ensures
        r@ == posix_word(value@),
{
    let chars = chars_of(value);
    let mut plain = true;
    let mut inner = String::new();
    let mut i: usize = 0;
    assert(value@.take(0) =~= Seq::<char>::empty());
    while i < chars.len()
        invariant
            chars@ == value@,
            i <= chars@.len(),
            plain == all_safe(value@.take(i as int)),
            inner@ == escaped_quotes(value@.take(i as int)),
        decreases chars@.len() - i,
    {
        let c = chars[i];
        let ghost head = value@.take(i + 1);
        assert(head.drop_last() =~= value@.take(i as int));
        assert(head.last() == c);
        let ghost before = inner@;
        if !safe_char(c) {
            assert(!is_safe_char(head[i as int]));
            plain = false;
        } else {
            assert(all_safe(head) == all_safe(value@.take(i as int))) by {
                assert forall|k: int| 0 <= k < i implies #[trigger] head[k] == value@.take(
                    i as int,
                )[k] by {}
                if all_safe(head) {
                    assert forall|k: int| 0 <= k < i implies is_safe_char(
                        #[trigger] value@.take(i as int)[k],
                    ) by {
                        assert(is_safe_char(head[k]));
                    }
                }
            }
        }
        if c == '\'' {
            inner.push('\'');
            inner.push('"');
            inner.push('\'');
            inner.push('"');
            inner.push('\'');
            assert(inner@ =~= before + seq!['\'', '"', '\'', '"', '\'']);
        } else {
            inner.push(c);
        }
        i += 1;
    }
    assert(value@.take(i as int) =~= value@);
    if value.is_empty() {
        let r = "''".to_owned();
        proof {
            reveal_strlit("''");
            assert("''"@ =~= seq!['\'', '\'']);
        }
        return r;
    }
    if plain {
        return value.to_owned();
    }
    proof {
        reveal_strlit("'");
        assert("'"@ =~= seq!['\'']);
    }
    joined3("'", inner.as_str(), "'")
}

/// The text with its double quotes doubled.
pub open spec fn doubled_quotes(s: Seq<char>) -> Seq<char>
    decreases s.len(),
{
    if s.len() == 0 {
        Seq::empty()
    } else if s.last() == '"' {
        doubled_quotes(s.drop_last()) + seq!['"', '"']
    } else {
        doubled_quotes(s.drop_last()).push(s.last())
    }
}

/// A character for which a word of the Windows command shell needs quotes.
pub open spec fn needs_cmd_quotes(c: char) -> bool {
    crate::text::is_whitespace(c) || c == '"' || c == '&' || c == '|' || c == '<' || c == '>' || c
        == '^'
}

pub open spec fn has_cmd_special(s: Seq<char>) -> bool {
    exists|i: int| 0 <= i < s.len() && needs_cmd_quotes(#[trigger] s[i])
}

/// The text as one word of the Windows command shell.
pub open spec fn cmd_word(s: Seq<char>) -> Seq<char> {
    if s.len() > 0 && !has_cmd_special(s) {
        s
    } else {
        seq!['"'] + doubled_quotes(s) + seq!['"']
    }
}

fn quote_cmd(token: &str) -> (r: String)
    ensures
        r@ == cmd_word(token@),
{
    let chars = chars_of(token);
    let mut special = false;
    let mut inner = String::new();
    let mut i: usize = 0;
    assert(token@.take(0) =~= Seq::<char>::empty());
    while i < chars.len()
        invariant
            chars@ == token@,
            i <= chars@.len(),
            special == exists|k: int| 0 <= k < i && needs_cmd_quotes(#[trigger] token@[k]),
            inner@ == doubled_quotes(token@.take(i as int)),
        decreases chars@.len() - i,
    {
        let c = chars[i];
        let ghost head = token@.take(i + 1);
        assert(head.drop_last() =~= token@.take(i as int));
        assert(head.last() == c);
        let ghost before = inner@;
        if whitespace(c) || c == '"' || c == '&' || c == '|' || c == '<' || c == '>' || c == '^' {
            assert(needs_cmd_quotes(token@[i as int]));
            special = true;
        }
        if c == '"' {
            inner.push('"');
            inner.push('"');
            assert(inner@ =~= before + seq!['"', '"']);
        } else {
            inner.push(c);
        }
        i += 1;
    }
    assert(token@.take(i as int) =~= token@);
    if !token.is_empty() && !special {
        return token.to_owned();
    }
    proof {
        reveal_strlit("\"");
        assert("\""@ =~= seq!['"']);
    }
    joined3("\"", inner.as_str(), "\"")
}

#[derive(Debug, Clone, Copy, PartialEq, Eq, Structural)]
pub enum CommandProblem {
    EmptyProgram,
    NulInProgram,
    NulInArgument,
    EmptyDirectory,
    NulInDirectory,
    EnvironmentName,
    DuplicateEnvironment,
    NulInEnvironment,
}

impl CommandProblem {
    pub open spec fn text(self) -> Seq<char> {
        match self {
            CommandProblem::EmptyProgram => "remote command program cannot be empty"@,
            CommandProblem::NulInProgram => "remote command program cannot contain NUL bytes"@,
            CommandProblem::NulInArgument => "remote command argument cannot contain NUL bytes"@,
            CommandProblem::EmptyDirectory => "remote working directory cannot be empty"@,
            CommandProblem::NulInDirectory => "remote working directory cannot contain NUL bytes"@,
            CommandProblem::EnvironmentName => "invalid remote environment variable name"@,
            CommandProblem::DuplicateEnvironment => "duplicate remote environment variable"@,
            CommandProblem::NulInEnvironment => "remote environment value cannot contain NUL bytes"@,
        }
    }

    pub fn message(self) -> (r: &'static str)
        ensures
            r@ == self.text(),
    {
        match self {
            CommandProblem::EmptyProgram => "remote command program cannot be empty",
            CommandProblem::NulInProgram => "remote command program cannot contain NUL bytes",
            CommandProblem::NulInArgument => "remote command argument cannot contain NUL bytes",
            CommandProblem::EmptyDirectory => "remote working directory cannot be empty",
            CommandProblem::NulInDirectory => "remote working directory cannot contain NUL bytes",
            CommandProblem::EnvironmentName => "invalid remote environment variable name",
            CommandProblem::DuplicateEnvironment => "duplicate remote environment variable",
            CommandProblem::NulInEnvironment => "remote environment value cannot contain NUL bytes",
        }
    }
}

#[derive(Debug, Clone, PartialEq, Eq)]
pub struct RemoteCommandSpec {
    pub program: String,
    pub arguments: Vec<String>,
    pub environment: Vec<(String, String)>,
    pub working_directory: Option<String>,
}

#[verifier::ext_equal]
pub struct CommandView {
    pub program: Seq<char>,
    pub arguments: Seq<Seq<char>>,
    pub environment: Seq<(Seq<char>, Seq<char>)>,
    pub working_directory: Option<Seq<char>>,
}

pub open spec fn pair_views(pairs: Seq<(String, String)>) -> Seq<(Seq<char>, Seq<char>)> {
    pairs.map_values(|p: (String, String)| (p.0@, p.1@))
}

impl View for RemoteCommandSpec {
    type V = CommandView;

    open spec fn view(&self) -> CommandView {
        CommandView {
            program: self.program@,
            arguments: crate::text::views(self.arguments@),
            environment: pair_views(self.environment@),
            working_directory: crate::model::option_view(self.working_directory),
        }
    }
}

/// A name that a shell can assign to.
pub open spec fn is_environment_name(name: Seq<char>) -> bool {
    &&& name.len() > 0
    &&& crate::text::is_ascii_letter(name[0]) || name[0] == '_'
    &&& forall|i: int|
        0 <= i < name.len() ==> crate::text::is_ascii_alphanumeric(#[trigger] name[i]) || name[i]
            == '_'
}

pub open spec fn has_nul(s: Seq<char>) -> bool {
    s.contains('\0')
}

/// The first problem among the arguments from index `i` on.
pub open spec fn argument_problem(arguments: Seq<Seq<char>>, i: int) -> Option<CommandProblem>
    decreases arguments.len() - i,
{
    if i < 0 || i >= arguments.len() {
        None
    } else if has_nul(arguments[i]) {
        Some(CommandProblem::NulInArgument)
    } else {
        argument_problem(arguments, i + 1)
    }
}

/// The name stands in the environment before index `i`.
pub open spec fn name_before(environment: Seq<(Seq<char>, Seq<char>)>, i: int, name: Seq<char>) -> bool {
    exists|j: int| 0 <= j < i && #[trigger] environment[j].0 == name
}

/// The first problem in the environment from index `i` on.
pub open spec fn environment_problem(environment: Seq<(Seq<char>, Seq<char>)>, i: int) -> Option<
    CommandProblem,
>
    decreases environment.len() - i,
{
    if i < 0 || i >= environment.len() {
        None
    } else if !is_environment_name(environment[i].0) {
        Some(CommandProblem::EnvironmentName)
    } else if name_before(environment, i, environment[i].0) {
        Some(CommandProblem::DuplicateEnvironment)
    } else if has_nul(environment[i].1) {
        Some(CommandProblem::NulInEnvironment)
    } else {
        environment_problem(environment, i + 1)
    }
}

/// The assignments from index `i` on, each with a space behind it.
pub open spec fn posix_assignments(environment: Seq<(Seq<char>, Seq<char>)>, i: int) -> Seq<char>
    decreases environment.len() - i,
{
    if i < 0 || i >= environment.len() {
        Seq::empty()
    } else {
        environment[i].0 + seq!['='] + posix_word(environment[i].1) + seq![' '] + posix_assignments(
            environment,
            i + 1,
        )
    }
}

/// The arguments from index `i` on, each with a space before it.
pub open spec fn posix_arguments(arguments: Seq<Seq<char>>, i: int) -> Seq<char>
    decreases arguments.len() - i,
{
    if i < 0 || i >= arguments.len() {
        Seq::empty()
    } else {
        seq![' '] + posix_word(arguments[i]) + posix_arguments(arguments, i + 1)
    }
}

pub open spec fn cmd_assignments(environment: Seq<(Seq<char>, Seq<char>)>, i: int) -> Seq<char>
    decreases environment.len() - i,
{
    if i < 0 || i >= environment.len() {
        Seq::empty()
    } else {
        "set "@ + environment[i].0 + seq!['='] + cmd_word(environment[i].1) + " && "@
            + cmd_assignments(environment, i + 1)
    }
}

pub open spec fn cmd_arguments(arguments: Seq<Seq<char>>, i: int) -> Seq<char>
    decreases arguments.len() - i,
{
    if i < 0 || i >= arguments.len() {
        Seq::empty()
    } else {
        seq![' '] + cmd_word(arguments[i]) + cmd_arguments(arguments, i + 1)
    }
}

/// A directory that `cd` does not take for an option.
pub open spec fn cd_operand(directory: Seq<char>) -> Seq<char> {
    if directory.len() > 0 && directory[0] == '-' {
        "./"@ + directory
    } else {
        directory
    }
}

impl CommandView {
    /// The first problem with the command.
    pub open spec fn problem(self) -> Option<CommandProblem> {
        if self.program.len() == 0 {
            Some(CommandProblem::EmptyProgram)
        } else if has_nul(self.program) {
            Some(CommandProblem::NulInProgram)
        } else if argument_problem(self.arguments, 0) is Some {
            argument_problem(self.arguments, 0)
        } else if self.working_directory is Some && self.working_directory->0.len() == 0 {
            Some(CommandProblem::EmptyDirectory)
        } else if self.working_directory is Some && has_nul(self.working_directory->0) {
            Some(CommandProblem::NulInDirectory)
        } else {
            environment_problem(self.environment, 0)
        }
    }

    /// The command as a line for a POSIX shell.
    pub open spec fn posix(self) -> Seq<char> {
        let change = match self.working_directory {
            Some(directory) => "cd "@ + posix_word(cd_operand(directory)) + " && "@,
            None => Seq::empty(),
        };
        change + posix_assignments(self.environment, 0) + posix_word(self.program)
            + posix_arguments(self.arguments, 0)
    }

    /// The command as a line for the Windows command shell.
    pub open spec fn cmd(self) -> Seq<char> {
        let change = match self.working_directory {
            Some(directory) => "cd /d "@ + cmd_word(directory) + " && "@,
            None => Seq::empty(),
        };
        let program = if crate::text::same_ignoring_case(self.program, "cmd"@) {
            "cmd.exe"@
        } else {
            self.program
        };
        change + cmd_assignments(self.environment, 0) + cmd_word(program) + cmd_arguments(
            self.arguments,
            0,
        )
    }
}

fn valid_environment_name(name: &str) -> (r: bool)
    ensures
        r == is_environment_name(name@),
{
    let chars = chars_of(name);
    if chars.len() == 0 || !(ascii_letter(chars[0]) || chars[0] == '_') {
        return false;
    }
    let mut i: usize = 0;
    while i < chars.len()
        invariant
            chars@ == name@,
            i <= chars@.len(),
            forall|k: int|
                0 <= k < i ==> crate::text::is_ascii_alphanumeric(#[trigger] name@[k]) || name@[k]
                    == '_',
        decreases chars@.len() - i,
    {
        if !(ascii_alphanumeric(chars[i]) || chars[i] == '_') {
            assert(!(crate::text::is_ascii_alphanumeric(name@[i as int]) || name@[i as int]
                == '_'));
            return false;
        }
        i += 1;
    }
    true
}

fn safe_cd_operand(directory: &str) -> (r: String)
    ensures
        r@ == cd_operand(directory@),
{
    let chars = chars_of(directory);
    if chars.len() > 0 && chars[0] == '-' {
        joined("./", directory)
    } else {
        directory.to_owned()
    }
}

impl RemoteCommandSpec {
    pub fn new(program: &str) -> (r: Self)
        ensures
            r@ == (CommandView {
                program: program@,
                arguments: Seq::empty(),
                environment: Seq::empty(),
                working_directory: None,
            }),
    {
        let r = RemoteCommandSpec {
            program: program.to_owned(),
            arguments: Vec::new(),
            environment: Vec::new(),
            working_directory: None,
        };
        assert(r@.arguments =~= Seq::<Seq<char>>::empty());
        assert(r@.environment =~= Seq::<(Seq<char>, Seq<char>)>::empty());
        r
    }

    fn check_environment(&self) -> (r: Result<(), CommandProblem>)
        ensures
            match r {
                Ok(()) => environment_problem(self@.environment, 0) is None,
                Err(e) => environment_problem(self@.environment, 0) == Some(e),
            },
    {
        let ghost all = self@.environment;
        let mut i: usize = 0;
        while i < self.environment.len()
            invariant
                all == pair_views(self.environment@),
                all == self@.environment,
                i <= self.environment@.len(),
                environment_problem(all, 0) == environment_problem(all, i as int),
            decreases self.environment@.len() - i,
        {
            assert(all[i as int] == (
                self.environment@[i as int].0@,
                self.environment@[i as int].1@,
            ));
            let name = self.environment[i].0.as_str();
            if !valid_environment_name(name) {
                return Err(CommandProblem::EnvironmentName);
            }
            let mut j: usize = 0;
            while j < i
                invariant
                    all == pair_views(self.environment@),
                    all == self@.environment,
                    j <= i < self.environment@.len(),
                    name@ == all[i as int].0,
                    is_environment_name(name@),
                    environment_problem(all, 0) == environment_problem(all, i as int),
                    forall|k: int| 0 <= k < j ==> (#[trigger] all[k]).0 != name@,
                decreases i - j,
            {
                assert(all[j as int].0 == self.environment@[j as int].0@);
                if same_text(self.environment[j].0.as_str(), name) {
                    assert(name_before(all, i as int, all[i as int].0));
                    return Err(CommandProblem::DuplicateEnvironment);
                }
                j += 1;
            }
            if contains_char(self.environment[i].1.as_str(), '\0') {
                return Err(CommandProblem::NulInEnvironment);
            }
            i += 1;
        }
        Ok(())
    }

    /// Checks the command before it is written out.
    pub fn validated(&self) -> (r: Result<(), CommandProblem>)
        ensures
            match r {
                Ok(()) => self@.problem() is None,
                Err(e) => self@.problem() == Some(e),
            },
    {
        if self.program.as_str().is_empty() {
            return Err(CommandProblem::EmptyProgram);
        }
        if contains_char(self.program.as_str(), '\0') {
            return Err(CommandProblem::NulInProgram);
        }
        let ghost arguments = self@.arguments;
        let mut i: usize = 0;
        while i < self.arguments.len()
            invariant
                arguments == crate::text::views(self.arguments@),
                arguments == self@.arguments,
                self@.program.len() > 0,
                !has_nul(self@.program),
                i <= self.arguments@.len(),
                argument_problem(arguments, 0) == argument_problem(arguments, i as int),
            decreases self.arguments@.len() - i,
        {
            assert(arguments[i as int] == self.arguments@[i as int]@);
            if contains_char(self.arguments[i].as_str(), '\0') {
                return Err(CommandProblem::NulInArgument);
            }
            i += 1;
        }
        if let Some(directory) = &self.working_directory {
            if directory.as_str().is_empty() {
                return Err(CommandProblem::EmptyDirectory);
            }
            if contains_char(directory.as_str(), '\0') {
                return Err(CommandProblem::NulInDirectory);
            }
        }
        self.check_environment()
    }

    /// The command as a line for a POSIX shell.
    pub fn render_posix(&self) -> (r: Result<String, CommandProblem>)
        ensures
            match r {
                Ok(line) => self@.problem() is None && line@ == self@.posix(),
                Err(e) => self@.problem() == Some(e),
            },
    {
        self.validated()?;
        let ghost command = self@;
        let mut out = String::new();
        if let Some(directory) = &self.working_directory {
            let operand = safe_cd_operand(directory.as_str());
            let word = quote_posix(operand.as_str());
            out.append("cd ");
            out.append(word.as_str());
            out.append(" && ");
        }
        let ghost change = match command.working_directory {
            Some(directory) => "cd "@ + posix_word(cd_operand(directory)) + " && "@,
            None => Seq::empty(),
        };
        assert(out@ =~= change);
        let mut i: usize = 0;
        let ghost all = command.environment;
        assert(out@ + posix_assignments(all, 0) =~= change + posix_assignments(all, 0));
        while i < self.environment.len()
            invariant
                command == self@,
                all == pair_views(self.environment@),
                i <= self.environment@.len(),
                change + posix_assignments(all, 0) == out@ + posix_assignments(all, i as int),
            decreases self.environment@.len() - i,
        {
            assert(all[i as int] == (
                self.environment@[i as int].0@,
                self.environment@[i as int].1@,
            ));
            let ghost before = out@;
            let word = quote_posix(self.environment[i].1.as_str());
            out.append(self.environment[i].0.as_str());
            out.push('=');
            out.append(word.as_str());
            out.push(' ');
            assert(out@ + posix_assignments(all, i + 1) =~= before + posix_assignments(
                all,
                i as int,
            ));
            i += 1;
        }
        assert(out@ + posix_assignments(all, i as int) =~= out@);
        let program = quote_posix(self.program.as_str());
        out.append(program.as_str());
        let ghost head = out@;
        assert(head =~= change + posix_assignments(all, 0) + posix_word(command.program));
        let ghost arguments = command.arguments;
        let mut k: usize = 0;
        assert(out@ + posix_arguments(arguments, 0) =~= head + posix_arguments(arguments, 0));
        while k < self.arguments.len()
            invariant
                arguments == crate::text::views(self.arguments@),
                k <= self.arguments@.len(),
                head + posix_arguments(arguments, 0) == out@ + posix_arguments(arguments, k as int),
            decreases self.arguments@.len() - k,
        {
            assert(arguments[k as int] == self.arguments@[k as int]@);
            let ghost before = out@;
            let word = quote_posix(self.arguments[k].as_str());
            out.push(' ');
            out.append(word.as_str());
            assert(out@ + posix_arguments(arguments, k + 1) =~= before + posix_arguments(
                arguments,
                k as int,
            ));
            k += 1;
        }
        assert(out@ + posix_arguments(arguments, k as int) =~= out@);
        Ok(out)
    }

    /// The command as a line for the Windows command shell. There the quoting
    /// of POSIX shells does not hold, and a bare `cmd` is written `cmd.exe`.
    pub fn render_cmd(&self) -> (r: Result<String, CommandProblem>)
        ensures
            match r {
                Ok(line) => self@.problem() is None && line@ == self@.cmd(),
                Err(e) => self@.problem() == Some(e),
            },
    {
        self.validated()?;
        let ghost command = self@;
        let mut out = String::new();
        if let Some(directory) = &self.working_directory {
            let word = quote_cmd(directory.as_str());
            out.append("cd /d ");
            out.append(word.as_str());
            out.append(" && ");
        }
        let ghost change = match command.working_directory {
            Some(directory) => "cd /d "@ + cmd_word(directory) + " && "@,
            None => Seq::empty(),
        };
        assert(out@ =~= change);
        let mut i: usize = 0;
        let ghost all = command.environment;
        assert(out@ + cmd_assignments(all, 0) =~= change + cmd_assignments(all, 0));
        while i < self.environment.len()
            invariant
                command == self@,
                all == pair_views(self.environment@),
                i <= self.environment@.len(),
                change + cmd_assignments(all, 0) == out@ + cmd_assignments(all, i as int),
            decreases self.environment@.len() - i,
        {
            assert(all[i as int] == (
                self.environment@[i as int].0@,
                self.environment@[i as int].1@,
            ));
            let ghost before = out@;
            let word = quote_cmd(self.environment[i].1.as_str());
            out.append("set ");
            out.append(self.environment[i].0.as_str());
            out.push('=');
            out.append(word.as_str());
            out.append(" && ");
            assert(out@ + cmd_assignments(all, i + 1) =~= before + cmd_assignments(all, i as int));
            i += 1;
        }
        assert(out@ + cmd_assignments(all, i as int) =~= out@);
        let program = if equal_ignoring_case(self.program.as_str(), "cmd") {
            quote_cmd("cmd.exe")
        } else {
            quote_cmd(self.program.as_str())
        };
        out.append(program.as_str());
        let ghost head = out@;
        let ghost arguments = command.arguments;
        let mut k: usize = 0;
        assert(out@ + cmd_arguments(arguments, 0) =~= head + cmd_arguments(arguments, 0));
        while k < self.arguments.len()
            invariant
                arguments == crate::text::views(self.arguments@),
                k <= self.arguments@.len(),
                head + cmd_arguments(arguments, 0) == out@ + cmd_arguments(arguments, k as int),
            decreases self.arguments@.len() - k,
        {
            assert(arguments[k as int] == self.arguments@[k as int]@);
            let ghost before = out@;
            let word = quote_cmd(self.arguments[k].as_str());
            out.push(' ');
            out.append(word.as_str());
            assert(out@ + cmd_arguments(arguments, k + 1) =~= before + cmd_arguments(
                arguments,
                k as int,
            ));
            k += 1;
        }
        assert(out@ + cmd_arguments(arguments, k as int) =~= out@);
        Ok(out)
    }
}

/// Where a shell stands while it reads a line.
pub enum ShellMode {
    Plain,
    Single,
    Double,
}

/// A character that a POSIX shell takes as it stands outside quotes.
pub open spec fn is_literal(c: char) -> bool {
    is_safe_char(c)
}

pub open spec fn begun_text(begun: Option<Seq<char>>) -> Seq<char> {
    match begun {
        Some(b) => b,
        None => Seq::empty(),
    }
}

/// The words that a POSIX shell reads in `s`, after `done` and the word begun.
/// Nothing, where an unfinished quotation or a character with another meaning
/// stands in it.
pub open spec fn shell_words_after(
    done: Seq<Seq<char>>,
    begun: Option<Seq<char>>,
    mode: ShellMode,
    s: Seq<char>,
) -> Option<Seq<Seq<char>>>
    decreases s.len(),
{
    if s.len() == 0 {
        match mode {
            ShellMode::Plain => Some(
                match begun {
                    Some(word) => done.push(word),
                    None => done,
                },
            ),
            _ => None,
        }
    } else {
        let c = s[0];
        let rest = s.drop_first();
        match mode {
            ShellMode::Single => if c == '\'' {
                shell_words_after(done, begun, ShellMode::Plain, rest)
            } else {
                shell_words_after(done, Some(begun_text(begun).push(c)), ShellMode::Single, rest)
            },
            ShellMode::Double => if c == '"' {
                shell_words_after(done, begun, ShellMode::Plain, rest)
            } else if c == '$' || c == '`' || c == '\\' {
                None
            } else {
                shell_words_after(done, Some(begun_text(begun).push(c)), ShellMode::Double, rest)
            },
            ShellMode::Plain => if c == ' ' {
                shell_words_after(
                    match begun {
                        Some(word) => done.push(word),
                        None => done,
                    },
                    None,
                    ShellMode::Plain,
                    rest,
                )
            } else if c == '\'' {
                shell_words_after(done, Some(begun_text(begun)), ShellMode::Single, rest)
            } else if c == '"' {
                shell_words_after(done, Some(begun_text(begun)), ShellMode::Double, rest)
            } else if is_literal(c) {
                shell_words_after(done, Some(begun_text(begun).push(c)), ShellMode::Plain, rest)
            } else {
                None
            },
        }
    }
}

pub open spec fn shell_words(s: Seq<char>) -> Option<Seq<Seq<char>>> {
    shell_words_after(Seq::empty(), None, ShellMode::Plain, s)
}

proof fn lemma_safe_run(done: Seq<Seq<char>>, begun: Seq<char>, s: Seq<char>, rest: Seq<char>)
    requires
        all_safe(s),
    ensures
        shell_words_after(done, Some(begun), ShellMode::Plain, s + rest) == shell_words_after(
            done,
            Some(begun + s),
            ShellMode::Plain,
            rest,
        ),
    decreases s.len(),
{
    if s.len() == 0 {
        assert(s + rest =~= rest);
        assert(begun + s =~= begun);
    } else {
        let c = s[0];
        assert(is_safe_char(s[0]));
        let tail = s.drop_first();
        assert((s + rest)[0] == c);
        assert((s + rest).drop_first() =~= tail + rest);
        assert forall|i: int| 0 <= i < tail.len() implies is_safe_char(#[trigger] tail[i]) by {
            assert(is_safe_char(s[i + 1]));
        }
        lemma_safe_run(done, begun.push(c), tail, rest);
        assert(begun.push(c) + tail =~= begun + s);
    }
}

proof fn lemma_escape_front(s: Seq<char>)
    requires
        s.len() > 0,
    ensures
        escaped_quotes(s) == (if s[0] == '\'' {
            seq!['\'', '"', '\'', '"', '\'']
        } else {
            seq![s[0]]
        }) + escaped_quotes(s.drop_first()),
    decreases s.len(),
{
    let first = if s[0] == '\'' {
        seq!['\'', '"', '\'', '"', '\'']
    } else {
        seq![s[0]]
    };
    if s.len() == 1 {
        assert(s.drop_last() =~= Seq::<char>::empty());
        assert(s.drop_first() =~= Seq::<char>::empty());
        assert(escaped_quotes(s) =~= first + escaped_quotes(s.drop_first()));
    } else {
        lemma_escape_front(s.drop_last());
        assert(s.drop_last()[0] == s[0]);
        assert(s.drop_last().drop_first() =~= s.drop_first().drop_last());
        assert(s.drop_first().last() == s.last());
        assert(escaped_quotes(s) =~= first + escaped_quotes(s.drop_first()));
    }
}

proof fn lemma_quoted_run(done: Seq<Seq<char>>, begun: Seq<char>, s: Seq<char>, rest: Seq<char>)
    ensures
        shell_words_after(
            done,
            Some(begun),
            ShellMode::Single,
            escaped_quotes(s) + seq!['\''] + rest,
        ) == shell_words_after(done, Some(begun + s), ShellMode::Plain, rest),
    decreases s.len(),
{
    let close = seq!['\''] + rest;
    let whole = escaped_quotes(s) + seq!['\''] + rest;
    if s.len() == 0 {
        assert(whole =~= close);
        assert(close[0] == '\'');
        assert(close.drop_first() =~= rest);
        assert(begun + s =~= begun);
    } else {
        let c = s[0];
        let tail = s.drop_first();
        let after = escaped_quotes(tail) + seq!['\''] + rest;
        lemma_escape_front(s);
        lemma_quoted_run(done, begun.push(c), tail, rest);
        assert(begun.push(c) + tail =~= begun + s);
        if c == '\'' {
            let w1 = seq!['"', '\'', '"', '\''] + after;
            let w2 = seq!['\'', '"', '\''] + after;
            let w3 = seq!['"', '\''] + after;
            let w4 = seq!['\''] + after;
            assert(whole =~= seq!['\'', '"', '\'', '"', '\''] + after);
            assert(whole.drop_first() =~= w1);
            assert(w1.drop_first() =~= w2);
            assert(w2.drop_first() =~= w3);
            assert(w3.drop_first() =~= w4);
            assert(w4.drop_first() =~= after);
            assert(shell_words_after(done, Some(begun), ShellMode::Single, whole)
                == shell_words_after(done, Some(begun), ShellMode::Plain, w1));
            assert(shell_words_after(done, Some(begun), ShellMode::Plain, w1) == shell_words_after(
                done,
                Some(begun),
                ShellMode::Double,
                w2,
            ));
            assert(shell_words_after(done, Some(begun), ShellMode::Double, w2) == shell_words_after(
                done,
                Some(begun.push('\'')),
                ShellMode::Double,
                w3,
            ));
            assert(shell_words_after(done, Some(begun.push('\'')), ShellMode::Double, w3)
                == shell_words_after(done, Some(begun.push('\'')), ShellMode::Plain, w4));
            assert(shell_words_after(done, Some(begun.push('\'')), ShellMode::Plain, w4)
                == shell_words_after(done, Some(begun.push('\'')), ShellMode::Single, after));
        } else {
            assert(whole =~= seq![c] + after);
            assert(whole[0] == c);
            assert(whole.drop_first() =~= after);
        }
    }
}

/// A quoted text at the start of a word is read as that text.
proof fn lemma_word_read(done: Seq<Seq<char>>, s: Seq<char>, rest: Seq<char>)
    ensures
        shell_words_after(done, None, ShellMode::Plain, posix_word(s) + rest) == shell_words_after(
            done,
            Some(s),
            ShellMode::Plain,
            rest,
        ),
{
    let whole = posix_word(s) + rest;
    let empty: Seq<char> = Seq::empty();
    if s.len() == 0 {
        let inner = seq!['\''] + rest;
        assert(whole.drop_first() =~= inner);
        assert(inner.drop_first() =~= rest);
        assert(s =~= empty);
        assert(shell_words_after(done, None, ShellMode::Plain, whole) == shell_words_after(
            done,
            Some(empty),
            ShellMode::Single,
            inner,
        ));
    } else if all_safe(s) {
        let c = s[0];
        assert(is_safe_char(s[0]));
        let tail = s.drop_first();
        assert(whole.drop_first() =~= tail + rest);
        assert forall|i: int| 0 <= i < tail.len() implies is_safe_char(#[trigger] tail[i]) by {
            assert(is_safe_char(s[i + 1]));
        }
        lemma_safe_run(done, empty.push(c), tail, rest);
        assert(empty.push(c) + tail =~= s);
    } else {
        let inner = escaped_quotes(s) + seq!['\''] + rest;
        assert(whole =~= seq!['\''] + inner);
        assert(whole.drop_first() =~= inner);
        lemma_quoted_run(done, empty, s, rest);
        assert(empty + s =~= s);
    }
}

/// A POSIX shell reads a quoted text as one word: that text.
pub proof fn quoted_text_is_one_word(s: Seq<char>)
    ensures
        shell_words(posix_word(s)) == Some(seq![s]),
{
    let nothing: Seq<char> = Seq::empty();
    lemma_word_read(Seq::empty(), s, nothing);
    assert(posix_word(s) + nothing =~= posix_word(s));
    assert(Seq::<Seq<char>>::empty().push(s) =~= seq![s]);
}

proof fn lemma_arguments_read(done: Seq<Seq<char>>, begun: Seq<char>, arguments: Seq<Seq<char>>, i: int)
    requires
        0 <= i <= arguments.len(),
    ensures
        shell_words_after(done, Some(begun), ShellMode::Plain, posix_arguments(arguments, i))
            == Some(done.push(begun) + arguments.skip(i)),
    decreases arguments.len() - i,
{
    if i == arguments.len() {
        assert(done.push(begun) + arguments.skip(i) =~= done.push(begun));
    } else {
        let tail = posix_arguments(arguments, i + 1);
        let line = posix_arguments(arguments, i);
        assert(line[0] == ' ');
        assert(line.drop_first() =~= posix_word(arguments[i]) + tail);
        lemma_word_read(done.push(begun), arguments[i], tail);
        lemma_arguments_read(done.push(begun), arguments[i], arguments, i + 1);
        assert(done.push(begun).push(arguments[i]) + arguments.skip(i + 1) =~= done.push(begun)
            + arguments.skip(i));
    }
}

/// A POSIX shell reads a command without directory and environment as its
/// program and its arguments, each as it was given.
pub proof fn rendered_command_keeps_its_words(command: CommandView)
    requires
        command.working_directory is None,
        command.environment.len() == 0,
    ensures
        shell_words(command.posix()) == Some(seq![command.program] + command.arguments),
{
    let line = posix_word(command.program) + posix_arguments(command.arguments, 0);
    assert(command.posix() =~= line);
    lemma_word_read(Seq::empty(), command.program, posix_arguments(command.arguments, 0));
    lemma_arguments_read(Seq::empty(), command.program, command.arguments, 0);
    assert(Seq::<Seq<char>>::empty().push(command.program) + command.arguments.skip(0) =~= seq![
        command.program,
    ] + command.arguments);
}

} // verus!
