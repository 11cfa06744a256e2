//! Laws of command lines: what is left without quotes, and how a line grows with
//! its parts.

use vstd::prelude::*;

use crate::command::CommandView;

verus! {

/// A letter, a digit, or one of `_ + - . / : @ % , =`.
pub open spec fn is_harmless(c: char) -> bool {
    'a' <= c <= 'z' || 'A' <= c <= 'Z' || '0' <= c <= '9' || c == '_' || c == '+' || c == '-' || c
        == '.' || c == '/' || c == ':' || c == '@' || c == '%' || c == ',' || c == '='
}

/// A word is left as it is exactly where it is not empty and holds nothing that
/// a shell acts on. Else it stands in single quotes.
pub proof fn words_are_left_where_harmless(s: Seq<char>)
    ensures
        (crate::command::posix_word(s) == s) == (s.len() > 0 && forall|i: int|
            0 <= i < s.len() ==> is_harmless(#[trigger] s[i])),
        crate::command::posix_word(s) != s ==> {
            let word = crate::command::posix_word(s);
            word.len() >= s.len() + 2 && word[0] == '\'' && word.last() == '\''
        },
{
    lemma_escaped_grows(s);
    if s.len() > 0 {
        if forall|i: int| 0 <= i < s.len() ==> is_harmless(#[trigger] s[i]) {
            assert forall|i: int| 0 <= i < s.len() implies crate::command::is_safe_char(
                #[trigger] s[i],
            ) by {
                assert(is_harmless(s[i]));
            }
        } else {
            let i = choose|i: int| 0 <= i < s.len() && !is_harmless(#[trigger] s[i]);
            assert(!crate::command::is_safe_char(s[i]));
            assert(crate::command::posix_word(s).len() > s.len());
        }
    }
}

proof fn lemma_escaped_grows(s: Seq<char>)
    ensures
        crate::command::escaped_quotes(s).len() >= s.len(),
    decreases s.len(),
{
    if s.len() > 0 {
        lemma_escaped_grows(s.drop_last());
    }
}

/// What is left of a text where each two quotes stand for one.
pub open spec fn undoubled(t: Seq<char>) -> Seq<char>
    decreases t.len(),
{
    if t.len() == 0 {
        Seq::empty()
    } else if t.len() >= 2 && t.last() == '"' && t[t.len() - 2] == '"' {
        undoubled(t.take(t.len() - 2)).push('"')
    } else {
        undoubled(t.drop_last()).push(t.last())
    }
}

proof fn lemma_doubled(s: Seq<char>)
    ensures
        undoubled(crate::command::doubled_quotes(s)) == s,
    decreases s.len(),
{
    if s.len() > 0 {
        let before = s.drop_last();
        lemma_doubled(before);
        let t = crate::command::doubled_quotes(before);
        if s.last() == '"' {
            let u = t + seq!['"', '"'];
            assert(u.take(u.len() - 2) =~= t);
            assert(s =~= before.push('"'));
        } else {
            let u = t.push(s.last());
            assert(u.drop_last() =~= t);
            assert(s =~= before.push(s.last()));
        }
    } else {
        assert(s =~= Seq::empty());
    }
}

/// A word for the Windows command line is left as it is where it is not empty
/// and holds neither white space nor one of `" & | < > ^`. Else it stands in
/// double quotes, and the text between them, with each two quotes taken for
/// one, is the word.
pub proof fn windows_words_come_through(s: Seq<char>)
    ensures
        ({
            let word = crate::command::cmd_word(s);
            let bare = s.len() > 0 && forall|i: int|
                0 <= i < s.len() ==> {
                    let c = #[trigger] s[i];
                    !crate::text::is_whitespace(c) && c != '"' && c != '&' && c != '|' && c != '<'
                        && c != '>' && c != '^'
                };
            &&& bare ==> word == s
            &&& !bare ==> word.len() >= 2 && word[0] == '"' && word.last() == '"' && undoubled(
                word.subrange(1, word.len() - 1),
            ) == s
        }),
{
    lemma_doubled(s);
    let word = crate::command::cmd_word(s);
    let inner = crate::command::doubled_quotes(s);
    if s.len() == 0 || crate::command::has_cmd_special(s) {
        assert(word.subrange(1, word.len() - 1) =~= inner);
    }
    if s.len() > 0 && crate::command::has_cmd_special(s) {
        let i = choose|i: int|
            0 <= i < s.len() && crate::command::needs_cmd_quotes(#[trigger] s[i]);
        assert(crate::command::needs_cmd_quotes(s[i]));
    }
    if s.len() > 0 && !crate::command::has_cmd_special(s) {
        assert forall|i: int| 0 <= i < s.len() implies !crate::command::needs_cmd_quotes(
            #[trigger] s[i],
        ) by {}
    }
}

proof fn lemma_arguments(arguments: Seq<Seq<char>>, a: Seq<char>, i: int)
    requires
        0 <= i <= arguments.len(),
    ensures
        crate::command::posix_arguments(arguments.push(a), i) == crate::command::posix_arguments(
            arguments,
            i,
        ) + seq![' '] + crate::command::posix_word(a),
        crate::command::cmd_arguments(arguments.push(a), i) == crate::command::cmd_arguments(
            arguments,
            i,
        ) + seq![' '] + crate::command::cmd_word(a),
    decreases arguments.len() - i,
{
    let more = arguments.push(a);
    let space = seq![' '];
    if i < arguments.len() {
        lemma_arguments(arguments, a, i + 1);
        assert(more[i] == arguments[i]);
        let p = space + crate::command::posix_word(arguments[i]);
        assert(p + (crate::command::posix_arguments(arguments, i + 1) + space
            + crate::command::posix_word(a)) =~= p + crate::command::posix_arguments(
            arguments,
            i + 1,
        ) + space + crate::command::posix_word(a));
        let c = space + crate::command::cmd_word(arguments[i]);
        assert(c + (crate::command::cmd_arguments(arguments, i + 1) + space
            + crate::command::cmd_word(a)) =~= c + crate::command::cmd_arguments(arguments, i + 1)
            + space + crate::command::cmd_word(a));
    } else {
        assert(more[i] == a);
        assert(crate::command::posix_arguments(more, i + 1) =~= Seq::empty());
        assert(crate::command::cmd_arguments(more, i + 1) =~= Seq::empty());
        let none = Seq::<char>::empty();
        assert(space + crate::command::posix_word(a) + none =~= none + space
            + crate::command::posix_word(a));
        assert(space + crate::command::cmd_word(a) + none =~= none + space
            + crate::command::cmd_word(a));
    }
}

/// One more argument is one more word at the end of the line.
pub proof fn arguments_come_last(command: CommandView, argument: Seq<char>)
    ensures
        ({
            let longer = CommandView { arguments: command.arguments.push(argument), ..command };
            &&& longer.posix() == command.posix() + seq![' '] + crate::command::posix_word(argument)
            &&& longer.cmd() == command.cmd() + seq![' '] + crate::command::cmd_word(argument)
        }),
{
    let longer = CommandView { arguments: command.arguments.push(argument), ..command };
    lemma_arguments(command.arguments, argument, 0);
    assert(longer.posix() =~= command.posix() + seq![' '] + crate::command::posix_word(argument));
    assert(longer.cmd() =~= command.cmd() + seq![' '] + crate::command::cmd_word(argument));
}

/// A program alone is a line of one word. On Windows `cmd` is called by the name
/// of its file.
pub proof fn programs_come_first(program: Seq<char>)
    ensures
        ({
            let command = CommandView {
                program,
                arguments: Seq::empty(),
                environment: Seq::empty(),
                working_directory: None,
            };
            &&& command.posix() == crate::command::posix_word(program)
            &&& crate::text::same_ignoring_case(program, "cmd"@) ==> command.cmd() == "cmd.exe"@
            &&& !crate::text::same_ignoring_case(program, "cmd"@) ==> command.cmd()
                == crate::command::cmd_word(program)
        }),
{
    let command = CommandView {
        program,
        arguments: Seq::empty(),
        environment: Seq::empty(),
        working_directory: None,
    };
    assert(command.posix() =~= crate::command::posix_word(program));
    reveal_strlit("cmd.exe");
    if crate::text::same_ignoring_case(program, "cmd"@) {
        let s = "cmd.exe"@;
        if crate::command::has_cmd_special(s) {
            let i = choose|i: int|
                0 <= i < s.len() && crate::command::needs_cmd_quotes(#[trigger] s[i]);
            assert(s[i] == 'c' || s[i] == 'm' || s[i] == 'd' || s[i] == '.' || s[i] == 'e' || s[i]
                == 'x');
        }
        assert(command.cmd() =~= s);
    } else {
        assert(command.cmd() =~= crate::command::cmd_word(program));
    }
}

proof fn lemma_assignments_shift(
    environment: Seq<(Seq<char>, Seq<char>)>,
    first: (Seq<char>, Seq<char>),
    i: int,
)
    requires
        0 <= i <= environment.len(),
    ensures
        crate::command::posix_assignments(seq![first] + environment, i + 1)
            == crate::command::posix_assignments(environment, i),
        crate::command::cmd_assignments(seq![first] + environment, i + 1)
            == crate::command::cmd_assignments(environment, i),
    decreases environment.len() - i,
{
    if i < environment.len() {
        assert((seq![first] + environment)[i + 1] == environment[i]);
        lemma_assignments_shift(environment, first, i + 1);
    }
}

/// What is set for a command stands before it, in its order, each as a name, an
/// equals sign and a word.
pub proof fn settings_come_before_the_program(
    command: CommandView,
    name: Seq<char>,
    value: Seq<char>,
)
    requires
        command.working_directory is None,
    ensures
        ({
            let longer = CommandView {
                environment: seq![(name, value)] + command.environment,
                ..command
            };
            &&& longer.posix() == name + seq!['='] + crate::command::posix_word(value) + seq![' ']
                + command.posix()
            &&& longer.cmd() == "set "@ + name + seq!['='] + crate::command::cmd_word(value)
                + " && "@ + command.cmd()
        }),
{
    let first = (name, value);
    let longer = CommandView { environment: seq![first] + command.environment, ..command };
    lemma_assignments_shift(command.environment, first, 0);
    assert(longer.environment[0] == first);
    assert(longer.posix() =~= name + seq!['='] + crate::command::posix_word(value) + seq![' ']
        + command.posix());
    assert(longer.cmd() =~= "set "@ + name + seq!['='] + crate::command::cmd_word(value) + " && "@
        + command.cmd());
}

/// A command with a working directory goes there first. A directory that begins
/// with a dash is no option.
pub proof fn directories_are_entered_first(command: CommandView, directory: Seq<char>)
    requires
        command.working_directory is None,
    ensures
        ({
            let moved = CommandView { working_directory: Some(directory), ..command };
            &&& directory.len() > 0 && directory[0] != '-' ==> moved.posix() == "cd "@
                + crate::command::posix_word(directory) + " && "@ + command.posix()
            &&& directory.len() > 0 && directory[0] == '-' ==> moved.posix() == "cd "@
                + crate::command::posix_word("./"@ + directory) + " && "@ + command.posix()
            &&& moved.cmd() == "cd /d "@ + crate::command::cmd_word(directory) + " && "@
                + command.cmd()
        }),
{
    let moved = CommandView { working_directory: Some(directory), ..command };
    if directory.len() > 0 {
        let operand = if directory[0] == '-' {
            "./"@ + directory
        } else {
            directory
        };
        assert(moved.posix() =~= "cd "@ + crate::command::posix_word(operand) + " && "@
            + command.posix());
    }
    assert(moved.cmd() =~= "cd /d "@ + crate::command::cmd_word(directory) + " && "@
        + command.cmd());
}

/// A name that a shell takes for one: it begins with a letter or an underscore
/// and goes on with those and digits.
pub open spec fn is_name(name: Seq<char>) -> bool {
    &&& name.len() > 0 && !('0' <= name[0] <= '9')
    &&& forall|i: int|
        0 <= i < name.len() ==> {
            let c = #[trigger] name[i];
            'a' <= c <= 'z' || 'A' <= c <= 'Z' || '0' <= c <= '9' || c == '_'
        }
}

proof fn lemma_arguments_sound(arguments: Seq<Seq<char>>, i: int)
    requires
        0 <= i <= arguments.len(),
    ensures
        crate::command::argument_problem(arguments, i) is None == forall|k: int|
            i <= k < arguments.len() ==> !(#[trigger] arguments[k]).contains('\0'),
    decreases arguments.len() - i,
{
    if i < arguments.len() {
        lemma_arguments_sound(arguments, i + 1);
    }
}

pub open spec fn is_setting(environment: Seq<(Seq<char>, Seq<char>)>, k: int) -> bool {
    &&& is_name(environment[k].0)
    &&& !environment[k].1.contains('\0')
    &&& forall|j: int| 0 <= j < k ==> #[trigger] environment[j].0 != environment[k].0
}

proof fn lemma_environment_sound(environment: Seq<(Seq<char>, Seq<char>)>, i: int)
    requires
        0 <= i <= environment.len(),
    ensures
        crate::command::environment_problem(environment, i) is None == forall|k: int|
            i <= k < environment.len() ==> #[trigger] is_setting(environment, k),
    decreases environment.len() - i,
{
    if i < environment.len() {
        lemma_environment_sound(environment, i + 1);
        let name = environment[i].0;
        assert(crate::command::is_environment_name(name) == is_name(name)) by {
            if is_name(name) {
                assert forall|k: int| 0 <= k < name.len() implies
                    crate::text::is_ascii_alphanumeric(#[trigger] name[k]) || name[k] == '_' by {}
                let c = name[0];
            }
            if crate::command::is_environment_name(name) {
                assert forall|k: int| 0 <= k < name.len() implies {
                    let c = #[trigger] name[k];
                    'a' <= c <= 'z' || 'A' <= c <= 'Z' || '0' <= c <= '9' || c == '_'
                } by {}
            }
        }
        if is_setting(environment, i) {
            assert(!crate::command::name_before(environment, i, name));
        }
        if crate::command::environment_problem(environment, i) is None {
            assert(is_setting(environment, i)) by {
                assert forall|j: int| 0 <= j < i implies #[trigger] environment[j].0 != name by {}
            }
        }
    }
}

/// A command is accepted exactly where it has a program, its directory is not
/// empty, its settings have proper names that differ, and nothing in it holds a
/// zero character.
pub proof fn accepted_commands_are_sound(command: CommandView)
    ensures
        command.problem() is None == {
            &&& command.program.len() > 0 && !command.program.contains('\0')
            &&& forall|k: int|
                0 <= k < command.arguments.len() ==> !(#[trigger] command.arguments[k]).contains(
                    '\0',
                )
            &&& command.working_directory matches Some(directory) ==> directory.len() > 0
                && !directory.contains('\0')
            &&& forall|k: int|
                0 <= k < command.environment.len() ==> #[trigger] is_setting(
                    command.environment,
                    k,
                )
        },
{
    lemma_arguments_sound(command.arguments, 0);
    lemma_environment_sound(command.environment, 0);
}

} // verus!
