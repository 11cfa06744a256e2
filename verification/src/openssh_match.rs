//! The supported part of OpenSSH's `Match`: `Match all` and
//! `Match originalhost <pattern-list>`. Everything else is refused.

use vstd::prelude::*;
use vstd::string::*;

use crate::pattern::wildcard_match;
use crate::text::byte_len;
use crate::text::chars_of;
use crate::text::contains_char;
use crate::text::equal_ignoring_case;
use crate::text::lines_of;
use crate::text::lower_string;
use crate::text::position_from;
use crate::text::split_on;
use crate::text::text_between;
use crate::text::trimmed_start;
use crate::text::words_of;

verus! {

pub const MAX_CONFIG_BYTES: usize = 4194304;

pub const MAX_MATCH_ARGUMENTS: usize = 8;

pub const MAX_PATTERN_LIST_BYTES: usize = 16384;

pub const MAX_PATTERN_BYTES: usize = 1023;

/// Why a configuration text cannot be resolved.
#[derive(Debug, Clone, Copy, PartialEq, Eq, Structural)]
pub enum MatchProblem {
    RawInclude,
    QuotedArgument,
    TooManyArguments,
    NoCriterion,
    UnsupportedCriterion,
    EmptyPatternList,
    PatternListTooLong,
    EmptyPattern,
    EmptyNegatedPattern,
    PatternTooLong,
    OutputTooLong,
}

/// A separator behind a directive's key.
pub open spec fn is_key_end(c: char) -> bool {
    crate::text::is_ascii_whitespace(c) || c == '='
}

/// Length of the key that a line starts with.
pub open spec fn key_len(s: Seq<char>) -> int
    decreases s.len(),
{
    if s.len() == 0 || is_key_end(s[0]) {
        0
    } else {
        1 + key_len(s.drop_first())
    }
}

/// The key of a directive; nothing for an empty line or a comment.
pub open spec fn directive_key(line: Seq<char>) -> Option<Seq<char>> {
    let s = crate::text::trim_start(line);
    if s.len() == 0 || s[0] == '#' {
        None
    } else {
        Some(s.take(key_len(s)))
    }
}

/// The line is a directive with this key.
pub open spec fn is_directive(line: Seq<char>, key: Seq<char>) -> bool {
    directive_key(line) matches Some(k) && crate::text::same_ignoring_case(k, key)
}

/// The text without the separators at its start.
pub open spec fn skip_key_end(s: Seq<char>) -> Seq<char>
    decreases s.len(),
{
    if s.len() > 0 && is_key_end(s[0]) {
        skip_key_end(s.drop_first())
    } else {
        s
    }
}

/// What stands behind the key of a directive.
pub open spec fn directive_rest(line: Seq<char>) -> Seq<char> {
    let s = crate::text::trim_start(line);
    skip_key_end(s.skip(key_len(s)))
}

/// The text before a `#`.
pub open spec fn before_hash(s: Seq<char>) -> Seq<char> {
    s.take(crate::text::position(s, '#'))
}

pub open spec fn match_arguments(line: Seq<char>) -> Result<Seq<Seq<char>>, MatchProblem> {
    let rest = before_hash(directive_rest(line));
    if rest.contains('\\') || rest.contains('\'') || rest.contains('"') {
        Err(MatchProblem::QuotedArgument)
    } else {
        Ok(crate::text::words(rest))
    }
}

/// Outcome of the patterns from index `i` on, with `seen` saying whether one
/// of those before matched.
pub open spec fn patterns_match(host: Seq<char>, patterns: Seq<Seq<char>>, i: int, seen: bool) -> Result<
    bool,
    MatchProblem,
>
    decreases patterns.len() - i,
{
    if i < 0 || i >= patterns.len() {
        Ok(seen)
    } else {
        let raw = patterns[i];
        let negated = raw.len() > 0 && raw[0] == '!';
        let pattern = if negated {
            raw.skip(1)
        } else {
            raw
        };
        if raw.len() == 0 {
            Err(MatchProblem::EmptyPattern)
        } else if pattern.len() == 0 {
            Err(MatchProblem::EmptyNegatedPattern)
        } else if crate::text::utf8_len(pattern) > MAX_PATTERN_BYTES {
            Err(MatchProblem::PatternTooLong)
        } else if text_matches(pattern, host) {
            if negated {
                Ok(false)
            } else {
                patterns_match(host, patterns, i + 1, true)
            }
        } else {
            patterns_match(host, patterns, i + 1, seen)
        }
    }
}

/// The text matches the wildcard pattern, whatever the ASCII case of either.
pub open spec fn text_matches(pattern: Seq<char>, s: Seq<char>) -> bool {
    crate::pattern::wildcard(
        vstd::utf8::encode_utf8(crate::text::lower_text(pattern)),
        vstd::utf8::encode_utf8(crate::text::lower_text(s)),
    )
}

/// A host matches a pattern list when some pattern matches and no negated one
/// does.
pub open spec fn pattern_list_matches(host: Seq<char>, list: Seq<char>) -> Result<
    bool,
    MatchProblem,
> {
    if list.len() == 0 {
        Err(MatchProblem::EmptyPatternList)
    } else if crate::text::utf8_len(list) > MAX_PATTERN_LIST_BYTES {
        Err(MatchProblem::PatternListTooLong)
    } else {
        patterns_match(host, crate::text::split(list, ','), 0, false)
    }
}

pub open spec fn match_holds(arguments: Seq<Seq<char>>, host: Seq<char>) -> Result<
    bool,
    MatchProblem,
> {
    if arguments.len() > MAX_MATCH_ARGUMENTS {
        Err(MatchProblem::TooManyArguments)
    } else if arguments.len() == 0 {
        Err(MatchProblem::NoCriterion)
    } else if arguments.len() == 1 && crate::text::same_ignoring_case(arguments[0], "all"@) {
        Ok(true)
    } else if arguments.len() == 2 && crate::text::same_ignoring_case(
        arguments[0],
        "originalhost"@,
    ) {
        pattern_list_matches(host, arguments[1])
    } else {
        Err(MatchProblem::UnsupportedCriterion)
    }
}

/// Whether the block that a `Match` line opens applies to a host.
pub open spec fn match_line_holds(line: Seq<char>, host: Seq<char>) -> Result<bool, MatchProblem> {
    match match_arguments(line) {
        Err(e) => Err(e),
        Ok(arguments) => match_holds(arguments, host),
    }
}

/// The output with one more line, as far as it stays within the limit.
pub open spec fn with_line(output: Seq<char>, line: Seq<char>) -> Result<Seq<char>, MatchProblem> {
    if crate::text::utf8_len(output) + crate::text::utf8_len(line) + 1 > MAX_CONFIG_BYTES {
        Err(MatchProblem::OutputTooLong)
    } else {
        Ok(output + line + seq!['\n'])
    }
}

/// Output and block state after one more line.
pub open spec fn rewrite_line(output: Seq<char>, emit: bool, line: Seq<char>, host: Seq<char>) -> Result<
    (Seq<char>, bool),
    MatchProblem,
> {
    if is_directive(line, "include"@) {
        Err(MatchProblem::RawInclude)
    } else if is_directive(line, "host"@) {
        match with_line(output, line) {
            Ok(longer) => Ok((longer, true)),
            Err(e) => Err(e),
        }
    } else if is_directive(line, "match"@) {
        match match_line_holds(line, host) {
            Err(e) => Err(e),
            Ok(false) => Ok((output, false)),
            Ok(true) => match with_line(output, "Host *"@) {
                Ok(longer) => Ok((longer, true)),
                Err(e) => Err(e),
            },
        }
    } else if emit {
        match with_line(output, line) {
            Ok(longer) => Ok((longer, emit)),
            Err(e) => Err(e),
        }
    } else {
        Ok((output, emit))
    }
}

pub open spec fn rewrite_from(
    output: Seq<char>,
    emit: bool,
    all: Seq<Seq<char>>,
    i: int,
    host: Seq<char>,
) -> Result<Seq<char>, MatchProblem>
    decreases all.len() - i,
{
    if i < 0 || i >= all.len() {
        Ok(output)
    } else {
        match rewrite_line(output, emit, all[i], host) {
            Err(e) => Err(e),
            Ok((next, applies)) => rewrite_from(next, applies, all, i + 1, host),
        }
    }
}

/// The configuration with its `Match` blocks turned into plain blocks for a
/// host: those that apply are kept under `Host *`, the others are dropped.
pub open spec fn rewritten(contents: Seq<char>, host: Seq<char>) -> Result<
    Seq<char>,
    MatchProblem,
> {
    rewrite_from("Host *\n"@, true, crate::text::lines(contents), 0, host)
}

fn key_end(c: char) -> (r: bool)
    ensures
        r == is_key_end(c),
{
    crate::text::ascii_whitespace(c) || c == '='
}

fn key_length(chars: &Vec<char>) -> (r: usize)
    ensures
        r == key_len(chars@),
        r <= chars@.len(),
{
    let mut i: usize = 0;
    assert(chars@.skip(0) =~= chars@);
    while i < chars.len() && !key_end(chars[i])
        invariant
            i <= chars@.len(),
            key_len(chars@) == i + key_len(chars@.skip(i as int)),
        decreases chars@.len() - i,
    {
        assert(chars@.skip(i as int).drop_first() =~= chars@.skip(i + 1));
        i += 1;
    }
    i
}

pub fn directive_key_of(line: &str) -> (r: Option<String>)
    ensures
        crate::model::option_view(r) == directive_key(line@),
{
    let s = trimmed_start(line);
    let chars = chars_of(s.as_str());
    if chars.len() == 0 || chars[0] == '#' {
        return None;
    }
    let n = key_length(&chars);
    let key = text_between(chars.as_slice(), 0, n);
    assert(key@ =~= s@.take(n as int));
    Some(key)
}

pub fn line_is_directive(line: &str, key: &str) -> (r: bool)
    ensures
        r == is_directive(line@, key@),
{
    match directive_key_of(line) {
        Some(k) => equal_ignoring_case(k.as_str(), key),
        None => false,
    }
}

pub fn directive_rest_of(line: &str) -> (r: String)
    ensures
        r@ == directive_rest(line@),
{
    let s = trimmed_start(line);
    let chars = chars_of(s.as_str());
    let n = key_length(&chars);
    let mut i: usize = n;
    while i < chars.len() && key_end(chars[i])
        invariant
            n <= i <= chars@.len(),
            skip_key_end(chars@.skip(n as int)) == skip_key_end(chars@.skip(i as int)),
        decreases chars@.len() - i,
    {
        assert(chars@.skip(i as int).drop_first() =~= chars@.skip(i + 1));
        i += 1;
    }
    let rest = text_between(chars.as_slice(), i, chars.len());
    assert(rest@ =~= chars@.skip(i as int));
    rest
}

fn directive_arguments(line: &str) -> (r: Result<Vec<String>, MatchProblem>)
    ensures
        match r {
            Ok(arguments) => match_arguments(line@) == Ok::<Seq<Seq<char>>, MatchProblem>(
                crate::text::views(arguments@),
            ),
            Err(e) => match_arguments(line@) == Err::<Seq<Seq<char>>, MatchProblem>(e),
        },
{
    let rest = directive_rest_of(line);
    let chars = chars_of(rest.as_str());
    let p = position_from(chars.as_slice(), '#', 0);
    assert(rest@.skip(0) =~= rest@);
    let head = text_between(chars.as_slice(), 0, p);
    assert(head@ =~= before_hash(rest@));
    let text = head.as_str();
    if contains_char(text, '\\') || contains_char(text, '\'') || contains_char(text, '"') {
        return Err(MatchProblem::QuotedArgument);
    }
    Ok(words_of(text))
}

/// Matches a host with a comma-separated pattern list.
pub fn match_hostname_pattern_list(host: &str, pattern_list: &str) -> (r: Result<
    bool,
    MatchProblem,
>)
    ensures
        r == pattern_list_matches(host@, pattern_list@),
{
    if pattern_list.is_empty() {
        return Err(MatchProblem::EmptyPatternList);
    }
    if byte_len(pattern_list) > MAX_PATTERN_LIST_BYTES {
        return Err(MatchProblem::PatternListTooLong);
    }
    let lowered = lower_string(host);
    let parts = split_on(pattern_list, ',');
    let ghost patterns = crate::text::split(pattern_list@, ',');
    let mut seen = false;
    let mut i: usize = 0;
    while i < parts.len()
        invariant
            patterns == crate::text::views(parts@),
            lowered@ == crate::text::lower_text(host@),
            pattern_list_matches(host@, pattern_list@) == patterns_match(host@, patterns, 0, false),
            i <= parts@.len(),
            patterns_match(host@, patterns, 0, false) == patterns_match(
                host@,
                patterns,
                i as int,
                seen,
            ),
        decreases parts@.len() - i,
    {
        assert(patterns[i as int] == parts@[i as int]@);
        let chars = chars_of(parts[i].as_str());
        if chars.len() == 0 {
            return Err(MatchProblem::EmptyPattern);
        }
        let negated = chars[0] == '!';
        let from: usize = if negated {
            1
        } else {
            0
        };
        let pattern = text_between(chars.as_slice(), from, chars.len());
        proof {
            if negated {
                assert(pattern@ =~= patterns[i as int].skip(1));
            } else {
                assert(pattern@ =~= patterns[i as int]);
            }
        }
        if pattern.as_str().is_empty() {
            return Err(MatchProblem::EmptyNegatedPattern);
        }
        if byte_len(pattern.as_str()) > MAX_PATTERN_BYTES {
            return Err(MatchProblem::PatternTooLong);
        }
        let small = lower_string(pattern.as_str());
        if wildcard_match(small.as_str().as_bytes(), lowered.as_str().as_bytes()) {
            if negated {
                return Ok(false);
            }
            seen = true;
        }
        i += 1;
    }
    Ok(seen)
}

fn evaluate_supported_match(arguments: &Vec<String>, original_host: &str) -> (r: Result<
    bool,
    MatchProblem,
>)
    ensures
        r == match_holds(crate::text::views(arguments@), original_host@),
{
    if arguments.len() > MAX_MATCH_ARGUMENTS {
        return Err(MatchProblem::TooManyArguments);
    }
    if arguments.len() == 0 {
        return Err(MatchProblem::NoCriterion);
    }
    assert(crate::text::views(arguments@)[0] == arguments@[0]@);
    if arguments.len() == 1 && equal_ignoring_case(arguments[0].as_str(), "all") {
        return Ok(true);
    }
    if arguments.len() == 2 && equal_ignoring_case(arguments[0].as_str(), "originalhost") {
        assert(crate::text::views(arguments@)[1] == arguments@[1]@);
        return match_hostname_pattern_list(original_host, arguments[1].as_str());
    }
    Err(MatchProblem::UnsupportedCriterion)
}

fn match_applies(line: &str, original_host: &str) -> (r: Result<bool, MatchProblem>)
    ensures
        r == match_line_holds(line@, original_host@),
{
    let arguments = directive_arguments(line)?;
    evaluate_supported_match(&arguments, original_host)
}

fn push_line_bounded(output: &mut String, line: &str) -> (r: Result<(), MatchProblem>)
    ensures
        match r {
            Ok(()) => with_line(old(output)@, line@) == Ok::<Seq<char>, MatchProblem>(
                final(output)@,
            ),
            Err(e) => with_line(old(output)@, line@) == Err::<Seq<char>, MatchProblem>(e),
        },
{
    let have = byte_len(output.as_str());
    let more = byte_len(line);
    if have >= MAX_CONFIG_BYTES || more > MAX_CONFIG_BYTES - 1 - have {
        return Err(MatchProblem::OutputTooLong);
    }
    let ghost before = output@;
    output.append(line);
    output.push('\n');
    assert(output@ =~= before + line@ + seq!['\n']);
    Ok(())
}

/// Rewrites the supported `Match` blocks of a configuration without `Include`
/// directives into plain `Host` blocks for one host.
pub fn rewrite_supported_match_config(contents: &str, original_host: &str) -> (r: Result<
    String,
    MatchProblem,
>)
    ensures
        match r {
            Ok(text) => rewritten(contents@, original_host@) == Ok::<Seq<char>, MatchProblem>(
                text@,
            ),
            Err(e) => rewritten(contents@, original_host@) == Err::<Seq<char>, MatchProblem>(e),
        },
{
    let all = lines_of(contents);
    let ghost views = crate::text::lines(contents@);
    let mut output = "Host *\n".to_owned();
    let mut emit = true;
    let mut i: usize = 0;
    while i < all.len()
        invariant
            views == crate::text::views(all@),
            rewritten(contents@, original_host@) == rewrite_from(
                output@,
                emit,
                views,
                i as int,
                original_host@,
            ),
            i <= all@.len(),
        decreases all@.len() - i,
    {
        assert(views[i as int] == all@[i as int]@);
        let line = all[i].as_str();
        if line_is_directive(line, "include") {
            return Err(MatchProblem::RawInclude);
        }
        if line_is_directive(line, "host") {
            emit = true;
            push_line_bounded(&mut output, line)?;
        } else if line_is_directive(line, "match") {
            emit = match_applies(line, original_host)?;
            if emit {
                push_line_bounded(&mut output, "Host *")?;
            }
        } else if emit {
            push_line_bounded(&mut output, line)?;
        }
        i += 1;
    }
    Ok(output)
}

} // verus!
