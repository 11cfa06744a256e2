//! Laws of OpenSSH configurations: what a line says, whom patterns speak of, and
//! which lines count for a host.

use vstd::prelude::*;

use crate::openssh_match::MatchProblem;

verus! {

/// The name of a directive: without white space and equals signs, and no
/// comment.
pub open spec fn is_key(s: Seq<char>) -> bool {
    s.len() > 0 && s[0] != '#' && !crate::text::is_whitespace(s[0]) && forall|i: int|
        0 <= i < s.len() ==> #[trigger] s[i] != '=' && !crate::text::is_ascii_whitespace(s[i])
}

proof fn lemma_key_len(key: Seq<char>, rest: Seq<char>)
    requires
        forall|i: int|
            0 <= i < key.len() ==> #[trigger] key[i] != '=' && !crate::text::is_ascii_whitespace(
                key[i],
            ),
        rest.len() > 0 ==> crate::openssh_match::is_key_end(rest[0]),
    ensures
        crate::openssh_match::key_len(key + rest) == key.len(),
    decreases key.len(),
{
    let all = key + rest;
    if key.len() > 0 {
        assert(all[0] == key[0]);
        assert(all.drop_first() =~= key.drop_first() + rest);
        assert forall|i: int| 0 <= i < key.drop_first().len() implies #[trigger] key.drop_first()[i]
            != '=' && !crate::text::is_ascii_whitespace(key.drop_first()[i]) by {
            assert(key.drop_first()[i] == key[i + 1]);
        }
        lemma_key_len(key.drop_first(), rest);
    } else {
        assert(all =~= rest);
    }
}

proof fn lemma_starts_tight(s: Seq<char>)
    requires
        s.len() > 0,
        !crate::text::is_whitespace(s[0]),
    ensures
        crate::text::trim_start(s) == s,
{
}

/// A line says its directive and then its arguments, with a space, a tab or an
/// equals sign between them.
pub proof fn directives_come_before_their_arguments(key: Seq<char>, gap: char, rest: Seq<char>)
    requires
        is_key(key),
        gap == ' ' || gap == '\t' || gap == '=',
        rest.len() > 0 ==> rest[0] != '=' && !crate::text::is_ascii_whitespace(rest[0]),
    ensures
        crate::openssh_match::directive_key(key + seq![gap] + rest) == Some(key),
        crate::openssh_match::directive_rest(key + seq![gap] + rest) == rest,
        crate::openssh_match::directive_key(key) == Some(key),
{
    let tail = seq![gap] + rest;
    let line = key + tail;
    assert(key + seq![gap] + rest =~= line);
    assert(line[0] == key[0]);
    lemma_starts_tight(line);
    assert(crate::openssh_match::is_key_end(gap));
    lemma_key_len(key, tail);
    assert(line.take(key.len() as int) =~= key);
    assert(line.skip(key.len() as int) =~= tail);
    assert(tail.drop_first() =~= rest);
    reveal_with_fuel(crate::openssh_match::skip_key_end, 2);
    lemma_starts_tight(key);
    let none = Seq::<char>::empty();
    lemma_key_len(key, none);
    assert(key + none =~= key);
    assert(key.take(key.len() as int) =~= key);
}

/// White space before a line does not count; an empty line and a comment say
/// nothing.
pub proof fn comments_say_nothing(gap: char, line: Seq<char>, comment: Seq<char>)
    requires
        crate::text::is_whitespace(gap),
    ensures
        crate::openssh_match::directive_key(seq![gap] + line) == crate::openssh_match::directive_key(
            line,
        ),
        crate::openssh_match::directive_rest(seq![gap] + line)
            == crate::openssh_match::directive_rest(line),
        crate::openssh_match::directive_key(Seq::empty()) is None,
        crate::openssh_match::directive_key(seq!['#'] + comment) is None,
{
    let all = seq![gap] + line;
    assert(all.drop_first() =~= line);
    assert(crate::text::trim_start(all) == crate::text::trim_start(line)) by {
        reveal_with_fuel(crate::text::trim_start, 2);
    }
    let noted = seq!['#'] + comment;
    assert(noted[0] == '#');
    lemma_starts_tight(noted);
    assert(crate::text::trim_start(Seq::<char>::empty()) =~= Seq::empty());
}

/// The pattern keeps hosts out.
pub open spec fn keeps_out(pattern: Seq<char>) -> bool {
    pattern.len() > 0 && pattern[0] == '!'
}

/// A pattern, behind its exclamation mark where it has one.
pub open spec fn bare(pattern: Seq<char>) -> Seq<char> {
    if keeps_out(pattern) {
        pattern.skip(1)
    } else {
        pattern
    }
}

/// A pattern of one to 1023 bytes.
pub open spec fn is_pattern(pattern: Seq<char>) -> bool {
    bare(pattern).len() > 0 && vstd::utf8::encode_utf8(bare(pattern)).len() <= 1023
}

/// Patterns speak of a host exactly where one of them matches it and none that
/// keeps hosts out does.
pub proof fn patterns_admit_and_keep_out(
    host: Seq<char>,
    patterns: Seq<Seq<char>>,
    i: int,
    seen: bool,
)
    requires
        0 <= i <= patterns.len(),
        forall|k: int| 0 <= k < patterns.len() ==> is_pattern(#[trigger] patterns[k]),
    ensures
        ({
            let admitted = seen || exists|k: int|
                i <= k < patterns.len() && !keeps_out(#[trigger] patterns[k])
                    && crate::openssh_match::text_matches(patterns[k], host);
            let kept_out = exists|k: int|
                i <= k < patterns.len() && keeps_out(#[trigger] patterns[k])
                    && crate::openssh_match::text_matches(patterns[k].skip(1), host);
            crate::openssh_match::patterns_match(host, patterns, i, seen) == Ok::<
                bool,
                MatchProblem,
            >(admitted && !kept_out)
        }),
    decreases patterns.len() - i,
{
    if i < patterns.len() {
        let p = patterns[i];
        assert(is_pattern(p));
        patterns_admit_and_keep_out(host, patterns, i + 1, seen);
        patterns_admit_and_keep_out(host, patterns, i + 1, true);
        if keeps_out(p) && crate::openssh_match::text_matches(p.skip(1), host) {
            assert(keeps_out(patterns[i]));
        } else if !keeps_out(p) && crate::openssh_match::text_matches(p, host) {
            assert(!keeps_out(patterns[i]));
        }
    }
}

/// A list of patterns that cannot be read holds one that is empty or too long, or
/// is itself empty or longer than 16384 bytes.
pub proof fn refused_lists_hold_a_bad_pattern(
    host: Seq<char>,
    list: Seq<char>,
    patterns: Seq<Seq<char>>,
    i: int,
    seen: bool,
)
    requires
        0 <= i <= patterns.len(),
    ensures
        crate::openssh_match::patterns_match(host, patterns, i, seen) is Err ==> exists|k: int|
            i <= k < patterns.len() && !is_pattern(#[trigger] patterns[k]),
        list.len() == 0 ==> crate::openssh_match::pattern_list_matches(host, list) == Err::<
            bool,
            MatchProblem,
        >(MatchProblem::EmptyPatternList),
        list.len() > 0 && vstd::utf8::encode_utf8(list).len() > 16384
            ==> crate::openssh_match::pattern_list_matches(host, list) == Err::<bool, MatchProblem>(
            MatchProblem::PatternListTooLong,
        ),
        list.len() > 0 && vstd::utf8::encode_utf8(list).len() <= 16384
            ==> crate::openssh_match::pattern_list_matches(host, list)
            == crate::openssh_match::patterns_match(host, crate::text::split(list, ','), 0, false),
    decreases patterns.len() - i,
{
    if i < patterns.len() {
        refused_lists_hold_a_bad_pattern(host, list, patterns, i + 1, seen);
        refused_lists_hold_a_bad_pattern(host, list, patterns, i + 1, true);
        if !is_pattern(patterns[i]) {
            assert(!is_pattern(patterns[i]));
        }
    }
}

/// Case does not matter to a pattern.
pub proof fn hosts_match_in_any_case(pattern: Seq<char>, other: Seq<char>, host: Seq<char>)
    requires
        crate::text::same_ignoring_case(pattern, other),
    ensures
        crate::openssh_match::text_matches(pattern, host) == crate::openssh_match::text_matches(
            other,
            host,
        ),
        crate::openssh_match::text_matches(host, pattern) == crate::openssh_match::text_matches(
            host,
            other,
        ),
{
}

/// A match is for all hosts, or for those that a list of patterns speaks of;
/// nothing else is understood.
pub proof fn matches_are_for_all_or_some(arguments: Seq<Seq<char>>, host: Seq<char>)
    ensures
        ({
            let holds = crate::openssh_match::match_holds(arguments, host);
            let all = arguments.len() == 1 && crate::text::same_ignoring_case(
                arguments[0],
                seq!['a', 'l', 'l'],
            );
            let named = arguments.len() == 2 && crate::text::same_ignoring_case(
                arguments[0],
                "originalhost"@,
            );
            &&& all ==> holds == Ok::<bool, MatchProblem>(true)
            &&& named ==> holds == crate::openssh_match::pattern_list_matches(host, arguments[1])
            &&& !all && !named ==> holds is Err
        }),
{
    reveal_strlit("all");
    assert("all"@ =~= seq!['a', 'l', 'l']);
}

/// The line begins a part of the configuration, or takes another file in.
pub open spec fn is_structural(line: Seq<char>) -> bool {
    match crate::openssh_match::directive_key(line) {
        Some(key) => crate::text::same_ignoring_case(key, "include"@)
            || crate::text::same_ignoring_case(key, "host"@) || crate::text::same_ignoring_case(
            key,
            "match"@,
        ),
        None => false,
    }
}

/// Lines of a part that counts are all kept, in their order, each on a line of
/// its own; lines of one that does not are all left out.
pub proof fn lines_count_with_their_part(
    output: Seq<char>,
    all: Seq<Seq<char>>,
    i: int,
    host: Seq<char>,
)
    requires
        0 <= i <= all.len(),
        forall|k: int| i <= k < all.len() ==> !is_structural(#[trigger] all[k]),
    ensures
        crate::openssh_match::rewrite_from(output, false, all, i, host) == Ok::<
            Seq<char>,
            MatchProblem,
        >(output),
        crate::openssh_match::rewrite_from(output, true, all, i, host) matches Ok(text) ==> text
            == all.skip(i).fold_left(
            output,
            |o: Seq<char>, line: Seq<char>| o + line + seq!['\n'],
        ),
    decreases all.len() - i,
{
    let f = |o: Seq<char>, line: Seq<char>| o + line + seq!['\n'];
    let rest = all.skip(i);
    if i < all.len() {
        assert(!is_structural(all[i]));
        lines_count_with_their_part(output, all, i + 1, host);
        let longer = output + all[i] + seq!['\n'];
        lines_count_with_their_part(longer, all, i + 1, host);
        assert(rest =~= seq![all[i]] + all.skip(i + 1));
        rest.lemma_fold_left_alt(output, f);
        all.skip(i + 1).lemma_fold_left_alt(longer, f);
        assert(rest.subrange(1, rest.len() as int) =~= all.skip(i + 1));
    } else {
        assert(rest =~= Seq::empty());
    }
}

/// A line that begins a part for named hosts is kept as it is. One that begins a
/// part by a match is kept as a part for all hosts where it holds, and else the
/// part does not count. A file cannot be taken in.
pub proof fn parts_count_where_they_hold(
    output: Seq<char>,
    emit: bool,
    line: Seq<char>,
    host: Seq<char>,
    key: Seq<char>,
)
    requires
        crate::openssh_match::directive_key(line) == Some(key),
    ensures
        ({
            let step = crate::openssh_match::rewrite_line(output, emit, line, host);
            &&& crate::text::same_ignoring_case(key, "include"@) ==> step == Err::<
                (Seq<char>, bool),
                MatchProblem,
            >(MatchProblem::RawInclude)
            &&& crate::text::same_ignoring_case(key, "host"@) ==> (step matches Ok((text, counts))
                ==> counts && text == output + line + seq!['\n'])
            &&& crate::text::same_ignoring_case(key, "match"@) ==> match (
                crate::openssh_match::match_line_holds(line, host),
                step,
            ) {
                (Ok(true), Ok((text, counts))) => counts && text == output + "Host *"@ + seq!['\n'],
                (Ok(true), Err(e)) => e == MatchProblem::OutputTooLong,
                (Ok(false), Ok((text, counts))) => !counts && text == output,
                (Ok(false), Err(_)) => false,
                (Err(e), Err(f)) => e == f,
                (Err(_), Ok(_)) => false,
            }
        }),
{
    lemma_keys_differ(key);
}

proof fn lemma_keys_differ(key: Seq<char>)
    ensures
        !(crate::text::same_ignoring_case(key, "include"@) && crate::text::same_ignoring_case(
            key,
            "host"@,
        )),
        !(crate::text::same_ignoring_case(key, "include"@) && crate::text::same_ignoring_case(
            key,
            "match"@,
        )),
        !(crate::text::same_ignoring_case(key, "host"@) && crate::text::same_ignoring_case(
            key,
            "match"@,
        )),
{
    reveal_strlit("include");
    reveal_strlit("host");
    reveal_strlit("match");
    crate::text_law::case_is_that_of_letters(key, "include"@);
    crate::text_law::case_is_that_of_letters(key, "host"@);
    crate::text_law::case_is_that_of_letters(key, "match"@);
}

/// Nothing is lost for want of room below four mebibytes, and nothing longer is
/// made.
pub proof fn rewritten_lines_fit(output: Seq<char>, line: Seq<char>)
    ensures
        match crate::openssh_match::with_line(output, line) {
            Ok(text) => {
                &&& text == output + line + seq!['\n']
                &&& vstd::utf8::encode_utf8(output).len() + vstd::utf8::encode_utf8(line).len() + 1
                    <= 4194304
            },
            Err(e) => {
                &&& e == MatchProblem::OutputTooLong
                &&& vstd::utf8::encode_utf8(output).len() + vstd::utf8::encode_utf8(line).len() + 1
                    > 4194304
            },
        },
{
}

/// Quotes around a name do not belong to it.
pub proof fn quotes_are_taken_off(s: Seq<char>, q: char)
    requires
        s.len() > 0,
        q == '"' || q == '\'',
        s[0] != '"' && s[0] != '\'',
        s.last() != '"' && s.last() != '\'',
    ensures
        crate::host_catalog::trim_quotes(s) == s,
        crate::host_catalog::trim_quotes(seq![q] + s + seq![q]) == s,
{
    let all = seq![q] + s + seq![q];
    reveal_with_fuel(crate::host_catalog::trim_quotes_start, 2);
    reveal_with_fuel(crate::host_catalog::trim_quotes_end, 2);
    assert(all[0] == q);
    let rest = all.drop_first();
    assert(rest =~= s + seq![q]);
    assert(rest[0] == s[0]);
    assert(rest.last() == q);
    assert(rest.drop_last() =~= s);
}

/// Words without quotes and hash signs are the names of a host line; what stands
/// behind a hash sign is not.
pub proof fn host_lines_name_their_words(done: Seq<Seq<char>>, all: Seq<Seq<char>>, i: int)
    requires
        0 <= i <= all.len(),
        forall|k: int| i <= k < all.len() ==> is_plain_word(#[trigger] all[k]),
    ensures
        crate::host_catalog::tokens_from(done, all, i) == done + all.skip(i),
        crate::host_catalog::tokens_from(done, all + seq![seq!['#']] + all, i) == done + all.skip(i),
    decreases all.len() - i,
{
    let noted = all + seq![seq!['#']] + all;
    if i < all.len() {
        assert(noted[i] == all[i]);
        let word = all[i];
        assert(is_plain_word(word));
        crate::text::lemma_position(word, '#');
        assert(word.take(word.len() as int) =~= word);
        lemma_no_quotes(word);
        host_lines_name_their_words(done.push(word), all, i + 1);
        assert(done.push(word) + all.skip(i + 1) =~= done + all.skip(i));
    } else {
        assert(done + all.skip(i) =~= done);
        let hash = noted[i];
        assert(hash == seq!['#']);
        crate::text::lemma_position_is(hash, '#', 0);
        assert(hash.take(0) =~= Seq::empty());
        assert(crate::host_catalog::trim_quotes(Seq::empty()) =~= Seq::empty());
    }
}

pub open spec fn is_plain_word(s: Seq<char>) -> bool {
    s.len() > 0 && !s.contains('#') && forall|i: int|
        0 <= i < s.len() ==> #[trigger] s[i] != '"' && s[i] != '\''
}

proof fn lemma_no_quotes(s: Seq<char>)
    requires
        is_plain_word(s),
    ensures
        crate::host_catalog::trim_quotes(s) == s,
{
    assert(s[0] != '"' && s[0] != '\'');
    assert(s[s.len() - 1] != '"' && s[s.len() - 1] != '\'');
}

/// A name of one host holds no white space, control character, star, question
/// mark or bracket, and does not keep hosts out.
pub proof fn concrete_names_are_no_patterns(value: Seq<char>)
    ensures
        crate::host_catalog::is_concrete(value) == (value.len() > 0 && value[0] != '!' && forall|
            i: int,
        |
            0 <= i < value.len() ==> {
                let c = #[trigger] value[i];
                !crate::text::is_whitespace(c) && !crate::text::is_control(c) && c != '*' && c != '?'
                    && c != '[' && c != ']'
            }),
{
    if crate::host_catalog::is_concrete(value) {
        assert forall|i: int| 0 <= i < value.len() implies {
            let c = #[trigger] value[i];
            !crate::text::is_whitespace(c) && !crate::text::is_control(c) && c != '*' && c != '?'
                && c != '[' && c != ']'
        } by {
            assert(!crate::host_catalog::is_pattern_char(value[i]));
        }
    }
}

/// A host line offers those of its names that are names of one host, and no other
/// line offers any.
pub proof fn host_lines_offer_their_names(line: Seq<char>, alias: Seq<char>)
    ensures
        crate::host_catalog::line_offers(line, alias) ==> crate::host_catalog::is_concrete(alias),
        crate::host_catalog::directive_parts(line) matches Some((key, arguments)) ==> {
            crate::host_catalog::line_offers(line, alias) == (crate::text::same_ignoring_case(
                key,
                seq!['h', 'o', 's', 't'],
            ) && crate::host_catalog::is_concrete(alias) && crate::host_catalog::host_tokens(
                arguments,
            ).contains(alias))
        },
        crate::host_catalog::directive_parts(line) is None ==> !crate::host_catalog::line_offers(
            line,
            alias,
        ) && !crate::host_catalog::is_structural_line(line),
{
    reveal_strlit("host");
    assert("host"@ =~= seq!['h', 'o', 's', 't']);
}

/// The catalog reads a line as its directive and its arguments too.
pub proof fn catalogs_read_directives(key: Seq<char>, gap: char, rest: Seq<char>)
    requires
        is_key(key),
        gap == ' ' || gap == '\t' || gap == '=',
        rest.len() > 0,
        rest[0] != '=',
        !crate::text::is_whitespace(rest[0]),
    ensures
        crate::host_catalog::directive_parts(key + seq![gap] + rest) == Some((key, rest)),
{
    let tail = seq![gap] + rest;
    let line = key + tail;
    assert(key + seq![gap] + rest =~= line);
    assert(line[0] == key[0]);
    lemma_starts_tight(line);
    assert(crate::openssh_match::is_key_end(gap));
    lemma_key_len(key, tail);
    assert(line.take(key.len() as int) =~= key);
    assert(line.skip(key.len() as int) =~= tail);
    assert(tail.drop_first() =~= rest);
    assert(tail.skip(1) =~= rest);
    lemma_starts_tight(rest);
    reveal_with_fuel(crate::text::trim_start, 2);
    if gap == '=' {
        lemma_starts_tight(tail);
    }
}

proof fn lemma_first_word(key: Seq<char>, rest: Seq<char>)
    requires
        forall|i: int|
            0 <= i < key.len() ==> #[trigger] key[i] != '=' && !crate::text::is_ascii_whitespace(
                key[i],
            ),
        rest.len() > 0 ==> rest[0] == '=' || crate::text::is_ascii_whitespace(rest[0]),
    ensures
        crate::config::first_word(key + rest) == key,
    decreases key.len(),
{
    let all = key + rest;
    if key.len() > 0 {
        let less = key.drop_first();
        assert(all[0] == key[0]);
        assert(all.drop_first() =~= less + rest);
        assert forall|i: int| 0 <= i < less.len() implies #[trigger] less[i] != '='
            && !crate::text::is_ascii_whitespace(less[i]) by {
            assert(less[i] == key[i + 1]);
        }
        lemma_first_word(less, rest);
        assert(seq![key[0]] + less =~= key);
    } else {
        assert(all =~= rest);
        assert(key =~= Seq::<char>::empty());
    }
}

/// `Match` and `Include` in any case, and no other directives, leave open what a
/// line means.
pub proof fn matches_and_includes_are_structural(key: Seq<char>, gap: char, rest: Seq<char>)
    requires
        is_key(key),
        gap == ' ' || gap == '\t' || gap == '=',
    ensures
        crate::config::is_structural(key + seq![gap] + rest) == (crate::text::same_ignoring_case(
            key,
            seq!['m', 'a', 't', 'c', 'h'],
        ) || crate::text::same_ignoring_case(key, seq!['i', 'n', 'c', 'l', 'u', 'd', 'e'])),
        rest.len() > 0 && rest[0] != '=' && !crate::text::is_whitespace(rest[0])
            ==> crate::host_catalog::is_structural_line(key + seq![gap] + rest)
            == crate::config::is_structural(key + seq![gap] + rest),
{
    reveal_strlit("match");
    reveal_strlit("include");
    assert("match"@ =~= seq!['m', 'a', 't', 'c', 'h']);
    assert("include"@ =~= seq!['i', 'n', 'c', 'l', 'u', 'd', 'e']);
    let tail = seq![gap] + rest;
    let line = key + tail;
    assert(key + seq![gap] + rest =~= line);
    assert(line[0] == key[0]);
    lemma_starts_tight(line);
    lemma_first_word(key, tail);
    if rest.len() > 0 && rest[0] != '=' && !crate::text::is_whitespace(rest[0]) {
        catalogs_read_directives(key, gap, rest);
    }
}

/// White space before a line does not count; comments and empty lines are not
/// structural.
pub proof fn comments_are_not_structural(gap: char, line: Seq<char>, comment: Seq<char>)
    requires
        crate::text::is_whitespace(gap),
    ensures
        crate::config::is_structural(seq![gap] + line) == crate::config::is_structural(line),
        crate::host_catalog::is_structural_line(seq![gap] + line)
            == crate::host_catalog::is_structural_line(line),
        !crate::config::is_structural(seq!['#'] + comment),
        !crate::host_catalog::is_structural_line(seq!['#'] + comment),
        !crate::config::is_structural(Seq::empty()),
        !crate::host_catalog::is_structural_line(Seq::empty()),
{
    let s = seq![gap] + line;
    assert(s.drop_first() =~= line);
    lemma_starts_tight(seq!['#'] + comment);
}

/// A text is structural, and offers a name, where one of its lines is or does.
pub proof fn texts_are_read_line_by_line(line: Seq<char>, rest: Seq<char>, alias: Seq<char>)
    requires
        !line.contains('\n'),
        line.len() > 0 ==> line.last() != '\r',
    ensures
        crate::config::has_structural(line + seq!['\n'] + rest) == (crate::config::is_structural(line)
            || crate::config::has_structural(rest)),
        crate::host_catalog::has_structural_line(line + seq!['\n'] + rest) == (
        crate::host_catalog::is_structural_line(line) || crate::host_catalog::has_structural_line(
            rest,
        )),
        crate::host_catalog::offers(line + seq!['\n'] + rest, alias) == (
        crate::host_catalog::line_offers(line, alias) || crate::host_catalog::offers(rest, alias)),
        !crate::config::has_structural(Seq::empty()),
        !crate::host_catalog::has_structural_line(Seq::empty()),
        !crate::host_catalog::offers(Seq::empty(), alias),
{
    crate::text_law::lines_come_one_by_one(line, rest);
    let all = crate::text::lines(line + seq!['\n'] + rest);
    let later = crate::text::lines(rest);
    assert(all[0] == line);
    assert forall|i: int| 0 <= i < later.len() implies #[trigger] later[i] == all[i + 1] by {}
    assert forall|i: int| 0 < i < all.len() implies #[trigger] all[i] == later[i - 1] by {}
}

/// Arguments of a match with quotes or backslashes are refused, and so are more than
/// eight; without them they are words, and what stands behind a hash sign does not
/// count.
pub proof fn match_arguments_are_plain_words(key: Seq<char>, rest: Seq<char>, comment: Seq<char>)
    requires
        is_key(key),
        rest.len() > 0,
        rest[0] != '=' && !crate::text::is_ascii_whitespace(rest[0]),
        !rest.contains('#'),
    ensures
        ({
            let line = key + seq![' '] + rest;
            let found = crate::openssh_match::match_arguments(line);
            &&& rest.contains('"') || rest.contains('\'') || rest.contains('\\') ==> found == Err::<
                Seq<Seq<char>>,
                MatchProblem,
            >(MatchProblem::QuotedArgument)
            &&& !rest.contains('"') && !rest.contains('\'') && !rest.contains('\\') ==> found == Ok::<
                Seq<Seq<char>>,
                MatchProblem,
            >(crate::text::words(rest))
            &&& crate::openssh_match::match_arguments(line + seq!['#'] + comment) == found
        }),
        crate::text::words(rest).len() > 8 ==> forall|host: Seq<char>|
            #[trigger] crate::openssh_match::match_holds(crate::text::words(rest), host) == Err::<
                bool,
                MatchProblem,
            >(MatchProblem::TooManyArguments),
{
    directives_come_before_their_arguments(key, ' ', rest);
    let more = rest + seq!['#'] + comment;
    assert(more[0] == rest[0]);
    directives_come_before_their_arguments(key, ' ', more);
    assert(key + seq![' '] + more =~= key + seq![' '] + rest + seq!['#'] + comment);
    let n = rest.len() as int;
    crate::text::lemma_position(rest, '#');
    assert(rest.take(n) =~= rest);
    assert forall|k: int| 0 <= k < n implies more[k] != '#' by {
        assert(rest.contains(rest[k]));
    }
    crate::text::lemma_position_is(more, '#', n);
    assert(more.take(n) =~= rest);
}

} // verus!
