//! Laws of what known hosts say: under which name a host is known, whom a list
//! of patterns speaks of, and which keys are marked.

use vstd::prelude::*;

use crate::host_trust::CertificateView;
use crate::host_trust::HostTrustProblem;
use crate::host_trust::KeyView;
use crate::host_trust::MarkView;
use crate::host_trust::PatternsView;

verus! {

/// The kinds of keys whose signatures can be checked.
pub open spec fn can_be_checked(algorithm: Seq<char>) -> bool {
    ||| algorithm == "ssh-ed25519"@
    ||| algorithm == "ecdsa-sha2-nistp256"@
    ||| algorithm == "ecdsa-sha2-nistp384"@
    ||| algorithm == "ecdsa-sha2-nistp521"@
}

proof fn lemma_filter_within<A>(s: Seq<A>, f: spec_fn(A) -> bool, i: int)
    requires
        0 <= i < s.filter(f).len(),
    ensures
        s.contains(s.filter(f)[i]),
        f(s.filter(f)[i]),
    decreases s.len(),
{
    reveal(Seq::filter);
    if s.len() > 0 {
        let before = s.drop_last();
        if i < before.filter(f).len() {
            lemma_filter_within(before, f, i);
            let k = choose|k: int| 0 <= k < before.len() && before[k] == before.filter(f)[i];
            assert(s[k] == before.filter(f)[i]);
        } else {
            assert(s[s.len() - 1] == s.filter(f)[i]);
        }
    }
}

/// The authorities that vouch are those trusted ones that can be checked.
pub proof fn lemma_vouching(trusted: Seq<KeyView>)
    ensures
        forall|key: KeyView| #[trigger]
            crate::host_trust::vouching(trusted).contains(key) == (trusted.contains(key)
                && can_be_checked(key.algorithm)),
{
    let f = |k: KeyView| crate::host_trust::verifiable(k);
    assert forall|key: KeyView| #[trigger]
        crate::host_trust::vouching(trusted).contains(key) == (trusted.contains(key)
            && can_be_checked(key.algorithm)) by {
        trusted.filter_lemma(f);
        let vouching = trusted.filter(f);
        if vouching.contains(key) {
            let i = choose|i: int| 0 <= i < vouching.len() && vouching[i] == key;
            lemma_filter_within(trusted, f, i);
        }
        if trusted.contains(key) && can_be_checked(key.algorithm) {
            let i = choose|i: int| 0 <= i < trusted.len() && trusted[i] == key;
            assert(f(trusted[i]));
        }
    }
}

/// At port 22 a host is known by its name; at another one by its name in
/// brackets, a colon and the port.
pub proof fn hosts_are_known_by_name_and_port(host: Seq<char>, port: u16)
    ensures
        crate::host_trust::target_name(host, 22) == host,
        port != 22 ==> {
            let name = crate::host_trust::target_name(host, port);
            let n = host.len() as int;
            &&& name.len() > n + 3
            &&& name[0] == '[' && name.subrange(1, 1 + n) == host
            &&& name[n + 1] == ']' && name[n + 2] == ':'
            &&& crate::text::parse_unsigned(name.skip(n + 3), 65535) == Some(port as nat)
        },
{
    if port != 22 {
        let name = crate::host_trust::target_name(host, port);
        let n = host.len() as int;
        reveal_strlit("[");
        reveal_strlit("]:");
        crate::text_law::numbers_come_through(port as nat, 65535);
        crate::text::lemma_decimal(port as nat);
        assert(name.subrange(1, 1 + n) =~= host);
        assert(name.skip(n + 3) =~= crate::text::decimal(port as nat));
    }
}

/// Two ports of a host have different names.
pub proof fn ports_have_names_of_their_own(host: Seq<char>, a: u16, b: u16)
    requires
        a != b,
    ensures
        crate::host_trust::target_name(host, a) != crate::host_trust::target_name(host, b),
{
    hosts_are_known_by_name_and_port(host, a);
    hosts_are_known_by_name_and_port(host, b);
}

/// The pattern keeps hosts out.
pub open spec fn keeps_out(pattern: Seq<char>) -> bool {
    pattern.len() > 0 && pattern[0] == '!'
}

proof fn lemma_clear_match(target: Seq<char>, patterns: Seq<Seq<char>>, hit: bool, i: int)
    requires
        0 <= i <= patterns.len(),
        forall|k: int| 0 <= k < patterns.len() ==> (#[trigger] patterns[k]).len() > 0,
        forall|k: int|
            0 <= k < patterns.len() && keeps_out(#[trigger] patterns[k]) ==> patterns[k].len() > 1,
    ensures
        ({
            let admitted = hit || exists|k: int|
                i <= k < patterns.len() && !keeps_out(#[trigger] patterns[k])
                    && crate::host_trust::host_matches(patterns[k], target);
            let kept_out = exists|k: int|
                i <= k < patterns.len() && keeps_out(#[trigger] patterns[k])
                    && crate::host_trust::host_matches(patterns[k].skip(1), target);
            crate::host_trust::clear_match_from(target, patterns, hit, i) == Ok::<
                bool,
                HostTrustProblem,
            >(admitted && !kept_out)
        }),
    decreases patterns.len() - i,
{
    if i < patterns.len() {
        let p = patterns[i];
        assert(p.subrange(1, p.len() as int) =~= p.skip(1));
        lemma_clear_match(target, patterns, hit, i + 1);
        lemma_clear_match(target, patterns, true, i + 1);
        if keeps_out(p) && crate::host_trust::host_matches(p.skip(1), target) {
            assert(keeps_out(patterns[i]));
        } else if !keeps_out(p) && crate::host_trust::host_matches(p, target) {
            assert(!keeps_out(patterns[i]));
        }
    }
}

/// A list of patterns speaks of a host exactly where one of them matches it and
/// none that keeps hosts out does.
pub proof fn patterns_admit_and_keep_out(target: Seq<char>, patterns: Seq<Seq<char>>)
    requires
        forall|k: int| 0 <= k < patterns.len() ==> (#[trigger] patterns[k]).len() > 0,
        forall|k: int|
            0 <= k < patterns.len() && keeps_out(#[trigger] patterns[k]) ==> patterns[k].len() > 1,
    ensures
        ({
            let admitted = exists|k: int|
                0 <= k < patterns.len() && !keeps_out(#[trigger] patterns[k])
                    && crate::host_trust::host_matches(patterns[k], target);
            let kept_out = exists|k: int|
                0 <= k < patterns.len() && keeps_out(#[trigger] patterns[k])
                    && crate::host_trust::host_matches(patterns[k].skip(1), target);
            crate::host_trust::patterns_match(target, PatternsView::Patterns(patterns)) == Ok::<
                bool,
                HostTrustProblem,
            >(admitted && !kept_out)
        }),
{
    lemma_clear_match(target, patterns, false, 0);
}

/// A list that is refused holds an empty pattern, or an exclamation mark alone;
/// and one that holds nothing else before them is refused.
pub proof fn refused_lists_hold_nothing(target: Seq<char>, patterns: Seq<Seq<char>>, hit: bool, i: int)
    requires
        0 <= i <= patterns.len(),
    ensures
        match crate::host_trust::clear_match_from(target, patterns, hit, i) {
            Ok(_) => true,
            Err(HostTrustProblem::EmptyPattern) => exists|k: int|
                i <= k < patterns.len() && (#[trigger] patterns[k]).len() == 0,
            Err(HostTrustProblem::EmptyNegation) => exists|k: int|
                i <= k < patterns.len() && #[trigger] patterns[k] == seq!['!'],
            Err(_) => false,
        },
        i < patterns.len() && patterns[i].len() == 0 ==> crate::host_trust::clear_match_from(
            target,
            patterns,
            hit,
            i,
        ) is Err,
        i < patterns.len() && patterns[i] == seq!['!'] ==> crate::host_trust::clear_match_from(
            target,
            patterns,
            hit,
            i,
        ) is Err,
    decreases patterns.len() - i,
{
    if i < patterns.len() {
        let p = patterns[i];
        refused_lists_hold_nothing(target, patterns, hit, i + 1);
        refused_lists_hold_nothing(
            target,
            patterns,
            hit || crate::host_trust::host_matches(p, target),
            i + 1,
        );
        if p.len() == 1 && p[0] == '!' {
            assert(p =~= seq!['!']);
            assert(patterns[i] == seq!['!']);
        }
    }
}

/// Case does not matter to a pattern for hosts.
pub proof fn hosts_match_in_any_case(pattern: Seq<char>, other: Seq<char>, host: Seq<char>)
    requires
        crate::text::same_ignoring_case(pattern, other),
    ensures
        crate::host_trust::host_matches(pattern, host) == crate::host_trust::host_matches(
            other,
            host,
        ),
        crate::host_trust::host_matches(host, pattern) == crate::host_trust::host_matches(
            host,
            other,
        ),
{
}

/// Lists are read part by part: the patterns of two lists with a comma between
/// them are those of the first and then those of the second.
pub proof fn pattern_lists_are_read_in_order(a: Seq<char>, b: Seq<char>)
    requires
        a.len() > 0,
        b.len() > 0,
        a[0] != '|',
        a.last() != ',',
        b.last() != ',',
        b[0] != '|',
    ensures
        match (
            crate::host_trust::patterns_of(a),
            crate::host_trust::patterns_of(b),
            crate::host_trust::patterns_of(a + seq![','] + b),
        ) {
            (
                Some(PatternsView::Patterns(x)),
                Some(PatternsView::Patterns(y)),
                Some(PatternsView::Patterns(z)),
            ) => z == x + y && (!a.contains(',') ==> x == seq![a]),
            _ => false,
        },
{
    let all = a + seq![','] + b;
    crate::text_law::splitting_undoes_joining(a, b, ',');
    lemma_last_part(a);
    lemma_last_part(b);
    let x = crate::text::split(a, ',');
    let y = crate::text::split(b, ',');
    assert((x + y).last() == y.last());
    assert(all[0] == a[0]);
    if !a.contains(',') {
        crate::text_law::plain_text_is_one_part(a, ',');
    }
}

proof fn lemma_last_part(s: Seq<char>)
    requires
        s.len() > 0,
        s.last() != ',',
    ensures
        crate::text::split(s, ',').len() > 0,
        crate::text::split(s, ',').last().len() > 0,
    decreases s.len(),
{
    crate::text::lemma_position(s, ',');
    let p = crate::text::position(s, ',');
    if p < s.len() {
        let rest = s.skip(p + 1);
        assert(p < s.len() - 1);
        assert(rest.last() == s.last());
        lemma_last_part(rest);
        let parts = crate::text::split(s, ',');
        assert(parts =~= seq![s.take(p)] + crate::text::split(rest, ','));
        assert(parts.last() == crate::text::split(rest, ',').last());
    } else {
        crate::text_law::plain_text_is_one_part(s, ',');
    }
}

/// A word without white space.
pub open spec fn is_word(s: Seq<char>) -> bool {
    s.len() > 0 && forall|i: int|
        0 <= i < s.len() ==> !crate::text::is_whitespace(#[trigger] s[i])
}

/// A line of a marker, patterns, a kind of key and a key.
pub open spec fn marked_line(
    marker: Seq<char>,
    patterns: Seq<char>,
    algorithm: Seq<char>,
    key: Seq<char>,
) -> Seq<char> {
    marker + seq![' '] + (patterns + seq![' '] + (algorithm + seq![' '] + key))
}

proof fn lemma_word(s: Seq<char>)
    requires
        is_word(s),
    ensures
        forall|k: int| 0 <= k < s.len() ==> !crate::text::is_ascii_whitespace(#[trigger] s[k]),
        crate::text::words(s) == seq![s],
{
    assert forall|k: int| 0 <= k < s.len() implies !crate::text::is_ascii_whitespace(
        #[trigger] s[k],
    ) by {
        assert(!crate::text::is_whitespace(s[k]));
    }
    crate::text_law::single_words_are_words(s);
}

/// A line with a marker marks its key for the hosts that its patterns speak of:
/// as revoked, or as that of an authority. For other hosts it marks nothing.
pub proof fn marked_lines_mark_their_key(
    target: Seq<char>,
    patterns: Seq<char>,
    algorithm: Seq<char>,
    key: Seq<char>,
)
    requires
        is_word(patterns),
        is_word(algorithm),
        is_word(key),
        crate::host_trust::patterns_of(patterns) is Some,
        crate::host_trust::openssh_key(algorithm + " "@ + key) is Some,
    ensures
        ({
            let read = crate::host_trust::openssh_key(algorithm + " "@ + key)->0;
            let found = KeyView { algorithm: read.0, blob: read.1 };
            let speaks = crate::host_trust::patterns_match(
                target,
                crate::host_trust::patterns_of(patterns)->0,
            );
            let revoked = crate::host_trust::marked(
                target,
                marked_line("@revoked"@, patterns, algorithm, key),
            );
            let authority = crate::host_trust::marked(
                target,
                marked_line("@cert-authority"@, patterns, algorithm, key),
            );
            match speaks {
                Ok(true) => {
                    &&& revoked == Ok::<Option<MarkView>, HostTrustProblem>(
                        Some(MarkView { revoked: true, key: found }),
                    )
                    &&& authority == Ok::<Option<MarkView>, HostTrustProblem>(
                        Some(MarkView { revoked: false, key: found }),
                    )
                },
                Ok(false) => {
                    &&& revoked == Ok::<Option<MarkView>, HostTrustProblem>(None)
                    &&& authority == Ok::<Option<MarkView>, HostTrustProblem>(None)
                },
                Err(e) => {
                    &&& revoked == Err::<Option<MarkView>, HostTrustProblem>(e)
                    &&& authority == Err::<Option<MarkView>, HostTrustProblem>(e)
                },
            }
        }),
{
    reveal_strlit("@revoked");
    reveal_strlit("@cert-authority");
    lemma_marked_line("@revoked"@, patterns, algorithm, key);
    lemma_marked_line("@cert-authority"@, patterns, algorithm, key);
    assert("@revoked"@.len() != "@cert-authority"@.len());
}

proof fn lemma_marked_line(
    marker: Seq<char>,
    patterns: Seq<char>,
    algorithm: Seq<char>,
    key: Seq<char>,
)
    requires
        is_word(marker),
        is_word(patterns),
        is_word(algorithm),
        is_word(key),
    ensures
        ({
            let line = marked_line(marker, patterns, algorithm, key);
            &&& crate::text::trim(line) == line && line.len() > 0 && line[0] == marker[0]
            &&& crate::text::words(line) == seq![marker, patterns, algorithm, key]
        }),
{
    let line = marked_line(marker, patterns, algorithm, key);
    lemma_word(marker);
    lemma_word(patterns);
    lemma_word(algorithm);
    lemma_word(key);
    let three = algorithm + seq![' '] + key;
    let two = patterns + seq![' '] + three;
    crate::text_law::words_come_one_by_one(algorithm, ' ', key);
    crate::text_law::words_come_one_by_one(patterns, ' ', three);
    crate::text_law::words_come_one_by_one(marker, ' ', two);
    assert(line[0] == marker[0]);
    assert(line.last() == key.last());
    crate::text_law::tight_text_stays(line);
    assert(crate::text::words(line) =~= seq![marker, patterns, algorithm, key]);
}

/// A line without a marker marks nothing, and one with an unknown marker is
/// refused.
pub proof fn other_lines_mark_nothing(target: Seq<char>, line: Seq<char>, rest: Seq<char>)
    ensures
        line.len() > 0 && line[0] != '@' && !crate::text::is_whitespace(line[0])
            ==> crate::host_trust::marked(target, line) == Ok::<
            Option<MarkView>,
            HostTrustProblem,
        >(None),
        is_word(line) && line[0] == '@' && line != "@revoked"@ && line != "@cert-authority"@
            && is_word(rest) ==> crate::host_trust::marked(target, line + seq![' '] + rest)
            == Err::<Option<MarkView>, HostTrustProblem>(HostTrustProblem::UnknownMarker),
{
    if line.len() > 0 && line[0] != '@' && !crate::text::is_whitespace(line[0]) {
        let from = crate::text_law::trimming_takes_white_space_alone(line);
        let text = crate::text::trim(line);
        if text.len() > 0 {
            if from > 0 {
                assert(crate::text::is_whitespace(line[0]));
            }
            assert(text[0] == line[0]);
        }
    }
    if is_word(line) && is_word(rest) {
        lemma_word(line);
        lemma_word(rest);
        crate::text_law::words_come_one_by_one(line, ' ', rest);
        let all = line + seq![' '] + rest;
        assert(all[0] == line[0] && all.last() == rest.last());
        crate::text_law::tight_text_stays(all);
        assert(crate::text::words(all)[0] == line);
    }
}

/// Line `i` marks the key, as revoked or as that of an authority.
pub open spec fn marks(
    target: Seq<char>,
    lines: Seq<Seq<char>>,
    i: int,
    revoked: bool,
    key: KeyView,
) -> bool {
    crate::host_trust::marked(target, lines[i]) == Ok::<Option<MarkView>, HostTrustProblem>(
        Some(MarkView { revoked, key }),
    )
}

/// The keys that are found are those that some line marks, the revoked ones
/// apart from the authorities. A line that cannot be read refuses the whole.
pub proof fn marks_are_gathered(
    target: Seq<char>,
    lines: Seq<Seq<char>>,
    trusted: Seq<KeyView>,
    revoked: Seq<KeyView>,
    i: int,
    key: KeyView,
)
    requires
        0 <= i <= lines.len(),
        lines.len() < usize::MAX,
    ensures
        match crate::host_trust::marks_from(target, lines, trusted, revoked, i) {
            Ok((t, r)) => {
                &&& t.contains(key) == (trusted.contains(key) || exists|k: int|
                    i <= k < lines.len() && #[trigger] marks(target, lines, k, false, key))
                &&& r.contains(key) == (revoked.contains(key) || exists|k: int|
                    i <= k < lines.len() && #[trigger] marks(target, lines, k, true, key))
                &&& forall|k: int|
                    i <= k < lines.len() ==> crate::host_trust::marked(
                        target,
                        #[trigger] lines[k],
                    ) is Ok
            },
            Err(e) => {
                &&& i < e.line <= lines.len()
                &&& crate::host_trust::marked(target, lines[e.line - 1]) == Err::<
                    Option<MarkView>,
                    HostTrustProblem,
                >(e.problem)
                &&& forall|k: int|
                    i <= k < e.line - 1 ==> crate::host_trust::marked(
                        target,
                        #[trigger] lines[k],
                    ) is Ok
            },
        },
    decreases lines.len() - i,
{
    if i < lines.len() {
        match crate::host_trust::marked(target, lines[i]) {
            Err(_) => {},
            Ok(None) => {
                marks_are_gathered(target, lines, trusted, revoked, i + 1, key);
                assert(!marks(target, lines, i, true, key) && !marks(target, lines, i, false, key));
            },
            Ok(Some(m)) => {
                if m.revoked {
                    let more = revoked.push(m.key);
                    marks_are_gathered(target, lines, trusted, more, i + 1, key);
                    assert(!marks(target, lines, i, false, key));
                    assert(marks(target, lines, i, true, key) == (m.key == key));
                    lemma_pushed(revoked, m.key, key);
                } else {
                    let more = trusted.push(m.key);
                    marks_are_gathered(target, lines, more, revoked, i + 1, key);
                    assert(!marks(target, lines, i, true, key));
                    assert(marks(target, lines, i, false, key) == (m.key == key));
                    lemma_pushed(trusted, m.key, key);
                }
            },
        }
    }
}

proof fn lemma_pushed(keys: Seq<KeyView>, last: KeyView, key: KeyView)
    ensures
        keys.push(last).contains(key) == (keys.contains(key) || last == key),
{
    let more = keys.push(last);
    if keys.contains(key) {
        let i = choose|i: int| 0 <= i < keys.len() && keys[i] == key;
        assert(more[i] == key);
    }
    if last == key {
        assert(more[keys.len() as int] == key);
    }
}

/// A certificate is accepted exactly where it is for hosts, nothing of it is
/// revoked, its signer can be checked and is among authorities that can, it is
/// valid, asks for nothing special, and names the host or none.
pub proof fn certificates_are_accepted_for_cause(
    trusted: Seq<KeyView>,
    revoked: Seq<KeyView>,
    host: Seq<char>,
    c: CertificateView,
    valid: bool,
)
    ensures
        crate::host_trust::certificate_problem(trusted, revoked, host, c, valid) is None == {
            &&& c.for_host && valid
            &&& !revoked.contains(c.key) && !revoked.contains(c.authority)
            &&& can_be_checked(c.authority.algorithm)
            &&& exists|i: int|
                0 <= i < trusted.len() && can_be_checked((#[trigger] trusted[i]).algorithm)
            &&& c.critical_options.len() == 0
            &&& c.principals.len() == 0 || exists|i: int|
                0 <= i < c.principals.len() && crate::host_trust::host_matches(
                    #[trigger] c.principals[i],
                    host,
                )
        },
{
    lemma_vouching(trusted);
    let vouching = crate::host_trust::vouching(trusted);
    if vouching.len() > 0 {
        assert(vouching.contains(vouching[0]));
        let i = choose|i: int| 0 <= i < trusted.len() && trusted[i] == vouching[0];
        assert(can_be_checked(trusted[i].algorithm));
    }
    if exists|i: int| 0 <= i < trusted.len() && can_be_checked((#[trigger] trusted[i]).algorithm) {
        let i = choose|i: int|
            0 <= i < trusted.len() && can_be_checked((#[trigger] trusted[i]).algorithm);
        assert(vouching.contains(trusted[i]));
    }
}

/// A comma at the end of a list of patterns does not count.
pub proof fn last_commas_do_not_count(patterns: Seq<char>)
    requires
        patterns.len() > 0,
        patterns.last() != ',',
        patterns[0] != '|',
    ensures
        crate::host_trust::patterns_of(patterns + seq![',']) == crate::host_trust::patterns_of(
            patterns,
        ),
{
    let all = patterns + seq![','] + Seq::empty();
    assert(patterns + seq![','] =~= all);
    crate::text_law::splitting_undoes_joining(patterns, Seq::empty(), ',');
    crate::text_law::plain_text_is_one_part(Seq::empty(), ',');
    let parts = crate::text::split(patterns, ',');
    lemma_last_part(patterns);
    assert((parts + seq![Seq::<char>::empty()]).drop_last() =~= parts);
}

} // verus!
