//! The aliases that an OpenSSH configuration offers for selection.

use vstd::prelude::*;
use vstd::string::*;

use crate::text::chars_of;
use crate::text::control;
use crate::text::equal_ignoring_case;
use crate::text::lines_of;
use crate::text::position_from;
use crate::text::text_between;
use crate::text::trimmed_start;
use crate::text::whitespace;
use crate::text::words_of;
use crate::text_map::TextMap;

verus! {

#[derive(Debug, Clone, PartialEq, Eq)]
pub struct OpenSshHostCatalog {
    pub config_path: Option<String>,
    pub aliases: Vec<String>,
    pub has_unsupported_structural_directives: bool,
}

/// Key and arguments of a directive line.
pub open spec fn directive_parts(line: Seq<char>) -> Option<(Seq<char>, Seq<char>)> {
    let s = crate::text::trim_start(line);
    let n = crate::openssh_match::key_len(s);
    let rest = crate::text::trim_start(s.skip(n));
    if s.len() == 0 || s[0] == '#' {
        None
    } else if rest.len() > 0 && rest[0] == '=' {
        Some((s.take(n), crate::text::trim_start(rest.skip(1))))
    } else {
        Some((s.take(n), rest))
    }
}

pub open spec fn is_quote(c: char) -> bool {
    c == '\'' || c == '"'
}

pub open spec fn trim_quotes_start(s: Seq<char>) -> Seq<char>
    decreases s.len(),
{
    if s.len() > 0 && is_quote(s[0]) {
        trim_quotes_start(s.drop_first())
    } else {
        s
    }
}

pub open spec fn trim_quotes_end(s: Seq<char>) -> Seq<char>
    decreases s.len(),
{
    if s.len() > 0 && is_quote(s.last()) {
        trim_quotes_end(s.drop_last())
    } else {
        s
    }
}

/// The text without quotes at either end.
pub open spec fn trim_quotes(s: Seq<char>) -> Seq<char> {
    trim_quotes_end(trim_quotes_start(s))
}

/// The patterns of a `Host` line, word by word from index `i` on, up to a
/// comment.
pub open spec fn tokens_from(done: Seq<Seq<char>>, all: Seq<Seq<char>>, i: int) -> Seq<Seq<char>>
    decreases all.len() - i,
{
    if i < 0 || i >= all.len() {
        done
    } else {
        let p = crate::text::position(all[i], '#');
        let token = trim_quotes(all[i].take(p));
        let longer = if token.len() > 0 {
            done.push(token)
        } else {
            done
        };
        if p < all[i].len() {
            longer
        } else {
            tokens_from(longer, all, i + 1)
        }
    }
}

pub open spec fn host_tokens(arguments: Seq<char>) -> Seq<Seq<char>> {
    tokens_from(Seq::empty(), crate::text::words(arguments), 0)
}

pub open spec fn is_pattern_char(c: char) -> bool {
    crate::text::is_whitespace(c) || crate::text::is_control(c) || c == '*' || c == '?' || c == '['
        || c == ']'
}

/// An alias that names one host.
pub open spec fn is_concrete(value: Seq<char>) -> bool {
    &&& value.len() > 0
    &&& value[0] != '!'
    &&& forall|i: int| 0 <= i < value.len() ==> !is_pattern_char(#[trigger] value[i])
}

pub open spec fn is_structural_line(line: Seq<char>) -> bool {
    directive_parts(line) matches Some((key, _)) && (crate::text::same_ignoring_case(key, "match"@)
        || crate::text::same_ignoring_case(key, "include"@))
}

/// The line offers the alias.
pub open spec fn line_offers(line: Seq<char>, alias: Seq<char>) -> bool {
    &&& directive_parts(line) matches Some((key, arguments))
    &&& crate::text::same_ignoring_case(key, "host"@)
    &&& host_tokens(arguments).contains(alias)
    &&& is_concrete(alias)
}

/// Some line of the configuration offers the alias.
pub open spec fn offers(contents: Seq<char>, alias: Seq<char>) -> bool {
    exists|i: int|
        0 <= i < crate::text::lines(contents).len() && line_offers(
            #[trigger] crate::text::lines(contents)[i],
            alias,
        )
}

pub open spec fn has_structural_line(contents: Seq<char>) -> bool {
    exists|i: int|
        0 <= i < crate::text::lines(contents).len() && is_structural_line(
            #[trigger] crate::text::lines(contents)[i],
        )
}

/// Texts in strictly ascending order.
pub open spec fn ascending(values: Seq<Seq<char>>) -> bool {
    forall|i: int, j: int|
        0 <= i < j < values.len() ==> crate::text::text_less(
            #[trigger] values[i],
            #[trigger] values[j],
        )
}

fn directive_parts_of(line: &str) -> (r: Option<(String, String)>)
    ensures
        match r {
            Some((key, arguments)) => directive_parts(line@) == Some((key@, arguments@)),
            None => directive_parts(line@) is None,
        },
{
    let s = trimmed_start(line);
    let chars = chars_of(s.as_str());
    if chars.len() == 0 || chars[0] == '#' {
        return None;
    }
    let mut n: usize = 0;
    assert(s@.skip(0) =~= s@);
    while n < chars.len() && !(crate::text::ascii_whitespace(chars[n]) || chars[n] == '=')
        invariant
            chars@ == s@,
            n <= chars@.len(),
            crate::openssh_match::key_len(s@) == n + crate::openssh_match::key_len(
                s@.skip(n as int),
            ),
        decreases chars@.len() - n,
    {
        assert(s@.skip(n as int).drop_first() =~= s@.skip(n + 1));
        n += 1;
    }
    let key = text_between(chars.as_slice(), 0, n);
    assert(key@ =~= s@.take(n as int));
    let tail = text_between(chars.as_slice(), n, chars.len());
    assert(tail@ =~= s@.skip(n as int));
    let rest = trimmed_start(tail.as_str());
    let rest_chars = chars_of(rest.as_str());
    if rest_chars.len() > 0 && rest_chars[0] == '=' {
        let value = text_between(rest_chars.as_slice(), 1, rest_chars.len());
        assert(value@ =~= rest@.skip(1));
        Some((key, trimmed_start(value.as_str())))
    } else {
        Some((key, rest))
    }
}

fn without_quotes(s: &str) -> (r: String)
    ensures
        r@ == trim_quotes(s@),
{
    let chars = chars_of(s);
    let mut from: usize = 0;
    assert(s@.skip(0) =~= s@);
    while from < chars.len() && (chars[from] == '\'' || chars[from] == '"')
        invariant
            chars@ == s@,
            from <= chars@.len(),
            trim_quotes_start(s@) == trim_quotes_start(s@.skip(from as int)),
        decreases chars@.len() - from,
    {
        assert(s@.skip(from as int).drop_first() =~= s@.skip(from + 1));
        from += 1;
    }
    let ghost rest = s@.skip(from as int);
    let mut to: usize = chars.len();
    assert(rest.take(to - from) =~= rest);
    while to > from && (chars[to - 1] == '\'' || chars[to - 1] == '"')
        invariant
            chars@ == s@,
            from <= to <= chars@.len(),
            rest == s@.skip(from as int),
            trim_quotes_end(rest) == trim_quotes_end(rest.take(to - from)),
        decreases to,
    {
        assert(rest.take(to - from).drop_last() =~= rest.take(to - from - 1));
        assert(rest.take(to - from).last() == chars@[to - 1]);
        to -= 1;
    }
    proof {
        if to > from {
            assert(rest.take(to - from).last() == chars@[to - 1]);
        }
    }
    let out = text_between(chars.as_slice(), from, to);
    assert(out@ =~= rest.take(to - from));
    out
}

fn host_tokens_of(arguments: &str) -> (r: Vec<String>)
    ensures
        crate::text::views(r@) == host_tokens(arguments@),
{
    let all = words_of(arguments);
    let ghost views = crate::text::words(arguments@);
    let mut out: Vec<String> = Vec::new();
    assert(crate::text::views(out@) =~= Seq::<Seq<char>>::empty());
    let mut i: usize = 0;
    while i < all.len()
        invariant
            views == crate::text::views(all@),
            host_tokens(arguments@) == tokens_from(crate::text::views(out@), views, i as int),
            i <= all@.len(),
        decreases all@.len() - i,
    {
        assert(views[i as int] == all@[i as int]@);
        let chars = chars_of(all[i].as_str());
        let p = position_from(chars.as_slice(), '#', 0);
        assert(views[i as int].skip(0) =~= views[i as int]);
        let head = text_between(chars.as_slice(), 0, p);
        assert(head@ =~= views[i as int].take(p as int));
        let token = without_quotes(head.as_str());
        if !token.as_str().is_empty() {
            proof {
                crate::text::lemma_views_push(out@, token);
            }
            out.push(token);
        }
        if p < chars.len() {
            return out;
        }
        i += 1;
    }
    out
}

/// Tells whether a pattern names one host.
pub fn concrete_alias(value: &str) -> (r: bool)
    ensures
        r == is_concrete(value@),
{
    let chars = chars_of(value);
    if chars.len() == 0 || chars[0] == '!' {
        return false;
    }
    let mut i: usize = 0;
    while i < chars.len()
        invariant
            chars@ == value@,
            i <= chars@.len(),
            value@.len() > 0,
            value@[0] != '!',
            forall|k: int| 0 <= k < i ==> !is_pattern_char(#[trigger] value@[k]),
        decreases chars@.len() - i,
    {
        let c = chars[i];
        if whitespace(c) || control(c) || c == '*' || c == '?' || c == '[' || c == ']' {
            assert(is_pattern_char(value@[i as int]));
            return false;
        }
        i += 1;
    }
    true
}

fn note_line(line: &str, found: &mut TextMap<bool>) -> (r: bool)
    ensures
        r == is_structural_line(line@),
        crate::text_map::sorted(final(found).entries()),
        forall|a: Seq<char>| #[trigger]
            crate::text_map::has_key(final(found).entries(), a) == (crate::text_map::has_key(
                old(found).entries(),
                a,
            ) || line_offers(line@, a)),
{
    found.recall_order();
    let (key, arguments) = match directive_parts_of(line) {
        Some(parts) => parts,
        None => {
            return false;
        },
    };
    let structural = equal_ignoring_case(key.as_str(), "match") || equal_ignoring_case(
        key.as_str(),
        "include",
    );
    if !equal_ignoring_case(key.as_str(), "host") {
        return structural;
    }
    let tokens = host_tokens_of(arguments.as_str());
    let ghost before = found.entries();
    let ghost views = crate::text::views(tokens@);
    let mut i: usize = 0;
    while i < tokens.len()
        invariant
            views == crate::text::views(tokens@),
            i <= tokens@.len(),
            crate::text_map::sorted(found.entries()),
            forall|a: Seq<char>| #[trigger]
                crate::text_map::has_key(found.entries(), a) == (crate::text_map::has_key(before, a)
                    || (views.take(i as int).contains(a) && is_concrete(a))),
        decreases tokens@.len() - i,
    {
        let ghost entries = found.entries();
        let ghost token = views[i as int];
        assert(token == tokens@[i as int]@);
        proof {
            crate::text_map::lemma_put(entries, token, true);
            assert(views.take(i + 1) =~= views.take(i as int).push(token));
        }
        if concrete_alias(tokens[i].as_str()) {
            found.insert(tokens[i].clone(), true);
            proof {
                let after = crate::text_map::put(entries, token, true);
                assert forall|a: Seq<char>| #[trigger]
                    crate::text_map::has_key(after, a) == (crate::text_map::has_key(before, a) || (
                    views.take(i + 1).contains(a) && is_concrete(a))) by {
                    crate::text_map::lemma_lookup(after, a);
                    crate::text_map::lemma_lookup(entries, a);
                    assert(crate::text_map::has_key(entries, a) == (crate::text_map::has_key(
                        before,
                        a,
                    ) || (views.take(i as int).contains(a) && is_concrete(a))));
                    lemma_contains_push(views.take(i as int), token, a);
                }
            }
        } else {
            proof {
                assert forall|a: Seq<char>| #[trigger]
                    crate::text_map::has_key(entries, a) == (crate::text_map::has_key(before, a)
                        || (views.take(i + 1).contains(a) && is_concrete(a))) by {
                    lemma_contains_push(views.take(i as int), token, a);
                }
            }
        }
        i += 1;
    }
    assert(views.take(views.len() as int) =~= views);
    structural
}

proof fn lemma_contains_push(s: Seq<Seq<char>>, x: Seq<char>, a: Seq<char>)
    ensures
        s.push(x).contains(a) == (s.contains(a) || a == x),
{
    if s.contains(a) {
        let k = choose|k: int| 0 <= k < s.len() && s[k] == a;
        assert(s.push(x)[k] == a);
    }
    if a == x {
        assert(s.push(x)[s.len() as int] == a);
    }
    if s.push(x).contains(a) {
        let k = choose|k: int| 0 <= k < s.push(x).len() && s.push(x)[k] == a;
        if k < s.len() {
            assert(s[k] == a);
        }
    }
}

/// Collects the aliases of a configuration, each once and in ascending order,
/// and notes whether `Match` or `Include` directives are left in it.
pub fn parse_host_catalog(contents: &str, config_path: Option<String>) -> (r: OpenSshHostCatalog)
    ensures
        r.config_path == config_path,
        ascending(crate::text::views(r.aliases@)),
        forall|a: Seq<char>| #[trigger]
            crate::text::views(r.aliases@).contains(a) == offers(contents@, a),
        r.has_unsupported_structural_directives == has_structural_line(contents@),
{
    let all = lines_of(contents);
    let ghost views = crate::text::lines(contents@);
    let mut found: TextMap<bool> = TextMap::new();
    let mut structural = false;
    let mut i: usize = 0;
    while i < all.len()
        invariant
            views == crate::text::views(all@),
            views == crate::text::lines(contents@),
            i <= all@.len(),
            structural == exists|k: int| 0 <= k < i && is_structural_line(#[trigger] views[k]),
            forall|a: Seq<char>| #[trigger]
                crate::text_map::has_key(found.entries(), a) == (exists|k: int|
                    0 <= k < i && line_offers(#[trigger] views[k], a)),
        decreases all@.len() - i,
    {
        assert(views[i as int] == all@[i as int]@);
        let ghost entries = found.entries();
        let marked = note_line(all[i].as_str(), &mut found);
        proof {
            assert forall|a: Seq<char>| #[trigger]
                crate::text_map::has_key(found.entries(), a) == (exists|k: int|
                    0 <= k < i + 1 && line_offers(#[trigger] views[k], a)) by {
                assert(crate::text_map::has_key(found.entries(), a) == (crate::text_map::has_key(
                    entries,
                    a,
                ) || line_offers(views[i as int], a)));
                if exists|k: int| 0 <= k < i && line_offers(#[trigger] views[k], a) {
                    let k = choose|k: int| 0 <= k < i && line_offers(#[trigger] views[k], a);
                    assert(line_offers(views[k], a));
                }
            }
            if marked {
                assert(is_structural_line(views[i as int]));
            }
        }
        if marked {
            structural = true;
        }
        i += 1;
    }
    let count = found.len();
    let mut aliases: Vec<String> = Vec::new();
    let mut j: usize = 0;
    while j < count
        invariant
            count == found.entries().len(),
            j <= count,
            aliases@.len() == j,
            forall|k: int| 0 <= k < j ==> (#[trigger] aliases@[k])@ == found.entries()[k].0,
        decreases count - j,
    {
        aliases.push(found.key_at(j).clone());
        j += 1;
    }
    proof {
        let names = crate::text::views(aliases@);
        let entries = found.entries();
        assert forall|k: int| 0 <= k < names.len() implies #[trigger] names[k] == entries[k].0 by {
            assert(names[k] == aliases@[k]@);
        }
        assert forall|a: Seq<char>| #[trigger] names.contains(a) == offers(contents@, a) by {
            assert(crate::text_map::has_key(entries, a) == (exists|k: int|
                0 <= k < all@.len() && line_offers(#[trigger] views[k], a)));
            if names.contains(a) {
                let k = choose|k: int| 0 <= k < names.len() && names[k] == a;
                assert(entries[k].0 == a);
            }
            if crate::text_map::has_key(entries, a) {
                let k = choose|k: int| 0 <= k < entries.len() && #[trigger] entries[k].0 == a;
                assert(names[k] == a);
            }
        }
    }
    OpenSshHostCatalog { config_path, aliases, has_unsupported_structural_directives: structural }
}

} // verus!
