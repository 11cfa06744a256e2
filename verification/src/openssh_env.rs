//! Environment references `${NAME}` and the percent escape `%%` in paths.

use vstd::prelude::*;
use vstd::string::*;

use crate::text::byte_len;
use crate::text::chars_of;
use crate::text::position_from;
use crate::text::text_between;
use crate::text_map::TextMap;

verus! {

#[derive(Debug, Clone, Copy, PartialEq, Eq, Structural)]
pub enum EnvProblem {
    Unterminated,
    EmptyName,
    MissingVariable,
    IncompletePercent,
    UnsupportedPercent,
    TooLong,
}

/// Characters before the first `${`; the whole length where there is none.
pub open spec fn reference_position(s: Seq<char>) -> int
    decreases s.len(),
{
    if s.len() == 0 || (s.len() >= 2 && s[0] == '$' && s[1] == '{') {
        0
    } else {
        1 + reference_position(s.drop_first())
    }
}

/// The output with more text, as far as it stays within the limit.
pub open spec fn bounded(output: Seq<char>, more: Seq<char>, max_bytes: nat) -> Result<
    Seq<char>,
    EnvProblem,
> {
    if crate::text::utf8_len(output) + crate::text::utf8_len(more) > max_bytes {
        Err(EnvProblem::TooLong)
    } else {
        Ok(output + more)
    }
}

/// The output with a text in which `%%` stands for `%`.
pub open spec fn with_percent(output: Seq<char>, value: Seq<char>, max_bytes: nat) -> Result<
    Seq<char>,
    EnvProblem,
>
    decreases value.len(),
{
    let p = crate::text::position(value, '%');
    if p < 0 || p >= value.len() {
        bounded(output, value, max_bytes)
    } else {
        match bounded(output, value.take(p), max_bytes) {
            Err(e) => Err(e),
            Ok(longer) => if p + 1 == value.len() {
                Err(EnvProblem::IncompletePercent)
            } else if value[p + 1] != '%' {
                Err(EnvProblem::UnsupportedPercent)
            } else {
                match bounded(longer, seq!['%'], max_bytes) {
                    Err(e) => Err(e),
                    Ok(escaped) => with_percent(escaped, value.skip(p + 2), max_bytes),
                }
            },
        }
    }
}

/// The output with a text in which references stand for the values of
/// variables. Values are taken as they are and not read again.
pub open spec fn with_references(
    output: Seq<char>,
    value: Seq<char>,
    max_bytes: nat,
    variables: Seq<(Seq<char>, Seq<char>)>,
) -> Result<Seq<char>, EnvProblem>
    decreases value.len(),
{
    let p = reference_position(value);
    if p < 0 || p + 2 > value.len() {
        with_percent(output, value, max_bytes)
    } else {
        match with_percent(output, value.take(p), max_bytes) {
            Err(e) => Err(e),
            Ok(longer) => {
                let rest = value.skip(p + 2);
                let end = crate::text::position(rest, '}');
                if end < 0 || end >= rest.len() {
                    Err(EnvProblem::Unterminated)
                } else if end == 0 {
                    Err(EnvProblem::EmptyName)
                } else {
                    match crate::text_map::lookup(variables, rest.take(end)) {
                        None => Err(EnvProblem::MissingVariable),
                        Some(found) => match bounded(longer, found, max_bytes) {
                            Err(e) => Err(e),
                            Ok(expanded) => with_references(
                                expanded,
                                rest.skip(end + 1),
                                max_bytes,
                                variables,
                            ),
                        },
                    }
                }
            },
        }
    }
}

pub open spec fn text_view() -> spec_fn(String) -> Seq<char> {
    |t: String| t@
}

fn push_bounded(output: &mut String, value: &str, max_bytes: usize) -> (r: Result<(), EnvProblem>)
    ensures
        match r {
            Ok(()) => bounded(old(output)@, value@, max_bytes as nat) == Ok::<
                Seq<char>,
                EnvProblem,
            >(final(output)@),
            Err(e) => bounded(old(output)@, value@, max_bytes as nat) == Err::<
                Seq<char>,
                EnvProblem,
            >(e),
        },
{
    let have = byte_len(output.as_str());
    let more = byte_len(value);
    if have > max_bytes || more > max_bytes - have {
        return Err(EnvProblem::TooLong);
    }
    output.append(value);
    Ok(())
}

fn expand_literal_percent(output: &mut String, value: &str, max_bytes: usize) -> (r: Result<
    (),
    EnvProblem,
>)
    ensures
        match r {
            Ok(()) => with_percent(old(output)@, value@, max_bytes as nat) == Ok::<
                Seq<char>,
                EnvProblem,
            >(final(output)@),
            Err(e) => with_percent(old(output)@, value@, max_bytes as nat) == Err::<
                Seq<char>,
                EnvProblem,
            >(e),
        },
{
    let chars = chars_of(value);
    let ghost before = output@;
    let mut start: usize = 0;
    assert(value@.skip(0) =~= value@);
    loop
        invariant
            chars@ == value@,
            start <= chars@.len(),
            before == old(output)@,
            with_percent(before, value@, max_bytes as nat) == with_percent(
                output@,
                value@.skip(start as int),
                max_bytes as nat,
            ),
        decreases chars@.len() - start,
    {
        let ghost rest = value@.skip(start as int);
        let p = position_from(chars.as_slice(), '%', start);
        proof {
            crate::text::lemma_position(rest, '%');
        }
        let piece = text_between(chars.as_slice(), start, p);
        assert(piece@ =~= rest.take(p - start));
        if p == chars.len() {
            assert(piece@ =~= rest);
            push_bounded(output, piece.as_str(), max_bytes)?;
            return Ok(());
        }
        push_bounded(output, piece.as_str(), max_bytes)?;
        if p + 1 == chars.len() {
            return Err(EnvProblem::IncompletePercent);
        }
        assert(rest[p - start + 1] == chars@[p + 1]);
        if chars[p + 1] != '%' {
            return Err(EnvProblem::UnsupportedPercent);
        }
        proof {
            reveal_strlit("%");
            assert("%"@ =~= seq!['%']);
        }
        push_bounded(output, "%", max_bytes)?;
        assert(rest.skip(p - start + 2) =~= value@.skip(p + 2));
        start = p + 2;
    }
}

fn find_reference(chars: &Vec<char>, from: usize) -> (r: usize)
    requires
        from <= chars@.len(),
    ensures
        from <= r <= chars@.len(),
        r == from + reference_position(chars@.skip(from as int)),
        r < chars@.len() ==> r + 2 <= chars@.len(),
{
    let mut i: usize = from;
    while i < chars.len() && !(chars.len() - i >= 2 && chars[i] == '$' && chars[i + 1] == '{')
        invariant
            from <= i <= chars@.len(),
            from + reference_position(chars@.skip(from as int)) == i + reference_position(
                chars@.skip(i as int),
            ),
        decreases chars@.len() - i,
    {
        assert(chars@.skip(i as int).drop_first() =~= chars@.skip(i + 1));
        i += 1;
    }
    i
}

/// Expands the references of a path; the result stays within `max_bytes`.
pub fn expand_include_environment_with(
    value: &str,
    max_bytes: usize,
    variables: &TextMap<String>,
) -> (r: Result<String, EnvProblem>)
    ensures
        match r {
            Ok(text) => with_references(
                Seq::empty(),
                value@,
                max_bytes as nat,
                crate::text_map::map_entries(variables.entries(), text_view()),
            ) == Ok::<Seq<char>, EnvProblem>(text@),
            Err(e) => with_references(
                Seq::empty(),
                value@,
                max_bytes as nat,
                crate::text_map::map_entries(variables.entries(), text_view()),
            ) == Err::<Seq<char>, EnvProblem>(e),
        },
{
    let ghost vars = crate::text_map::map_entries(variables.entries(), text_view());
    variables.recall_order();
    let chars = chars_of(value);
    let mut output = String::new();
    let mut start: usize = 0;
    assert(value@.skip(0) =~= value@);
    loop
        invariant
            chars@ == value@,
            start <= chars@.len(),
            crate::text_map::sorted(variables.entries()),
            vars == crate::text_map::map_entries(variables.entries(), text_view()),
            with_references(Seq::empty(), value@, max_bytes as nat, vars) == with_references(
                output@,
                value@.skip(start as int),
                max_bytes as nat,
                vars,
            ),
        decreases chars@.len() - start,
    {
        let ghost rest = value@.skip(start as int);
        let p = find_reference(&chars, start);
        let piece = text_between(chars.as_slice(), start, p);
        assert(piece@ =~= rest.take(p - start));
        if p == chars.len() {
            assert(piece@ =~= rest);
            expand_literal_percent(&mut output, piece.as_str(), max_bytes)?;
            return Ok(output);
        }
        expand_literal_percent(&mut output, piece.as_str(), max_bytes)?;
        let ghost tail = rest.skip(p - start + 2);
        assert(tail =~= value@.skip(p + 2));
        let end = position_from(chars.as_slice(), '}', p + 2);
        if end == chars.len() {
            return Err(EnvProblem::Unterminated);
        }
        if end == p + 2 {
            return Err(EnvProblem::EmptyName);
        }
        let name = text_between(chars.as_slice(), p + 2, end);
        assert(name@ =~= tail.take(end - p - 2));
        proof {
            crate::text_map::lemma_map_entries(variables.entries(), text_view(), name@);
        }
        match variables.get(name.as_str()) {
            None => {
                return Err(EnvProblem::MissingVariable);
            },
            Some(found) => {
                push_bounded(&mut output, found.as_str(), max_bytes)?;
            },
        }
        assert(tail.skip(end - p - 2 + 1) =~= value@.skip(end + 1));
        start = end + 1;
    }
}

proof fn lemma_percent_bound(output: Seq<char>, value: Seq<char>, max_bytes: nat)
    requires
        crate::text::utf8_len(output) <= max_bytes,
    ensures
        with_percent(output, value, max_bytes) matches Ok(text) ==> crate::text::utf8_len(text)
            <= max_bytes,
    decreases value.len(),
{
    let p = crate::text::position(value, '%');
    crate::text::lemma_utf8_len_add(output, value);
    if 0 <= p < value.len() {
        crate::text::lemma_utf8_len_add(output, value.take(p));
        match bounded(output, value.take(p), max_bytes) {
            Ok(longer) => {
                crate::text::lemma_utf8_len_add(longer, seq!['%']);
                match bounded(longer, seq!['%'], max_bytes) {
                    Ok(escaped) => {
                        if p + 2 <= value.len() {
                            lemma_percent_bound(escaped, value.skip(p + 2), max_bytes);
                        }
                    },
                    Err(_) => {},
                }
            },
            Err(_) => {},
        }
    }
}

/// An expanded path never exceeds the limit.
pub proof fn expansion_is_bounded(
    output: Seq<char>,
    value: Seq<char>,
    max_bytes: nat,
    variables: Seq<(Seq<char>, Seq<char>)>,
)
    requires
        crate::text::utf8_len(output) <= max_bytes,
    ensures
        with_references(output, value, max_bytes, variables) matches Ok(text)
            ==> crate::text::utf8_len(text) <= max_bytes,
    decreases value.len(),
{
    let p = reference_position(value);
    if p < 0 || p + 2 > value.len() {
        lemma_percent_bound(output, value, max_bytes);
    } else {
        lemma_percent_bound(output, value.take(p), max_bytes);
        match with_percent(output, value.take(p), max_bytes) {
            Ok(longer) => {
                let rest = value.skip(p + 2);
                let end = crate::text::position(rest, '}');
                if 0 < end < rest.len() {
                    match crate::text_map::lookup(variables, rest.take(end)) {
                        Some(found) => {
                            crate::text::lemma_utf8_len_add(longer, found);
                            match bounded(longer, found, max_bytes) {
                                Ok(expanded) => {
                                    expansion_is_bounded(
                                        expanded,
                                        rest.skip(end + 1),
                                        max_bytes,
                                        variables,
                                    );
                                },
                                Err(_) => {},
                            }
                        },
                        None => {},
                    }
                }
            },
            Err(_) => {},
        }
    }
}

} // verus!
