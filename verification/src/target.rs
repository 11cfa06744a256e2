//! Connection targets as they are typed: `host`, `user@host`, `[address]`.

use vstd::prelude::*;
use vstd::string::*;

use crate::text::ascii_digit;
use crate::text::chars_of;
use crate::text::contains_char;
use crate::text::control;
use crate::text::position_from;
use crate::text::text_between;
use crate::text::whitespace;

verus! {

#[derive(Debug, Clone, Copy, PartialEq, Eq, Structural)]
pub enum TargetProblem {
    Empty,
    WhitespaceOrControl,
    EmptyUsername,
    EmptyHost,
    SeveralAts,
    UnclosedBracket,
    BracketedHost,
    BracketSyntax,
    PortSyntax,
}

impl TargetProblem {
    pub open spec fn text(self) -> Seq<char> {
        match self {
            TargetProblem::Empty => "SSH target cannot be empty"@,
            TargetProblem::WhitespaceOrControl =>
                "SSH target cannot contain whitespace or control characters"@,
            TargetProblem::EmptyUsername => "SSH target username cannot be empty"@,
            TargetProblem::EmptyHost => "SSH target host cannot be empty"@,
            TargetProblem::SeveralAts => "SSH target must contain at most one '@'"@,
            TargetProblem::UnclosedBracket => "missing closing ']' in SSH target"@,
            TargetProblem::BracketedHost => "invalid bracketed SSH target host"@,
            TargetProblem::BracketSyntax => "invalid bracket syntax in SSH target"@,
            TargetProblem::PortSyntax =>
                "SSH target does not accept host:port syntax; use -p/--port instead"@,
        }
    }

    pub fn message(self) -> (r: &'static str)
        ensures
            r@ == self.text(),
    {
        match self {
            TargetProblem::Empty => "SSH target cannot be empty",
            TargetProblem::WhitespaceOrControl =>
                "SSH target cannot contain whitespace or control characters",
            TargetProblem::EmptyUsername => "SSH target username cannot be empty",
            TargetProblem::EmptyHost => "SSH target host cannot be empty",
            TargetProblem::SeveralAts => "SSH target must contain at most one '@'",
            TargetProblem::UnclosedBracket => "missing closing ']' in SSH target",
            TargetProblem::BracketedHost => "invalid bracketed SSH target host",
            TargetProblem::BracketSyntax => "invalid bracket syntax in SSH target",
            TargetProblem::PortSyntax =>
                "SSH target does not accept host:port syntax; use -p/--port instead",
        }
    }
}

#[derive(Debug, Clone, PartialEq, Eq)]
pub struct ConnectionTarget {
    pub host: String,
    pub username: Option<String>,
}

#[verifier::ext_equal]
pub struct TargetView {
    pub host: Seq<char>,
    pub username: Option<Seq<char>>,
}

impl View for ConnectionTarget {
    type V = TargetView;

    open spec fn view(&self) -> TargetView {
        TargetView { host: self.host@, username: crate::model::option_view(self.username) }
    }
}

pub open spec fn is_blank_or_control(c: char) -> bool {
    crate::text::is_whitespace(c) || crate::text::is_control(c)
}

pub open spec fn has_blank_or_control(s: Seq<char>) -> bool {
    exists|i: int| 0 <= i < s.len() && is_blank_or_control(#[trigger] s[i])
}

/// Index of the last `c` in `s`; -1 where there is none.
pub open spec fn last_position(s: Seq<char>, c: char) -> int
    decreases s.len(),
{
    if s.len() == 0 {
        -1
    } else if s.last() == c {
        s.len() - 1
    } else {
        last_position(s.drop_last(), c)
    }
}

/// The text is `host:digits` with a single colon.
pub open spec fn is_host_port(s: Seq<char>) -> bool {
    let p = crate::text::position(s, ':');
    &&& 0 < p < s.len() - 1
    &&& !s.skip(p + 1).contains(':')
    &&& crate::text::all_digits(s.skip(p + 1))
}

/// The host that a target names, without brackets around it.
pub open spec fn bare_host(s: Seq<char>) -> Result<Seq<char>, TargetProblem> {
    if s.len() > 0 && s[0] == '[' {
        let inner = s.subrange(1, s.len() - 1);
        if s.len() < 2 || s.last() != ']' {
            Err(TargetProblem::UnclosedBracket)
        } else if inner.len() == 0 {
            Err(TargetProblem::EmptyHost)
        } else if inner.contains('[') || inner.contains(']') {
            Err(TargetProblem::BracketedHost)
        } else {
            Ok(inner)
        }
    } else if s.contains('[') || s.contains(']') {
        Err(TargetProblem::BracketSyntax)
    } else if is_host_port(s) {
        Err(TargetProblem::PortSyntax)
    } else {
        Ok(s)
    }
}

/// What a target text stands for.
pub open spec fn parsed_target(s: Seq<char>) -> Result<TargetView, TargetProblem> {
    let p = last_position(s, '@');
    if s.len() == 0 {
        Err(TargetProblem::Empty)
    } else if has_blank_or_control(s) {
        Err(TargetProblem::WhitespaceOrControl)
    } else if p < 0 {
        match bare_host(s) {
            Ok(host) => Ok(TargetView { host, username: None }),
            Err(e) => Err(e),
        }
    } else if p == 0 {
        Err(TargetProblem::EmptyUsername)
    } else if p == s.len() - 1 {
        Err(TargetProblem::EmptyHost)
    } else if s.take(p).contains('@') {
        Err(TargetProblem::SeveralAts)
    } else {
        match bare_host(s.skip(p + 1)) {
            Ok(host) => Ok(TargetView { host, username: Some(s.take(p)) }),
            Err(e) => Err(e),
        }
    }
}

pub proof fn lemma_last_position(s: Seq<char>, c: char)
    ensures
        -1 <= last_position(s, c) < s.len(),
        last_position(s, c) >= 0 ==> s[last_position(s, c)] == c,
        forall|i: int| last_position(s, c) < i < s.len() ==> s[i] != c,
    decreases s.len(),
{
    if s.len() > 0 && s.last() != c {
        lemma_last_position(s.drop_last(), c);
        assert forall|i: int| last_position(s, c) < i < s.len() implies s[i] != c by {
            if i < s.len() - 1 {
                assert(s.drop_last()[i] == s[i]);
            }
        }
    }
}

/// Index of the last `c`; nothing where there is none.
pub fn last_index(chars: &[char], c: char) -> (r: Option<usize>)
    ensures
        match r {
            Some(p) => last_position(chars@, c) == p && p < chars@.len(),
            None => last_position(chars@, c) < 0,
        },
{
    let mut n: usize = chars.len();
    assert(chars@.take(n as int) =~= chars@);
    while n > 0
        invariant
            n <= chars@.len(),
            last_position(chars@, c) == last_position(chars@.take(n as int), c),
        decreases n,
    {
        let ghost head = chars@.take(n as int);
        assert(head.last() == chars@[n - 1]);
        assert(head.drop_last() =~= chars@.take(n - 1));
        if chars[n - 1] == c {
            return Some(n - 1);
        }
        n -= 1;
    }
    None
}

fn blank_or_control(chars: &[char]) -> (r: bool)
    ensures
        r == has_blank_or_control(chars@),
{
    let mut i: usize = 0;
    while i < chars.len()
        invariant
            i <= chars@.len(),
            forall|k: int| 0 <= k < i ==> !is_blank_or_control(#[trigger] chars@[k]),
        decreases chars@.len() - i,
    {
        let c = chars[i];
        if whitespace(c) || control(c) {
            assert(is_blank_or_control(chars@[i as int]));
            return true;
        }
        i += 1;
    }
    false
}

fn host_port(value: &str) -> (r: bool)
    ensures
        r == is_host_port(value@),
{
    let chars = chars_of(value);
    assert(value@.skip(0) =~= value@);
    let p = position_from(chars.as_slice(), ':', 0);
    if p == 0 || p >= chars.len() || p == chars.len() - 1 {
        return false;
    }
    let mut i: usize = p + 1;
    while i < chars.len()
        invariant
            chars@ == value@,
            p == crate::text::position(value@, ':'),
            0 < p < chars@.len() - 1,
            p < i <= chars@.len(),
            forall|k: int| p < k < i ==> crate::text::is_ascii_digit(#[trigger] chars@[k]),
        decreases chars@.len() - i,
    {
        if !ascii_digit(chars[i]) {
            let ghost port = value@.skip(p + 1);
            assert(port[i - p - 1] == chars@[i as int]);
            return false;
        }
        i += 1;
    }
    proof {
        let port = value@.skip(p + 1);
        assert forall|k: int| 0 <= k < port.len() implies crate::text::is_ascii_digit(
            #[trigger] port[k],
        ) && port[k] != ':' by {
            assert(port[k] == chars@[p + 1 + k]);
        }
    }
    true
}

/// Takes the brackets off an address and refuses `host:port`.
pub fn normalize_host(value: &str) -> (r: Result<String, TargetProblem>)
    ensures
        match r {
            Ok(host) => bare_host(value@) == Ok::<Seq<char>, TargetProblem>(host@),
            Err(e) => bare_host(value@) == Err::<Seq<char>, TargetProblem>(e),
        },
{
    let chars = chars_of(value);
    if chars.len() > 0 && chars[0] == '[' {
        if chars.len() < 2 || chars[chars.len() - 1] != ']' {
            return Err(TargetProblem::UnclosedBracket);
        }
        let host = text_between(chars.as_slice(), 1, chars.len() - 1);
        if host.as_str().is_empty() {
            return Err(TargetProblem::EmptyHost);
        }
        if contains_char(host.as_str(), '[') || contains_char(host.as_str(), ']') {
            return Err(TargetProblem::BracketedHost);
        }
        return Ok(host);
    }
    if contains_char(value, '[') || contains_char(value, ']') {
        return Err(TargetProblem::BracketSyntax);
    }
    if host_port(value) {
        return Err(TargetProblem::PortSyntax);
    }
    Ok(value.to_owned())
}

impl ConnectionTarget {
    /// Reads a target.
    pub fn parse(value: &str) -> (r: Result<Self, TargetProblem>)
        ensures
            match r {
                Ok(target) => parsed_target(value@) == Ok::<TargetView, TargetProblem>(target@),
                Err(e) => parsed_target(value@) == Err::<TargetView, TargetProblem>(e),
            },
    {
        if value.is_empty() {
            return Err(TargetProblem::Empty);
        }
        let chars = chars_of(value);
        if blank_or_control(chars.as_slice()) {
            return Err(TargetProblem::WhitespaceOrControl);
        }
        match last_index(chars.as_slice(), '@') {
            None => {
                let host = normalize_host(value)?;
                Ok(ConnectionTarget { host, username: None })
            },
            Some(p) => {
                if p == 0 {
                    return Err(TargetProblem::EmptyUsername);
                }
                if p == chars.len() - 1 {
                    return Err(TargetProblem::EmptyHost);
                }
                let username = text_between(chars.as_slice(), 0, p);
                let rest = text_between(chars.as_slice(), p + 1, chars.len());
                assert(username@ =~= value@.take(p as int));
                assert(rest@ =~= value@.skip(p + 1));
                if contains_char(username.as_str(), '@') {
                    return Err(TargetProblem::SeveralAts);
                }
                let host = normalize_host(rest.as_str())?;
                Ok(ConnectionTarget { host, username: Some(username) })
            },
        }
    }
}

proof fn lemma_part_is_clean(s: Seq<char>, from: int, to: int)
    requires
        0 <= from <= to <= s.len(),
        !has_blank_or_control(s),
    ensures
        !has_blank_or_control(s.subrange(from, to)),
{
    let part = s.subrange(from, to);
    assert forall|i: int| 0 <= i < part.len() implies !is_blank_or_control(#[trigger] part[i]) by {
        assert(part[i] == s[from + i]);
    }
}

proof fn lemma_bare_host(raw: Seq<char>)
    requires
        raw.len() > 0,
        !has_blank_or_control(raw),
        !raw.contains('@'),
    ensures
        bare_host(raw) matches Ok(host) ==> {
            &&& host.len() > 0
            &&& !has_blank_or_control(host)
            &&& !host.contains('@')
            &&& !host.contains('[')
            &&& !host.contains(']')
        },
{
    if raw[0] == '[' && raw.len() >= 2 {
        lemma_part_is_clean(raw, 1, raw.len() - 1);
        let inner = raw.subrange(1, raw.len() - 1);
        assert forall|i: int| 0 <= i < inner.len() implies inner[i] != '@' by {
            assert(inner[i] == raw[1 + i]);
        }
        assert(!inner.contains('@'));
    }
}

/// A target that is accepted names a host that is not empty and holds neither
/// white space nor control characters nor `@`; so does its user name.
pub proof fn accepted_targets_are_clean(s: Seq<char>)
    ensures
        parsed_target(s) matches Ok(target) ==> {
            &&& target.host.len() > 0
            &&& !has_blank_or_control(target.host)
            &&& !target.host.contains('@')
            &&& !target.host.contains('[')
            &&& !target.host.contains(']')
            &&& target.username matches Some(user) ==> user.len() > 0 && !has_blank_or_control(user)
                && !user.contains('@')
        },
{
    if parsed_target(s) is Ok {
        let p = last_position(s, '@');
        lemma_last_position(s, '@');
        let raw = s.skip(p + 1);
        assert(raw =~= s.subrange(p + 1, s.len() as int));
        lemma_part_is_clean(s, p + 1, s.len() as int);
        assert forall|i: int| 0 <= i < raw.len() implies raw[i] != '@' by {
            assert(raw[i] == s[p + 1 + i]);
        }
        assert(!raw.contains('@'));
        lemma_bare_host(raw);
        if p < 0 {
            assert(raw =~= s);
        } else {
            assert(s.take(p) =~= s.subrange(0, p));
            lemma_part_is_clean(s, 0, p);
        }
    }
}

} // verus!
