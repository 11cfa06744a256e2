//! Textual IP addresses.

use vstd::prelude::*;

use crate::text::ascii_digit;
use crate::text::chars_of;
use crate::text::split_on;
use crate::text::text_between;

verus! {

pub open spec fn is_hex_digit(c: char) -> bool {
    crate::text::is_ascii_digit(c) || 'a' <= c <= 'f' || 'A' <= c <= 'F'
}

/// One to four hexadecimal digits.
pub open spec fn is_hex_group(s: Seq<char>) -> bool {
    &&& 1 <= s.len() <= 4
    &&& forall|i: int| 0 <= i < s.len() ==> is_hex_digit(#[trigger] s[i])
}

/// A decimal number up to 255 without leading zeros.
pub open spec fn is_octet(s: Seq<char>) -> bool {
    &&& 1 <= s.len() <= 3
    &&& crate::text::all_digits(s)
    &&& s.len() > 1 ==> s[0] != '0'
    &&& crate::text::digits_value(s) <= 255
}

/// Four octets with dots between them.
pub open spec fn is_ipv4(s: Seq<char>) -> bool {
    let parts = crate::text::split(s, '.');
    &&& parts.len() == 4
    &&& forall|i: int| 0 <= i < parts.len() ==> is_octet(#[trigger] parts[i])
}

/// Groups of 16 bits in a row of groups with colons between them; a trailing
/// IPv4 address stands for two. Nothing where the row is malformed.
pub open spec fn group_count(s: Seq<char>) -> Option<nat> {
    let parts = crate::text::split(s, ':');
    if !(forall|i: int| 0 <= i < parts.len() - 1 ==> is_hex_group(#[trigger] parts[i])) {
        None
    } else if is_hex_group(parts.last()) {
        Some(parts.len())
    } else if is_ipv4(parts.last()) {
        Some(parts.len() + 1)
    } else {
        None
    }
}

/// Groups of a part beside `::`, which may be empty.
pub open spec fn side_count(s: Seq<char>) -> Option<nat> {
    if s.len() == 0 {
        Some(0)
    } else {
        group_count(s)
    }
}

/// Characters before the first `::`; the whole length where there is none.
pub open spec fn double_colon(s: Seq<char>) -> int
    decreases s.len(),
{
    if s.len() == 0 || (s.len() >= 2 && s[0] == ':' && s[1] == ':') {
        0
    } else {
        1 + double_colon(s.drop_first())
    }
}

/// A textual IPv6 address: eight groups, or fewer with one `::` that stands
/// for at least one group. An IPv4 address may stand at the very end.
pub open spec fn is_ipv6(s: Seq<char>) -> bool {
    let p = double_colon(s);
    if p >= s.len() {
        group_count(s) == Some(8nat)
    } else {
        let head = s.take(p);
        let tail = s.skip(p + 2);
        &&& side_count(head) is Some
        &&& !(head.len() > 0 && is_ipv4(crate::text::split(head, ':').last()))
        &&& side_count(tail) is Some
        &&& side_count(head)->0 + side_count(tail)->0 <= 7
    }
}

pub fn hex_digit(c: char) -> (r: bool)
    ensures
        r == is_hex_digit(c),
{
    ascii_digit(c) || ('a' <= c && c <= 'f') || ('A' <= c && c <= 'F')
}

fn hex_group(s: &str) -> (r: bool)
    ensures
        r == is_hex_group(s@),
{
    let chars = chars_of(s);
    if chars.len() == 0 || chars.len() > 4 {
        return false;
    }
    let mut i: usize = 0;
    while i < chars.len()
        invariant
            chars@ == s@,
            i <= chars@.len(),
            1 <= s@.len() <= 4,
            forall|k: int| 0 <= k < i ==> is_hex_digit(#[trigger] s@[k]),
        decreases chars@.len() - i,
    {
        if !hex_digit(chars[i]) {
            assert(!is_hex_digit(s@[i as int]));
            return false;
        }
        i += 1;
    }
    true
}

fn octet(s: &str) -> (r: bool)
    ensures
        r == is_octet(s@),
{
    let chars = chars_of(s);
    if chars.len() == 0 || chars.len() > 3 {
        return false;
    }
    if chars.len() > 1 && chars[0] == '0' {
        return false;
    }
    if chars[0] == '+' {
        assert(!crate::text::is_ascii_digit(s@[0]));
        return false;
    }
    crate::text::parse_number(s, 255).is_some()
}

fn ipv4(s: &str) -> (r: bool)
    ensures
        r == is_ipv4(s@),
{
    let parts = split_on(s, '.');
    let ghost views = crate::text::split(s@, '.');
    if parts.len() != 4 {
        return false;
    }
    let mut i: usize = 0;
    while i < parts.len()
        invariant
            views == crate::text::views(parts@),
            views == crate::text::split(s@, '.'),
            views.len() == 4,
            i <= parts@.len(),
            forall|k: int| 0 <= k < i ==> is_octet(#[trigger] views[k]),
        decreases parts@.len() - i,
    {
        assert(views[i as int] == parts@[i as int]@);
        if !octet(parts[i].as_str()) {
            assert(!is_octet(views[i as int]));
            return false;
        }
        i += 1;
    }
    true
}

fn count_groups(s: &str) -> (r: Option<usize>)
    ensures
        match r {
            Some(n) => group_count(s@) == Some(n as nat),
            None => group_count(s@) is None || group_count(s@)->0 > 8,
        },
{
    let parts = split_on(s, ':');
    let ghost views = crate::text::split(s@, ':');
    if parts.len() > 8 {
        return None;
    }
    let n = parts.len();
    let mut i: usize = 0;
    while i + 1 < n
        invariant
            views == crate::text::views(parts@),
            views == crate::text::split(s@, ':'),
            n == parts@.len(),
            1 <= n <= 8,
            i < n,
            forall|k: int| 0 <= k < i ==> is_hex_group(#[trigger] views[k]),
        decreases n - i,
    {
        assert(views[i as int] == parts@[i as int]@);
        if !hex_group(parts[i].as_str()) {
            assert(!is_hex_group(views[i as int]));
            return None;
        }
        i += 1;
    }
    assert(views.last() == parts@[n - 1]@);
    if hex_group(parts[n - 1].as_str()) {
        Some(n)
    } else if ipv4(parts[n - 1].as_str()) {
        Some(n + 1)
    } else {
        None
    }
}

fn last_is_ipv4(s: &str) -> (r: bool)
    ensures
        r == is_ipv4(crate::text::split(s@, ':').last()),
{
    let parts = split_on(s, ':');
    assert(crate::text::views(parts@).last() == parts@[parts@.len() - 1]@);
    ipv4(parts[parts.len() - 1].as_str())
}

fn find_double_colon(chars: &Vec<char>) -> (r: usize)
    ensures
        r == double_colon(chars@),
        r <= chars@.len(),
        r < chars@.len() ==> r + 2 <= chars@.len(),
{
    let mut i: usize = 0;
    assert(chars@.skip(0) =~= chars@);
    while i < chars.len() && !(chars.len() - i >= 2 && chars[i] == ':' && chars[i + 1] == ':')
        invariant
            i <= chars@.len(),
            double_colon(chars@) == i + double_colon(chars@.skip(i as int)),
        decreases chars@.len() - i,
    {
        assert(chars@.skip(i as int).drop_first() =~= chars@.skip(i + 1));
        i += 1;
    }
    i
}

/// Tells whether a text is an IPv6 address.
pub fn ipv6(s: &str) -> (r: bool)
    ensures
        r == is_ipv6(s@),
{
    let chars = chars_of(s);
    let p = find_double_colon(&chars);
    if p == chars.len() {
        return count_groups(s) == Some(8);
    }
    let head = text_between(chars.as_slice(), 0, p);
    let tail = text_between(chars.as_slice(), p + 2, chars.len());
    assert(head@ =~= s@.take(p as int));
    assert(tail@ =~= s@.skip(p + 2));
    let before: usize = if head.as_str().is_empty() {
        0
    } else {
        if last_is_ipv4(head.as_str()) {
            return false;
        }
        match count_groups(head.as_str()) {
            Some(n) => n,
            None => {
                return false;
            },
        }
    };
    let after: usize = if tail.as_str().is_empty() {
        0
    } else {
        match count_groups(tail.as_str()) {
            Some(n) => n,
            None => {
                return false;
            },
        }
    };
    before <= 7 && after <= 7 - before
}

} // verus!
