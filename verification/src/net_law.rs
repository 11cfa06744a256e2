//! Which texts are addresses.

use vstd::prelude::*;

verus! {

/// The groups with a colon between each two.
pub open spec fn with_colons(groups: Seq<Seq<char>>) -> Seq<char>
    decreases groups.len(),
{
    if groups.len() == 0 {
        Seq::empty()
    } else if groups.len() == 1 {
        groups[0]
    } else {
        with_colons(groups.drop_last()) + seq![':'] + groups.last()
    }
}

/// Each group is one to four hexadecimal digits.
pub open spec fn are_groups(groups: Seq<Seq<char>>) -> bool {
    forall|k: int| #![trigger groups[k]]
        0 <= k < groups.len() ==> 1 <= groups[k].len() <= 4 && forall|i: int|
            0 <= i < groups[k].len() ==> is_hex(#[trigger] groups[k][i])
}

pub open spec fn is_hex(c: char) -> bool {
    '0' <= c <= '9' || 'a' <= c <= 'f' || 'A' <= c <= 'F'
}

/// Two colons stand at a place.
spec fn pair_at(s: Seq<char>, i: int) -> bool {
    0 <= i && i + 1 < s.len() && s[i] == ':' && s[i + 1] == ':'
}

proof fn lemma_pair(s: Seq<char>)
    ensures
        ({
            let p = crate::net::double_colon(s);
            &&& 0 <= p <= s.len()
            &&& p < s.len() ==> pair_at(s, p)
            &&& forall|i: int| 0 <= i < p ==> !#[trigger] pair_at(s, i)
        }),
    decreases s.len(),
{
    let p = crate::net::double_colon(s);
    if s.len() == 0 || pair_at(s, 0) {
    } else {
        let rest = s.drop_first();
        lemma_pair(rest);
        assert forall|i: int| 0 <= i < p implies !#[trigger] pair_at(s, i) by {
            if i > 0 && pair_at(s, i) {
                assert(pair_at(rest, i - 1));
            }
        }
        if p < s.len() {
            assert(pair_at(rest, p - 1));
        }
    }
}

proof fn lemma_pair_is(s: Seq<char>, p: int)
    requires
        0 <= p <= s.len(),
        p < s.len() ==> pair_at(s, p),
        forall|i: int| 0 <= i < p ==> !#[trigger] pair_at(s, i),
    ensures
        crate::net::double_colon(s) == p,
{
    lemma_pair(s);
    let q = crate::net::double_colon(s);
    if q < p {
        assert(pair_at(s, q));
    }
    if p < q {
        assert(pair_at(s, p));
    }
}

/// The text of some groups: where it is cut, and where it holds colons.
proof fn lemma_with_colons(groups: Seq<Seq<char>>)
    requires
        are_groups(groups),
        groups.len() > 0,
    ensures
        crate::text::split(with_colons(groups), ':') == groups,
        with_colons(groups).len() > 0,
        with_colons(groups)[0] != ':',
        with_colons(groups).last() != ':',
        forall|i: int| !#[trigger] pair_at(with_colons(groups), i),
    decreases groups.len(),
{
    let s = with_colons(groups);
    let last = groups.last();
    assert(last == groups[groups.len() - 1]);
    assert(!last.contains(':')) by {
        if last.contains(':') {
            let i = choose|i: int| 0 <= i < last.len() && last[i] == ':';
            assert(is_hex(last[i]));
        }
    }
    assert(is_hex(last[0]) && is_hex(last[last.len() - 1]));
    crate::text_law::plain_text_is_one_part(last, ':');
    if groups.len() == 1 {
        assert(groups =~= seq![last]);
        assert forall|i: int| !#[trigger] pair_at(s, i) by {
            if pair_at(s, i) {
                assert(last.contains(s[i]));
            }
        }
    } else {
        let before = groups.drop_last();
        assert forall|k: int| #![trigger before[k]] 0 <= k < before.len() implies 1
            <= before[k].len() <= 4 && forall|i: int|
            0 <= i < before[k].len() ==> is_hex(#[trigger] before[k][i]) by {
            assert(before[k] == groups[k]);
        }
        lemma_with_colons(before);
        let b = with_colons(before);
        crate::text_law::splitting_undoes_joining(b, last, ':');
        assert(before + seq![last] =~= groups);
        assert forall|i: int| !#[trigger] pair_at(s, i) by {
            if pair_at(s, i) {
                if i + 1 < b.len() {
                    assert(pair_at(b, i));
                } else if i + 1 == b.len() {
                    assert(s[i] == b.last());
                } else {
                    assert(s[i + 1] == last[i + 1 - b.len() - 1]);
                    assert(last.contains(s[i + 1]));
                }
            }
        }
    }
}

proof fn lemma_group(group: Seq<char>)
    requires
        are_groups(seq![group]),
    ensures
        crate::net::is_hex_group(group),
        !crate::net::is_ipv4(group),
{
    assert(seq![group][0] == group);
    assert forall|i: int| 0 <= i < group.len() implies crate::net::is_hex_digit(
        #[trigger] group[i],
    ) by {
        assert(is_hex(seq![group][0][i]));
    }
    if group.contains('.') {
        let i = choose|i: int| 0 <= i < group.len() && group[i] == '.';
        assert(is_hex(seq![group][0][i]));
    }
    crate::text_law::plain_text_is_one_part(group, '.');
}

proof fn lemma_count(groups: Seq<Seq<char>>)
    requires
        are_groups(groups),
    ensures
        crate::net::side_count(with_colons(groups)) == Some(groups.len()),
        groups.len() > 0 ==> crate::net::group_count(with_colons(groups)) == Some(groups.len())
            && !crate::net::is_ipv4(crate::text::split(with_colons(groups), ':').last()),
{
    if groups.len() > 0 {
        lemma_with_colons(groups);
        assert forall|k: int| 0 <= k < groups.len() implies crate::net::is_hex_group(
            #[trigger] groups[k],
        ) && !crate::net::is_ipv4(groups[k]) by {
            let one = seq![groups[k]];
            assert(one[0] == groups[k]);
            lemma_group(groups[k]);
        }
        assert(groups.last() == groups[groups.len() - 1]);
    }
}

/// Groups with single colons between them are an address where there are eight.
pub proof fn full_addresses_have_eight_groups(groups: Seq<Seq<char>>)
    requires
        are_groups(groups),
        groups.len() > 0,
    ensures
        crate::net::is_ipv6(with_colons(groups)) == (groups.len() == 8),
{
    lemma_with_colons(groups);
    lemma_count(groups);
    lemma_pair_is(with_colons(groups), with_colons(groups).len() as int);
}

/// Two colons stand for one group or more that are left out.
pub proof fn double_colons_stand_for_missing_groups(head: Seq<Seq<char>>, tail: Seq<Seq<char>>)
    requires
        are_groups(head),
        are_groups(tail),
    ensures
        crate::net::is_ipv6(with_colons(head) + seq![':', ':'] + with_colons(tail)) == (head.len()
            + tail.len() <= 7),
{
    let h = with_colons(head);
    let t = with_colons(tail);
    let s = h + seq![':', ':'] + t;
    lemma_count(head);
    lemma_count(tail);
    if head.len() > 0 {
        lemma_with_colons(head);
    }
    assert forall|i: int| 0 <= i < h.len() implies !#[trigger] pair_at(s, i) by {
        if pair_at(s, i) {
            if i + 1 < h.len() {
                assert(pair_at(h, i));
            } else {
                assert(s[i] == h.last());
            }
        }
    }
    assert(pair_at(s, h.len() as int));
    lemma_pair_is(s, h.len() as int);
    assert(s.take(h.len() as int) =~= h);
    assert(s.skip(h.len() as int + 2) =~= t);
}

/// Four numbers of a byte each with dots between them.
pub open spec fn with_dots(a: u8, b: u8, c: u8, d: u8) -> Seq<char> {
    crate::text::decimal(a as nat) + seq!['.'] + crate::text::decimal(b as nat) + seq!['.']
        + crate::text::decimal(c as nat) + seq!['.'] + crate::text::decimal(d as nat)
}

proof fn lemma_byte(n: u8)
    ensures
        crate::net::is_octet(crate::text::decimal(n as nat)),
        crate::text::split(crate::text::decimal(n as nat), '.') == seq![
            crate::text::decimal(n as nat),
        ],
        !crate::text::decimal(n as nat).contains(':'),
{
    let s = crate::text::decimal(n as nat);
    reveal_with_fuel(crate::text::decimal, 4);
    crate::text::lemma_decimal(n as nat);
    if s.contains('.') {
        let i = choose|i: int| 0 <= i < s.len() && s[i] == '.';
        assert(crate::text::is_ascii_digit(s[i]));
    }
    if s.contains(':') {
        let i = choose|i: int| 0 <= i < s.len() && s[i] == ':';
        assert(crate::text::is_ascii_digit(s[i]));
    }
    crate::text_law::plain_text_is_one_part(s, '.');
}

/// Four bytes in decimal with dots between them are an address of the short kind.
pub proof fn four_bytes_are_an_address(a: u8, b: u8, c: u8, d: u8)
    ensures
        crate::net::is_ipv4(with_dots(a, b, c, d)),
{
    lemma_byte(a);
    lemma_byte(b);
    lemma_byte(c);
    lemma_byte(d);
    let x = crate::text::decimal(a as nat);
    let y = crate::text::decimal(b as nat);
    let z = crate::text::decimal(c as nat);
    let w = crate::text::decimal(d as nat);
    crate::text_law::splitting_undoes_joining(x, y, '.');
    crate::text_law::splitting_undoes_joining(x + seq!['.'] + y, z, '.');
    crate::text_law::splitting_undoes_joining(x + seq!['.'] + y + seq!['.'] + z, w, '.');
    assert(crate::text::split(with_dots(a, b, c, d), '.') =~= seq![x, y, z, w]);
}

/// An address of the short kind may stand for the last two groups.
pub proof fn short_addresses_stand_for_two_groups(
    groups: Seq<Seq<char>>,
    a: u8,
    b: u8,
    c: u8,
    d: u8,
)
    requires
        are_groups(groups),
        groups.len() > 0,
    ensures
        crate::net::is_ipv6(with_colons(groups) + seq![':'] + with_dots(a, b, c, d)) == (groups.len()
            == 6),
{
    let g = with_colons(groups);
    let q = with_dots(a, b, c, d);
    let s = g + seq![':'] + q;
    lemma_with_colons(groups);
    lemma_byte(a);
    lemma_byte(b);
    lemma_byte(c);
    lemma_byte(d);
    four_bytes_are_an_address(a, b, c, d);
    assert forall|i: int| 0 <= i < q.len() implies #[trigger] q[i] != ':' by {
        let x = crate::text::decimal(a as nat);
        let y = crate::text::decimal(b as nat);
        let z = crate::text::decimal(c as nat);
        let w = crate::text::decimal(d as nat);
        assert(x.contains(q[i]) || y.contains(q[i]) || z.contains(q[i]) || w.contains(q[i]) || q[i]
            == '.') by {
            let m = x.len() as int;
            let n = m + 1 + y.len();
            let o = n + 1 + z.len();
            if i < m {
                assert(q[i] == x[i]);
            } else if m < i < n {
                assert(q[i] == y[i - m - 1]);
            } else if n < i < o {
                assert(q[i] == z[i - n - 1]);
            } else if o < i {
                assert(q[i] == w[i - o - 1]);
            }
        }
    }
    crate::text_law::plain_text_is_one_part(q, ':');
    crate::text_law::splitting_undoes_joining(g, q, ':');
    let parts = crate::text::split(s, ':');
    assert(parts =~= groups + seq![q]);
    assert forall|k: int| 0 <= k < parts.len() - 1 implies crate::net::is_hex_group(
        #[trigger] parts[k],
    ) by {
        assert(parts[k] == groups[k]);
        assert(seq![groups[k]][0] == groups[k]);
        lemma_group(groups[k]);
    }
    assert(parts.last() == q);
    assert(!crate::net::is_hex_group(q)) by {
        let i = crate::text::decimal(a as nat).len() as int;
        assert(q[i] == '.');
        assert(!crate::net::is_hex_digit(q[i]));
    }
    assert forall|i: int| 0 <= i < s.len() implies !#[trigger] pair_at(s, i) by {
        if pair_at(s, i) {
            if i + 1 < g.len() {
                assert(pair_at(g, i));
            } else if i + 1 == g.len() {
                assert(s[i] == g.last());
            } else {
                assert(s[i + 1] == q[i + 1 - g.len() - 1]);
            }
        }
    }
    lemma_pair_is(s, s.len() as int);
}

/// A character of a text stands in one of its parts, unless it cuts them.
proof fn lemma_in_part(s: Seq<char>, c: char, i: int)
    requires
        0 <= i < s.len(),
        s[i] != c,
    ensures
        exists|k: int|
            0 <= k < crate::text::split(s, c).len() && (#[trigger] crate::text::split(
                s,
                c,
            )[k]).contains(s[i]),
    decreases s.len(),
{
    crate::text::lemma_position(s, c);
    let p = crate::text::position(s, c);
    let parts = crate::text::split(s, c);
    if i < p {
        assert(parts[0] =~= s.take(p));
        assert(parts[0][i] == s[i]);
    } else {
        let rest = s.skip(p + 1);
        let later = crate::text::split(rest, c);
        assert(rest[i - p - 1] == s[i]);
        lemma_in_part(rest, c, i - p - 1);
        let k = choose|k: int| 0 <= k < later.len() && (#[trigger] later[k]).contains(s[i]);
        assert(parts[k + 1] == later[k]);
    }
}

pub open spec fn is_address_char(c: char) -> bool {
    is_hex(c) || c == ':' || c == '.'
}

proof fn lemma_count_chars(s: Seq<char>)
    requires
        crate::net::side_count(s) is Some,
    ensures
        forall|i: int| 0 <= i < s.len() ==> is_address_char(#[trigger] s[i]),
{
    let parts = crate::text::split(s, ':');
    crate::text_law::parts_hold_no_separator(s, ':');
    assert forall|i: int| 0 <= i < s.len() implies is_address_char(#[trigger] s[i]) by {
        if s[i] != ':' {
            lemma_in_part(s, ':', i);
            let k = choose|k: int| 0 <= k < parts.len() && (#[trigger] parts[k]).contains(s[i]);
            let part = parts[k];
            let j = choose|j: int| 0 <= j < part.len() && part[j] == s[i];
            if crate::net::is_hex_group(part) {
                assert(crate::net::is_hex_digit(part[j]));
            } else {
                assert(part == parts.last());
                assert(crate::net::is_ipv4(part));
                if part[j] != '.' {
                    lemma_in_part(part, '.', j);
                    let quads = crate::text::split(part, '.');
                    let m = choose|m: int|
                        0 <= m < quads.len() && (#[trigger] quads[m]).contains(part[j]);
                    assert(crate::net::is_octet(quads[m]));
                    let quad = quads[m];
                    let n = choose|n: int| 0 <= n < quad.len() && quad[n] == part[j];
                    assert(crate::text::is_ascii_digit(quad[n]));
                }
            }
        }
    }
}

/// An address holds nothing but hexadecimal digits, colons and dots, and has a
/// colon.
pub proof fn addresses_hold_digits_and_colons(s: Seq<char>)
    requires
        crate::net::is_ipv6(s),
    ensures
        forall|i: int| 0 <= i < s.len() ==> is_address_char(#[trigger] s[i]),
        s.contains(':'),
{
    lemma_pair(s);
    let p = crate::net::double_colon(s);
    if p >= s.len() {
        if s.len() == 0 {
            assert(crate::text::split(s, ':') =~= seq![s]);
        }
        lemma_count_chars(s);
        if !s.contains(':') {
            crate::text_law::plain_text_is_one_part(s, ':');
        }
    } else {
        let head = s.take(p);
        let tail = s.skip(p + 2);
        lemma_count_chars(head);
        lemma_count_chars(tail);
        assert(pair_at(s, p));
        assert(s.contains(s[p]));
        assert forall|i: int| 0 <= i < s.len() implies is_address_char(#[trigger] s[i]) by {
            if i < p {
                assert(s[i] == head[i]);
            } else if i >= p + 2 {
                assert(s[i] == tail[i - p - 2]);
            }
        }
    }
}

} // verus!
