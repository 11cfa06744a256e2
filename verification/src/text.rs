//! Text as a sequence of characters: the classes, splits and conversions that
//! every parser and validator of the crate is stated with.

use vstd::prelude::*;
use vstd::string::*;
use vstd::utf8::*;

verus! {

/// `String::push` appends one character.
pub assume_specification[ std::string::String::push ](buffer: &mut String, ch: char)
    ensures
        final(buffer)@ == old(buffer)@.push(ch),
;

/// Bytes of the UTF-8 encoding.
pub open spec fn utf8_len(s: Seq<char>) -> nat {
    encode_utf8(s).len()
}

/// Unicode `White_Space`.
pub open spec fn is_whitespace(c: char) -> bool {
    let u = c as u32;
    ||| 0x9 <= u <= 0xd
    ||| u == 0x20
    ||| u == 0x85
    ||| u == 0xa0
    ||| u == 0x1680
    ||| 0x2000 <= u <= 0x200a
    ||| u == 0x2028
    ||| u == 0x2029
    ||| u == 0x202f
    ||| u == 0x205f
    ||| u == 0x3000
}

/// Unicode general category `Cc`.
pub open spec fn is_control(c: char) -> bool {
    let u = c as u32;
    u < 0x20 || 0x7f <= u <= 0x9f
}

pub open spec fn is_ascii_digit(c: char) -> bool {
    '0' <= c <= '9'
}

pub open spec fn is_ascii_letter(c: char) -> bool {
    'a' <= c <= 'z' || 'A' <= c <= 'Z'
}

pub open spec fn is_ascii_alphanumeric(c: char) -> bool {
    is_ascii_letter(c) || is_ascii_digit(c)
}

/// ASCII lower case; every other character stands for itself.
pub open spec fn lower(c: char) -> char {
    if 'A' <= c <= 'Z' {
        ((c as u32 + 32) as u32) as char
    } else {
        c
    }
}

pub open spec fn lower_text(s: Seq<char>) -> Seq<char> {
    s.map_values(|c: char| lower(c))
}

/// The two texts agree up to ASCII case.
pub open spec fn same_ignoring_case(a: Seq<char>, b: Seq<char>) -> bool {
    lower_text(a) == lower_text(b)
}

pub fn whitespace(c: char) -> (r: bool)
    ensures
        r == is_whitespace(c),
{
    let u: u32 = c as u32;
    (0x9 <= u && u <= 0xd) || u == 0x20 || u == 0x85 || u == 0xa0 || u == 0x1680 || (0x2000 <= u && u
        <= 0x200a) || u == 0x2028 || u == 0x2029 || u == 0x202f || u == 0x205f || u == 0x3000
}

pub fn control(c: char) -> (r: bool)
    ensures
        r == is_control(c),
{
    let u: u32 = c as u32;
    u < 0x20 || (0x7f <= u && u <= 0x9f)
}

pub fn ascii_digit(c: char) -> (r: bool)
    ensures
        r == is_ascii_digit(c),
{
    '0' <= c && c <= '9'
}

pub fn ascii_letter(c: char) -> (r: bool)
    ensures
        r == is_ascii_letter(c),
{
    ('a' <= c && c <= 'z') || ('A' <= c && c <= 'Z')
}

pub fn ascii_alphanumeric(c: char) -> (r: bool)
    ensures
        r == is_ascii_alphanumeric(c),
{
    ascii_letter(c) || ascii_digit(c)
}

pub fn lower_char(c: char) -> (r: char)
    ensures
        r == lower(c),
{
    if 'A' <= c && c <= 'Z' {
        let b: u8 = c as u8;
        (b + 32) as char
    } else {
        c
    }
}

/// The characters of a text.
pub fn chars_of(s: &str) -> (r: Vec<char>)
    ensures
        r@ == s@,
{
    let mut out: Vec<char> = Vec::new();
    for c in it: s.chars()
        invariant
            it.seq() == s@,
            out@ == s@.subrange(0, it.index() as int),
    {
        out.push(c);
        assert(s@.subrange(0, it.index() as int).push(c) =~= s@.subrange(0, it.index() + 1));
    }
    assert(s@.subrange(0, s@.len() as int) =~= s@);
    out
}

/// The text made of the characters from `from` up to `to`.
pub fn text_between(chars: &[char], from: usize, to: usize) -> (r: String)
    requires
        from <= to <= chars@.len(),
    ensures
        r@ == chars@.subrange(from as int, to as int),
{
    let mut out = String::new();
    let mut i: usize = from;
    while i < to
        invariant
            from <= i <= to <= chars@.len(),
            out@ == chars@.subrange(from as int, i as int),
        decreases to - i,
    {
        out.push(chars[i]);
        assert(chars@.subrange(from as int, i as int).push(chars@[i as int]) =~= chars@.subrange(
            from as int,
            i + 1,
        ));
        i += 1;
    }
    out
}

pub fn byte_len(s: &str) -> (r: usize)
    ensures
        r == utf8_len(s@),
{
    s.as_bytes().len()
}

pub fn same_text(a: &str, b: &str) -> (r: bool)
    ensures
        r == (a@ == b@),
{
    a.to_owned() == b.to_owned()
}

pub fn same_chars(a: &[char], b: &[char]) -> (r: bool)
    ensures
        r == (a@ == b@),
{
    if a.len() != b.len() {
        return false;
    }
    let mut i: usize = 0;
    while i < a.len()
        invariant
            i <= a@.len(),
            a@.len() == b@.len(),
            forall|k: int| 0 <= k < i ==> a@[k] == b@[k],
        decreases a@.len() - i,
    {
        if a[i] != b[i] {
            return false;
        }
        i += 1;
    }
    assert(a@ =~= b@);
    true
}

pub fn lower_string(s: &str) -> (r: String)
    ensures
        r@ == lower_text(s@),
{
    let chars = chars_of(s);
    let mut out = String::new();
    let mut i: usize = 0;
    while i < chars.len()
        invariant
            chars@ == s@,
            i <= chars@.len(),
            out@ == lower_text(s@.subrange(0, i as int)),
        decreases chars@.len() - i,
    {
        out.push(lower_char(chars[i]));
        assert(lower_text(s@.subrange(0, i as int)).push(lower(s@[i as int])) =~= lower_text(
            s@.subrange(0, i + 1),
        ));
        i += 1;
    }
    assert(s@.subrange(0, s@.len() as int) =~= s@);
    out
}

pub fn equal_ignoring_case(a: &str, b: &str) -> (r: bool)
    ensures
        r == same_ignoring_case(a@, b@),
{
    lower_string(a) == lower_string(b)
}

pub fn contains_char(s: &str, wanted: char) -> (r: bool)
    ensures
        r == s@.contains(wanted),
{
    let chars = chars_of(s);
    let mut i: usize = 0;
    while i < chars.len()
        invariant
            chars@ == s@,
            i <= chars@.len(),
            forall|k: int| 0 <= k < i ==> s@[k] != wanted,
        decreases chars@.len() - i,
    {
        if chars[i] == wanted {
            return true;
        }
        i += 1;
    }
    false
}

/// Characters before the first `c`; the whole length where `c` does not occur.
pub open spec fn position(s: Seq<char>, c: char) -> int
    decreases s.len(),
{
    if s.len() == 0 || s[0] == c {
        0
    } else {
        1 + position(s.drop_first(), c)
    }
}

pub proof fn lemma_position(s: Seq<char>, c: char)
    ensures
        0 <= position(s, c) <= s.len(),
        forall|k: int| 0 <= k < position(s, c) ==> s[k] != c,
        position(s, c) < s.len() ==> s[position(s, c)] == c,
        s.contains(c) <==> position(s, c) < s.len(),
    decreases s.len(),
{
    if s.len() > 0 && s[0] != c {
        let rest = s.drop_first();
        lemma_position(rest, c);
        assert forall|k: int| 0 <= k < position(s, c) implies s[k] != c by {
            if k > 0 {
                assert(s[k] == rest[k - 1]);
            }
        }
        if s.contains(c) {
            let k = choose|k: int| 0 <= k < s.len() && s[k] == c;
            assert(rest[k - 1] == c);
        }
    }
}

/// The first `c` is at `p` when nothing before `p` is `c`.
pub proof fn lemma_position_is(s: Seq<char>, c: char, p: int)
    requires
        0 <= p <= s.len(),
        forall|k: int| 0 <= k < p ==> s[k] != c,
        p < s.len() ==> s[p] == c,
    ensures
        position(s, c) == p,
{
    lemma_position(s, c);
}

/// `position` counted from the character at `from`.
pub fn position_from(chars: &[char], c: char, from: usize) -> (r: usize)
    requires
        from <= chars@.len(),
    ensures
        from <= r <= chars@.len(),
        r == from + position(chars@.skip(from as int), c),
        r < chars@.len() ==> chars@[r as int] == c,
        forall|k: int| from <= k < r ==> chars@[k] != c,
{
    let mut i: usize = from;
    while i < chars.len() && chars[i] != c
        invariant
            from <= i <= chars@.len(),
            forall|k: int| from <= k < i ==> chars@[k] != c,
        decreases chars@.len() - i,
    {
        i += 1;
    }
    proof {
        let rest = chars@.skip(from as int);
        assert forall|k: int| 0 <= k < i - from implies rest[k] != c by {
            assert(rest[k] == chars@[from + k]);
        }
        lemma_position_is(rest, c, i - from);
    }
    i
}

/// The parts between the occurrences of `c`: one more than there are of them.
pub open spec fn split(s: Seq<char>, c: char) -> Seq<Seq<char>>
    decreases s.len(),
{
    let p = position(s, c);
    if 0 <= p < s.len() {
        seq![s.take(p)] + split(s.skip(p + 1), c)
    } else {
        seq![s]
    }
}

pub open spec fn views(v: Seq<String>) -> Seq<Seq<char>> {
    v.map_values(|t: String| t@)
}

pub proof fn lemma_views_push(v: Seq<String>, t: String)
    ensures
        views(v.push(t)) == views(v).push(t@),
{
    assert(views(v.push(t)) =~= views(v).push(t@));
}

pub fn split_on(s: &str, c: char) -> (r: Vec<String>)
    ensures
        views(r@) == split(s@, c),
        r@.len() >= 1,
{
    let chars = chars_of(s);
    let mut out: Vec<String> = Vec::new();
    let mut start: usize = 0;
    assert(s@.skip(0) =~= s@);
    loop
        invariant
            chars@ == s@,
            start <= chars@.len(),
            split(s@, c) == views(out@) + split(s@.skip(start as int), c),
        decreases chars@.len() - start,
    {
        let end = position_from(chars.as_slice(), c, start);
        let ghost rest = s@.skip(start as int);
        proof {
            lemma_position(rest, c);
        }
        let ghost before = out@;
        let part = text_between(chars.as_slice(), start, end);
        let ghost part_view = part@;
        out.push(part);
        proof {
            lemma_views_push(before, out@.last());
            assert(part_view =~= rest.take(end - start));
        }
        if end == chars.len() {
            assert(rest.take(end - start) =~= rest);
            assert(views(out@) =~= split(s@, c));
            return out;
        }
        assert(rest.skip(end - start + 1) =~= s@.skip(end + 1));
        assert(views(before) + (seq![part_view] + split(s@.skip(end + 1), c)) =~= views(out@) + split(
            s@.skip(end + 1),
            c,
        ));
        start = end + 1;
    }
}

/// A line end of `\r\n` leaves no `\r` behind.
pub open spec fn strip_carriage_return(s: Seq<char>) -> Seq<char> {
    if s.len() > 0 && s.last() == '\r' {
        s.drop_last()
    } else {
        s
    }
}

/// The lines of a text. A final line end starts no further line.
pub open spec fn lines(s: Seq<char>) -> Seq<Seq<char>>
    decreases s.len(),
{
    let p = position(s, '\n');
    if s.len() == 0 {
        Seq::empty()
    } else if 0 <= p < s.len() {
        seq![strip_carriage_return(s.take(p))] + lines(s.skip(p + 1))
    } else {
        seq![s]
    }
}

pub fn lines_of(s: &str) -> (r: Vec<String>)
    ensures
        views(r@) == lines(s@),
{
    let chars = chars_of(s);
    let mut out: Vec<String> = Vec::new();
    let mut start: usize = 0;
    assert(s@.skip(0) =~= s@);
    while start < chars.len()
        invariant
            chars@ == s@,
            start <= chars@.len(),
            lines(s@) == views(out@) + lines(s@.skip(start as int)),
        decreases chars@.len() - start,
    {
        let end = position_from(chars.as_slice(), '\n', start);
        let ghost rest = s@.skip(start as int);
        proof {
            lemma_position(rest, '\n');
        }
        let ghost before = out@;
        if end == chars.len() {
            let part = text_between(chars.as_slice(), start, end);
            assert(part@ =~= rest);
            out.push(part);
            proof {
                lemma_views_push(before, out@.last());
            }
            assert(views(out@) =~= lines(s@));
            return out;
        }
        let stop = if end > start && chars[end - 1] == '\r' {
            end - 1
        } else {
            end
        };
        let part = text_between(chars.as_slice(), start, stop);
        let ghost part_view = part@;
        assert(part_view =~= strip_carriage_return(rest.take(end - start))) by {
            let raw = rest.take(end - start);
            if end > start {
                assert(raw.last() == chars@[end - 1]);
            }
        }
        out.push(part);
        proof {
            lemma_views_push(before, out@.last());
            assert(rest.skip(end - start + 1) =~= s@.skip(end + 1));
            assert(views(before) + (seq![part_view] + lines(s@.skip(end + 1))) =~= views(out@) + lines(
                s@.skip(end + 1),
            ));
        }
        start = end + 1;
    }
    assert(s@.skip(start as int) =~= Seq::<char>::empty());
    assert(views(out@) =~= lines(s@));
    out
}

pub open spec fn trim_start(s: Seq<char>) -> Seq<char>
    decreases s.len(),
{
    if s.len() > 0 && is_whitespace(s[0]) {
        trim_start(s.drop_first())
    } else {
        s
    }
}

pub open spec fn trim_end(s: Seq<char>) -> Seq<char>
    decreases s.len(),
{
    if s.len() > 0 && is_whitespace(s.last()) {
        trim_end(s.drop_last())
    } else {
        s
    }
}

pub open spec fn trim(s: Seq<char>) -> Seq<char> {
    trim_end(trim_start(s))
}

/// First index from `from` on that holds no whitespace.
pub fn skip_whitespace(chars: &[char], from: usize) -> (r: usize)
    requires
        from <= chars@.len(),
    ensures
        from <= r <= chars@.len(),
        chars@.skip(r as int) == trim_start(chars@.skip(from as int)),
        forall|k: int| from <= k < r ==> is_whitespace(chars@[k]),
        r < chars@.len() ==> !is_whitespace(chars@[r as int]),
{
    let mut i: usize = from;
    while i < chars.len() && whitespace(chars[i])
        invariant
            from <= i <= chars@.len(),
            trim_start(chars@.skip(i as int)) == trim_start(chars@.skip(from as int)),
            forall|k: int| from <= k < i ==> is_whitespace(chars@[k]),
        decreases chars@.len() - i,
    {
        assert(chars@.skip(i as int).drop_first() =~= chars@.skip(i + 1));
        i += 1;
    }
    i
}

pub fn trim_end_chars(chars: &[char]) -> (r: usize)
    ensures
        r <= chars@.len(),
        chars@.take(r as int) == trim_end(chars@),
{
    let mut i: usize = chars.len();
    assert(chars@.take(i as int) =~= chars@);
    while i > 0 && whitespace(chars[i - 1])
        invariant
            i <= chars@.len(),
            trim_end(chars@.take(i as int)) == trim_end(chars@),
        decreases i,
    {
        assert(chars@.take(i as int).drop_last() =~= chars@.take(i - 1));
        i -= 1;
    }
    i
}

pub fn trimmed(s: &str) -> (r: String)
    ensures
        r@ == trim(s@),
{
    let chars = chars_of(s);
    let from = skip_whitespace(chars.as_slice(), 0);
    assert(s@.skip(0) =~= s@);
    let rest = text_between(chars.as_slice(), from, chars.len());
    assert(rest@ =~= trim_start(s@));
    trimmed_end(rest.as_str())
}

pub fn trimmed_end(s: &str) -> (r: String)
    ensures
        r@ == trim_end(s@),
{
    let chars = chars_of(s);
    let end = trim_end_chars(chars.as_slice());
    let out = text_between(chars.as_slice(), 0, end);
    assert(out@ =~= chars@.take(end as int));
    out
}

pub fn trimmed_start(s: &str) -> (r: String)
    ensures
        r@ == trim_start(s@),
{
    let chars = chars_of(s);
    let from = skip_whitespace(chars.as_slice(), 0);
    assert(s@.skip(0) =~= s@);
    let rest = text_between(chars.as_slice(), from, chars.len());
    assert(rest@ =~= trim_start(s@));
    rest
}

pub fn starts_with(s: &str, prefix: &str) -> (r: bool)
    ensures
        r == prefix@.is_prefix_of(s@),
{
    let a = chars_of(s);
    let b = chars_of(prefix);
    if b.len() > a.len() {
        return false;
    }
    let head = vstd::slice::slice_subrange(a.as_slice(), 0, b.len());
    same_chars(head, b.as_slice())
}

/// The decimal digit of a value below ten.
pub open spec fn digit_char(d: nat) -> char {
    (('0' as u32 + d) as u32) as char
}

pub open spec fn digit_value(c: char) -> nat {
    (c as u32 - '0' as u32) as nat
}

/// Decimal notation without leading zeros.
pub open spec fn decimal(n: nat) -> Seq<char>
    decreases n,
{
    if n < 10 {
        seq![digit_char(n)]
    } else {
        decimal(n / 10).push(digit_char(n % 10))
    }
}

pub open spec fn all_digits(s: Seq<char>) -> bool {
    forall|i: int| 0 <= i < s.len() ==> is_ascii_digit(#[trigger] s[i])
}

/// Value of a row of decimal digits.
pub open spec fn digits_value(s: Seq<char>) -> nat
    decreases s.len(),
{
    if s.len() == 0 {
        0
    } else {
        10 * digits_value(s.drop_last()) + digit_value(s.last())
    }
}

/// An unsigned number as text: digits with an optional leading `+`, at most `max`.
pub open spec fn parse_unsigned(s: Seq<char>, max: nat) -> Option<nat> {
    let digits = if s.len() > 0 && s[0] == '+' {
        s.drop_first()
    } else {
        s
    };
    if digits.len() > 0 && all_digits(digits) && digits_value(digits) <= max {
        Some(digits_value(digits))
    } else {
        None
    }
}

pub proof fn lemma_decimal(n: nat)
    ensures
        decimal(n).len() > 0,
        all_digits(decimal(n)),
        digits_value(decimal(n)) == n,
        n > 0 ==> decimal(n)[0] != '0',
    decreases n,
{
    reveal_with_fuel(digits_value, 2);
    if n < 10 {
        assert(decimal(n).drop_last() =~= Seq::<char>::empty());
        assert(digit_value(digit_char(n)) == n);
    } else {
        lemma_decimal(n / 10);
        assert(decimal(n).drop_last() =~= decimal(n / 10));
        assert(digit_value(digit_char(n % 10)) == n % 10);
    }
}

/// Reading back a number that was written in decimal gives the number.
pub proof fn lemma_decimal_parses(n: nat, max: nat)
    requires
        n <= max,
    ensures
        parse_unsigned(decimal(n), max) == Some(n),
{
    lemma_decimal(n);
    assert(is_ascii_digit(decimal(n)[0]));
}

pub proof fn lemma_digits_value_grows(s: Seq<char>, i: int)
    requires
        0 <= i <= s.len(),
        all_digits(s),
    ensures
        digits_value(s.take(i)) <= digits_value(s),
    decreases s.len(),
{
    if i < s.len() {
        lemma_digits_value_grows(s.drop_last(), i);
        assert(s.drop_last().take(i) =~= s.take(i));
    } else {
        assert(s.take(i) =~= s);
    }
}

pub fn decimal_text(n: u64) -> (r: String)
    ensures
        r@ == decimal(n as nat),
    decreases n,
{
    if n < 10 {
        let mut out = String::new();
        out.push((48u8 + n as u8) as char);
        assert(out@ =~= seq![digit_char(n as nat)]);
        out
    } else {
        let mut out = decimal_text(n / 10);
        out.push((48u8 + (n % 10) as u8) as char);
        out
    }
}

pub fn parse_number(s: &str, max: u64) -> (r: Option<u64>)
    ensures
        match r {
            Some(n) => parse_unsigned(s@, max as nat) == Some(n as nat),
            None => parse_unsigned(s@, max as nat) is None,
        },
{
    let chars = chars_of(s);
    let mut i: usize = if chars.len() > 0 && chars[0] == '+' {
        1
    } else {
        0
    };
    let ghost from = i as int;
    let ghost digits = s@.skip(from);
    proof {
        if from == 1 {
            assert(s@.drop_first() =~= s@.skip(1));
        } else {
            assert(s@.skip(0) =~= s@);
        }
    }
    if i == chars.len() {
        return None;
    }
    let mut value: u64 = 0;
    assert(digits.take(0) =~= Seq::<char>::empty());
    while i < chars.len()
        invariant
            chars@ == s@,
            0 <= from <= i <= chars@.len(),
            digits == s@.skip(from),
            digits == (if s@.len() > 0 && s@[0] == '+' { s@.drop_first() } else { s@ }),
            all_digits(digits.take(i - from)),
            value == digits_value(digits.take(i - from)),
            value <= max,
        decreases chars@.len() - i,
    {
        let c = chars[i];
        assert(digits[i - from] == c);
        if !ascii_digit(c) {
            return None;
        }
        let d: u64 = (c as u8 - 48u8) as u64;
        let ghost longer = digits.take(i - from + 1);
        assert(longer.drop_last() =~= digits.take(i - from));
        assert(digits_value(longer) == 10 * value + d);
        proof {
            if all_digits(digits) {
                lemma_digits_value_grows(digits, i - from + 1);
            }
            assert forall|k: int| 0 <= k < longer.len() implies is_ascii_digit(#[trigger] longer[k]) by {
                if k < i - from {
                    assert(longer[k] == digits.take(i - from)[k]);
                }
            }
        }
        if value > max / 10 {
            return None;
        }
        let scaled: u64 = value * 10;
        if d > max - scaled {
            return None;
        }
        value = scaled + d;
        i += 1;
    }
    assert(digits.take(digits.len() as int) =~= digits);
    Some(value)
}

/// Order of texts by their characters, the one that sorted collections keep.
pub open spec fn text_less(a: Seq<char>, b: Seq<char>) -> bool
    decreases a.len(),
{
    if b.len() == 0 {
        false
    } else if a.len() == 0 {
        true
    } else if a[0] == b[0] {
        text_less(a.drop_first(), b.drop_first())
    } else {
        a[0] < b[0]
    }
}

pub proof fn lemma_text_less_irreflexive(a: Seq<char>)
    ensures
        !text_less(a, a),
    decreases a.len(),
{
    if a.len() > 0 {
        lemma_text_less_irreflexive(a.drop_first());
    }
}

pub proof fn lemma_text_less_total(a: Seq<char>, b: Seq<char>)
    ensures
        a == b || text_less(a, b) || text_less(b, a),
        !(text_less(a, b) && text_less(b, a)),
    decreases a.len(),
{
    if a.len() > 0 && b.len() > 0 && a[0] == b[0] {
        lemma_text_less_total(a.drop_first(), b.drop_first());
        if a.drop_first() == b.drop_first() {
            assert(a =~= seq![a[0]] + a.drop_first());
            assert(b =~= seq![b[0]] + b.drop_first());
        }
    } else if a.len() == 0 && b.len() == 0 {
        assert(a =~= b);
    }
}

pub proof fn lemma_text_less_transitive(a: Seq<char>, b: Seq<char>, c: Seq<char>)
    requires
        text_less(a, b),
        text_less(b, c),
    ensures
        text_less(a, c),
    decreases a.len(),
{
    if a.len() > 0 && b.len() > 0 && c.len() > 0 && a[0] == b[0] && b[0] == c[0] {
        lemma_text_less_transitive(a.drop_first(), b.drop_first(), c.drop_first());
    }
}

pub fn less_text(a: &str, b: &str) -> (r: bool)
    ensures
        r == text_less(a@, b@),
{
    let left = chars_of(a);
    let right = chars_of(b);
    let mut i: usize = 0;
    assert(a@.skip(0) =~= a@);
    assert(b@.skip(0) =~= b@);
    while i < left.len() && i < right.len()
        invariant
            left@ == a@,
            right@ == b@,
            i <= left@.len(),
            i <= right@.len(),
            text_less(a@, b@) == text_less(a@.skip(i as int), b@.skip(i as int)),
        decreases left@.len() - i,
    {
        if left[i] != right[i] {
            return left[i] < right[i];
        }
        assert(a@.skip(i as int).drop_first() =~= a@.skip(i + 1));
        assert(b@.skip(i as int).drop_first() =~= b@.skip(i + 1));
        i += 1;
    }
    i < right.len()
}

/// Two texts one after the other.
pub fn joined(a: &str, b: &str) -> (r: String)
    ensures
        r@ == a@ + b@,
{
    let mut out = a.to_owned();
    out.append(b);
    out
}

pub fn joined3(a: &str, b: &str, c: &str) -> (r: String)
    ensures
        r@ == a@ + b@ + c@,
{
    let mut out = a.to_owned();
    out.append(b);
    out.append(c);
    out
}

/// `part` stands somewhere in `s`.
pub open spec fn has_text(s: Seq<char>, part: Seq<char>) -> bool {
    exists|i: int|
        0 <= i && i + part.len() <= s.len() && #[trigger] s.subrange(i, i + part.len()) == part
}

pub fn contains_text(s: &str, part: &str) -> (r: bool)
    ensures
        r == has_text(s@, part@),
{
    let chars = chars_of(s);
    let wanted = chars_of(part);
    if wanted.len() > chars.len() {
        return false;
    }
    let total: usize = chars.len();
    let last: usize = total - wanted.len();
    let mut i: usize = 0;
    while i <= last
        invariant
            total == chars@.len(),
            chars@ == s@,
            wanted@ == part@,
            wanted@.len() <= chars@.len(),
            last == chars@.len() - wanted@.len(),
            i <= last + 1,
            forall|k: int| 0 <= k < i ==> #[trigger] s@.subrange(k, k + part@.len()) != part@,
        decreases last + 1 - i,
    {
        let piece = vstd::slice::slice_subrange(chars.as_slice(), i, i + wanted.len());
        if same_chars(piece, wanted.as_slice()) {
            assert(s@.subrange(i as int, i + part@.len()) == part@);
            return true;
        }
        if i == last {
            return false;
        }
        i += 1;
    }
    false
}

/// ASCII white space.
pub open spec fn is_ascii_whitespace(c: char) -> bool {
    c == ' ' || c == '\t' || c == '\n' || c == '\r' || c as u32 == 0xc
}

pub fn ascii_whitespace(c: char) -> (r: bool)
    ensures
        r == is_ascii_whitespace(c),
{
    c == ' ' || c == '\t' || c == '\n' || c == '\r' || c as u32 == 0xc
}

/// The words of `s` between ASCII white space, after `done` and the word begun.
pub open spec fn words_after(done: Seq<Seq<char>>, begun: Seq<char>, s: Seq<char>) -> Seq<Seq<char>>
    decreases s.len(),
{
    if s.len() == 0 {
        if begun.len() > 0 {
            done.push(begun)
        } else {
            done
        }
    } else if is_ascii_whitespace(s[0]) {
        if begun.len() > 0 {
            words_after(done.push(begun), Seq::empty(), s.drop_first())
        } else {
            words_after(done, begun, s.drop_first())
        }
    } else {
        words_after(done, begun.push(s[0]), s.drop_first())
    }
}

/// The words of a text.
pub open spec fn words(s: Seq<char>) -> Seq<Seq<char>> {
    words_after(Seq::empty(), Seq::empty(), s)
}

pub fn words_of(s: &str) -> (r: Vec<String>)
    ensures
        views(r@) == words(s@),
{
    let chars = chars_of(s);
    let mut out: Vec<String> = Vec::new();
    let mut begun = String::new();
    let mut i: usize = 0;
    assert(views(out@) =~= Seq::<Seq<char>>::empty());
    assert(s@.skip(0) =~= s@);
    while i < chars.len()
        invariant
            chars@ == s@,
            i <= chars@.len(),
            words(s@) == words_after(views(out@), begun@, s@.skip(i as int)),
        decreases chars@.len() - i,
    {
        let ghost rest = s@.skip(i as int);
        assert(rest.drop_first() =~= s@.skip(i + 1));
        assert(rest[0] == chars@[i as int]);
        if ascii_whitespace(chars[i]) {
            if !begun.as_str().is_empty() {
                proof {
                    lemma_views_push(out@, begun);
                }
                out.push(begun);
                begun = String::new();
            }
        } else {
            begun.push(chars[i]);
        }
        i += 1;
    }
    if !begun.as_str().is_empty() {
        proof {
            lemma_views_push(out@, begun);
        }
        out.push(begun);
    }
    out
}

/// The first line of a text that goes on after it.
pub proof fn lemma_lines_step(first: Seq<char>, rest: Seq<char>)
    requires
        !first.contains('\n'),
    ensures
        lines(first + seq!['\n'] + rest) == seq![strip_carriage_return(first)] + lines(rest),
{
    let whole = first + seq!['\n'] + rest;
    assert forall|k: int| 0 <= k < first.len() implies whole[k] != '\n' by {
        assert(whole[k] == first[k]);
        assert(first.contains(first[k]));
    }
    lemma_position_is(whole, '\n', first.len() as int);
    assert(whole.take(first.len() as int) =~= first);
    assert(whole.skip(first.len() as int + 1) =~= rest);
}

/// No line of a text holds a line end.
pub proof fn lemma_lines_single(s: Seq<char>, i: int)
    requires
        0 <= i < lines(s).len(),
    ensures
        !lines(s)[i].contains('\n'),
    decreases s.len(),
{
    let p = position(s, '\n');
    lemma_position(s, '\n');
    if p < s.len() {
        if i == 0 {
            let first = strip_carriage_return(s.take(p));
            assert(lines(s)[0] == first);
            assert forall|k: int| 0 <= k < first.len() implies first[k] != '\n' by {
                assert(first[k] == s[k]);
            }
        } else {
            lemma_lines_single(s.skip(p + 1), i - 1);
            assert(lines(s)[i] == lines(s.skip(p + 1))[i - 1]);
        }
    } else {
        assert(lines(s)[0] == s);
    }
}

/// Encodings of texts one after the other follow one another.
pub proof fn lemma_encode_add(a: Seq<char>, b: Seq<char>)
    ensures
        encode_utf8(a + b) == encode_utf8(a) + encode_utf8(b),
    decreases a.len(),
{
    if a.len() == 0 {
        assert(a + b =~= b);
        assert(encode_utf8(a) + encode_utf8(b) =~= encode_utf8(b));
    } else {
        assert((a + b).drop_first() =~= a.drop_first() + b);
        assert((a + b)[0] == a[0]);
        lemma_encode_add(a.drop_first(), b);
        assert(encode_utf8(a + b) =~= encode_utf8(a) + encode_utf8(b));
    }
}

pub proof fn lemma_utf8_len_add(a: Seq<char>, b: Seq<char>)
    ensures
        utf8_len(a + b) == utf8_len(a) + utf8_len(b),
{
    lemma_encode_add(a, b);
}

/// A complete line behind complete lines is one more line.
pub proof fn lemma_lines_append(out: Seq<char>, line: Seq<char>)
    requires
        out.len() == 0 || out.last() == '\n',
        !line.contains('\n'),
    ensures
        lines(out + line + seq!['\n']) == lines(out).push(strip_carriage_return(line)),
    decreases out.len(),
{
    if out.len() == 0 {
        lemma_lines_step(line, Seq::empty());
        assert(line + seq!['\n'] + Seq::<char>::empty() =~= out + line + seq!['\n']);
        assert(lines(out + line + seq!['\n']) =~= lines(out).push(strip_carriage_return(line)));
    } else {
        let p = position(out, '\n');
        lemma_position(out, '\n');
        assert(out.contains(out[out.len() - 1]));
        let first = out.take(p);
        let rest = out.skip(p + 1);
        assert(out =~= first + seq!['\n'] + rest);
        assert(!first.contains('\n')) by {
            if first.contains('\n') {
                let k = choose|k: int| 0 <= k < first.len() && first[k] == '\n';
                assert(out[k] == '\n');
            }
        }
        lemma_lines_step(first, rest);
        lemma_lines_step(first, rest + line + seq!['\n']);
        assert(first + seq!['\n'] + (rest + line + seq!['\n']) =~= out + line + seq!['\n']);
        lemma_lines_append(rest, line);
        assert(lines(out + line + seq!['\n']) =~= lines(out).push(strip_carriage_return(line)));
    }
}

/// Text before the first character that is no whitespace does not matter.
pub proof fn lemma_trim_start(s: Seq<char>)
    ensures
        trim_start(s).len() <= s.len(),
        trim_start(s) == s.skip(s.len() - trim_start(s).len()),
        trim_start(s).len() > 0 ==> !is_whitespace(trim_start(s)[0]),
        forall|k: int| 0 <= k < s.len() - trim_start(s).len() ==> is_whitespace(#[trigger] s[k]),
    decreases s.len(),
{
    if s.len() > 0 && is_whitespace(s[0]) {
        let rest = s.drop_first();
        lemma_trim_start(rest);
        let n = rest.len() - trim_start(rest).len();
        assert(rest.skip(n) =~= s.skip(n + 1));
        assert forall|k: int| 0 <= k < n + 1 implies is_whitespace(#[trigger] s[k]) by {
            if k > 0 {
                assert(s[k] == rest[k - 1]);
            }
        }
    } else {
        assert(s.skip(0) =~= s);
    }
}

/// The words of `s` between white space, after `done` and the word begun.
pub open spec fn spaced_after(done: Seq<Seq<char>>, begun: Seq<char>, s: Seq<char>) -> Seq<
    Seq<char>,
>
    decreases s.len(),
{
    if s.len() == 0 {
        if begun.len() > 0 {
            done.push(begun)
        } else {
            done
        }
    } else if is_whitespace(s[0]) {
        if begun.len() > 0 {
            spaced_after(done.push(begun), Seq::empty(), s.drop_first())
        } else {
            spaced_after(done, begun, s.drop_first())
        }
    } else {
        spaced_after(done, begun.push(s[0]), s.drop_first())
    }
}

/// The words of a text, parted by white space of any kind.
pub open spec fn spaced_words(s: Seq<char>) -> Seq<Seq<char>> {
    spaced_after(Seq::empty(), Seq::empty(), s)
}

pub fn spaced_words_of(s: &str) -> (r: Vec<String>)
    ensures
        views(r@) == spaced_words(s@),
{
    let chars = chars_of(s);
    let mut out: Vec<String> = Vec::new();
    let mut begun = String::new();
    let mut i: usize = 0;
    assert(views(out@) =~= Seq::<Seq<char>>::empty());
    assert(s@.skip(0) =~= s@);
    while i < chars.len()
        invariant
            chars@ == s@,
            i <= chars@.len(),
            spaced_words(s@) == spaced_after(views(out@), begun@, s@.skip(i as int)),
        decreases chars@.len() - i,
    {
        let c = chars[i];
        assert(s@.skip(i as int)[0] == c);
        assert(s@.skip(i as int).drop_first() =~= s@.skip(i + 1));
        if whitespace(c) {
            if !begun.as_str().is_empty() {
                proof {
                    lemma_views_push(out@, begun);
                }
                out.push(begun);
                begun = String::new();
            }
        } else {
            begun.push(c);
        }
        i += 1;
    }
    if !begun.as_str().is_empty() {
        proof {
            lemma_views_push(out@, begun);
        }
        out.push(begun);
    }
    out
}

/// `std::str::from_utf8` takes bytes as text exactly where they are valid
/// UTF-8, and the text is what they encode.
#[verifier::external_body]
pub(crate) fn text_from_utf8(bytes: &[u8]) -> (r: Option<String>)
    ensures
        match r {
            Some(s) => vstd::utf8::valid_utf8(bytes@) && s@ == vstd::utf8::decode_utf8(bytes@),
            None => !vstd::utf8::valid_utf8(bytes@),
        },
{
    match std::str::from_utf8(bytes) {
        Ok(s) => Some(s.to_owned()),
        Err(_) => None,
    }
}

/// The texts one after the other with `between` between them.
pub open spec fn join_from(parts: Seq<Seq<char>>, between: Seq<char>, i: int) -> Seq<char>
    decreases parts.len() - i,
{
    if i < 0 || i >= parts.len() {
        Seq::empty()
    } else if i == 0 {
        parts[0] + join_from(parts, between, 1)
    } else {
        between + parts[i] + join_from(parts, between, i + 1)
    }
}

pub open spec fn join(parts: Seq<Seq<char>>, between: Seq<char>) -> Seq<char> {
    join_from(parts, between, 0)
}

pub fn joined_texts(parts: &Vec<String>, between: &str) -> (r: String)
    ensures
        r@ == join(views(parts@), between@),
{
    let ghost all = views(parts@);
    let mut out = String::new();
    let mut i: usize = 0;
    assert(out@ + join(all, between@) =~= join(all, between@));
    while i < parts.len()
        invariant
            all == views(parts@),
            i <= parts@.len(),
            join(all, between@) == out@ + join_from(all, between@, i as int),
        decreases parts@.len() - i,
    {
        assert(all[i as int] == parts@[i as int]@);
        let ghost before = out@;
        if i > 0 {
            out.append(between);
        }
        out.append(parts[i].as_str());
        assert(out@ + join_from(all, between@, i + 1) =~= before + join_from(
            all,
            between@,
            i as int,
        ));
        i += 1;
    }
    assert(out@ + join_from(all, between@, i as int) =~= out@);
    out
}

/// Whether a list of texts holds a text.
pub fn texts_contain(list: &Vec<String>, wanted: &str) -> (r: bool)
    ensures
        r == views(list@).contains(wanted@),
{
    let mut i: usize = 0;
    while i < list.len()
        invariant
            i <= list@.len(),
            forall|k: int| 0 <= k < i ==> (#[trigger] list@[k])@ != wanted@,
        decreases list@.len() - i,
    {
        if same_text(list[i].as_str(), wanted) {
            assert(views(list@)[i as int] == wanted@);
            return true;
        }
        i += 1;
    }
    proof {
        if views(list@).contains(wanted@) {
            let k = choose|k: int| 0 <= k < views(list@).len() && views(list@)[k] == wanted@;
            assert(list@[k]@ == wanted@);
        }
    }
    false
}

/// What `String::from_utf8_lossy` makes of bytes.
pub uninterp spec fn lossy_text(bytes: Seq<u8>) -> Seq<char>;

/// `String::from_utf8_lossy` reads bytes as text and puts a replacement
/// character where they are not valid UTF-8; valid bytes it reads as they are.
#[verifier::external_body]
pub(crate) fn text_from_utf8_lossy(bytes: &[u8]) -> (r: String)
    ensures
        r@ == lossy_text(bytes@),
        vstd::utf8::valid_utf8(bytes@) ==> r@ == vstd::utf8::decode_utf8(bytes@),
{
    String::from_utf8_lossy(bytes).into_owned()
}

/// What `Debug` of `str` prints for a text.
pub uninterp spec fn debug_text(s: Seq<char>) -> Seq<char>;

/// `Debug` of `str` prints a text in quotes, with escapes in it. What is printed
/// depends on the text alone; which characters are escaped is not said.
#[verifier::external_body]
pub(crate) fn quoted(s: &str) -> (r: String)
    ensures
        r@ == debug_text(s@),
{
    format!("{:?}", s)
}

/// `n` in octal digits.
pub open spec fn octal(n: nat) -> Seq<char>
    decreases n,
{
    if n < 8 {
        seq![digit_char(n)]
    } else {
        octal(n / 8).push(digit_char(n % 8))
    }
}

pub fn octal_text(n: u32) -> (r: String)
    ensures
        r@ == octal(n as nat),
    decreases n,
{
    let digit = (48 + (n % 8) as u8) as char;
    if n < 8 {
        let mut out = String::new();
        out.push(digit);
        assert(out@ =~= octal(n as nat));
        out
    } else {
        let mut out = octal_text(n / 8);
        out.push(digit);
        out
    }
}

/// The hexadecimal digit of a value below sixteen.
pub open spec fn hex_char(d: nat) -> char {
    if d < 10 {
        (48 + d) as char
    } else {
        (87 + d) as char
    }
}

/// `n` in hexadecimal digits.
pub open spec fn hex(n: nat) -> Seq<char>
    decreases n,
{
    if n < 16 {
        seq![hex_char(n)]
    } else {
        hex(n / 16).push(hex_char(n % 16))
    }
}

pub fn hex_text(n: u64) -> (r: String)
    ensures
        r@ == hex(n as nat),
    decreases n,
{
    let d = (n % 16) as u8;
    let digit = if d < 10 {
        (48 + d) as char
    } else {
        (87 + d) as char
    };
    if n < 16 {
        let mut out = String::new();
        out.push(digit);
        assert(out@ =~= hex(n as nat));
        out
    } else {
        let mut out = hex_text(n / 16);
        out.push(digit);
        out
    }
}

/// Different numbers have different digits, and none is a period.
pub proof fn lemma_hex(a: nat, b: nat)
    ensures
        hex(a).len() > 0,
        forall|i: int| 0 <= i < hex(a).len() ==> hex(a)[i] != '.',
        hex(a) == hex(b) ==> a == b,
    decreases a,
{
    if a >= 16 {
        lemma_hex(a / 16, b / 16);
    }
    if hex(a) == hex(b) {
        assert(hex(a).last() == hex_char(a % 16));
        assert(hex(b).last() == hex_char(b % 16));
        if a < 16 && b >= 16 {
            lemma_hex_len(b / 16);
            assert(hex(b).len() > 1);
        } else if a >= 16 && b < 16 {
            assert(hex(a).len() > 1);
        } else if a >= 16 {
            assert(hex(a).drop_last() =~= hex(a / 16));
            assert(hex(b).drop_last() =~= hex(b / 16));
        }
    }
}

proof fn lemma_hex_len(a: nat)
    ensures
        hex(a).len() > 0,
    decreases a,
{
    if a >= 16 {
        lemma_hex_len(a / 16);
    }
}

} // verus!
