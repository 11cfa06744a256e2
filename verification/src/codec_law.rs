//! Reading back what was written: a valid library survives its text form.

use vstd::prelude::*;

use crate::codec;
use crate::codec::BuildView;
use crate::codec::CodecError;
use crate::codec::Quote;
use crate::codec::ScanView;
use crate::codec::TableKind;
use crate::codec::TableView;
use crate::codec::ValueProblem;
use crate::codec::ValueView;
use crate::model;
use crate::model::HostDatabaseView;
use crate::model::HostRecordView;
use crate::model::JumpChainView;
use crate::model::JumpHopView;
use crate::model::StoredAuthMethod;
use crate::model::StoredHostKeyPolicy;
use crate::text;
use crate::text_map;

verus! {

/// Characters that a quoted string can carry.
pub open spec fn is_carried(c: char) -> bool {
    !text::is_control(c) || c == '\n' || c == '\r' || c == '\t'
}

pub open spec fn carried(s: Seq<char>) -> bool {
    forall|i: int| 0 <= i < s.len() ==> is_carried(#[trigger] s[i])
}

pub open spec fn carried_value(v: ValueView) -> bool {
    match v {
        ValueView::Text(t) => carried(t),
        ValueView::Integer(_) => true,
        ValueView::Texts(values) => forall|i: int|
            0 <= i < values.len() ==> carried(#[trigger] values[i]),
    }
}

proof fn lemma_escape_add(a: Seq<char>, b: Seq<char>)
    ensures
        codec::escape(a + b) == codec::escape(a) + codec::escape(b),
    decreases b.len(),
{
    if b.len() == 0 {
        assert(a + b =~= a);
        assert(codec::escape(a) + codec::escape(b) =~= codec::escape(a));
    } else {
        lemma_escape_add(a, b.drop_last());
        assert((a + b).drop_last() =~= a + b.drop_last());
        assert(codec::escape(a + b) =~= codec::escape(a) + codec::escape(b));
    }
}

proof fn lemma_escape_front(s: Seq<char>)
    requires
        s.len() > 0,
    ensures
        codec::escape(s) == codec::escaped(s[0]) + codec::escape(s.drop_first()),
{
    let head = seq![s[0]];
    assert(s =~= head + s.drop_first());
    lemma_escape_add(head, s.drop_first());
    assert(head.drop_last() =~= Seq::<char>::empty());
    assert(codec::escape(head.drop_last()) =~= Seq::<char>::empty());
    assert(codec::escape(head) =~= codec::escaped(s[0]));
}

proof fn lemma_unescape(done: Seq<char>, s: Seq<char>)
    requires
        carried(s),
    ensures
        codec::unescape(done, codec::escape(s)) == Ok::<Seq<char>, ValueProblem>(done + s),
    decreases s.len(),
{
    if s.len() == 0 {
        assert(done + s =~= done);
    } else {
        let c = s[0];
        let rest = s.drop_first();
        let text = codec::escape(s);
        lemma_escape_front(s);
        assert(carried(rest)) by {
            assert forall|i: int| 0 <= i < rest.len() implies is_carried(#[trigger] rest[i]) by {
                assert(rest[i] == s[i + 1]);
            }
        }
        lemma_unescape(done.push(c), rest);
        assert(done.push(c) + rest =~= done + s);
        assert(is_carried(c));
        if codec::escaped(c).len() == 1 {
            assert(text[0] == c);
            assert(text.drop_first() =~= codec::escape(rest));
        } else {
            assert(text[0] == '\\');
            assert(text[1] == codec::escaped(c)[1]);
            assert(text.skip(2) =~= codec::escape(rest));
        }
    }
}

/// Plain text is passed over outside quotes.
proof fn lemma_pass_plain(w: Seq<char>, rest: Seq<char>, stop: char)
    requires
        forall|i: int| 0 <= i < w.len() ==> #[trigger] w[i] != '"' && w[i] != stop,
    ensures
        codec::unquoted_position(w + rest, stop, Quote::Plain) == w.len() + codec::unquoted_position(
            rest,
            stop,
            Quote::Plain,
        ),
        codec::quote_after(w + rest, Quote::Plain) == codec::quote_after(rest, Quote::Plain),
    decreases w.len(),
{
    if w.len() == 0 {
        assert(w + rest =~= rest);
    } else {
        let tail = w.drop_first();
        assert forall|i: int| 0 <= i < tail.len() implies #[trigger] tail[i] != '"' && tail[i]
            != stop by {
            assert(tail[i] == w[i + 1]);
        }
        lemma_pass_plain(tail, rest, stop);
        assert((w + rest).drop_first() =~= tail + rest);
        assert((w + rest)[0] == w[0]);
    }
}

/// Escaped text is passed over inside quotes.
proof fn lemma_pass_escaped(s: Seq<char>, rest: Seq<char>, stop: char)
    ensures
        codec::unquoted_position(codec::escape(s) + rest, stop, Quote::Quoted) == codec::escape(s).len()
            + codec::unquoted_position(rest, stop, Quote::Quoted),
        codec::quote_after(codec::escape(s) + rest, Quote::Quoted) == codec::quote_after(rest, Quote::Quoted),
    decreases s.len(),
{
    if s.len() == 0 {
        assert(codec::escape(s) + rest =~= rest);
    } else {
        lemma_escape_front(s);
        let tail = s.drop_first();
        lemma_pass_escaped(tail, rest, stop);
        let text = codec::escape(s) + rest;
        let c = s[0];
        if codec::escaped(c).len() == 1 {
            assert(text[0] == c);
            assert(text.drop_first() =~= codec::escape(tail) + rest);
        } else {
            assert(text[0] == '\\');
            let second = text.drop_first();
            assert(second[0] == codec::escaped(c)[1]);
            assert(second.drop_first() =~= codec::escape(tail) + rest);
            assert(codec::quote_step(Quote::Quoted, text[0]) == Quote::Escaped);
            assert(codec::quote_step(Quote::Escaped, second[0]) == Quote::Quoted);
            assert(codec::quote_after(second, Quote::Escaped) == codec::quote_after(
                codec::escape(tail) + rest,
                Quote::Quoted,
            ));
            assert(codec::unquoted_position(second, stop, Quote::Escaped) == 1 + codec::unquoted_position(
                codec::escape(tail) + rest,
                stop,
                Quote::Quoted,
            ));
        }
    }
}

/// A quoted string is passed over outside quotes.
proof fn lemma_pass_quoted(s: Seq<char>, rest: Seq<char>, stop: char)
    requires
        stop != '"',
    ensures
        codec::unquoted_position(codec::quoted(s) + rest, stop, Quote::Plain) == codec::quoted(s).len()
            + codec::unquoted_position(rest, stop, Quote::Plain),
        codec::quote_after(codec::quoted(s) + rest, Quote::Plain) == codec::quote_after(rest, Quote::Plain),
{
    let text = codec::quoted(s) + rest;
    let closing = seq!['"'] + rest;
    assert(text[0] == '"');
    assert(text.drop_first() =~= codec::escape(s) + closing);
    lemma_pass_escaped(s, closing, stop);
    assert(closing.drop_first() =~= rest);
    assert(closing[0] == '"');
    assert(codec::unquoted_position(closing, stop, Quote::Quoted) == 1 + codec::unquoted_position(
        rest,
        stop,
        Quote::Plain,
    ));
    assert(codec::quote_after(closing, Quote::Quoted) == codec::quote_after(rest, Quote::Plain));
}

proof fn lemma_pass_list(values: Seq<Seq<char>>, rest: Seq<char>, stop: char)
    requires
        stop == '#' || stop == '=',
    ensures
        codec::unquoted_position(codec::quoted_list(values) + rest, stop, Quote::Plain) == codec::quoted_list(
            values,
        ).len() + codec::unquoted_position(rest, stop, Quote::Plain),
        codec::quote_after(codec::quoted_list(values) + rest, Quote::Plain) == codec::quote_after(rest, Quote::Plain),
    decreases values.len(),
{
    if values.len() == 0 {
        assert(codec::quoted_list(values) + rest =~= rest);
    } else if values.len() == 1 {
        lemma_pass_quoted(values[0], rest, stop);
    } else {
        let last = codec::quoted(values.last()) + rest;
        let comma = seq![',', ' '];
        lemma_pass_list(values.drop_last(), comma + last, stop);
        lemma_pass_plain(comma, last, stop);
        lemma_pass_quoted(values.last(), rest, stop);
        assert(codec::quoted_list(values) + rest =~= codec::quoted_list(values.drop_last()) + (comma + last));
    }
}

proof fn lemma_pass_value(v: ValueView, stop: char)
    requires
        stop == '#' || stop == '=',
    ensures
        codec::unquoted_position(codec::value_text(v), stop, Quote::Plain) == codec::value_text(v).len(),
        codec::quote_after(codec::value_text(v), Quote::Plain) is Plain,
{
    let none = Seq::<char>::empty();
    match v {
        ValueView::Text(t) => {
            lemma_pass_quoted(t, none, stop);
            assert(codec::quoted(t) + none =~= codec::quoted(t));
        },
        ValueView::Integer(n) => {
            text::lemma_decimal(n as nat);
            let digits = text::decimal(n as nat);
            assert forall|i: int| 0 <= i < digits.len() implies #[trigger] digits[i] != '"'
                && digits[i] != stop by {
                assert(text::is_ascii_digit(digits[i]));
            }
            lemma_pass_plain(digits, none, stop);
            assert(digits + none =~= digits);
        },
        ValueView::Texts(values) => {
            let open = seq!['['];
            let close = seq![']'];
            lemma_pass_plain(close, none, stop);
            assert(close + none =~= close);
            lemma_pass_list(values, close, stop);
            lemma_pass_plain(open, codec::quoted_list(values) + close, stop);
            assert(codec::value_text(v) =~= open + (codec::quoted_list(values) + close));
        },
    }
}

proof fn lemma_trim_same(s: Seq<char>)
    requires
        s.len() > 0,
        !text::is_whitespace(s[0]),
        !text::is_whitespace(s.last()),
    ensures
        text::trim(s) == s,
{
}

proof fn lemma_trim_spaces(s: Seq<char>)
    requires
        s.len() > 0,
        !text::is_whitespace(s[0]),
        !text::is_whitespace(s.last()),
    ensures
        text::trim(seq![' '] + s) == s,
        text::trim(s + seq![' ']) == s,
{
    let left = seq![' '] + s;
    assert(left[0] == ' ');
    assert(left.drop_first() =~= s);
    assert(text::trim_start(left) == text::trim_start(s));
    let right = s + seq![' '];
    assert(right[0] == s[0]);
    assert(right.drop_last() =~= s);
    assert(right.last() == ' ');
    assert(text::trim_end(right) == text::trim_end(s));
}

proof fn lemma_parse_quoted(t: Seq<char>)
    requires
        carried(t),
    ensures
        codec::parse_string(codec::quoted(t)) == Ok::<Seq<char>, ValueProblem>(t),
{
    let s = codec::quoted(t);
    assert(s.subrange(1, s.len() - 1) =~= codec::escape(t));
    lemma_unescape(Seq::empty(), t);
    assert(Seq::<char>::empty() + t =~= t);
}

proof fn lemma_list_front(values: Seq<Seq<char>>)
    requires
        values.len() >= 2,
    ensures
        codec::quoted_list(values) == codec::quoted(values[0]) + seq![',', ' '] + codec::quoted_list(
            values.drop_first(),
        ),
    decreases values.len(),
{
    let rest = values.drop_first();
    let front = values.drop_last();
    if values.len() == 2 {
        assert(front.len() == 1);
        assert(front[0] == values[0]);
        assert(rest.len() == 1);
        assert(rest[0] == values[1]);
        assert(values.last() == values[1]);
        assert(codec::quoted_list(front) == codec::quoted(values[0]));
        assert(codec::quoted_list(rest) == codec::quoted(values[1]));
    } else {
        lemma_list_front(front);
        assert(front[0] == values[0]);
        assert(front.drop_first() =~= rest.drop_last());
        assert(rest.last() == values.last());
        assert(codec::quoted_list(rest) == codec::quoted_list(rest.drop_last()) + seq![',', ' ']
            + codec::quoted(rest.last()));
        assert(codec::quoted_list(values) =~= codec::quoted(values[0]) + seq![',', ' '] + (codec::quoted_list(
            rest.drop_last(),
        ) + seq![',', ' '] + codec::quoted(rest.last())));
    }
}

proof fn lemma_list_ends(values: Seq<Seq<char>>)
    requires
        values.len() > 0,
    ensures
        codec::quoted_list(values).len() > 0,
        codec::quoted_list(values)[0] == '"',
        codec::quoted_list(values).last() == '"',
    decreases values.len(),
{
    if values.len() > 1 {
        lemma_list_ends(values.drop_last());
    }
}

proof fn lemma_array_items(done: Seq<Seq<char>>, pad: Seq<char>, values: Seq<Seq<char>>)
    requires
        values.len() > 0,
        pad == Seq::<char>::empty() || pad == seq![' '],
        forall|i: int| 0 <= i < values.len() ==> carried(#[trigger] values[i]),
    ensures
        codec::array_items(done, pad + codec::quoted_list(values)) == Ok::<Seq<Seq<char>>, ValueProblem>(
            done + values,
        ),
    decreases values.len(),
{
    let s = pad + codec::quoted_list(values);
    let first = codec::quoted(values[0]);
    assert(carried(values[0]));
    lemma_parse_quoted(values[0]);
    assert(text::trim(pad + first) == first) by {
        lemma_trim_spaces(first);
        lemma_trim_same(first);
        if pad == Seq::<char>::empty() {
            assert(pad + first =~= first);
        }
    }
    if values.len() == 1 {
        let none = Seq::<char>::empty();
        lemma_pass_quoted(values[0], none, ',');
        assert(first + none =~= first);
        lemma_pass_plain(pad, first, ',');
        assert(s == pad + first);
        assert(codec::unquoted_position(s, ',', Quote::Plain) == s.len());
        assert(done.push(values[0]) =~= done + values);
    } else {
        let rest = values.drop_first();
        lemma_list_front(values);
        let tail = seq![',', ' '] + codec::quoted_list(rest);
        assert(s =~= pad + (first + tail));
        lemma_pass_plain(pad, first + tail, ',');
        lemma_pass_quoted(values[0], tail, ',');
        assert(tail[0] == ',');
        assert(codec::unquoted_position(tail, ',', Quote::Plain) == 0);
        let p = (pad + first).len() as int;
        assert(codec::unquoted_position(s, ',', Quote::Plain) == p);
        assert(s.take(p) =~= pad + first);
        assert(s.skip(p + 1) =~= seq![' '] + codec::quoted_list(rest));
        assert forall|i: int| 0 <= i < rest.len() implies carried(#[trigger] rest[i]) by {
            assert(rest[i] == values[i + 1]);
        }
        lemma_array_items(done.push(values[0]), seq![' '], rest);
        assert(done.push(values[0]) + rest =~= done + values);
    }
}

/// The text of a value begins and ends with what is no white space.
proof fn lemma_value_ends(v: ValueView)
    ensures
        codec::value_text(v).len() > 0,
        !text::is_whitespace(codec::value_text(v)[0]),
        !text::is_whitespace(codec::value_text(v).last()),
{
    let s = codec::value_text(v);
    if let ValueView::Integer(n) = v {
        text::lemma_decimal(n as nat);
        assert(text::is_ascii_digit(s[0]));
        assert(text::is_ascii_digit(s[s.len() - 1]));
    }
}

/// A value reads back from its text.
proof fn lemma_parse_value(v: ValueView)
    requires
        carried_value(v),
    ensures
        codec::parse_value(codec::value_text(v)) == Ok::<ValueView, ValueProblem>(v),
{
    let s = codec::value_text(v);
    match v {
        ValueView::Text(t) => {
            lemma_parse_quoted(t);
        },
        ValueView::Integer(n) => {
            text::lemma_decimal(n as nat);
            text::lemma_decimal_parses(n as nat, u64::MAX as nat);
            assert(text::is_ascii_digit(s[0]));
            assert(text::is_ascii_digit(s[s.len() - 1]));
        },
        ValueView::Texts(values) => {
            assert(s.subrange(1, s.len() - 1) =~= codec::quoted_list(values));
            if values.len() == 0 {
                assert(text::trim(codec::quoted_list(values)) =~= Seq::<char>::empty());
                assert(values =~= Seq::<Seq<char>>::empty());
            } else {
                lemma_list_ends(values);
                lemma_trim_same(codec::quoted_list(values));
                let none = Seq::<char>::empty();
                lemma_array_items(Seq::empty(), none, values);
                assert(none + codec::quoted_list(values) =~= codec::quoted_list(values));
                assert(Seq::<Seq<char>>::empty() + values =~= values);
            }
        },
    }
}

/// A field line is kept whole and reads back as its key and value.
proof fn lemma_parse_field(key: Seq<char>, v: ValueView)
    requires
        codec::is_key(key),
        carried_value(v),
    ensures
        codec::strip_comment(codec::field_line(key, v)) == Some(codec::field_line(key, v)),
        text::trim(codec::field_line(key, v)) == codec::field_line(key, v),
        codec::field_line(key, v).len() > 0,
        codec::field_line(key, v)[0] != '[',
        codec::parse_assignment(codec::field_line(key, v)) == Ok::<(Seq<char>, ValueView), ValueProblem>(
            (key, v),
        ),
{
    lemma_field_shape(key, v);
    lemma_parse_value(v);
}

/// A field line is kept whole, and its value is what the text of the value is
/// read as.
proof fn lemma_field_shape(key: Seq<char>, v: ValueView)
    requires
        codec::is_key(key),
    ensures
        codec::strip_comment(codec::field_line(key, v)) == Some(codec::field_line(key, v)),
        text::trim(codec::field_line(key, v)) == codec::field_line(key, v),
        codec::field_line(key, v).len() > 0,
        codec::field_line(key, v)[0] != '[',
        codec::parse_assignment(codec::field_line(key, v)) == (match codec::parse_value(
            codec::value_text(v),
        ) {
            Ok(read) => Ok::<(Seq<char>, ValueView), ValueProblem>((key, read)),
            Err(e) => Err(e),
        }),
{
    let line = codec::field_line(key, v);
    let text = codec::value_text(v);
    let eq = seq![' ', '=', ' '];
    lemma_value_ends(v);
    assert forall|i: int| 0 <= i < key.len() implies #[trigger] key[i] != '"' && key[i] != '#'
        && key[i] != '=' && !text::is_whitespace(key[i]) by {
        assert(codec::is_key_char(key[i]));
    }
    assert(codec::is_key_char(key[0]));
    assert(line[0] == key[0]);
    assert(line.last() == text.last());
    lemma_trim_same(line);
    lemma_pass_value(v, '#');
    lemma_pass_plain(eq, text, '#');
    lemma_pass_plain(key, eq + text, '#');
    assert(line =~= key + (eq + text));
    let tail = seq!['=', ' '] + text;
    assert(tail[0] == '=');
    assert(codec::unquoted_position(tail, '=', Quote::Plain) == 0);
    lemma_pass_plain(seq![' '], tail, '=');
    assert(eq + text =~= seq![' '] + tail);
    lemma_pass_plain(key, eq + text, '=');
    let p = key.len() as int + 1;
    assert(codec::unquoted_position(line, '=', Quote::Plain) == p);
    assert(line.take(p) =~= key + seq![' ']);
    assert(line.skip(p + 1) =~= seq![' '] + text);
    assert(!text::is_whitespace(key[0]));
    assert(!text::is_whitespace(key[key.len() - 1]));
    lemma_trim_spaces(key);
    lemma_trim_spaces(text);
}

pub open spec fn distinct_keys(fields: Seq<(Seq<char>, Option<ValueView>)>) -> bool {
    forall|i: int, j: int|
        0 <= i < j < fields.len() ==> #[trigger] fields[i].0 != #[trigger] fields[j].0
}

/// Fields that have a line each and read back from them.
pub open spec fn writable(fields: Seq<(Seq<char>, Option<ValueView>)>) -> bool {
    &&& distinct_keys(fields)
    &&& forall|i: int|
        0 <= i < fields.len() ==> codec::is_key(#[trigger] fields[i].0) && (fields[i].1 is Some
            ==> carried_value(fields[i].1->0))
}

/// The table that the fields make.
pub open spec fn folded(fields: Seq<(Seq<char>, Option<ValueView>)>) -> Seq<(Seq<char>, ValueView)>
    decreases fields.len(),
{
    if fields.len() == 0 {
        Seq::empty()
    } else {
        match fields.last().1 {
            Some(v) => text_map::put(folded(fields.drop_last()), fields.last().0, v),
            None => folded(fields.drop_last()),
        }
    }
}

/// Every field has a key.
pub open spec fn keyed(fields: Seq<(Seq<char>, Option<ValueView>)>) -> bool {
    forall|i: int| 0 <= i < fields.len() ==> codec::is_key(#[trigger] fields[i].0)
}

proof fn lemma_writable_prefix(fields: Seq<(Seq<char>, Option<ValueView>)>)
    requires
        writable(fields),
        fields.len() > 0,
    ensures
        writable(fields.drop_last()),
{
    let front = fields.drop_last();
    assert forall|i: int, j: int| 0 <= i < j < front.len() implies #[trigger] front[i].0
        != #[trigger] front[j].0 by {
        assert(front[i] == fields[i]);
        assert(front[j] == fields[j]);
    }
    assert forall|i: int| 0 <= i < front.len() implies codec::is_key(#[trigger] front[i].0) && (
    front[i].1 is Some ==> carried_value(front[i].1->0)) by {
        assert(front[i] == fields[i]);
    }
}

proof fn lemma_folded(fields: Seq<(Seq<char>, Option<ValueView>)>)
    requires
        distinct_keys(fields),
    ensures
        text_map::sorted(folded(fields)),
        forall|i: int|
            0 <= i < fields.len() ==> text_map::lookup(folded(fields), #[trigger] fields[i].0)
                == fields[i].1,
        forall|k: Seq<char>|
            (forall|i: int| 0 <= i < fields.len() ==> #[trigger] fields[i].0 != k) ==> (
            #[trigger] text_map::lookup(folded(fields), k)) is None,
    decreases fields.len(),
{
    if fields.len() > 0 {
        let front = fields.drop_last();
        let n = fields.len() - 1;
        let key = fields.last().0;
        assert(fields[n].0 == key);
        assert forall|i: int, j: int| 0 <= i < j < front.len() implies #[trigger] front[i].0
            != #[trigger] front[j].0 by {
            assert(front[i] == fields[i]);
            assert(front[j] == fields[j]);
        }
        lemma_folded(front);
        assert forall|i: int| 0 <= i < front.len() implies #[trigger] front[i].0 != key by {
            assert(front[i] == fields[i]);
        }
        assert(text_map::lookup(folded(front), key) is None);
        if fields.last().1 is Some {
            text_map::lemma_put(folded(front), key, fields.last().1->0);
        }
        assert forall|i: int| 0 <= i < fields.len() implies text_map::lookup(
            folded(fields),
            #[trigger] fields[i].0,
        ) == fields[i].1 by {
            if i < n {
                assert(front[i] == fields[i]);
                assert(front[i].0 != key);
            }
        }
        assert forall|k: Seq<char>|
            (forall|i: int| 0 <= i < fields.len() ==> #[trigger] fields[i].0 != k) implies (
        #[trigger] text_map::lookup(folded(fields), k)) is None by {
            assert(fields[n].0 != k);
            assert forall|i: int| 0 <= i < front.len() implies #[trigger] front[i].0 != k by {
                assert(front[i] == fields[i]);
            }
            assert(text_map::lookup(folded(front), k) is None);
        }
    }
}

/// The table holds no other keys than the fields.
proof fn lemma_folded_only(fields: Seq<(Seq<char>, Option<ValueView>)>, keys: Seq<Seq<char>>)
    requires
        distinct_keys(fields),
        fields.len() == keys.len(),
        forall|i: int| 0 <= i < fields.len() ==> #[trigger] fields[i].0 == keys[i],
    ensures
        codec::only_keys(folded(fields), keys),
{
    lemma_folded(fields);
    let table = folded(fields);
    assert forall|i: int| 0 <= i < table.len() implies keys.contains(#[trigger] table[i].0) by {
        let k = table[i].0;
        text_map::lemma_lookup(table, k);
        assert(text_map::lookup(table, k) is Some);
        if !keys.contains(k) {
            assert forall|j: int| 0 <= j < fields.len() implies #[trigger] fields[j].0 != k by {
                assert(fields[j].0 == keys[j]);
            }
            assert(text_map::lookup(table, k) is None);
        }
    }
}

proof fn lemma_scan_fields(
    st: ScanView,
    t: TableView,
    all: Seq<Seq<char>>,
    i: int,
    fields: Seq<(Seq<char>, Option<ValueView>)>,
)
    requires
        st.current == Some(t),
        t.values == Seq::<(Seq<char>, ValueView)>::empty(),
        writable(fields),
        0 <= i,
        i + codec::field_lines(fields).len() <= all.len(),
        all.subrange(i, i + codec::field_lines(fields).len()) == codec::field_lines(fields),
    ensures
        codec::scan(st, all, i) == codec::scan(
            ScanView { current: Some(TableView { values: folded(fields), ..t }), ..st },
            all,
            i + codec::field_lines(fields).len(),
        ),
    decreases fields.len(),
{
    if fields.len() == 0 {
        assert(folded(fields) == t.values);
    } else {
        let front = fields.drop_last();
        let key = fields.last().0;
        lemma_writable_prefix(fields);
        let lines_front = codec::field_lines(front);
        assert(all.subrange(i, i + lines_front.len()) =~= lines_front) by {
            assert(codec::field_lines(fields).take(lines_front.len() as int) =~= lines_front);
            assert(all.subrange(i, i + lines_front.len()) =~= all.subrange(
                i,
                i + codec::field_lines(fields).len(),
            ).take(lines_front.len() as int));
        }
        lemma_scan_fields(st, t, all, i, front);
        match fields.last().1 {
            None => {},
            Some(v) => {
                let j = i + lines_front.len();
                let line = codec::field_line(key, v);
                assert(all[j] == line) by {
                    assert(codec::field_lines(fields)[lines_front.len() as int] == line);
                    assert(all.subrange(
                        i,
                        i + codec::field_lines(fields).len(),
                    )[lines_front.len() as int] == all[j]);
                }
                assert(fields[fields.len() - 1].0 == key);
                lemma_parse_field(key, v);
                lemma_folded(front);
                assert forall|k: int| 0 <= k < front.len() implies #[trigger] front[k].0 != key by {
                    assert(front[k] == fields[k]);
                }
                assert(text_map::lookup(folded(front), key) is None);
                text_map::lemma_lookup(folded(front), key);
                let mid = ScanView {
                    current: Some(TableView { values: folded(front), ..t }),
                    ..st
                };
                let next = ScanView {
                    current: Some(TableView { values: folded(fields), ..t }),
                    ..st
                };
                assert(codec::scan_line(mid, line, (j + 1) as usize) == Ok::<ScanView, CodecError>(next));
            },
        }
    }
}

proof fn lemma_headers()
    ensures
        forall|kind: TableKind| #[trigger]
            codec::header_line(kind).len() > 0 && codec::header_line(kind)[0] == '[' && codec::strip_comment(
                codec::header_line(kind),
            ) == Some(codec::header_line(kind)) && text::trim(codec::header_line(kind)) == codec::header_line(kind)
                && codec::parse_header(codec::header_line(kind)) == Ok::<Option<TableKind>, CodecError>(
                Some(kind),
            ),
{
    reveal_strlit("[[host]]");
    reveal_strlit("[[chain]]");
    reveal_strlit("[[hop]]");
    assert forall|kind: TableKind| #[trigger]
        codec::header_line(kind).len() > 0 && codec::header_line(kind)[0] == '[' && codec::strip_comment(
            codec::header_line(kind),
        ) == Some(codec::header_line(kind)) && text::trim(codec::header_line(kind)) == codec::header_line(kind)
            && codec::parse_header(codec::header_line(kind)) == Ok::<Option<TableKind>, CodecError>(
            Some(kind),
        ) by {
        let line = codec::header_line(kind);
        let none = Seq::<char>::empty();
        assert("[[host]]"@.len() == 8);
        assert("[[chain]]"@.len() == 9);
        assert("[[hop]]"@.len() == 7);
        lemma_pass_plain(line, none, '#');
        assert(line + none =~= line);
        lemma_trim_same(line);
    }
}

proof fn lemma_scan_table(
    st: ScanView,
    all: Seq<Seq<char>>,
    i: int,
    kind: TableKind,
    fields: Seq<(Seq<char>, Option<ValueView>)>,
)
    requires
        writable(fields),
        0 <= i,
        i + codec::table_lines(kind, fields).len() <= all.len(),
        all.subrange(i, i + codec::table_lines(kind, fields).len()) == codec::table_lines(kind, fields),
    ensures
        codec::scan(st, all, i) == codec::scan(
            ScanView {
                root: st.root,
                tables: st.all_tables(),
                current: Some(TableView { kind, line: (i + 2) as usize, values: folded(fields) }),
            },
            all,
            i + codec::table_lines(kind, fields).len(),
        ),
{
    let block = codec::table_lines(kind, fields);
    let part = all.subrange(i, i + block.len());
    assert(all[i] == part[0]);
    assert(all[i] =~= Seq::<char>::empty());
    assert(all[i + 1] == part[1]);
    assert(all[i + 1] == codec::header_line(kind));
    assert(codec::strip_comment(all[i]) == Some(all[i])) by {
        assert(codec::unquoted_position(all[i], '#', Quote::Plain) == 0);
        assert(codec::quote_after(all[i], Quote::Plain) is Plain);
    }
    assert(text::trim(all[i]) =~= Seq::<char>::empty());
    assert(codec::scan_line(st, all[i], (i + 1) as usize) == Ok::<ScanView, CodecError>(st));
    lemma_headers();
    assert(codec::header_line(kind).len() > 0);
    let t = TableView { kind, line: (i + 2) as usize, values: Seq::empty() };
    let opened = ScanView { root: st.root, tables: st.all_tables(), current: Some(t) };
    assert(codec::scan_line(st, all[i + 1], (i + 2) as usize) == Ok::<ScanView, CodecError>(opened));
    assert(codec::scan(st, all, i) == codec::scan(st, all, i + 1));
    assert(codec::scan(st, all, i + 1) == codec::scan(opened, all, i + 2));
    let m = codec::field_lines(fields).len();
    assert(all.subrange(i + 2, i + 2 + m) =~= codec::field_lines(fields)) by {
        assert(block.skip(2) =~= codec::field_lines(fields));
        assert(all.subrange(i + 2, i + 2 + m) =~= part.skip(2));
    }
    lemma_scan_fields(opened, t, all, i + 2, fields);
}

/// Tables as they are written: kind and fields.
pub struct Block {
    pub kind: TableKind,
    pub fields: Seq<(Seq<char>, Option<ValueView>)>,
}

pub open spec fn block_lines(blocks: Seq<Block>) -> Seq<Seq<char>>
    decreases blocks.len(),
{
    if blocks.len() == 0 {
        Seq::empty()
    } else {
        codec::table_lines(blocks[0].kind, blocks[0].fields) + block_lines(blocks.drop_first())
    }
}

/// The tables are those of the blocks.
pub open spec fn reads_as(tables: Seq<TableView>, blocks: Seq<Block>) -> bool {
    &&& tables.len() == blocks.len()
    &&& forall|i: int|
        0 <= i < blocks.len() ==> (#[trigger] tables[i]).kind == blocks[i].kind
            && tables[i].values == folded(blocks[i].fields)
}

proof fn lemma_scan_blocks(st: ScanView, all: Seq<Seq<char>>, i: int, blocks: Seq<Block>) -> (r:
    ScanView)
    requires
        forall|k: int| 0 <= k < blocks.len() ==> writable((#[trigger] blocks[k]).fields),
        0 <= i <= all.len(),
        all.skip(i) == block_lines(blocks),
    ensures
        codec::scan(st, all, i) == Ok::<ScanView, CodecError>(r),
        r.root == st.root,
        r.all_tables().len() == st.all_tables().len() + blocks.len(),
        r.all_tables().take(st.all_tables().len() as int) == st.all_tables(),
        reads_as(r.all_tables().skip(st.all_tables().len() as int), blocks),
    decreases blocks.len(),
{
    let before = st.all_tables();
    if blocks.len() == 0 {
        assert(all.skip(i).len() == 0);
        assert(st.all_tables().take(before.len() as int) =~= before);
        st
    } else {
        let b = blocks[0];
        let rest = blocks.drop_first();
        let block = codec::table_lines(b.kind, b.fields);
        let m = block.len();
        assert(all.skip(i).len() == all.len() - i);
        assert(all.subrange(i, i + m) =~= block) by {
            assert(all.skip(i).take(m as int) =~= block);
            assert(all.subrange(i, i + m) =~= all.skip(i).take(m as int));
        }
        assert(all.skip(i + m) =~= block_lines(rest)) by {
            assert(all.skip(i).skip(m as int) =~= block_lines(rest));
            assert(all.skip(i + m) =~= all.skip(i).skip(m as int));
        }
        lemma_scan_table(st, all, i, b.kind, b.fields);
        let t = TableView { kind: b.kind, line: (i + 2) as usize, values: folded(b.fields) };
        let next = ScanView { root: st.root, tables: before, current: Some(t) };
        assert forall|k: int| 0 <= k < rest.len() implies writable((#[trigger] rest[k]).fields) by {
            assert(rest[k] == blocks[k + 1]);
        }
        let r = lemma_scan_blocks(next, all, i + m, rest);
        let tables = r.all_tables();
        let n = before.len() as int;
        assert(next.all_tables() =~= before.push(t));
        assert(tables.take(n) =~= before) by {
            assert(tables.take(n) =~= tables.take(n + 1).take(n));
            assert(before.push(t).take(n) =~= before);
        }
        assert(tables[n] == t) by {
            assert(tables.take(n + 1)[n] == tables[n]);
        }
        let read = tables.skip(n);
        assert forall|k: int| 0 <= k < blocks.len() implies (#[trigger] read[k]).kind
            == blocks[k].kind && read[k].values == folded(blocks[k].fields) by {
            if k > 0 {
                assert(read[k] == tables.skip(n + 1)[k - 1]);
                assert(rest[k - 1] == blocks[k]);
            }
        }
        r
    }
}


proof fn lemma_block_lines_add(a: Seq<Block>, b: Seq<Block>)
    ensures
        block_lines(a + b) == block_lines(a) + block_lines(b),
    decreases a.len(),
{
    if a.len() == 0 {
        assert(a + b =~= b);
        assert(block_lines(a) + block_lines(b) =~= block_lines(b));
    } else {
        lemma_block_lines_add(a.drop_first(), b);
        assert((a + b).drop_first() =~= a.drop_first() + b);
        assert(block_lines(a + b) =~= block_lines(a) + block_lines(b));
    }
}

proof fn lemma_block_lines_push(a: Seq<Block>, b: Block)
    ensures
        block_lines(a.push(b)) == block_lines(a) + codec::table_lines(b.kind, b.fields),
{
    let one = seq![b];
    assert(a.push(b) =~= a + one);
    lemma_block_lines_add(a, one);
    assert(one.drop_first() =~= Seq::<Block>::empty());
    assert(block_lines(one.drop_first()) =~= Seq::<Seq<char>>::empty());
    assert(block_lines(one) =~= codec::table_lines(b.kind, b.fields));
}

pub open spec fn host_blocks(hosts: Seq<(Seq<char>, HostRecordView)>) -> Seq<Block> {
    Seq::new(
        hosts.len(),
        |i: int| Block { kind: TableKind::Host, fields: codec::host_fields(hosts[i].1) },
    )
}

pub open spec fn hop_blocks(chain: JumpChainView) -> Seq<Block> {
    Seq::new(
        chain.hops.len(),
        |i: int|
            Block { kind: TableKind::Hop, fields: codec::hop_fields(chain.name, i, chain.hops[i]) },
    )
}

pub open spec fn chain_blocks(chain: JumpChainView) -> Seq<Block> {
    seq![Block { kind: TableKind::Chain, fields: codec::chain_fields(chain.name) }] + hop_blocks(
        chain,
    )
}

pub open spec fn chains_blocks(chains: Seq<(Seq<char>, JumpChainView)>) -> Seq<Block>
    decreases chains.len(),
{
    if chains.len() == 0 {
        Seq::empty()
    } else {
        chains_blocks(chains.drop_last()) + chain_blocks(chains.last().1)
    }
}

pub open spec fn database_blocks(d: HostDatabaseView) -> Seq<Block> {
    host_blocks(d.hosts) + chains_blocks(d.chains)
}

proof fn lemma_hosts_lines(hosts: Seq<(Seq<char>, HostRecordView)>, n: int)
    requires
        0 <= n <= hosts.len(),
    ensures
        codec::hosts_lines(hosts, n) == block_lines(host_blocks(hosts.take(n))),
    decreases n,
{
    if n > 0 {
        lemma_hosts_lines(hosts, n - 1);
        let blocks = host_blocks(hosts.take(n));
        assert(blocks =~= host_blocks(hosts.take(n - 1)).push(blocks[n - 1]));
        lemma_block_lines_push(host_blocks(hosts.take(n - 1)), blocks[n - 1]);
    } else {
        assert(host_blocks(hosts.take(n)) =~= Seq::<Block>::empty());
    }
}

proof fn lemma_hops_lines(chain: JumpChainView, n: int)
    requires
        0 <= n <= chain.hops.len(),
    ensures
        codec::hops_lines(chain, n) == block_lines(hop_blocks(chain).take(n)),
    decreases n,
{
    let blocks = hop_blocks(chain);
    if n > 0 {
        lemma_hops_lines(chain, n - 1);
        assert(blocks.take(n) =~= blocks.take(n - 1).push(blocks[n - 1]));
        lemma_block_lines_push(blocks.take(n - 1), blocks[n - 1]);
    } else {
        assert(blocks.take(n) =~= Seq::<Block>::empty());
    }
}

proof fn lemma_chain_lines(chain: JumpChainView)
    ensures
        codec::chain_lines(chain) == block_lines(chain_blocks(chain)),
{
    let head = Block { kind: TableKind::Chain, fields: codec::chain_fields(chain.name) };
    let one = seq![head];
    lemma_hops_lines(chain, chain.hops.len() as int);
    assert(hop_blocks(chain).take(chain.hops.len() as int) =~= hop_blocks(chain));
    lemma_block_lines_add(one, hop_blocks(chain));
    lemma_block_lines_push(Seq::empty(), head);
    assert(Seq::<Block>::empty().push(head) =~= one);
    assert(block_lines(Seq::<Block>::empty()) + codec::table_lines(head.kind, head.fields)
        =~= codec::table_lines(head.kind, head.fields));
}

proof fn lemma_chains_lines(chains: Seq<(Seq<char>, JumpChainView)>, n: int)
    requires
        0 <= n <= chains.len(),
    ensures
        codec::chains_lines(chains, n) == block_lines(chains_blocks(chains.take(n))),
    decreases n,
{
    if n > 0 {
        lemma_chains_lines(chains, n - 1);
        lemma_chain_lines(chains[n - 1].1);
        assert(chains.take(n).drop_last() =~= chains.take(n - 1));
        assert(chains.take(n).last() == chains[n - 1]);
        lemma_block_lines_add(chains_blocks(chains.take(n - 1)), chain_blocks(chains[n - 1].1));
    } else {
        assert(chains.take(n) =~= Seq::<(Seq<char>, JumpChainView)>::empty());
    }
}

proof fn lemma_database_lines(d: HostDatabaseView)
    ensures
        codec::database_lines(d) == codec::preamble_lines(d.version) + block_lines(
            database_blocks(d),
        ),
{
    lemma_hosts_lines(d.hosts, d.hosts.len() as int);
    lemma_chains_lines(d.chains, d.chains.len() as int);
    assert(d.hosts.take(d.hosts.len() as int) =~= d.hosts);
    assert(d.chains.take(d.chains.len() as int) =~= d.chains);
    lemma_block_lines_add(host_blocks(d.hosts), chains_blocks(d.chains));
    assert(codec::database_lines(d) =~= codec::preamble_lines(d.version) + block_lines(
        database_blocks(d),
    ));
}

/// A line that the line splitter gives back as it is.
pub open spec fn single_line(s: Seq<char>) -> bool {
    &&& forall|i: int| 0 <= i < s.len() ==> #[trigger] s[i] != '\n'
    &&& s.len() > 0 ==> s.last() != '\r'
}

proof fn lemma_lines_of_unlines(all: Seq<Seq<char>>)
    requires
        forall|i: int| 0 <= i < all.len() ==> single_line(#[trigger] all[i]),
    ensures
        text::lines(codec::unlines(all)) == all,
    decreases all.len(),
{
    if all.len() == 0 {
        assert(text::lines(codec::unlines(all)) =~= all);
    } else {
        let first = all[0];
        let rest = all.drop_first();
        let one = seq![first];
        assert(all =~= one + rest);
        codec::lemma_unlines_add(one, rest);
        codec::lemma_unlines_push(Seq::empty(), first);
        assert(Seq::<Seq<char>>::empty().push(first) =~= one);
        let whole = codec::unlines(all);
        let tail = codec::unlines(rest);
        assert(whole =~= first + seq!['\n'] + tail);
        assert(single_line(all[0]));
        text::lemma_position_is(whole, '\n', first.len() as int);
        assert(whole.take(first.len() as int) =~= first);
        assert(whole.skip(first.len() as int + 1) =~= tail);
        assert forall|i: int| 0 <= i < rest.len() implies single_line(#[trigger] rest[i]) by {
            assert(rest[i] == all[i + 1]);
        }
        lemma_lines_of_unlines(rest);
        assert(text::lines(whole) =~= one + rest);
    }
}

proof fn lemma_escape_single(s: Seq<char>)
    ensures
        forall|i: int| 0 <= i < codec::escape(s).len() ==> #[trigger] codec::escape(s)[i] != '\n',
    decreases s.len(),
{
    if s.len() > 0 {
        let front = codec::escape(s.drop_last());
        lemma_escape_single(s.drop_last());
        assert forall|i: int| 0 <= i < codec::escape(s).len() implies #[trigger] codec::escape(s)[i]
            != '\n' by {
            if i < front.len() {
                assert(codec::escape(s)[i] == front[i]);
            } else {
                assert(codec::escape(s)[i] == codec::escaped(s.last())[i - front.len()]);
            }
        }
    }
}

proof fn lemma_list_single(values: Seq<Seq<char>>)
    ensures
        forall|i: int|
            0 <= i < codec::quoted_list(values).len() ==> #[trigger] codec::quoted_list(values)[i]
                != '\n',
    decreases values.len(),
{
    if values.len() > 0 {
        let front = codec::quoted_list(values.drop_last());
        let last = codec::quoted(values.last());
        let whole = codec::quoted_list(values);
        lemma_list_single(values.drop_last());
        lemma_escape_single(values.last());
        assert forall|i: int| 0 <= i < last.len() implies #[trigger] last[i] != '\n' by {
            if 1 <= i < last.len() - 1 {
                assert(last[i] == codec::escape(values.last())[i - 1]);
            }
        }
        assert forall|i: int| 0 <= i < whole.len() implies #[trigger] whole[i] != '\n' by {
            if values.len() == 1 {
                assert(whole == last);
                assert(last[i] != '\n');
            } else if i < front.len() {
                assert(whole[i] == front[i]);
            } else if i >= front.len() + 2 {
                assert(whole[i] == last[i - front.len() - 2]);
            }
        }
    }
}

proof fn lemma_field_single(key: Seq<char>, v: ValueView)
    requires
        codec::is_key(key),
    ensures
        single_line(codec::field_line(key, v)),
{
    let line = codec::field_line(key, v);
    lemma_value_ends(v);
    assert(line.last() == codec::value_text(v).last());
    assert forall|i: int| 0 <= i < codec::value_text(v).len() implies #[trigger] codec::value_text(
        v,
    )[i] != '\n' by {
        match v {
            ValueView::Text(t) => {
                lemma_escape_single(t);
            },
            ValueView::Integer(n) => {
                text::lemma_decimal(n as nat);
                assert(text::is_ascii_digit(text::decimal(n as nat)[i]));
            },
            ValueView::Texts(values) => {
                lemma_list_single(values);
            },
        }
    }
    assert forall|i: int| 0 <= i < line.len() implies #[trigger] line[i] != '\n' by {
        if i < key.len() {
            assert(line[i] == key[i]);
            assert(codec::is_key_char(key[i]));
        } else if i >= key.len() + 3 {
            assert(line[i] == codec::value_text(v)[i - key.len() - 3]);
        }
    }
}

proof fn lemma_fields_single(fields: Seq<(Seq<char>, Option<ValueView>)>)
    requires
        keyed(fields),
    ensures
        forall|i: int|
            0 <= i < codec::field_lines(fields).len() ==> single_line(
                #[trigger] codec::field_lines(fields)[i],
            ),
    decreases fields.len(),
{
    if fields.len() > 0 {
        assert forall|i: int| 0 <= i < fields.len() - 1 implies codec::is_key(
            #[trigger] fields.drop_last()[i].0,
        ) by {
            assert(fields.drop_last()[i] == fields[i]);
        }
        lemma_fields_single(fields.drop_last());
        assert(fields[fields.len() - 1] == fields.last());
        assert(codec::is_key(fields[fields.len() - 1].0));
        if fields.last().1 is Some {
            lemma_field_single(fields.last().0, fields.last().1->0);
        }
        let front = codec::field_lines(fields.drop_last());
        let whole = codec::field_lines(fields);
        assert forall|i: int| 0 <= i < whole.len() implies single_line(#[trigger] whole[i]) by {
            if i < front.len() {
                assert(whole[i] == front[i]);
            }
        }
    }
}

proof fn lemma_blocks_single(blocks: Seq<Block>)
    requires
        forall|k: int| 0 <= k < blocks.len() ==> keyed((#[trigger] blocks[k]).fields),
    ensures
        forall|i: int|
            0 <= i < block_lines(blocks).len() ==> single_line(#[trigger] block_lines(blocks)[i]),
    decreases blocks.len(),
{
    if blocks.len() > 0 {
        let rest = blocks.drop_first();
        assert forall|k: int| 0 <= k < rest.len() implies keyed((#[trigger] rest[k]).fields) by {
            assert(rest[k] == blocks[k + 1]);
        }
        lemma_blocks_single(rest);
        lemma_fields_single(blocks[0].fields);
        reveal_strlit("[[host]]");
        reveal_strlit("[[chain]]");
        reveal_strlit("[[hop]]");
        assert(single_line(codec::header_line(blocks[0].kind)));
        let whole = block_lines(blocks);
        let lines = codec::field_lines(blocks[0].fields);
        let after = block_lines(rest);
        assert forall|i: int| 0 <= i < whole.len() implies single_line(#[trigger] whole[i]) by {
            if i == 0 {
                assert(whole[i] =~= Seq::<char>::empty());
            } else if i == 1 {
                assert(whole[i] == codec::header_line(blocks[0].kind));
            } else if i < 2 + lines.len() {
                assert(whole[i] == lines[i - 2]);
            } else {
                assert(whole[i] == after[i - 2 - lines.len()]);
            }
        }
    }
}


proof fn lemma_key_literals()
    ensures
        forall|i: int| 0 <= i < 13 ==> codec::is_key(#[trigger] codec::host_keys()[i]),
        forall|i: int, j: int|
            0 <= i < j < 13 ==> #[trigger] codec::host_keys()[i] != #[trigger] codec::host_keys()[j],
        codec::is_key("name"@),
        codec::is_key("version"@),
        forall|i: int| 0 <= i < 4 ==> codec::is_key(#[trigger] codec::named_hop_keys()[i]),
        forall|i: int, j: int|
            0 <= i < j < 4 ==> #[trigger] codec::named_hop_keys()[i]
                != #[trigger] codec::named_hop_keys()[j],
        forall|i: int| 0 <= i < 9 ==> codec::is_key(#[trigger] codec::inline_hop_keys()[i]),
        forall|i: int, j: int|
            0 <= i < j < 9 ==> #[trigger] codec::inline_hop_keys()[i]
                != #[trigger] codec::inline_hop_keys()[j],
{
    reveal_strlit("alias");
    reveal_strlit("address");
    reveal_strlit("port");
    reveal_strlit("user");
    reveal_strlit("identity_file");
    reveal_strlit("groups");
    reveal_strlit("tags");
    reveal_strlit("note");
    reveal_strlit("host_key_policy");
    reveal_strlit("jump_chain");
    reveal_strlit("last_connected_unix");
    reveal_strlit("connection_count");
    reveal_strlit("last_auth_method");
    reveal_strlit("name");
    reveal_strlit("version");
    reveal_strlit("chain");
    reveal_strlit("index");
    reveal_strlit("kind");
    reveal_strlit("host");
    assert(codec::is_key("alias"@));
    assert(codec::is_key("address"@));
    assert(codec::is_key("port"@));
    assert(codec::is_key("user"@));
    assert(codec::is_key("identity_file"@));
    assert(codec::is_key("groups"@));
    assert(codec::is_key("tags"@));
    assert(codec::is_key("note"@));
    assert(codec::is_key("host_key_policy"@));
    assert(codec::is_key("jump_chain"@));
    assert(codec::is_key("last_connected_unix"@));
    assert(codec::is_key("connection_count"@));
    assert(codec::is_key("last_auth_method"@));
    assert(codec::is_key("name"@));
    assert(codec::is_key("version"@));
    assert(codec::is_key("chain"@));
    assert(codec::is_key("index"@));
    assert(codec::is_key("kind"@));
    assert(codec::is_key("host"@));
    let keys = codec::host_keys();
    let mark = |s: Seq<char>| s.len() * 0x200000 + s[0] as int;
    assert(mark(keys[0]) == 5 * 0x200000 + 'a' as int);
    assert(mark(keys[1]) == 7 * 0x200000 + 'a' as int);
    assert(mark(keys[2]) == 4 * 0x200000 + 'p' as int);
    assert(mark(keys[3]) == 4 * 0x200000 + 'u' as int);
    assert(mark(keys[4]) == 13 * 0x200000 + 'i' as int);
    assert(mark(keys[5]) == 6 * 0x200000 + 'g' as int);
    assert(mark(keys[6]) == 4 * 0x200000 + 't' as int);
    assert(mark(keys[7]) == 4 * 0x200000 + 'n' as int);
    assert(mark(keys[8]) == 15 * 0x200000 + 'h' as int);
    assert(mark(keys[9]) == 10 * 0x200000 + 'j' as int);
    assert(mark(keys[10]) == 19 * 0x200000 + 'l' as int);
    assert(mark(keys[11]) == 16 * 0x200000 + 'c' as int);
    assert(mark(keys[12]) == 16 * 0x200000 + 'l' as int);
    assert forall|i: int, j: int| 0 <= i < j < 13 implies #[trigger] keys[i] != #[trigger] keys[j] by {
        assert(i == 0 || i == 1 || i == 2 || i == 3 || i == 4 || i == 5 || i == 6 || i == 7 || i == 8
            || i == 9 || i == 10 || i == 11);
        assert(j == 1 || j == 2 || j == 3 || j == 4 || j == 5 || j == 6 || j == 7 || j == 8 || j == 9
            || j == 10 || j == 11 || j == 12);
        assert(mark(keys[i]) != mark(keys[j]));
    }
    let hop = codec::inline_hop_keys();
    assert(mark(hop[0]) == 5 * 0x200000 + 'c' as int);
    assert(mark(hop[1]) == 5 * 0x200000 + 'i' as int);
    assert(mark(hop[2]) == 4 * 0x200000 + 'k' as int);
    assert(mark(hop[3]) == 5 * 0x200000 + 'a' as int);
    assert(mark(hop[4]) == 4 * 0x200000 + 'h' as int);
    assert(mark(hop[5]) == 4 * 0x200000 + 'p' as int);
    assert(mark(hop[6]) == 4 * 0x200000 + 'u' as int);
    assert(mark(hop[7]) == 13 * 0x200000 + 'i' as int);
    assert(mark(hop[8]) == 15 * 0x200000 + 'h' as int);
    assert forall|i: int, j: int| 0 <= i < j < 9 implies #[trigger] hop[i] != #[trigger] hop[j] by {
        assert(i == 0 || i == 1 || i == 2 || i == 3 || i == 4 || i == 5 || i == 6 || i == 7);
        assert(j == 1 || j == 2 || j == 3 || j == 4 || j == 5 || j == 6 || j == 7 || j == 8);
        assert(mark(hop[i]) != mark(hop[j]));
    }
    let named = codec::named_hop_keys();
    assert(mark(named[0]) == 5 * 0x200000 + 'c' as int);
    assert(mark(named[1]) == 5 * 0x200000 + 'i' as int);
    assert(mark(named[2]) == 4 * 0x200000 + 'k' as int);
    assert(mark(named[3]) == 4 * 0x200000 + 'n' as int);
    assert forall|i: int, j: int| 0 <= i < j < 4 implies #[trigger] named[i] != #[trigger] named[j] by {
        assert(mark(named[i]) != mark(named[j]));
    }
}

proof fn lemma_word_literals()
    ensures
        carried("host"@),
        carried("openssh"@),
        carried("inline"@),
        "host"@ != "openssh"@,
        "host"@ != "inline"@,
        "openssh"@ != "inline"@,
        forall|p: StoredHostKeyPolicy| carried(#[trigger] p.name()),
        forall|m: StoredAuthMethod| carried(#[trigger] m.name()),
{
    reveal_strlit("host");
    reveal_strlit("openssh");
    reveal_strlit("inline");
    assert("host"@.len() == 4);
    assert("openssh"@.len() == 7);
    assert("inline"@.len() == 6);
    reveal_strlit("strict");
    reveal_strlit("accept-new");
    reveal_strlit("insecure");
    assert(carried("strict"@));
    assert(carried("accept-new"@));
    assert(carried("insecure"@));
    reveal_strlit("agent");
    reveal_strlit("private-key");
    reveal_strlit("password");
    reveal_strlit("keyboard-interactive");
    reveal_strlit("auto");
    assert(carried("agent"@));
    assert(carried("private-key"@));
    assert(carried("password"@));
    assert(carried("keyboard-interactive"@));
    assert(carried("auto"@));
}

proof fn lemma_name_carried(value: Seq<char>, field: Seq<char>)
    requires
        model::name_fault(value, field) is None || model::portable_name_fault(value, field) is None,
    ensures
        carried(value),
{
    assert forall|i: int| 0 <= i < value.len() implies is_carried(#[trigger] value[i]) by {
        assert(model::is_name_char(value[i]));
    }
}

proof fn lemma_no_control_carried(value: Seq<char>)
    requires
        !model::has_control(value),
    ensures
        carried(value),
{
    assert forall|i: int| 0 <= i < value.len() implies is_carried(#[trigger] value[i]) by {
        assert(!text::is_control(value[i]));
    }
}

proof fn lemma_labels_carried(values: Seq<Seq<char>>, kind: Seq<char>, i: int)
    requires
        0 <= i <= values.len(),
        model::label_fault_from(values, kind, i) is None,
    ensures
        forall|k: int| i <= k < values.len() ==> carried(#[trigger] values[k]),
    decreases values.len() - i,
{
    if i < values.len() {
        lemma_labels_carried(values, kind, i + 1);
        lemma_name_carried(values[i], kind);
    }
}

/// A valid record whose note holds no other control characters than line
/// ends and tabs reads back from its table.
proof fn lemma_host_fields(r: HostRecordView, line: usize)
    requires
        r.fault() is None,
        r.note is Some ==> carried(r.note->0),
    ensures
        writable(codec::host_fields(r)),
        codec::host_of(folded(codec::host_fields(r)), line) == Ok::<HostRecordView, CodecError>(r),
{
    let fields = codec::host_fields(r);
    let keys = codec::host_keys();
    lemma_key_literals();
    lemma_word_literals();
    lemma_name_carried(r.alias, "host alias"@);
    lemma_no_control_carried(r.address);
    lemma_no_control_carried(r.user);
    if r.identity_file is Some {
        lemma_no_control_carried(r.identity_file->0);
    }
    lemma_labels_carried(r.groups, "group"@, 0);
    lemma_labels_carried(r.tags, "tag"@, 0);
    if r.jump_chain is Some {
        lemma_name_carried(r.jump_chain->0, "jump chain"@);
    }
    assert(carried(r.host_key_policy.name()));
    if r.stats.last_auth_method is Some {
        assert(carried(r.stats.last_auth_method->0.name()));
    }
    assert forall|i: int| 0 <= i < fields.len() implies #[trigger] fields[i].0 == keys[i] by {
        assert(i == 0 || i == 1 || i == 2 || i == 3 || i == 4 || i == 5 || i == 6 || i == 7 || i == 8
            || i == 9 || i == 10 || i == 11 || i == 12);
    }
    assert(distinct_keys(fields)) by {
        assert forall|i: int, j: int| 0 <= i < j < fields.len() implies #[trigger] fields[i].0
            != #[trigger] fields[j].0 by {
            assert(keys[i] != keys[j]);
        }
    }
    assert forall|i: int| 0 <= i < fields.len() implies codec::is_key(#[trigger] fields[i].0) && (
    fields[i].1 is Some ==> carried_value(fields[i].1->0)) by {
        assert(codec::is_key(keys[i]));
        assert(i == 0 || i == 1 || i == 2 || i == 3 || i == 4 || i == 5 || i == 6 || i == 7 || i == 8
            || i == 9 || i == 10 || i == 11 || i == 12);
    }
    lemma_folded(fields);
    lemma_folded_only(fields, keys);
    let table = folded(fields);
    assert(text_map::lookup(table, fields[0].0) == fields[0].1);
    assert(text_map::lookup(table, fields[1].0) == fields[1].1);
    assert(text_map::lookup(table, fields[2].0) == fields[2].1);
    assert(text_map::lookup(table, fields[3].0) == fields[3].1);
    assert(text_map::lookup(table, fields[4].0) == fields[4].1);
    assert(text_map::lookup(table, fields[5].0) == fields[5].1);
    assert(text_map::lookup(table, fields[6].0) == fields[6].1);
    assert(text_map::lookup(table, fields[7].0) == fields[7].1);
    assert(text_map::lookup(table, fields[8].0) == fields[8].1);
    assert(text_map::lookup(table, fields[9].0) == fields[9].1);
    assert(text_map::lookup(table, fields[10].0) == fields[10].1);
    assert(text_map::lookup(table, fields[11].0) == fields[11].1);
    assert(text_map::lookup(table, fields[12].0) == fields[12].1);
    r.host_key_policy.lemma_name_parses();
    if r.stats.last_auth_method is Some {
        r.stats.last_auth_method->0.lemma_name_parses();
    }
    assert(codec::policy_field(table) == Ok::<StoredHostKeyPolicy, CodecError>(r.host_key_policy));
    assert(codec::auth_field(table) == Ok::<Option<StoredAuthMethod>, CodecError>(
        r.stats.last_auth_method,
    ));
    assert(codec::port_field(table, line) == Ok::<u16, CodecError>(r.port));
}

proof fn lemma_chain_fields(name: Seq<char>, line: usize)
    requires
        carried(name),
    ensures
        writable(codec::chain_fields(name)),
        codec::chain_of(folded(codec::chain_fields(name)), line) == Ok::<Seq<char>, CodecError>(
            name,
        ),
{
    let fields = codec::chain_fields(name);
    lemma_key_literals();
    assert(fields.len() == 1);
    assert(fields[0].0 == "name"@);
    assert(codec::chain_keys()[0] == "name"@);
    lemma_folded(fields);
    lemma_folded_only(fields, codec::chain_keys());
    assert(text_map::lookup(folded(fields), fields[0].0) == fields[0].1);
}

proof fn lemma_hop_fields(chain: Seq<char>, index: int, hop: JumpHopView, line: usize)
    requires
        carried(chain),
        0 <= index <= usize::MAX,
        hop.fault() is None,
    ensures
        writable(codec::hop_fields(chain, index, hop)),
        codec::hop_of(folded(codec::hop_fields(chain, index, hop)), line) == Ok::<
            (Seq<char>, usize, JumpHopView),
            CodecError,
        >((chain, index as usize, hop)),
{
    let fields = codec::hop_fields(chain, index, hop);
    let keys = codec::hop_keys(hop);
    lemma_key_literals();
    lemma_word_literals();
    match hop {
        JumpHopView::Host(alias) => {
            lemma_name_carried(alias, "jump host reference"@);
        },
        JumpHopView::OpenSshAlias(alias) => {
            lemma_name_carried(alias, "OpenSSH jump alias"@);
        },
        JumpHopView::Inline(jump) => {
            lemma_name_carried(jump.alias, "inline jump alias"@);
            lemma_no_control_carried(jump.host);
            lemma_no_control_carried(jump.user);
            if jump.identity_file is Some {
                lemma_no_control_carried(jump.identity_file->0);
            }
            assert(carried(jump.host_key_policy.name()));
            jump.host_key_policy.lemma_name_parses();
        },
    }
    assert(fields.len() == keys.len());
    assert forall|i: int| 0 <= i < fields.len() implies #[trigger] fields[i].0 == keys[i] by {
        assert(i == 0 || i == 1 || i == 2 || i == 3 || i == 4 || i == 5 || i == 6 || i == 7 || i
            == 8);
    }
    assert(distinct_keys(fields)) by {
        assert forall|i: int, j: int| 0 <= i < j < fields.len() implies #[trigger] fields[i].0
            != #[trigger] fields[j].0 by {
            assert(keys[i] != keys[j]);
        }
    }
    assert forall|i: int| 0 <= i < fields.len() implies codec::is_key(#[trigger] fields[i].0) && (
    fields[i].1 is Some ==> carried_value(fields[i].1->0)) by {
        assert(codec::is_key(keys[i]));
        assert(i == 0 || i == 1 || i == 2 || i == 3 || i == 4 || i == 5 || i == 6 || i == 7 || i
            == 8);
    }
    lemma_folded(fields);
    lemma_folded_only(fields, keys);
    let table = folded(fields);
    assert(text_map::lookup(table, fields[0].0) == fields[0].1);
    assert(text_map::lookup(table, fields[1].0) == fields[1].1);
    assert(text_map::lookup(table, fields[2].0) == fields[2].1);
    assert(text_map::lookup(table, fields[3].0) == fields[3].1);
    if hop is Inline {
        assert(text_map::lookup(table, fields[4].0) == fields[4].1);
        assert(text_map::lookup(table, fields[5].0) == fields[5].1);
        assert(text_map::lookup(table, fields[6].0) == fields[6].1);
        assert(text_map::lookup(table, fields[7].0) == fields[7].1);
        assert(text_map::lookup(table, fields[8].0) == fields[8].1);
    }
}


proof fn lemma_valid_hosts(d: HostDatabaseView, i: int)
    requires
        0 <= i <= d.hosts.len(),
        d.host_fault_from(i) is None,
    ensures
        forall|k: int|
            i <= k < d.hosts.len() ==> (#[trigger] d.hosts[k]).0 == d.hosts[k].1.alias
                && d.hosts[k].1.fault() is None,
    decreases d.hosts.len() - i,
{
    if i < d.hosts.len() {
        lemma_valid_hosts(d, i + 1);
    }
}

proof fn lemma_valid_chains(d: HostDatabaseView, i: int)
    requires
        0 <= i <= d.chains.len(),
        d.chain_fault_from(i) is None,
    ensures
        forall|k: int|
            i <= k < d.chains.len() ==> (#[trigger] d.chains[k]).0 == d.chains[k].1.name
                && d.chains[k].1.fault() is None,
    decreases d.chains.len() - i,
{
    if i < d.chains.len() {
        lemma_valid_chains(d, i + 1);
    }
}

proof fn lemma_valid_hops(chain: JumpChainView, i: int)
    requires
        0 <= i <= chain.hops.len(),
        chain.hop_fault_from(i) is None,
    ensures
        forall|k: int| i <= k < chain.hops.len() ==> (#[trigger] chain.hops[k]).fault() is None,
    decreases chain.hops.len() - i,
{
    if i < chain.hops.len() {
        lemma_valid_hops(chain, i + 1);
    }
}

proof fn lemma_sorted_take<V>(entries: Seq<(Seq<char>, V)>, n: int)
    requires
        text_map::sorted(entries),
        0 <= n <= entries.len(),
    ensures
        text_map::sorted(entries.take(n)),
{
    let part = entries.take(n);
    assert forall|i: int, j: int| 0 <= i < j < part.len() implies text::text_less(
        #[trigger] part[i].0,
        #[trigger] part[j].0,
    ) by {
        assert(part[i] == entries[i]);
        assert(part[j] == entries[j]);
    }
}

/// The notes of the library can be carried by quoted strings.
pub open spec fn carried_notes(d: HostDatabaseView) -> bool {
    forall|i: int|
        0 <= i < d.hosts.len() && (#[trigger] d.hosts[i]).1.note is Some ==> carried(
            d.hosts[i].1.note->0,
        )
}

/// An entry of the host map that its table can carry.
#[verifier::opaque]
spec fn good_host(entry: (Seq<char>, HostRecordView)) -> bool {
    &&& entry.0 == entry.1.alias
    &&& entry.1.fault() is None
    &&& entry.1.note is Some ==> carried(entry.1.note->0)
}

/// An entry of the chain map that its tables can carry.
#[verifier::opaque]
spec fn good_chain(entry: (Seq<char>, JumpChainView)) -> bool {
    &&& entry.0 == entry.1.name
    &&& entry.1.fault() is None
}

spec fn good(d: HostDatabaseView) -> bool {
    &&& d.sorted()
    &&& forall|i: int| 0 <= i < d.hosts.len() ==> good_host(#[trigger] d.hosts[i])
    &&& forall|i: int| 0 <= i < d.chains.len() ==> good_chain(#[trigger] d.chains[i])
}

proof fn lemma_good(d: HostDatabaseView)
    requires
        d.valid(),
        d.sorted(),
        carried_notes(d),
    ensures
        good(d),
{
    lemma_valid_hosts(d, 0);
    lemma_valid_chains(d, 0);
    reveal(good_host);
    reveal(good_chain);
}

proof fn lemma_good_host(entry: (Seq<char>, HostRecordView), line: usize)
    requires
        good_host(entry),
    ensures
        entry.0 == entry.1.alias,
        writable(codec::host_fields(entry.1)),
        codec::host_of(folded(codec::host_fields(entry.1)), line) == Ok::<
            HostRecordView,
            CodecError,
        >(entry.1),
{
    reveal(good_host);
    lemma_host_fields(entry.1, line);
}

proof fn lemma_good_chain(entry: (Seq<char>, JumpChainView), line: usize)
    requires
        good_chain(entry),
    ensures
        entry.0 == entry.1.name,
        0 < entry.1.hops.len() <= 8,
        writable(codec::chain_fields(entry.1.name)),
        codec::chain_of(folded(codec::chain_fields(entry.1.name)), line) == Ok::<
            Seq<char>,
            CodecError,
        >(entry.1.name),
{
    reveal(good_chain);
    lemma_name_carried(entry.1.name, "jump chain"@);
    lemma_chain_fields(entry.1.name, line);
}

proof fn lemma_good_hop(entry: (Seq<char>, JumpChainView), j: int, line: usize)
    requires
        good_chain(entry),
        0 <= j < entry.1.hops.len(),
    ensures
        writable(codec::hop_fields(entry.1.name, j, entry.1.hops[j])),
        codec::hop_of(folded(codec::hop_fields(entry.1.name, j, entry.1.hops[j])), line) == Ok::<
            (Seq<char>, usize, JumpHopView),
            CodecError,
        >((entry.1.name, j as usize, entry.1.hops[j])),
{
    reveal(good_chain);
    let chain = entry.1;
    lemma_valid_hops(chain, 0);
    lemma_name_carried(chain.name, "jump chain"@);
    assert(chain.hops[j].fault() is None);
    lemma_hop_fields(chain.name, j, chain.hops[j], line);
}

proof fn lemma_take_hosts(d: HostDatabaseView, tables: Seq<TableView>, n: int)
    requires
        good(d),
        0 <= n <= d.hosts.len() <= tables.len(),
        forall|i: int|
            0 <= i < d.hosts.len() ==> (#[trigger] tables[i]).kind is Host && tables[i].values
                == folded(codec::host_fields(d.hosts[i].1)),
    ensures
        codec::take_tables(
            BuildView { hosts: d.hosts.take(n), chains: Seq::empty(), hops: Seq::empty() },
            tables,
            n,
        ) == codec::take_tables(
            BuildView { hosts: d.hosts, chains: Seq::empty(), hops: Seq::empty() },
            tables,
            d.hosts.len() as int,
        ),
    decreases d.hosts.len() - n,
{
    if n < d.hosts.len() {
        let (key, r) = d.hosts[n];
        assert(tables[n].kind is Host);
        lemma_good_host(d.hosts[n], tables[n].line);
        lemma_sorted_take(d.hosts, n + 1);
        assert(d.hosts.take(n + 1) =~= d.hosts.take(n).push((key, r)));
        text_map::lemma_put_last(d.hosts.take(n), key, r);
        lemma_take_hosts(d, tables, n + 1);
        assert(codec::take_table(
            BuildView { hosts: d.hosts.take(n), chains: Seq::empty(), hops: Seq::empty() },
            tables[n],
        ) == Ok::<BuildView, CodecError>(
            BuildView { hosts: d.hosts.take(n + 1), chains: Seq::empty(), hops: Seq::empty() },
        ));
    } else {
        assert(d.hosts.take(n) =~= d.hosts);
    }
}

pub open spec fn bare_chain() -> spec_fn(JumpChainView) -> JumpChainView {
    |c: JumpChainView| JumpChainView { name: c.name, hops: Seq::empty() }
}

pub open spec fn indexed(hops: Seq<JumpHopView>) -> Seq<(usize, JumpHopView)> {
    Seq::new(hops.len(), |i: int| (i as usize, hops[i]))
}

pub open spec fn indexed_hops() -> spec_fn(JumpChainView) -> Seq<(usize, JumpHopView)> {
    |c: JumpChainView| indexed(c.hops)
}

/// What has been taken in after the first `n` chains.
pub open spec fn built(d: HostDatabaseView, n: int) -> BuildView {
    BuildView {
        hosts: d.hosts,
        chains: text_map::map_entries(d.chains.take(n), bare_chain()),
        hops: text_map::map_entries(d.chains.take(n), indexed_hops()),
    }
}

/// What has been taken in after the chain at `n` and its first `j` hops.
pub open spec fn built_within(d: HostDatabaseView, n: int, j: int) -> BuildView {
    let before = text_map::map_entries(d.chains.take(n), indexed_hops());
    BuildView {
        hosts: d.hosts,
        chains: text_map::map_entries(d.chains.take(n + 1), bare_chain()),
        hops: if j == 0 {
            before
        } else {
            before.push((d.chains[n].0, indexed(d.chains[n].1.hops.take(j))))
        },
    }
}

proof fn lemma_map_push<A, B>(entries: Seq<(Seq<char>, A)>, n: int, f: spec_fn(A) -> B)
    requires
        text_map::sorted(entries),
        0 <= n < entries.len(),
    ensures
        text_map::map_entries(entries.take(n + 1), f) == text_map::map_entries(
            entries.take(n),
            f,
        ).push((entries[n].0, f(entries[n].1))),
        text_map::sorted(text_map::map_entries(entries.take(n + 1), f)),
        text_map::sorted(text_map::map_entries(entries.take(n), f)),
{
    lemma_sorted_take(entries, n + 1);
    lemma_sorted_take(entries, n);
    text_map::lemma_map_entries(entries.take(n + 1), f, Seq::empty());
    text_map::lemma_map_entries(entries.take(n), f, Seq::empty());
    assert(text_map::map_entries(entries.take(n + 1), f) =~= text_map::map_entries(
        entries.take(n),
        f,
    ).push((entries[n].0, f(entries[n].1))));
}

proof fn lemma_take_hop(d: HostDatabaseView, n: int, j: int, t: TableView)
    requires
        good(d),
        0 <= n < d.chains.len(),
        0 <= j < d.chains[n].1.hops.len(),
        t.kind is Hop,
        t.values == folded(codec::hop_fields(d.chains[n].1.name, j, d.chains[n].1.hops[j])),
    ensures
        codec::take_table(built_within(d, n, j), t) == Ok::<BuildView, CodecError>(
            built_within(d, n, j + 1),
        ),
{
    let (key, chain) = d.chains[n];
    lemma_good_chain(d.chains[n], t.line);
    lemma_good_hop(d.chains[n], j, t.line);
    let before = text_map::map_entries(d.chains.take(n), indexed_hops());
    lemma_map_push(d.chains, n, indexed_hops());
    let hops = built_within(d, n, j).hops;
    let longer = indexed(chain.hops.take(j + 1));
    let listed = indexed(chain.hops.take(j));
    assert(longer =~= listed.push((j as usize, chain.hops[j])));
    let marker = text_map::map_entries(d.chains.take(n + 1), indexed_hops());
    assert forall|v: Seq<(usize, JumpHopView)>| text_map::sorted(#[trigger] before.push((key, v))) by {
        let all = before.push((key, v));
        assert forall|a: int, b: int| 0 <= a < b < all.len() implies text::text_less(
            #[trigger] all[a].0,
            #[trigger] all[b].0,
        ) by {
            assert(all[a].0 == marker[a].0);
            assert(all[b].0 == marker[b].0);
        }
    }
    assert(text_map::sorted(before.push((key, longer))));
    assert(text_map::sorted(before.push((key, listed))));
    if j == 0 {
        text_map::lemma_put_last(before, key, longer);
        text_map::lemma_lookup(before, key);
        assert(listed =~= Seq::<(usize, JumpHopView)>::empty());
    } else {
        let last = before.len() as int;
        text_map::lemma_lookup(hops, key);
        assert(hops[last].0 == key);
        assert(text_map::rank(hops, key) == last);
        assert(hops.update(last, (key, longer)) =~= before.push((key, longer)));
    }
}

proof fn lemma_take_hops(d: HostDatabaseView, n: int, j: int, tables: Seq<TableView>, at: int)
    requires
        good(d),
        0 <= n < d.chains.len(),
        0 <= j <= d.chains[n].1.hops.len(),
        0 <= at,
        at + d.chains[n].1.hops.len() <= tables.len(),
        forall|k: int|
            0 <= k < d.chains[n].1.hops.len() ==> (#[trigger] tables[at + k]).kind is Hop
                && tables[at + k].values == folded(
                codec::hop_fields(d.chains[n].1.name, k, d.chains[n].1.hops[k]),
            ),
    ensures
        codec::take_tables(built_within(d, n, j), tables, at + j) == codec::take_tables(
            built(d, n + 1),
            tables,
            at + d.chains[n].1.hops.len(),
        ),
    decreases d.chains[n].1.hops.len() - j,
{
    let chain = d.chains[n].1;
    if j < chain.hops.len() {
        assert(tables[at + j].kind is Hop);
        lemma_take_hop(d, n, j, tables[at + j]);
        lemma_take_hops(d, n, j + 1, tables, at);
    } else {
        lemma_good_chain(d.chains[n], 0);
        lemma_map_push(d.chains, n, indexed_hops());
        assert(chain.hops.take(j) =~= chain.hops);
        assert(built_within(d, n, j).hops == built(d, n + 1).hops);
    }
}

proof fn lemma_take_chain(d: HostDatabaseView, n: int, tables: Seq<TableView>, at: int)
    requires
        good(d),
        0 <= n < d.chains.len(),
        0 <= at,
        at + chain_blocks(d.chains[n].1).len() <= tables.len(),
        forall|k: int|
            0 <= k < chain_blocks(d.chains[n].1).len() ==> (#[trigger] tables[at + k]).kind
                == chain_blocks(d.chains[n].1)[k].kind && tables[at + k].values == folded(
                chain_blocks(d.chains[n].1)[k].fields,
            ),
    ensures
        codec::take_tables(built(d, n), tables, at) == codec::take_tables(
            built(d, n + 1),
            tables,
            at + chain_blocks(d.chains[n].1).len(),
        ),
{
    let (key, chain) = d.chains[n];
    let blocks = chain_blocks(chain);
    assert(tables[at + 0].kind == blocks[0].kind);
    lemma_good_chain(d.chains[n], tables[at].line);
    lemma_map_push(d.chains, n, bare_chain());
    let bare = text_map::map_entries(d.chains.take(n), bare_chain());
    text_map::lemma_put_last(bare, key, bare_chain()(chain));
    assert(codec::take_table(built(d, n), tables[at]) == Ok::<BuildView, CodecError>(
        built_within(d, n, 0),
    ));
    assert forall|k: int| 0 <= k < chain.hops.len() implies (#[trigger] tables[at + 1 + k]).kind
        is Hop && tables[at + 1 + k].values == folded(
        codec::hop_fields(chain.name, k, chain.hops[k]),
    ) by {
        assert(tables[at + (k + 1)].kind == blocks[k + 1].kind);
        assert(blocks[k + 1] == hop_blocks(chain)[k]);
    }
    lemma_take_hops(d, n, 0, tables, at + 1);
}

/// The tables of the chain at `n` stand behind those of the chains before it.
proof fn lemma_chain_place(chains: Seq<(Seq<char>, JumpChainView)>, n: int, k: int)
    requires
        0 <= n < chains.len(),
        0 <= k < chain_blocks(chains[n].1).len(),
    ensures
        chains_blocks(chains.take(n)).len() + k < chains_blocks(chains).len(),
        chains_blocks(chains)[chains_blocks(chains.take(n)).len() + k] == chain_blocks(
            chains[n].1,
        )[k],
    decreases chains.len(),
{
    let front = chains.drop_last();
    if n == chains.len() - 1 {
        assert(chains.take(n) =~= front);
        assert(chains.last() == chains[n]);
    } else {
        lemma_chain_place(front, n, k);
        assert(front.take(n) =~= chains.take(n));
        assert(front[n] == chains[n]);
    }
}

proof fn lemma_take_chains(d: HostDatabaseView, n: int, tables: Seq<TableView>)
    requires
        good(d),
        0 <= n <= d.chains.len(),
        reads_as(tables, database_blocks(d)),
    ensures
        codec::take_tables(
            built(d, n),
            tables,
            d.hosts.len() + chains_blocks(d.chains.take(n)).len() as int,
        ) == Ok::<BuildView, CodecError>(built(d, d.chains.len() as int)),
    decreases d.chains.len() - n,
{
    let at = d.hosts.len() + chains_blocks(d.chains.take(n)).len() as int;
    if n < d.chains.len() {
        let blocks = chain_blocks(d.chains[n].1);
        assert forall|k: int| 0 <= k < blocks.len() implies (#[trigger] tables[at + k]).kind
            == blocks[k].kind && tables[at + k].values == folded(blocks[k].fields) by {
            lemma_chain_place(d.chains, n, k);
            assert(database_blocks(d)[at + k] == blocks[k]);
        }
        lemma_chain_place(d.chains, n, blocks.len() - 1);
        lemma_take_chain(d, n, tables, at);
        assert(d.chains.take(n + 1).drop_last() =~= d.chains.take(n));
        assert(d.chains.take(n + 1).last() == d.chains[n]);
        lemma_take_chains(d, n + 1, tables);
    } else {
        assert(d.chains.take(n) =~= d.chains);
        assert(tables.len() == at);
    }
}

proof fn lemma_index_place(hops: Seq<JumpHopView>, from: int, i: int)
    requires
        hops.len() <= 8,
        0 <= from <= i < hops.len(),
    ensures
        codec::index_place(indexed(hops).skip(from), i) == i - from,
    decreases i - from,
{
    let list = indexed(hops).skip(from);
    assert(list[0].0 == from);
    if from < i {
        lemma_index_place(hops, from + 1, i);
        assert(list.drop_first() =~= indexed(hops).skip(from + 1));
    }
}

proof fn lemma_in_order(hops: Seq<JumpHopView>)
    requires
        hops.len() <= 8,
    ensures
        codec::contiguous(indexed(hops)),
        codec::in_order(indexed(hops)) == hops,
{
    let list = indexed(hops);
    assert forall|i: int| 0 <= i < list.len() implies #[trigger] codec::index_place(list, i) == i by {
        lemma_index_place(hops, 0, i);
        assert(list.skip(0) =~= list);
    }
    assert(codec::in_order(list) =~= hops);
}

/// The chains with the first `n` of them complete and the others bare.
pub open spec fn attached(chains: Seq<(Seq<char>, JumpChainView)>, n: int) -> Seq<
    (Seq<char>, JumpChainView),
> {
    Seq::new(
        chains.len(),
        |i: int|
            if i < n {
                chains[i]
            } else {
                (chains[i].0, bare_chain()(chains[i].1))
            },
    )
}

proof fn lemma_attach(d: HostDatabaseView, n: int)
    requires
        good(d),
        0 <= n <= d.chains.len(),
    ensures
        codec::attach(
            attached(d.chains, n),
            text_map::map_entries(d.chains, indexed_hops()),
            n,
        ) == Ok::<Seq<(Seq<char>, JumpChainView)>, CodecError>(d.chains),
    decreases d.chains.len() - n,
{
    let hops = text_map::map_entries(d.chains, indexed_hops());
    let current = attached(d.chains, n);
    if n < d.chains.len() {
        let (key, chain) = d.chains[n];
        lemma_good_chain(d.chains[n], 0);
        lemma_in_order(chain.hops);
        assert forall|i: int, j: int| 0 <= i < j < current.len() implies text::text_less(
            #[trigger] current[i].0,
            #[trigger] current[j].0,
        ) by {
            assert(current[i].0 == d.chains[i].0);
            assert(current[j].0 == d.chains[j].0);
        }
        text_map::lemma_lookup(current, key);
        assert(current[n].0 == key);
        assert(hops[n] == (key, indexed(chain.hops)));
        let full = JumpChainView { name: chain.name, hops: chain.hops };
        assert(full == chain);
        assert(current.update(n, (key, full)) =~= attached(d.chains, n + 1));
        lemma_attach(d, n + 1);
    } else {
        assert(current =~= d.chains);
    }
}

proof fn lemma_blocks_writable(d: HostDatabaseView)
    requires
        good(d),
    ensures
        forall|k: int|
            0 <= k < database_blocks(d).len() ==> writable((#[trigger] database_blocks(d)[k]).fields),
{
    let blocks = database_blocks(d);
    assert forall|k: int| 0 <= k < blocks.len() implies writable((#[trigger] blocks[k]).fields) by {
        if k < d.hosts.len() {
            lemma_good_host(d.hosts[k], 0);
            assert(blocks[k] == host_blocks(d.hosts)[k]);
        } else {
            assert(d.chains.take(d.chains.len() as int) =~= d.chains);
            lemma_chain_blocks_writable(d, d.chains.len() as int, k - d.hosts.len());
        }
    }
}

proof fn lemma_chain_blocks_writable(d: HostDatabaseView, n: int, k: int)
    requires
        good(d),
        0 <= n <= d.chains.len(),
        0 <= k < chains_blocks(d.chains.take(n)).len(),
    ensures
        writable(chains_blocks(d.chains.take(n))[k].fields),
    decreases n,
{
    let part = d.chains.take(n);
    if n > 0 {
        assert(part.drop_last() =~= d.chains.take(n - 1));
        let front = chains_blocks(d.chains.take(n - 1));
        if k < front.len() {
            lemma_chain_blocks_writable(d, n - 1, k);
        } else {
            let chain = d.chains[n - 1].1;
            let j = k - front.len();
            lemma_good_chain(d.chains[n - 1], 0);
            assert(chains_blocks(part)[k] == chain_blocks(chain)[j]);
            if j > 0 {
                lemma_good_hop(d.chains[n - 1], j - 1, 0);
                assert(chain_blocks(chain)[j] == hop_blocks(chain)[j - 1]);
            }
        }
    }
}

proof fn lemma_comment()
    ensures
        single_line("# Kaduox-SSH host library. Secrets are intentionally not stored here."@),
        codec::strip_comment(
            "# Kaduox-SSH host library. Secrets are intentionally not stored here."@,
        ) == Some(Seq::<char>::empty()),
{
    let comment = "# Kaduox-SSH host library. Secrets are intentionally not stored here."@;
    reveal_strlit("# Kaduox-SSH host library. Secrets are intentionally not stored here.");
    assert(comment[0] == '#');
    assert(codec::unquoted_position(comment, '#', Quote::Plain) == 0);
    assert(comment.take(0) =~= Seq::<char>::empty());
}

spec fn version_root() -> Seq<(Seq<char>, ValueView)> {
    seq![("version"@, ValueView::Integer(1))]
}

proof fn lemma_version_root()
    ensures
        text_map::put(Seq::<(Seq<char>, ValueView)>::empty(), "version"@, ValueView::Integer(1))
            == version_root(),
        codec::root_fault(version_root()) is None,
{
    let root = version_root();
    let none = Seq::<(Seq<char>, ValueView)>::empty();
    assert(text_map::rank(none, "version"@) == 0);
    assert(none.insert(0, ("version"@, ValueView::Integer(1))) =~= root);
    assert(text_map::sorted(root));
    text_map::lemma_lookup(root, "version"@);
    assert(root[0].0 == "version"@);
    assert(seq!["version"@].contains("version"@)) by {
        assert(seq!["version"@][0] == "version"@);
    }
}

proof fn lemma_host_keyed(r: HostRecordView)
    ensures
        keyed(codec::host_fields(r)),
{
    lemma_key_literals();
    let fields = codec::host_fields(r);
    assert forall|i: int| 0 <= i < fields.len() implies codec::is_key(#[trigger] fields[i].0) by {
        assert(fields[i].0 == codec::host_keys()[i]);
    }
}

proof fn lemma_chain_keyed(chain: JumpChainView, k: int)
    requires
        0 <= k < chain_blocks(chain).len(),
    ensures
        keyed(chain_blocks(chain)[k].fields),
{
    lemma_key_literals();
    if k > 0 {
        let hop = chain.hops[k - 1];
        let fields = codec::hop_fields(chain.name, k - 1, hop);
        assert(chain_blocks(chain)[k] == hop_blocks(chain)[k - 1]);
        assert forall|i: int| 0 <= i < fields.len() implies codec::is_key(
            #[trigger] fields[i].0,
        ) by {
            if hop is Inline {
                assert(fields[i].0 == codec::inline_hop_keys()[i]);
            } else {
                assert(fields[i].0 == codec::named_hop_keys()[i]);
            }
        }
    }
}

proof fn lemma_chains_keyed(chains: Seq<(Seq<char>, JumpChainView)>, k: int)
    requires
        0 <= k < chains_blocks(chains).len(),
    ensures
        keyed(chains_blocks(chains)[k].fields),
    decreases chains.len(),
{
    if chains.len() > 0 {
        let front = chains_blocks(chains.drop_last());
        if k < front.len() {
            lemma_chains_keyed(chains.drop_last(), k);
        } else {
            lemma_chain_keyed(chains.last().1, k - front.len());
        }
    }
}

/// The text form of a library, whatever its notes hold, has the lines that it
/// is made of.
proof fn lemma_text_lines(d: HostDatabaseView)
    ensures
        text::lines(codec::encoded(d)) == codec::database_lines(d),
{
    let blocks = database_blocks(d);
    let all = codec::database_lines(d);
    let head = codec::preamble_lines(d.version);
    lemma_database_lines(d);
    assert forall|k: int| 0 <= k < blocks.len() implies keyed((#[trigger] blocks[k]).fields) by {
        if k < d.hosts.len() {
            lemma_host_keyed(d.hosts[k].1);
            assert(blocks[k] == host_blocks(d.hosts)[k]);
        } else {
            lemma_chains_keyed(d.chains, k - d.hosts.len());
        }
    }
    lemma_blocks_single(blocks);
    lemma_key_literals();
    lemma_field_single("version"@, ValueView::Integer(d.version as u64));
    lemma_comment();
    assert forall|i: int| 0 <= i < all.len() implies single_line(#[trigger] all[i]) by {
        if i == 0 {
            assert(all[i] == head[0]);
        } else if i == 1 {
            assert(all[i] == head[1]);
        } else {
            assert(all[i] == block_lines(blocks)[i - 2]);
        }
    }
    lemma_lines_of_unlines(all);
}

/// The lines of a library are scanned into its tables.
proof fn lemma_scan_database(d: HostDatabaseView) -> (r: ScanView)
    requires
        good(d),
        d.version == 1,
    ensures
        text::lines(codec::encoded(d)) == codec::database_lines(d),
        codec::scan(
            ScanView { root: Seq::empty(), tables: Seq::empty(), current: None },
            codec::database_lines(d),
            0,
        ) == Ok::<ScanView, CodecError>(r),
        r.root == version_root(),
        reads_as(r.all_tables(), database_blocks(d)),
{
    let blocks = database_blocks(d);
    let all = codec::database_lines(d);
    let head = codec::preamble_lines(d.version);
    let version = ValueView::Integer(1);
    lemma_database_lines(d);
    lemma_blocks_writable(d);
    lemma_key_literals();
    lemma_parse_field("version"@, version);
    lemma_comment();
    lemma_text_lines(d);
    let start = ScanView { root: Seq::empty(), tables: Seq::empty(), current: None };
    assert(all[0] == head[0]);
    assert(all[1] == head[1]);
    assert(text::trim(Seq::<char>::empty()) =~= Seq::<char>::empty());
    assert(codec::scan_line(start, all[0], 1) == Ok::<ScanView, CodecError>(start));
    let none = Seq::<(Seq<char>, ValueView)>::empty();
    lemma_version_root();
    let rooted = ScanView { root: version_root(), tables: Seq::empty(), current: None };
    assert(!text_map::has_key(none, "version"@));
    assert(codec::scan_line(start, all[1], 2) == Ok::<ScanView, CodecError>(rooted));
    assert(codec::scan(start, all, 0) == codec::scan(start, all, 1));
    assert(codec::scan(start, all, 1) == codec::scan(rooted, all, 2));
    assert(all.skip(2) =~= block_lines(blocks));
    let st = lemma_scan_blocks(rooted, all, 2, blocks);
    assert(st.all_tables().skip(0) =~= st.all_tables());
    st
}

/// The tables of a library build the library.
proof fn lemma_build_database(d: HostDatabaseView, tables: Seq<TableView>)
    requires
        good(d),
        reads_as(tables, database_blocks(d)),
    ensures
        codec::take_tables(
            BuildView { hosts: Seq::empty(), chains: Seq::empty(), hops: Seq::empty() },
            tables,
            0,
        ) == Ok::<BuildView, CodecError>(built(d, d.chains.len() as int)),
        built(d, d.chains.len() as int).hosts == d.hosts,
        codec::attach(
            built(d, d.chains.len() as int).chains,
            built(d, d.chains.len() as int).hops,
            0,
        ) == Ok::<Seq<(Seq<char>, JumpChainView)>, CodecError>(d.chains),
{
    let blocks = database_blocks(d);
    assert forall|i: int| 0 <= i < d.hosts.len() implies (#[trigger] tables[i]).kind is Host
        && tables[i].values == folded(codec::host_fields(d.hosts[i].1)) by {
        assert(blocks[i] == host_blocks(d.hosts)[i]);
    }
    assert(d.hosts.take(0) =~= Seq::<(Seq<char>, HostRecordView)>::empty());
    lemma_take_hosts(d, tables, 0);
    assert(d.chains.take(0) =~= Seq::<(Seq<char>, JumpChainView)>::empty());
    assert(built(d, 0).chains =~= Seq::<(Seq<char>, JumpChainView)>::empty());
    assert(built(d, 0).hops =~= Seq::<(Seq<char>, Seq<(usize, JumpHopView)>)>::empty());
    lemma_take_chains(d, 0, tables);
    assert(d.chains.take(d.chains.len() as int) =~= d.chains);
    let b = built(d, d.chains.len() as int);
    assert(b.chains =~= attached(d.chains, 0));
    lemma_attach(d, 0);
}

/// A valid library reads back from its text form as it was written, as long
/// as the text fits the reader and no note holds a control character other
/// than a line end or a tab.
pub proof fn decode_inverts_encode(d: HostDatabaseView)
    requires
        d.valid(),
        d.sorted(),
        carried_notes(d),
        text::utf8_len(codec::encoded(d)) <= codec::MAX_DATABASE_BYTES,
    ensures
        codec::decoded(codec::encoded(d)) == Ok::<HostDatabaseView, CodecError>(d),
{
    lemma_good(d);
    let st = lemma_scan_database(d);
    lemma_version_root();
    lemma_build_database(d, st.all_tables());
    assert(d == (HostDatabaseView {
        version: model::DATABASE_VERSION,
        hosts: d.hosts,
        chains: d.chains,
    }));
}

proof fn lemma_unescape_refuses(done: Seq<char>, s: Seq<char>)
    requires
        !carried(s),
    ensures
        codec::unescape(done, codec::escape(s)) is Err,
    decreases s.len(),
{
    let c = s[0];
    let rest = s.drop_first();
    let whole = codec::escape(s);
    lemma_escape_front(s);
    if is_carried(c) {
        let k = choose|k: int| 0 <= k < s.len() && !is_carried(#[trigger] s[k]);
        assert(rest[k - 1] == s[k]);
        lemma_unescape_refuses(done.push(c), rest);
        if codec::escaped(c).len() == 1 {
            assert(whole[0] == c);
            assert(whole.drop_first() =~= codec::escape(rest));
        } else {
            assert(whole[0] == '\\');
            assert(whole[1] == codec::escaped(c)[1]);
            assert(whole.skip(2) =~= codec::escape(rest));
        }
    } else {
        assert(whole[0] == c);
    }
}

/// A line with a text that cannot be carried is refused, wherever it stands.
proof fn lemma_line_refused(key: Seq<char>, t: Seq<char>, st: ScanView, line_no: usize)
    requires
        codec::is_key(key),
        !carried(t),
    ensures
        codec::scan_line(st, codec::field_line(key, ValueView::Text(t)), line_no) is Err,
{
    lemma_field_shape(key, ValueView::Text(t));
    let s = codec::quoted(t);
    assert(s.subrange(1, s.len() - 1) =~= codec::escape(t));
    lemma_unescape_refuses(Seq::empty(), t);
}

proof fn lemma_scan_refused(st: ScanView, all: Seq<Seq<char>>, i: int, k: int)
    requires
        0 <= i <= k < all.len(),
        forall|at: ScanView| (#[trigger] codec::scan_line(at, all[k], (k + 1) as usize)) is Err,
    ensures
        codec::scan(st, all, i) is Err,
    decreases k - i,
{
    if i < k {
        if let Ok(next) = codec::scan_line(st, all[i], (i + 1) as usize) {
            lemma_scan_refused(next, all, i + 1, k);
        }
    }
}

/// The place of a field among the lines.
proof fn lemma_field_place(fields: Seq<(Seq<char>, Option<ValueView>)>, j: int) -> (k: int)
    requires
        0 <= j < fields.len(),
        fields[j].1 is Some,
    ensures
        0 <= k < codec::field_lines(fields).len(),
        codec::field_lines(fields)[k] == codec::field_line(fields[j].0, fields[j].1->0),
    decreases fields.len(),
{
    let front = fields.drop_last();
    if j == fields.len() - 1 {
        codec::field_lines(front).len() as int
    } else {
        assert(front[j] == fields[j]);
        lemma_field_place(front, j)
    }
}

/// The place of the note of a host among the lines.
proof fn lemma_note_place(hosts: Seq<(Seq<char>, HostRecordView)>, n: int, i: int) -> (k: int)
    requires
        0 <= i < n <= hosts.len(),
        hosts[i].1.note is Some,
    ensures
        0 <= k < codec::hosts_lines(hosts, n).len(),
        codec::hosts_lines(hosts, n)[k] == codec::field_line(
            "note"@,
            ValueView::Text(hosts[i].1.note->0),
        ),
    decreases n,
{
    let before = codec::hosts_lines(hosts, n - 1);
    if i == n - 1 {
        let fields = codec::host_fields(hosts[i].1);
        let k = lemma_field_place(fields, 7);
        let table = codec::table_lines(TableKind::Host, fields);
        assert(table[k + 2] == codec::field_lines(fields)[k]);
        assert(codec::hosts_lines(hosts, n)[before.len() + k + 2] == table[k + 2]);
        before.len() + k + 2
    } else {
        let k = lemma_note_place(hosts, n - 1, i);
        assert(codec::hosts_lines(hosts, n)[k] == before[k]);
        k
    }
}

/// A text form with a note that cannot be carried is refused.
proof fn lemma_text_refused(d: HostDatabaseView)
    requires
        !carried_notes(d),
    ensures
        codec::decoded(codec::encoded(d)) is Err,
{
    let i = choose|i: int|
        0 <= i < d.hosts.len() && (#[trigger] d.hosts[i]).1.note is Some && !carried(
            d.hosts[i].1.note->0,
        );
    let t = d.hosts[i].1.note->0;
    let n = d.hosts.len() as int;
    let all = codec::database_lines(d);
    let k = lemma_note_place(d.hosts, n, i) + 2;
    assert(all[k] == codec::hosts_lines(d.hosts, n)[k - 2]);
    lemma_text_lines(d);
    lemma_key_literals();
    assert(codec::host_keys()[7] == "note"@);
    assert forall|at: ScanView| (#[trigger] codec::scan_line(
        at,
        all[k],
        (k + 1) as usize,
    )) is Err by {
        lemma_line_refused("note"@, t, at, (k + 1) as usize);
    }
    lemma_scan_refused(
        ScanView { root: Seq::empty(), tables: Seq::empty(), current: None },
        all,
        0,
        k,
    );
}

/// The text form of a valid library is canonical: where it is read at all, it
/// is read as that library, whose text form it is. It is not read where a note
/// holds a control character other than a line end or a tab, or where it is too
/// long.
pub proof fn encoded_text_is_canonical(d: HostDatabaseView)
    requires
        d.valid(),
        d.sorted(),
    ensures
        codec::decoded(codec::encoded(d)) matches Ok(read) ==> read == d && codec::encoded(read)
            == codec::encoded(d),
        codec::decoded(codec::encoded(d)) is Ok <==> carried_notes(d) && text::utf8_len(
            codec::encoded(d),
        ) <= codec::MAX_DATABASE_BYTES,
{
    if !carried_notes(d) {
        lemma_text_refused(d);
    } else if text::utf8_len(codec::encoded(d)) <= codec::MAX_DATABASE_BYTES {
        decode_inverts_encode(d);
    }
}

} // verus!
