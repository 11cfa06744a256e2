//! What cutting, trimming and joining text does to it.

use vstd::prelude::*;

verus! {

/// Parts that are joined by a character are the parts of the whole.
pub proof fn splitting_undoes_joining(a: Seq<char>, b: Seq<char>, c: char)
    ensures
        crate::text::split(a + seq![c] + b, c) == crate::text::split(a, c) + crate::text::split(
            b,
            c,
        ),
    decreases a.len(),
{
    let all = a + seq![c] + b;
    crate::text::lemma_position(a, c);
    let p = crate::text::position(a, c);
    if p < a.len() {
        crate::text::lemma_position_is(all, c, p);
        assert(all.take(p) =~= a.take(p));
        assert(all.skip(p + 1) =~= a.skip(p + 1) + seq![c] + b);
        splitting_undoes_joining(a.skip(p + 1), b, c);
        assert(crate::text::split(all, c) =~= crate::text::split(a, c) + crate::text::split(b, c));
    } else {
        crate::text::lemma_position_is(all, c, a.len() as int);
        assert(all.take(a.len() as int) =~= a);
        assert(all.skip(a.len() as int + 1) =~= b);
        assert(crate::text::split(a, c) =~= seq![a]);
    }
}

/// No part of a text holds the character that it is cut at, and there is always
/// a part.
pub proof fn parts_hold_no_separator(s: Seq<char>, c: char)
    ensures
        crate::text::split(s, c).len() > 0,
        forall|k: int|
            0 <= k < crate::text::split(s, c).len() ==> !(#[trigger] crate::text::split(
                s,
                c,
            )[k]).contains(c),
    decreases s.len(),
{
    crate::text::lemma_position(s, c);
    let p = crate::text::position(s, c);
    let all = crate::text::split(s, c);
    if p < s.len() {
        let later = crate::text::split(s.skip(p + 1), c);
        parts_hold_no_separator(s.skip(p + 1), c);
        assert forall|k: int| 0 <= k < all.len() implies !(#[trigger] all[k]).contains(c) by {
            if k > 0 {
                assert(all[k] == later[k - 1]);
            }
        }
    } else {
        assert(all[0] == s);
    }
}

/// A text without the character is its own only part.
pub proof fn plain_text_is_one_part(s: Seq<char>, c: char)
    requires
        !s.contains(c),
    ensures
        crate::text::split(s, c) == seq![s],
{
    crate::text::lemma_position(s, c);
}

proof fn lemma_trim_end(s: Seq<char>)
    ensures
        crate::text::trim_end(s).len() <= s.len(),
        crate::text::trim_end(s) == s.take(crate::text::trim_end(s).len() as int),
        crate::text::trim_end(s).len() > 0 ==> !crate::text::is_whitespace(
            crate::text::trim_end(s).last(),
        ),
        forall|k: int|
            crate::text::trim_end(s).len() <= k < s.len() ==> crate::text::is_whitespace(
                #[trigger] s[k],
            ),
    decreases s.len(),
{
    if s.len() > 0 && crate::text::is_whitespace(s.last()) {
        let rest = s.drop_last();
        lemma_trim_end(rest);
        let n = crate::text::trim_end(rest).len() as int;
        assert(rest.take(n) =~= s.take(n));
        assert forall|k: int| n <= k < s.len() implies crate::text::is_whitespace(
            #[trigger] s[k],
        ) by {
            if k < rest.len() {
                assert(s[k] == rest[k]);
            }
        }
    } else {
        assert(s.take(s.len() as int) =~= s);
    }
}

/// Trimming takes white space from both ends, all of it and nothing else.
pub proof fn trimming_takes_white_space_alone(s: Seq<char>) -> (from: int)
    ensures
        0 <= from,
        from + crate::text::trim(s).len() <= s.len(),
        crate::text::trim(s) == s.subrange(from, from + crate::text::trim(s).len()),
        forall|k: int| 0 <= k < from ==> crate::text::is_whitespace(#[trigger] s[k]),
        forall|k: int|
            from + crate::text::trim(s).len() <= k < s.len() ==> crate::text::is_whitespace(
                #[trigger] s[k],
            ),
        crate::text::trim(s).len() > 0 ==> !crate::text::is_whitespace(crate::text::trim(s)[0])
            && !crate::text::is_whitespace(crate::text::trim(s).last()),
{
    let rest = crate::text::trim_start(s);
    crate::text::lemma_trim_start(s);
    lemma_trim_end(rest);
    let from = s.len() - rest.len();
    let n = crate::text::trim(s).len() as int;
    assert(rest.take(n) =~= s.subrange(from, from + n));
    if n > 0 {
        assert(crate::text::trim(s)[0] == rest[0]);
    }
    assert forall|k: int| from + n <= k < s.len() implies crate::text::is_whitespace(
        #[trigger] s[k],
    ) by {
        assert(s[k] == rest[k - from]);
    }
    from
}

/// A text without white space at its ends is left as it is.
pub proof fn tight_text_stays(s: Seq<char>)
    requires
        s.len() > 0 ==> !crate::text::is_whitespace(s[0]) && !crate::text::is_whitespace(s.last()),
    ensures
        crate::text::trim(s) == s,
{
}

/// A line that ends with a line feed, with or without a carriage return before
/// it, comes before the lines of the rest.
pub proof fn lines_come_one_by_one(line: Seq<char>, rest: Seq<char>)
    requires
        !line.contains('\n'),
        line.len() > 0 ==> line.last() != '\r',
    ensures
        crate::text::lines(line + seq!['\n'] + rest) == seq![line] + crate::text::lines(rest),
        crate::text::lines(line + seq!['\r', '\n'] + rest) == seq![line] + crate::text::lines(rest),
        line.len() > 0 ==> crate::text::lines(line) == seq![line],
        crate::text::lines(Seq::empty()).len() == 0,
{
    crate::text::lemma_position(line, '\n');
    let n = line.len() as int;
    let a = line + seq!['\n'] + rest;
    assert forall|k: int| 0 <= k < n implies a[k] != '\n' by {
        assert(line.contains(line[k]));
    }
    crate::text::lemma_position_is(a, '\n', n);
    assert(a.take(n) =~= line);
    assert(a.skip(n + 1) =~= rest);
    let b = line + seq!['\r', '\n'] + rest;
    assert forall|k: int| 0 <= k < n + 1 implies b[k] != '\n' by {
        if k < n {
            assert(line.contains(line[k]));
        }
    }
    crate::text::lemma_position_is(b, '\n', n + 1);
    assert(b.take(n + 1).drop_last() =~= line);
    assert(b.skip(n + 2) =~= rest);
}

proof fn lemma_words_begun(done: Seq<Seq<char>>, begun: Seq<char>, s: Seq<char>)
    ensures
        crate::text::words_after(done, begun, s) == done + crate::text::words_after(
            Seq::empty(),
            begun,
            s,
        ),
        crate::text::spaced_after(done, begun, s) == done + crate::text::spaced_after(
            Seq::empty(),
            begun,
            s,
        ),
    decreases s.len(),
{
    let none = Seq::<Seq<char>>::empty();
    if s.len() == 0 {
        assert(done.push(begun) =~= done + none.push(begun));
        assert(done =~= done + none);
    } else {
        let rest = s.drop_first();
        lemma_words_begun(done.push(begun), Seq::empty(), rest);
        lemma_words_begun(none.push(begun), Seq::empty(), rest);
        lemma_words_begun(done, begun, rest);
        lemma_words_begun(done, begun.push(s[0]), rest);
        let w = crate::text::words_after(none, Seq::empty(), rest);
        let v = crate::text::spaced_after(none, Seq::empty(), rest);
        assert(done.push(begun) + w =~= done + (none.push(begun) + w));
        assert(done.push(begun) + v =~= done + (none.push(begun) + v));
    }
}

proof fn lemma_words_run(begun: Seq<char>, word: Seq<char>, gap: char, rest: Seq<char>)
    requires
        begun.len() + word.len() > 0,
    ensures
        (forall|k: int| 0 <= k < word.len() ==> !crate::text::is_ascii_whitespace(#[trigger] word[k]))
            && crate::text::is_ascii_whitespace(gap) ==> crate::text::words_after(
            Seq::empty(),
            begun,
            word + seq![gap] + rest,
        ) == seq![begun + word] + crate::text::words_after(Seq::empty(), Seq::empty(), rest),
        (forall|k: int| 0 <= k < word.len() ==> !crate::text::is_whitespace(#[trigger] word[k]))
            && crate::text::is_whitespace(gap) ==> crate::text::spaced_after(
            Seq::empty(),
            begun,
            word + seq![gap] + rest,
        ) == seq![begun + word] + crate::text::spaced_after(Seq::empty(), Seq::empty(), rest),
    decreases word.len(),
{
    let all = word + seq![gap] + rest;
    let none = Seq::<Seq<char>>::empty();
    if word.len() == 0 {
        assert(all.drop_first() =~= rest);
        assert(all[0] == gap);
        lemma_words_begun(none.push(begun), Seq::empty(), rest);
        assert(none.push(begun) =~= seq![begun + word]);
        assert(begun + word =~= begun);
    } else {
        let tail = word.drop_first();
        assert(all.drop_first() =~= tail + seq![gap] + rest);
        assert(all[0] == word[0]);
        lemma_words_run(begun.push(word[0]), tail, gap, rest);
        assert(begun.push(word[0]) + tail =~= begun + word);
        assert forall|k: int| 0 <= k < tail.len() implies #[trigger] tail[k] == word[k + 1] by {}
    }
}

/// A word that is followed by white space comes before the words of the rest.
pub proof fn words_come_one_by_one(word: Seq<char>, gap: char, rest: Seq<char>)
    requires
        word.len() > 0,
    ensures
        (forall|k: int| 0 <= k < word.len() ==> !crate::text::is_ascii_whitespace(#[trigger] word[k]))
            && crate::text::is_ascii_whitespace(gap) ==> crate::text::words(
            word + seq![gap] + rest,
        ) == seq![word] + crate::text::words(rest),
        (forall|k: int| 0 <= k < word.len() ==> !crate::text::is_whitespace(#[trigger] word[k]))
            && crate::text::is_whitespace(gap) ==> crate::text::spaced_words(
            word + seq![gap] + rest,
        ) == seq![word] + crate::text::spaced_words(rest),
{
    lemma_words_run(Seq::empty(), word, gap, rest);
    assert(Seq::<char>::empty() + word =~= word);
}

proof fn lemma_word_alone(begun: Seq<char>, s: Seq<char>)
    requires
        begun.len() + s.len() > 0,
        forall|k: int| 0 <= k < s.len() ==> !crate::text::is_ascii_whitespace(#[trigger] s[k]),
    ensures
        crate::text::words_after(Seq::empty(), begun, s) == seq![begun + s],
    decreases s.len(),
{
    if s.len() > 0 {
        let rest = s.drop_first();
        assert forall|k: int| 0 <= k < rest.len() implies !crate::text::is_ascii_whitespace(
            #[trigger] rest[k],
        ) by {
            assert(rest[k] == s[k + 1]);
        }
        assert(!crate::text::is_ascii_whitespace(s[0]));
        lemma_word_alone(begun.push(s[0]), rest);
        assert(begun.push(s[0]) + rest =~= begun + s);
    } else {
        assert(begun + s =~= begun);
        assert(Seq::<Seq<char>>::empty().push(begun) =~= seq![begun]);
    }
}

/// A text without white space is one word.
pub proof fn single_words_are_words(s: Seq<char>)
    requires
        s.len() > 0,
        forall|k: int| 0 <= k < s.len() ==> !crate::text::is_ascii_whitespace(#[trigger] s[k]),
    ensures
        crate::text::words(s) == seq![s],
{
    lemma_word_alone(Seq::empty(), s);
    assert(Seq::<char>::empty() + s =~= s);
}

/// White space before a word does not matter.
pub proof fn gaps_are_no_words(gap: char, rest: Seq<char>)
    ensures
        crate::text::is_ascii_whitespace(gap) ==> crate::text::words(seq![gap] + rest)
            == crate::text::words(rest),
        crate::text::is_whitespace(gap) ==> crate::text::spaced_words(seq![gap] + rest)
            == crate::text::spaced_words(rest),
{
    assert((seq![gap] + rest).drop_first() =~= rest);
}

/// Numbers come through text: what is written in decimal is read as the same
/// number, where it is not above the limit, and refused where it is.
pub proof fn numbers_come_through(n: nat, max: nat)
    ensures
        crate::text::parse_unsigned(crate::text::decimal(n), max) == (if n <= max {
            Some(n)
        } else {
            None::<nat>
        }),
{
    crate::text::lemma_decimal(n);
    assert(crate::text::is_ascii_digit(crate::text::decimal(n)[0]));
}

/// One more digit at the end makes a number ten times as large, and adds the
/// digit.
pub proof fn digits_count_tenfold(n: nat, d: nat)
    requires
        n > 0,
        d < 10,
    ensures
        crate::text::decimal(10 * n + d) == crate::text::decimal(n).push(
            ((48 + d) as u32) as char,
        ),
        crate::text::decimal(d) == seq![((48 + d) as u32) as char],
{
    assert((10 * n + d) / 10 == n);
    assert((10 * n + d) % 10 == d);
    assert('0' as u32 == 48);
}

/// Case is that of the letters A to Z alone: two texts agree up to case where
/// each two characters are the same, or a capital and its small letter.
pub proof fn case_is_that_of_letters(a: Seq<char>, b: Seq<char>)
    ensures
        crate::text::same_ignoring_case(a, b) == (a.len() == b.len() && forall|i: int|
            0 <= i < a.len() ==> {
                let x = #[trigger] a[i];
                let y = b[i];
                x == y || 'A' <= x <= 'Z' && y as int == x as int + 32 || 'A' <= y <= 'Z' && x as int
                    == y as int + 32
            }),
{
    let la = crate::text::lower_text(a);
    let lb = crate::text::lower_text(b);
    if la == lb {
        assert(la.len() == a.len());
        assert forall|i: int| 0 <= i < a.len() implies {
            let x = #[trigger] a[i];
            let y = b[i];
            x == y || 'A' <= x <= 'Z' && y as int == x as int + 32 || 'A' <= y <= 'Z' && x as int
                == y as int + 32
        } by {
            assert(la[i] == lb[i]);
        }
    } else if a.len() == b.len() && (forall|i: int|
        0 <= i < a.len() ==> {
            let x = #[trigger] a[i];
            let y = b[i];
            x == y || 'A' <= x <= 'Z' && y as int == x as int + 32 || 'A' <= y <= 'Z' && x as int
                == y as int + 32
        }) {
        assert forall|i: int| 0 <= i < a.len() implies la[i] == lb[i] by {
            let x = a[i];
        }
        assert(la =~= lb);
    }
}

proof fn lemma_join_tail(parts: Seq<Seq<char>>, last: Seq<char>, between: Seq<char>, i: int)
    requires
        1 <= i <= parts.len(),
    ensures
        crate::text::join_from(parts.push(last), between, i) == crate::text::join_from(
            parts,
            between,
            i,
        ) + between + last,
    decreases parts.len() - i,
{
    let all = parts.push(last);
    if i < parts.len() {
        lemma_join_tail(parts, last, between, i + 1);
        assert(all[i] == parts[i]);
        let rest = crate::text::join_from(parts, between, i + 1);
        assert(between + parts[i] + (rest + between + last) =~= between + parts[i] + rest + between
            + last);
    } else {
        assert(crate::text::join_from(all, between, i + 1) =~= Seq::<char>::empty());
        assert(between + last + Seq::<char>::empty() =~= Seq::<char>::empty() + between + last);
    }
}

/// One more part is joined behind the separator; the first stands alone.
pub proof fn parts_are_joined_in_order(parts: Seq<Seq<char>>, last: Seq<char>, between: Seq<char>)
    ensures
        crate::text::join(parts.push(last), between) == (if parts.len() == 0 {
            last
        } else {
            crate::text::join(parts, between) + between + last
        }),
{
    let all = parts.push(last);
    if parts.len() == 0 {
        assert(crate::text::join_from(all, between, 1) =~= Seq::<char>::empty());
        assert(last + Seq::<char>::empty() =~= last);
    } else {
        lemma_join_tail(parts, last, between, 1);
        assert(all[0] == parts[0]);
        let rest = crate::text::join_from(parts, between, 1);
        assert(parts[0] + (rest + between + last) =~= parts[0] + rest + between + last);
    }
}

/// A text with something before and behind it is still in there.
pub proof fn contained_text_can_be_cut_out(before: Seq<char>, part: Seq<char>, behind: Seq<char>)
    ensures
        crate::text::has_text(before + part + behind, part),
{
    let all = before + part + behind;
    let i = before.len() as int;
    assert(all.subrange(i, i + part.len()) =~= part);
}

/// Where a text stands in another, the other can be cut before and behind it.
pub proof fn containing_text_can_be_cut(s: Seq<char>, part: Seq<char>) -> (r: (Seq<char>, Seq<char>))
    requires
        crate::text::has_text(s, part),
    ensures
        s == r.0 + part + r.1,
{
    let i = choose|i: int|
        0 <= i && i + part.len() <= s.len() && #[trigger] s.subrange(i, i + part.len()) == part;
    let r = (s.take(i), s.skip(i + part.len()));
    assert(s =~= r.0 + s.subrange(i, i + part.len()) + r.1);
    r
}

/// Texts are in the order of the first character in which they differ; one that
/// begins the other comes first.
pub proof fn first_differences_decide(
    common: Seq<char>,
    x: char,
    y: char,
    a: Seq<char>,
    b: Seq<char>,
)
    requires
        x != y,
    ensures
        crate::text::text_less(common + seq![x] + a, common + seq![y] + b) == (x < y),
        crate::text::text_less(common, common + seq![x] + a),
        !crate::text::text_less(common + seq![x] + a, common),
        !crate::text::text_less(common, common),
    decreases common.len(),
{
    let s = common + seq![x] + a;
    let t = common + seq![y] + b;
    if common.len() > 0 {
        let rest = common.drop_first();
        assert(s.drop_first() =~= rest + seq![x] + a);
        assert(t.drop_first() =~= rest + seq![y] + b);
        first_differences_decide(rest, x, y, a, b);
    }
}

} // verus!
