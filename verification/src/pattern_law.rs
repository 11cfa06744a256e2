//! Laws of patterns: what a star, a question mark and an escape stand for, and
//! that a pattern of two parts matches a text of two parts.

use vstd::prelude::*;

use crate::pattern::Verdict;

verus! {

/// A star stands for any bytes, a question mark for any one byte, and any other
/// byte for itself.
pub proof fn marks_stand_for_bytes(c: u8, s: Seq<u8>)
    ensures
        crate::pattern::wildcard(Seq::empty(), s) == (s.len() == 0),
        crate::pattern::wildcard(seq![42u8], s),
        crate::pattern::wildcard(seq![63u8], s) == (s.len() == 1),
        c != 42 && c != 63 ==> crate::pattern::wildcard(seq![c], s) == (s == seq![c]),
    decreases s.len(),
{
    reveal_with_fuel(crate::pattern::wildcard, 3);
    assert(seq![42u8].drop_first() =~= Seq::<u8>::empty());
    assert(seq![63u8].drop_first() =~= Seq::<u8>::empty());
    assert(seq![c].drop_first() =~= Seq::<u8>::empty());
    if s.len() > 0 {
        marks_stand_for_bytes(c, s.drop_first());
    }
    if s.len() == 1 {
        assert(s =~= seq![s[0]]);
    }
}

/// A pattern of two parts matches exactly the texts whose two parts, cut
/// somewhere, match the parts of the pattern.
pub proof fn patterns_match_part_by_part(p: Seq<u8>, q: Seq<u8>, s: Seq<u8>)
    ensures
        crate::pattern::wildcard(p + q, s) == exists|k: int|
            0 <= k <= s.len() && crate::pattern::wildcard(p, s.take(k)) && crate::pattern::wildcard(
                q,
                #[trigger] s.skip(k),
            ),
    decreases p.len(), s.len(),
{
    let all = p + q;
    if p.len() == 0 {
        assert(all =~= q);
        assert(s.skip(0) =~= s);
        assert(s.take(0) =~= Seq::<u8>::empty());
        if exists|k: int|
            0 <= k <= s.len() && crate::pattern::wildcard(p, s.take(k)) && crate::pattern::wildcard(
                q,
                #[trigger] s.skip(k),
            ) {
            let k = choose|k: int|
                0 <= k <= s.len() && crate::pattern::wildcard(p, s.take(k))
                    && crate::pattern::wildcard(q, #[trigger] s.skip(k));
            assert(s.take(k).len() == 0);
        }
    } else {
        let rest = p.drop_first();
        assert(all.drop_first() =~= rest + q);
        assert(all[0] == p[0]);
        patterns_match_part_by_part(rest, q, s);
        if s.len() > 0 {
            let t = s.drop_first();
            patterns_match_part_by_part(p, q, t);
            patterns_match_part_by_part(rest, q, t);
            assert forall|k: int| 0 <= k <= t.len() implies #[trigger] t.skip(k) == s.skip(k + 1)
                && s.take(k + 1).drop_first() == t.take(k) && s.take(k + 1).len() > 0 && s.take(
                k + 1,
            )[0] == s[0] by {
                assert(t.skip(k) =~= s.skip(k + 1));
                assert(s.take(k + 1).drop_first() =~= t.take(k));
            }
            assert forall|k: int| 0 < k <= s.len() implies s.take(k).len() > 0 && s.take(k)[0]
                == s[0] && s.take(k).drop_first() == t.take(k - 1) && t.skip(k - 1)
                == #[trigger] s.skip(k) by {
                assert(t.skip(k - 1) == s.skip(k));
            }
        }
        assert(s.take(0) =~= Seq::<u8>::empty());
        if crate::pattern::wildcard(all, s) {
            if p[0] == 42 && crate::pattern::wildcard(rest + q, s) {
                let k = choose|k: int|
                    0 <= k <= s.len() && crate::pattern::wildcard(rest, s.take(k))
                        && crate::pattern::wildcard(q, #[trigger] s.skip(k));
                assert(crate::pattern::wildcard(p, s.take(k)));
                assert(crate::pattern::wildcard(q, s.skip(k)));
            } else {
                let t = s.drop_first();
                let front = if p[0] == 42 {
                    p
                } else {
                    rest
                };
                let k = choose|k: int|
                    0 <= k <= t.len() && crate::pattern::wildcard(front, t.take(k))
                        && crate::pattern::wildcard(q, #[trigger] t.skip(k));
                assert(t.skip(k) == s.skip(k + 1));
                assert(crate::pattern::wildcard(p, s.take(k + 1)));
            }
        }
        if exists|k: int|
            0 <= k <= s.len() && crate::pattern::wildcard(p, s.take(k)) && crate::pattern::wildcard(
                q,
                #[trigger] s.skip(k),
            ) {
            let k = choose|k: int|
                0 <= k <= s.len() && crate::pattern::wildcard(p, s.take(k))
                    && crate::pattern::wildcard(q, #[trigger] s.skip(k));
            if p[0] == 42 && crate::pattern::wildcard(rest, s.take(k)) {
                assert(crate::pattern::wildcard(rest + q, s));
            } else {
                let t = s.drop_first();
                assert(0 < k);
                assert(t.skip(k - 1) == s.skip(k));
            }
        }
    }
}

/// Each byte with an escape before it.
pub open spec fn escaped(t: Seq<u8>) -> Seq<u8>
    decreases t.len(),
{
    if t.len() == 0 {
        Seq::empty()
    } else {
        seq![92u8, t[0]] + escaped(t.drop_first())
    }
}

/// Text that is escaped matches itself alone, whatever its bytes stand for
/// otherwise.
pub proof fn escaped_text_matches_itself(t: Seq<u8>, s: Seq<u8>)
    ensures
        crate::pattern::glob(escaped(t), s) == (if s == t {
            Verdict::Yes
        } else {
            Verdict::No
        }),
    decreases t.len(),
{
    if t.len() > 0 {
        assert(escaped(t).skip(2) =~= escaped(t.drop_first()));
        if s.len() > 0 {
            escaped_text_matches_itself(t.drop_first(), s.drop_first());
            if s[0] == t[0] {
                if s.drop_first() == t.drop_first() {
                    assert(s =~= seq![s[0]] + s.drop_first());
                    assert(t =~= seq![t[0]] + t.drop_first());
                }
            }
        }
    } else if s.len() == 0 {
        assert(s =~= t);
    }
}

/// A pattern is broken only where an escape has nothing behind it.
pub proof fn broken_patterns_end_with_an_escape(p: Seq<u8>, s: Seq<u8>)
    ensures
        crate::pattern::glob(p, s) is Broken ==> p.len() > 0 && p.last() == 92,
    decreases p.len(), s.len(),
{
    if p.len() > 0 {
        broken_patterns_end_with_an_escape(p.drop_first(), s);
        if s.len() > 0 {
            broken_patterns_end_with_an_escape(p.drop_first(), s.drop_first());
            broken_patterns_end_with_an_escape(p, s.drop_first());
            if p.len() >= 2 {
                broken_patterns_end_with_an_escape(p.skip(2), s.drop_first());
            }
        }
    }
}

} // verus!
