//! Wildcard patterns over bytes.

use vstd::prelude::*;

verus! {

pub const STAR: u8 = 42;

pub const QUESTION: u8 = 63;

pub const BACKSLASH: u8 = 92;

/// `*` stands for any bytes, `?` for one byte, every other byte for itself.
pub open spec fn wildcard(p: Seq<u8>, s: Seq<u8>) -> bool
    decreases p.len(), s.len(),
{
    if p.len() == 0 {
        s.len() == 0
    } else if p[0] == STAR {
        wildcard(p.drop_first(), s) || (s.len() > 0 && wildcard(p, s.drop_first()))
    } else {
        s.len() > 0 && (p[0] == QUESTION || p[0] == s[0]) && wildcard(
            p.drop_first(),
            s.drop_first(),
        )
    }
}

/// Outcome of a match with a pattern that may hold escapes.
#[derive(Debug, Clone, Copy, PartialEq, Eq, Structural)]
pub enum Verdict {
    No,
    Yes,
    /// The pattern ends in the middle of an escape.
    Broken,
}

/// As `wildcard`, and a backslash makes the byte behind it stand for itself.
pub open spec fn glob(p: Seq<u8>, s: Seq<u8>) -> Verdict
    decreases p.len(), s.len(),
{
    if p.len() == 0 {
        if s.len() == 0 {
            Verdict::Yes
        } else {
            Verdict::No
        }
    } else if p[0] == STAR {
        let here = glob(p.drop_first(), s);
        if here is No && s.len() > 0 {
            glob(p, s.drop_first())
        } else {
            here
        }
    } else if p[0] == QUESTION {
        if s.len() > 0 {
            glob(p.drop_first(), s.drop_first())
        } else {
            Verdict::No
        }
    } else if p[0] == BACKSLASH {
        if p.len() < 2 {
            Verdict::Broken
        } else if s.len() > 0 && s[0] == p[1] {
            glob(p.skip(2), s.drop_first())
        } else {
            Verdict::No
        }
    } else if s.len() > 0 && s[0] == p[0] {
        glob(p.drop_first(), s.drop_first())
    } else {
        Verdict::No
    }
}

/// Row of the match table for the pattern from `i` on: `later` is the row for
/// the pattern from `i + 1` on.
fn wildcard_row(pattern: &[u8], candidate: &[u8], i: usize, later: &Vec<bool>) -> (r: Vec<bool>)
    requires
        i < pattern@.len(),
        later@.len() == candidate@.len() + 1,
        forall|j: int|
            0 <= j <= candidate@.len() ==> #[trigger] later@[j] == wildcard(
                pattern@.skip(i + 1),
                candidate@.skip(j),
            ),
    ensures
        r@.len() == candidate@.len() + 1,
        forall|j: int|
            0 <= j <= candidate@.len() ==> #[trigger] r@[j] == wildcard(
                pattern@.skip(i as int),
                candidate@.skip(j),
            ),
{
    let n = candidate.len();
    let mut row: Vec<bool> = Vec::new();
    let mut k: usize = 0;
    while k < n
        invariant
            k <= n,
            row@.len() == k,
        decreases n - k,
    {
        row.push(false);
        k += 1;
    }
    row.push(false);
    let ghost p = pattern@.skip(i as int);
    assert(p.drop_first() =~= pattern@.skip(i + 1));
    let c = pattern[i];
    let mut j: usize = n;
    loop
        invariant
            n == candidate@.len(),
            i < pattern@.len(),
            p == pattern@.skip(i as int),
            p.drop_first() == pattern@.skip(i + 1),
            c == p[0],
            row@.len() == n + 1,
            later@.len() == n + 1,
            j <= n,
            forall|m: int|
                0 <= m <= n ==> #[trigger] later@[m] == wildcard(
                    pattern@.skip(i + 1),
                    candidate@.skip(m),
                ),
            forall|m: int| j < m <= n ==> #[trigger] row@[m] == wildcard(p, candidate@.skip(m)),
        decreases j,
    {
        let ghost s = candidate@.skip(j as int);
        proof {
            if j < n {
                assert(s.drop_first() =~= candidate@.skip(j + 1));
                assert(s[0] == candidate@[j as int]);
            }
        }
        let value = if c == STAR {
            later[j] || (j < n && row[j + 1])
        } else {
            j < n && (c == QUESTION || c == candidate[j]) && later[j + 1]
        };
        assert(value == wildcard(p, s));
        row.set(j, value);
        if j == 0 {
            return row;
        }
        j -= 1;
    }
}

/// Tells whether a whole text matches a wildcard pattern.
pub fn wildcard_match(pattern: &[u8], candidate: &[u8]) -> (r: bool)
    ensures
        r == wildcard(pattern@, candidate@),
{
    let n = candidate.len();
    let mut row: Vec<bool> = Vec::new();
    let mut k: usize = 0;
    while k < n
        invariant
            k <= n,
            row@.len() == k,
            forall|m: int| 0 <= m < k ==> #[trigger] row@[m] == false,
        decreases n - k,
    {
        row.push(false);
        k += 1;
    }
    row.push(true);
    let mut i: usize = pattern.len();
    assert forall|j: int| 0 <= j <= n implies #[trigger] row@[j] == wildcard(
        pattern@.skip(i as int),
        candidate@.skip(j),
    ) by {
        assert(pattern@.skip(i as int).len() == 0);
        assert(candidate@.skip(j).len() == n - j);
    }
    while i > 0
        invariant
            i <= pattern@.len(),
            n == candidate@.len(),
            row@.len() == n + 1,
            forall|j: int|
                0 <= j <= n ==> #[trigger] row@[j] == wildcard(
                    pattern@.skip(i as int),
                    candidate@.skip(j),
                ),
        decreases i,
    {
        row = wildcard_row(pattern, candidate, i - 1, &row);
        i -= 1;
    }
    assert(pattern@.skip(0) =~= pattern@);
    assert(candidate@.skip(0) =~= candidate@);
    row[0]
}

/// Row of the match table for the pattern from `i` on, from the two rows
/// behind it.
fn glob_row(
    pattern: &[u8],
    candidate: &[u8],
    i: usize,
    later: &Vec<Verdict>,
    last: &Vec<Verdict>,
) -> (r: Vec<Verdict>)
    requires
        i < pattern@.len(),
        later@.len() == candidate@.len() + 1,
        last@.len() == candidate@.len() + 1,
        forall|j: int|
            0 <= j <= candidate@.len() ==> #[trigger] later@[j] == glob(
                pattern@.skip(i + 1),
                candidate@.skip(j),
            ),
        i + 2 <= pattern@.len() ==> forall|j: int|
            0 <= j <= candidate@.len() ==> #[trigger] last@[j] == glob(
                pattern@.skip(i + 2),
                candidate@.skip(j),
            ),
    ensures
        r@.len() == candidate@.len() + 1,
        forall|j: int|
            0 <= j <= candidate@.len() ==> #[trigger] r@[j] == glob(
                pattern@.skip(i as int),
                candidate@.skip(j),
            ),
{
    let n = candidate.len();
    let mut row: Vec<Verdict> = Vec::new();
    let mut k: usize = 0;
    while k < n
        invariant
            k <= n,
            row@.len() == k,
        decreases n - k,
    {
        row.push(Verdict::No);
        k += 1;
    }
    row.push(Verdict::No);
    let ghost p = pattern@.skip(i as int);
    assert(p.drop_first() =~= pattern@.skip(i + 1));
    let c = pattern[i];
    let mut j: usize = n;
    loop
        invariant
            n == candidate@.len(),
            i < pattern@.len(),
            p == pattern@.skip(i as int),
            p.drop_first() == pattern@.skip(i + 1),
            c == p[0],
            row@.len() == n + 1,
            later@.len() == n + 1,
            last@.len() == n + 1,
            j <= n,
            forall|m: int|
                0 <= m <= n ==> #[trigger] later@[m] == glob(
                    pattern@.skip(i + 1),
                    candidate@.skip(m),
                ),
            i + 2 <= pattern@.len() ==> forall|m: int|
                0 <= m <= n ==> #[trigger] last@[m] == glob(
                    pattern@.skip(i + 2),
                    candidate@.skip(m),
                ),
            forall|m: int| j < m <= n ==> #[trigger] row@[m] == glob(p, candidate@.skip(m)),
        decreases j,
    {
        let ghost s = candidate@.skip(j as int);
        proof {
            if j < n {
                assert(s.drop_first() =~= candidate@.skip(j + 1));
                assert(s[0] == candidate@[j as int]);
            }
            if p.len() >= 2 {
                assert(p.skip(2) =~= pattern@.skip(i + 2));
                assert(p[1] == pattern@[i + 1]);
            }
        }
        let value = if c == STAR {
            if later[j] == Verdict::No && j < n {
                row[j + 1]
            } else {
                later[j]
            }
        } else if c == QUESTION {
            if j < n {
                later[j + 1]
            } else {
                Verdict::No
            }
        } else if c == BACKSLASH {
            if pattern.len() - i < 2 {
                Verdict::Broken
            } else if j < n && candidate[j] == pattern[i + 1] {
                last[j + 1]
            } else {
                Verdict::No
            }
        } else if j < n && candidate[j] == c {
            later[j + 1]
        } else {
            Verdict::No
        };
        assert(value == glob(p, s));
        row.set(j, value);
        if j == 0 {
            return row;
        }
        j -= 1;
    }
}

/// Matches a whole name with a pattern that may hold escapes.
pub fn glob_match(pattern: &[u8], candidate: &[u8]) -> (r: Verdict)
    ensures
        r == glob(pattern@, candidate@),
{
    let n = candidate.len();
    let mut row: Vec<Verdict> = Vec::new();
    let mut last: Vec<Verdict> = Vec::new();
    let mut k: usize = 0;
    while k < n
        invariant
            k <= n,
            row@.len() == k,
            last@.len() == k,
            forall|m: int| 0 <= m < k ==> #[trigger] row@[m] == Verdict::No,
        decreases n - k,
    {
        row.push(Verdict::No);
        last.push(Verdict::No);
        k += 1;
    }
    row.push(Verdict::Yes);
    last.push(Verdict::No);
    let mut i: usize = pattern.len();
    assert forall|j: int| 0 <= j <= n implies #[trigger] row@[j] == glob(
        pattern@.skip(i as int),
        candidate@.skip(j),
    ) by {
        assert(pattern@.skip(i as int).len() == 0);
        assert(candidate@.skip(j).len() == n - j);
    }
    while i > 0
        invariant
            i <= pattern@.len(),
            n == candidate@.len(),
            row@.len() == n + 1,
            last@.len() == n + 1,
            forall|j: int|
                0 <= j <= n ==> #[trigger] row@[j] == glob(
                    pattern@.skip(i as int),
                    candidate@.skip(j),
                ),
            i + 1 <= pattern@.len() ==> forall|j: int|
                0 <= j <= n ==> #[trigger] last@[j] == glob(
                    pattern@.skip(i + 1),
                    candidate@.skip(j),
                ),
        decreases i,
    {
        let fresh = glob_row(pattern, candidate, i - 1, &row, &last);
        last = row;
        row = fresh;
        i -= 1;
    }
    assert(pattern@.skip(0) =~= pattern@);
    assert(candidate@.skip(0) =~= candidate@);
    row[0]
}

/// A pattern without escapes means the same with and without them.
pub proof fn glob_extends_wildcard(p: Seq<u8>, s: Seq<u8>)
    requires
        !p.contains(BACKSLASH),
    ensures
        glob(p, s) == if wildcard(p, s) {
            Verdict::Yes
        } else {
            Verdict::No
        },
    decreases p.len(), s.len(),
{
    if p.len() > 0 {
        let rest = p.drop_first();
        assert(p.contains(p[0]));
        assert(!rest.contains(BACKSLASH)) by {
            if rest.contains(BACKSLASH) {
                let k = choose|k: int| 0 <= k < rest.len() && rest[k] == BACKSLASH;
                assert(p[k + 1] == BACKSLASH);
            }
        }
        glob_extends_wildcard(rest, s);
        if s.len() > 0 {
            glob_extends_wildcard(rest, s.drop_first());
            if p[0] == STAR {
                glob_extends_wildcard(p, s.drop_first());
            }
        }
    }
}

/// A pattern without wildcards matches itself alone.
pub proof fn plain_pattern_matches_itself(p: Seq<u8>, s: Seq<u8>)
    requires
        !p.contains(STAR),
        !p.contains(QUESTION),
    ensures
        wildcard(p, s) == (p == s),
    decreases p.len(),
{
    if p.len() == 0 {
        assert(s.len() == 0 ==> p =~= s);
    } else {
        assert(p.contains(p[0]));
        if s.len() > 0 {
            let rest = p.drop_first();
            assert forall|k: int| 0 <= k < rest.len() implies rest[k] != STAR && rest[k]
                != QUESTION by {
                assert(p.contains(p[k + 1]));
                assert(rest[k] == p[k + 1]);
            }
            plain_pattern_matches_itself(rest, s.drop_first());
            if p[0] == s[0] && rest == s.drop_first() {
                assert(p =~= seq![p[0]] + rest);
                assert(s =~= seq![s[0]] + s.drop_first());
            }
        }
    }
}

/// Where a match that goes back to its last `*` stands: the place in the
/// pattern, the place in the text, and the last `*` with the place in the text
/// that was tried behind it.
pub struct Stand {
    pub at: int,
    pub text: int,
    pub star: Option<(int, int)>,
}

/// A match that takes a byte for itself wherever it can and goes back to the
/// last `*` alone. A `*` in the text is taken for itself too.
pub open spec fn retrying(p: Seq<u8>, s: Seq<u8>, stand: Stand) -> bool
    decreases
            match stand.star {
                Some(star) => s.len() - star.1,
                None => s.len() + 1int,
            },
            s.len() - stand.text + p.len() - stand.at,
{
    let at = stand.at;
    let text = stand.text;
    if !(0 <= at <= p.len() && 0 <= text <= s.len() && (stand.star matches Some(star) ==> 0
        <= star.0 < p.len() && 0 <= star.1 <= text)) {
        false
    } else if text == s.len() {
        only_stars(p, at)
    } else if at < p.len() && (p[at] == QUESTION || p[at] == s[text]) {
        retrying(p, s, Stand { at: at + 1, text: text + 1, star: stand.star })
    } else if at < p.len() && p[at] == STAR {
        retrying(p, s, Stand { at: at + 1, text, star: Some((at, text)) })
    } else {
        match stand.star {
            Some(star) => retrying(
                p,
                s,
                Stand { at: star.0 + 1, text: star.1 + 1, star: Some((star.0, star.1 + 1)) },
            ),
            None => false,
        }
    }
}

pub open spec fn only_stars(p: Seq<u8>, at: int) -> bool {
    forall|k: int| at <= k < p.len() ==> #[trigger] p[k] == STAR
}

pub open spec fn beginning() -> Stand {
    Stand { at: 0, text: 0, star: None }
}

/// Tells whether a whole text matches, going back to the last `*` alone.
pub fn retrying_match(pattern: &[u8], candidate: &[u8]) -> (r: bool)
    ensures
        r == retrying(pattern@, candidate@, beginning()),
{
    let mut at: usize = 0;
    let mut text: usize = 0;
    let mut has_star = false;
    let mut star: usize = 0;
    let mut tried: usize = 0;
    let ghost mut stand = beginning();
    while text < candidate.len()
        invariant
            stand == (Stand {
                at: at as int,
                text: text as int,
                star: if has_star {
                    Some((star as int, tried as int))
                } else {
                    None
                },
            }),
            at <= pattern@.len(),
            text <= candidate@.len(),
            has_star ==> star < pattern@.len() && tried <= text,
            retrying(pattern@, candidate@, beginning()) == retrying(pattern@, candidate@, stand),
        decreases
                if has_star {
                    candidate@.len() - tried
                } else {
                    candidate@.len() + 1int
                },
                candidate@.len() - text + pattern@.len() - at,
    {
        if at < pattern.len() && (pattern[at] == QUESTION || pattern[at] == candidate[text]) {
            at += 1;
            text += 1;
        } else if at < pattern.len() && pattern[at] == STAR {
            has_star = true;
            star = at;
            at += 1;
            tried = text;
        } else if has_star {
            at = star + 1;
            tried += 1;
            text = tried;
        } else {
            return false;
        }
        proof {
            stand =
            Stand {
                at: at as int,
                text: text as int,
                star: if has_star {
                    Some((star as int, tried as int))
                } else {
                    None
                },
            };
        }
    }
    let ghost end = at;
    while at < pattern.len() && pattern[at] == STAR
        invariant
            end <= at <= pattern@.len(),
            forall|k: int| end <= k < at ==> #[trigger] pattern@[k] == STAR,
        decreases pattern@.len() - at,
    {
        at += 1;
    }
    at == pattern.len()
}

/// A `*` may stand for more.
proof fn lemma_star_reaches(p: Seq<u8>, s: Seq<u8>, k: int)
    requires
        p.len() > 0,
        p[0] == STAR,
        0 <= k <= s.len(),
        wildcard(p, s.skip(k)),
    ensures
        wildcard(p, s),
    decreases k,
{
    if k > 0 {
        assert(s.drop_first().skip(k - 1) =~= s.skip(k));
        lemma_star_reaches(p, s.drop_first(), k - 1);
    } else {
        assert(s.skip(0) =~= s);
    }
}

/// What a `*` stands for ends somewhere.
proof fn lemma_star_ends(p: Seq<u8>, s: Seq<u8>) -> (k: int)
    requires
        p.len() > 0,
        p[0] == STAR,
        wildcard(p, s),
    ensures
        0 <= k <= s.len(),
        wildcard(p.drop_first(), s.skip(k)),
    decreases s.len(),
{
    if wildcard(p.drop_first(), s) {
        assert(s.skip(0) =~= s);
        0
    } else {
        let k = lemma_star_ends(p, s.drop_first());
        assert(s.drop_first().skip(k) =~= s.skip(k + 1));
        k + 1
    }
}

/// A part of a pattern without `*` takes as many bytes as it has.
proof fn lemma_plain_part(p: Seq<u8>, s: Seq<u8>, n: int)
    requires
        0 <= n <= p.len(),
        forall|k: int| 0 <= k < n ==> #[trigger] p[k] != STAR,
        wildcard(p, s),
    ensures
        n <= s.len(),
        wildcard(p.skip(n), s.skip(n)),
    decreases n,
{
    if n == 0 {
        assert(p.skip(0) =~= p);
        assert(s.skip(0) =~= s);
    } else {
        assert(p[0] != STAR);
        let rest = p.drop_first();
        assert forall|k: int| 0 <= k < n - 1 implies #[trigger] rest[k] != STAR by {
            assert(rest[k] == p[k + 1]);
        }
        lemma_plain_part(rest, s.drop_first(), n - 1);
        assert(rest.skip(n - 1) =~= p.skip(n));
        assert(s.drop_first().skip(n - 1) =~= s.skip(n));
    }
}

proof fn lemma_only_stars(p: Seq<u8>, at: int)
    requires
        0 <= at <= p.len(),
    ensures
        only_stars(p, at) == wildcard(p.skip(at), Seq::<u8>::empty()),
    decreases p.len() - at,
{
    if at < p.len() {
        lemma_only_stars(p, at + 1);
        assert(p.skip(at).drop_first() =~= p.skip(at + 1));
        assert(p.skip(at)[0] == p[at]);
        if only_stars(p, at + 1) && p[at] == STAR {
            assert(only_stars(p, at));
        }
    }
}

/// A later place in the text suits the pattern behind the last `*`.
spec fn may_go_back(p: Seq<u8>, s: Seq<u8>, star: Option<(int, int)>) -> bool {
    star matches Some((st, tried)) && exists|j: int|
        tried < j <= s.len() && wildcard(p.skip(st + 1), #[trigger] s.skip(j))
}

spec fn sound(p: Seq<u8>, s: Seq<u8>, stand: Stand) -> bool {
    &&& 0 <= stand.at <= p.len()
    &&& 0 <= stand.text <= s.len()
    &&& stand.star matches Some((st, tried)) ==> {
        &&& 0 <= st < stand.at
        &&& 0 <= tried <= stand.text
        &&& p[st] == STAR
        &&& stand.text - tried == stand.at - st - 1
        &&& forall|k: int| st < k < stand.at ==> #[trigger] p[k] != STAR
    }
}

proof fn lemma_retrying(p: Seq<u8>, s: Seq<u8>, stand: Stand)
    requires
        sound(p, s, stand),
        !s.contains(STAR),
    ensures
        retrying(p, s, stand) == (wildcard(p.skip(stand.at), s.skip(stand.text)) || may_go_back(
            p,
            s,
            stand.star,
        )),
    decreases
            match stand.star {
                Some(star) => s.len() - star.1,
                None => s.len() + 1int,
            },
            s.len() - stand.text + p.len() - stand.at,
{
    let at = stand.at;
    let text = stand.text;
    let rest = p.skip(at);
    let left = s.skip(text);
    if at < p.len() {
        assert(rest[0] == p[at]);
        assert(rest.drop_first() =~= p.skip(at + 1));
    }
    if text < s.len() {
        assert(left[0] == s[text]);
        assert(left.drop_first() =~= s.skip(text + 1));
        assert(s.contains(s[text]));
    }
    if text == s.len() {
        assert(left =~= Seq::<u8>::empty());
        lemma_only_stars(p, at);
        if may_go_back(p, s, stand.star) {
            let (st, tried) = stand.star->0;
            let j = choose|j: int|
                tried < j <= s.len() && wildcard(p.skip(st + 1), #[trigger] s.skip(j));
            let tail = p.skip(st + 1);
            assert forall|k: int| 0 <= k < at - st - 1 implies #[trigger] tail[k] != STAR by {
                assert(tail[k] == p[st + 1 + k]);
            }
            lemma_plain_part(tail, s.skip(j), at - st - 1);
        }
    } else if at < p.len() && (p[at] == QUESTION || p[at] == s[text]) {
        lemma_retrying(p, s, Stand { at: at + 1, text: text + 1, star: stand.star });
    } else if at < p.len() && p[at] == STAR {
        let next = Stand { at: at + 1, text, star: Some((at, text)) };
        lemma_retrying(p, s, next);
        if may_go_back(p, s, stand.star) {
            let (st, tried) = stand.star->0;
            let j = choose|j: int|
                tried < j <= s.len() && wildcard(p.skip(st + 1), #[trigger] s.skip(j));
            let tail = p.skip(st + 1);
            let n = at - st - 1;
            assert forall|k: int| 0 <= k < n implies #[trigger] tail[k] != STAR by {
                assert(tail[k] == p[st + 1 + k]);
            }
            lemma_plain_part(tail, s.skip(j), n);
            assert(tail.skip(n) =~= rest);
            assert(s.skip(j).skip(n) =~= left.skip(j - tried));
            lemma_star_reaches(rest, left, j - tried);
        }
        if wildcard(rest, left) {
            let k = lemma_star_ends(rest, left);
            assert(left.skip(k) =~= s.skip(text + k));
            if k > 0 {
                assert(may_go_back(p, s, next.star));
            } else {
                assert(s.skip(text) =~= left);
            }
        }
        if may_go_back(p, s, next.star) {
            let j = choose|j: int|
                text < j <= s.len() && wildcard(p.skip(at + 1), #[trigger] s.skip(j));
            assert(left.skip(j - text) =~= s.skip(j));
            assert(wildcard(rest, left.skip(j - text))) by {
                assert(rest[0] == STAR);
            }
            lemma_star_reaches(rest, left, j - text);
        }
    } else {
        assert(!wildcard(rest, left));
        match stand.star {
            Some((st, tried)) => {
                let next = Stand { at: st + 1, text: tried + 1, star: Some((st, tried + 1)) };
                lemma_retrying(p, s, next);
                if may_go_back(p, s, stand.star) {
                    let j = choose|j: int|
                        tried < j <= s.len() && wildcard(p.skip(st + 1), #[trigger] s.skip(j));
                    if j > tried + 1 {
                        assert(may_go_back(p, s, next.star));
                    }
                }
            },
            None => {},
        }
    }
}

/// On a text without `*`, going back to the last `*` alone finds every match.
pub proof fn going_back_once_is_enough(p: Seq<u8>, s: Seq<u8>)
    requires
        !s.contains(STAR),
    ensures
        retrying(p, s, beginning()) == wildcard(p, s),
{
    lemma_retrying(p, s, beginning());
    assert(p.skip(0) =~= p);
    assert(s.skip(0) =~= s);
}

} // verus!
