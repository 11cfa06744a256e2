//! Paths of the local system as text.

use vstd::prelude::*;
use vstd::string::*;

use crate::text::chars_of;
use crate::text::same_text;
use crate::text::split_on;

verus! {

/// The parts between slashes that say where a path leads. Empty parts and
/// `.` say nothing, except for a `.` at the very start.
pub open spec fn path_parts_from(parts: Seq<Seq<char>>, i: int) -> Seq<Seq<char>>
    decreases parts.len() - i,
{
    if i < 0 || i >= parts.len() {
        Seq::empty()
    } else if parts[i].len() == 0 || (i > 0 && parts[i] == "."@) {
        path_parts_from(parts, i + 1)
    } else {
        seq![parts[i]] + path_parts_from(parts, i + 1)
    }
}

pub open spec fn path_parts(path: Seq<char>) -> Seq<Seq<char>> {
    path_parts_from(crate::text::split(path, '/'), 0)
}

pub open spec fn is_absolute(path: Seq<char>) -> bool {
    path.len() > 0 && path[0] == '/'
}

/// Both texts name the same path.
pub open spec fn same_path(a: Seq<char>, b: Seq<char>) -> bool {
    is_absolute(a) == is_absolute(b) && path_parts(a) == path_parts(b)
}

/// The paths agree one by one.
pub open spec fn same_paths(a: Seq<Seq<char>>, b: Seq<Seq<char>>) -> bool {
    &&& a.len() == b.len()
    &&& forall|i: int| 0 <= i < a.len() ==> same_path(#[trigger] a[i], b[i])
}

pub open spec fn same_optional_path(a: Option<Seq<char>>, b: Option<Seq<char>>) -> bool {
    match (a, b) {
        (Some(x), Some(y)) => same_path(x, y),
        (None, None) => true,
        _ => false,
    }
}

pub fn significant_parts(path: &str) -> (r: Vec<String>)
    ensures
        crate::text::views(r@) == path_parts(path@),
{
    let parts = split_on(path, '/');
    let ghost all = crate::text::views(parts@);
    let mut out: Vec<String> = Vec::new();
    let mut i: usize = 0;
    assert(crate::text::views(out@) =~= Seq::<Seq<char>>::empty());
    assert(Seq::<Seq<char>>::empty() + path_parts_from(all, 0) =~= path_parts_from(all, 0));
    while i < parts.len()
        invariant
            all == crate::text::views(parts@),
            i <= parts@.len(),
            path_parts_from(all, 0) == crate::text::views(out@) + path_parts_from(all, i as int),
        decreases parts@.len() - i,
    {
        assert(all[i as int] == parts@[i as int]@);
        let part = parts[i].as_str();
        if !(part.is_empty() || (i > 0 && same_text(part, "."))) {
            let ghost before = out@;
            out.push(parts[i].clone());
            proof {
                crate::text::lemma_views_push(before, out@.last());
                assert(crate::text::views(out@) + path_parts_from(all, i + 1)
                    =~= crate::text::views(before) + (seq![all[i as int]] + path_parts_from(
                    all,
                    i + 1,
                )));
            }
        }
        i += 1;
    }
    assert(crate::text::views(out@) + path_parts_from(all, i as int) =~= crate::text::views(out@));
    out
}

pub fn absolute(path: &str) -> (r: bool)
    ensures
        r == is_absolute(path@),
{
    let chars = chars_of(path);
    chars.len() > 0 && chars[0] == '/'
}

pub fn paths_match(a: &str, b: &str) -> (r: bool)
    ensures
        r == same_path(a@, b@),
{
    if absolute(a) != absolute(b) {
        return false;
    }
    let left = significant_parts(a);
    let right = significant_parts(b);
    same_texts(&left, &right)
}

pub fn same_texts(a: &Vec<String>, b: &Vec<String>) -> (r: bool)
    ensures
        r == (crate::text::views(a@) == crate::text::views(b@)),
{
    let ghost va = crate::text::views(a@);
    let ghost vb = crate::text::views(b@);
    if a.len() != b.len() {
        assert(va.len() != vb.len());
        return false;
    }
    let mut i: usize = 0;
    while i < a.len()
        invariant
            va == crate::text::views(a@),
            vb == crate::text::views(b@),
            a@.len() == b@.len(),
            i <= a@.len(),
            forall|k: int| 0 <= k < i ==> va[k] == vb[k],
        decreases a@.len() - i,
    {
        assert(va[i as int] == a@[i as int]@);
        assert(vb[i as int] == b@[i as int]@);
        if a[i] != b[i] {
            return false;
        }
        i += 1;
    }
    assert(va =~= vb);
    true
}

pub fn path_lists_match(a: &Vec<String>, b: &Vec<String>) -> (r: bool)
    ensures
        r == same_paths(crate::text::views(a@), crate::text::views(b@)),
{
    let ghost va = crate::text::views(a@);
    let ghost vb = crate::text::views(b@);
    if a.len() != b.len() {
        return false;
    }
    let mut i: usize = 0;
    while i < a.len()
        invariant
            va == crate::text::views(a@),
            vb == crate::text::views(b@),
            a@.len() == b@.len(),
            i <= a@.len(),
            forall|k: int| 0 <= k < i ==> same_path(#[trigger] va[k], vb[k]),
        decreases a@.len() - i,
    {
        assert(va[i as int] == a@[i as int]@);
        assert(vb[i as int] == b@[i as int]@);
        if !paths_match(a[i].as_str(), b[i].as_str()) {
            assert(!same_path(va[i as int], vb[i as int]));
            return false;
        }
        i += 1;
    }
    true
}

pub fn optional_paths_match(a: &Option<String>, b: &Option<String>) -> (r: bool)
    ensures
        r == same_optional_path(crate::model::option_view(*a), crate::model::option_view(*b)),
{
    match (a, b) {
        (Some(x), Some(y)) => paths_match(x.as_str(), y.as_str()),
        (None, None) => true,
        _ => false,
    }
}

/// Naming the same path is an equivalence.
pub proof fn same_path_is_an_equivalence(a: Seq<char>, b: Seq<char>, c: Seq<char>)
    ensures
        same_path(a, a),
        same_path(a, b) == same_path(b, a),
        same_path(a, b) && same_path(b, c) ==> same_path(a, c),
{
}

/// `base` followed by `part`; an absolute `part` stands alone.
pub open spec fn path_join(base: Seq<char>, part: Seq<char>) -> Seq<char> {
    if is_absolute(part) {
        part
    } else if base.len() == 0 || base.last() == '/' {
        base + part
    } else {
        base + seq!['/'] + part
    }
}

pub fn join_path(base: &str, part: &str) -> (r: String)
    ensures
        r@ == path_join(base@, part@),
{
    if absolute(part) {
        return part.to_owned();
    }
    let chars = chars_of(base);
    let mut out = base.to_owned();
    if !(chars.len() == 0 || chars[chars.len() - 1] == '/') {
        out.push('/');
        assert(out@ =~= base@ + seq!['/']);
    }
    out.append(part);
    out
}

} // verus!
