//! Laws of taking files in: which paths a line names, which files a pattern
//! finds, and where their lines go.

use vstd::prelude::*;

use crate::openssh_env::EnvProblem;
use crate::openssh_include::DiskView;
use crate::openssh_include::EntryNameView;
use crate::openssh_include::IncludeCount;
use crate::openssh_include::IncludeFault;
use crate::openssh_include::IncludeProblem;
use crate::openssh_include::IncludeScope;
use crate::openssh_include::ListingView;
use crate::openssh_include::NodeKind;
use crate::pattern::Verdict;

verus! {

proof fn lemma_plain_run(done: Seq<Seq<char>>, begun: Seq<char>, s: Seq<char>)
    requires
        forall|i: int|
            0 <= i < s.len() ==> #[trigger] s[i] != '\\' && s[i] != '"' && s[i] != '\'' && s[i]
                != '#',
    ensures
        crate::openssh_include::arguments_after(done, begun, None, false, s) == Ok::<
            Seq<Seq<char>>,
            IncludeProblem,
        >(crate::text::words_after(done, begun, s)),
    decreases s.len(),
{
    if s.len() > 0 {
        let rest = s.drop_first();
        assert(s[0] != '\\');
        assert forall|i: int| 0 <= i < rest.len() implies #[trigger] rest[i] != '\\' && rest[i]
            != '"' && rest[i] != '\'' && rest[i] != '#' by {
            assert(rest[i] == s[i + 1]);
        }
        if crate::text::is_ascii_whitespace(s[0]) {
            if begun.len() > 0 {
                lemma_plain_run(done.push(begun), Seq::empty(), rest);
            } else {
                lemma_plain_run(done, Seq::empty(), rest);
                assert(begun =~= Seq::empty());
            }
        } else {
            lemma_plain_run(done, begun.push(s[0]), rest);
        }
    }
}

/// Without quotes, escapes and hash signs the arguments of a line are its words.
pub proof fn plain_arguments_are_words(s: Seq<char>)
    requires
        forall|i: int|
            0 <= i < s.len() ==> #[trigger] s[i] != '\\' && s[i] != '"' && s[i] != '\'' && s[i]
                != '#',
    ensures
        crate::openssh_include::parsed_arguments(s) == Ok::<Seq<Seq<char>>, IncludeProblem>(
            crate::text::words(s),
        ),
{
    lemma_plain_run(Seq::empty(), Seq::empty(), s);
}

proof fn lemma_quoted_run(begun: Seq<char>, quote: char, s: Seq<char>)
    requires
        quote == '"' || quote == '\'',
        begun.len() + s.len() > 0,
        forall|i: int| 0 <= i < s.len() ==> #[trigger] s[i] != '\\' && s[i] != quote,
    ensures
        crate::openssh_include::arguments_after(
            Seq::empty(),
            begun,
            Some(quote),
            false,
            s + seq![quote],
        ) == Ok::<Seq<Seq<char>>, IncludeProblem>(seq![begun + s]),
    decreases s.len(),
{
    let all = s + seq![quote];
    if s.len() > 0 {
        let rest = s.drop_first();
        assert(all[0] == s[0] && s[0] != '\\' && s[0] != quote);
        assert(all.drop_first() =~= rest + seq![quote]);
        assert forall|i: int| 0 <= i < rest.len() implies #[trigger] rest[i] != '\\' && rest[i]
            != quote by {
            assert(rest[i] == s[i + 1]);
        }
        lemma_quoted_run(begun.push(s[0]), quote, rest);
        assert(begun.push(s[0]) + rest =~= begun + s);
    } else {
        assert(all[0] == quote);
        assert(all.drop_first() =~= Seq::empty());
        assert(begun + s =~= begun);
        reveal_with_fuel(crate::openssh_include::arguments_after, 2);
        assert(Seq::<Seq<char>>::empty().push(begun) =~= seq![begun]);
    }
}

/// Text in quotes is one argument, white space and all; a quote that is not
/// closed is refused.
pub proof fn quoted_arguments_are_whole(s: Seq<char>, quote: char)
    requires
        quote == '"' || quote == '\'',
        s.len() > 0,
        forall|i: int| 0 <= i < s.len() ==> #[trigger] s[i] != '\\' && s[i] != quote,
    ensures
        crate::openssh_include::parsed_arguments(seq![quote] + s + seq![quote]) == Ok::<
            Seq<Seq<char>>,
            IncludeProblem,
        >(seq![s]),
{
    let all = seq![quote] + s + seq![quote];
    assert(all[0] == quote);
    assert(all.drop_first() =~= s + seq![quote]);
    lemma_quoted_run(Seq::empty(), quote, s);
    assert(Seq::<char>::empty() + s =~= s);
}

/// A path that may name files to take in.
pub open spec fn is_path(s: Seq<char>) -> bool {
    &&& 0 < s.len() && vstd::utf8::encode_utf8(s).len() <= 16384
    &&& !s.contains('%') && !s.contains('[') && !s.contains(']')
    &&& !crate::text::has_text(s, "${"@)
    &&& forall|i: int| 0 <= i < s.len() ==> !crate::text::is_control(#[trigger] s[i])
}

/// A path from the root stays as it is. One behind a tilde and a slash is below
/// the home, and any other one below `.ssh` there. That of another user is
/// refused.
pub proof fn paths_are_below_the_home(s: Seq<char>, home: Seq<char>)
    ensures
        !is_path(s) ==> crate::openssh_include::anchored(s, home) is Err,
        is_path(s) && s[0] == '/' ==> crate::openssh_include::anchored(s, home) == Ok::<
            Seq<char>,
            IncludeFault,
        >(s),
        is_path(s) && s == seq!['~'] ==> crate::openssh_include::anchored(s, home) == Ok::<
            Seq<char>,
            IncludeFault,
        >(home),
        is_path(s) && s.len() >= 2 && s[0] == '~' && s[1] == '/'
            ==> crate::openssh_include::anchored(s, home) == Ok::<Seq<char>, IncludeFault>(
            crate::paths::path_join(home, s.skip(2)),
        ),
        is_path(s) && s.len() >= 2 && s[0] == '~' && s[1] != '/' && s[1] != '\\'
            ==> crate::openssh_include::anchored(s, home) == Err::<Seq<char>, IncludeFault>(
            IncludeFault { problem: IncludeProblem::PathUser, subject: s },
        ),
        is_path(s) && s[0] != '/' && s[0] != '~' ==> crate::openssh_include::anchored(s, home)
            == Ok::<Seq<char>, IncludeFault>(
            crate::paths::path_join(crate::paths::path_join(home, ".ssh"@), s),
        ),
{
    reveal_strlit("~");
    assert("~"@ =~= seq!['~']);
    if crate::model::has_control(s) {
        let i = choose|i: int| 0 <= i < s.len() && crate::text::is_control(#[trigger] s[i]);
        assert(crate::text::is_control(s[i]));
    }
}

/// The name is found by the pattern: it matches, and is hidden only where the
/// pattern names hidden ones.
pub open spec fn is_found(name: EntryNameView, part: Seq<char>) -> bool {
    let hidden = name.name.len() > 0 && name.name[0] == '.';
    let asked = part.len() > 0 && part[0] == '.' || part.len() > 1 && part[0] == '\\' && part[1]
        == '.';
    &&& !hidden || asked
    &&& crate::pattern::glob(
        vstd::utf8::encode_utf8(part),
        vstd::utf8::encode_utf8(name.name),
    ) == Verdict::Yes
}

/// In a directory a pattern finds exactly the names that match it, in the order
/// of the listing, and 256 in all at most.
pub proof fn patterns_find_what_matches(
    found: Seq<Seq<char>>,
    names: Seq<EntryNameView>,
    j: int,
    part: Seq<char>,
    base: Seq<char>,
)
    requires
        0 <= j <= names.len(),
        found.len() <= 256,
    ensures
        crate::openssh_include::names_matched(found, names, j, part, base) matches Ok(out) ==> {
            &&& out == found + names.skip(j).filter(
                |n: EntryNameView| is_found(n, part),
            ).map_values(|n: EntryNameView| crate::paths::path_join(base, n.name))
            &&& out.len() <= 256
        },
    decreases names.len() - j,
{
    let f = |n: EntryNameView| is_found(n, part);
    let g = |n: EntryNameView| crate::paths::path_join(base, n.name);
    let rest = names.skip(j);
    if j < names.len() {
        crate::manager_law::lemma_filter_first(rest, f);
        assert(rest.skip(1) =~= names.skip(j + 1));
        let tail = names.skip(j + 1).filter(f);
        patterns_find_what_matches(found, names, j + 1, part, base);
        if f(names[j]) && found.len() < 256 {
            let more = found.push(g(names[j]));
            patterns_find_what_matches(more, names, j + 1, part, base);
            assert((seq![names[j]] + tail).map_values(g) =~= seq![g(names[j])] + tail.map_values(
                g,
            ));
            assert(more + tail.map_values(g) =~= found + (seq![g(names[j])] + tail.map_values(g)));
        }
    } else {
        reveal(Seq::filter);
        assert(rest =~= Seq::empty());
        assert(found + rest.filter(f).map_values(g) =~= found);
    }
}

/// Of the paths that are found the files are kept and those that are gone are
/// left out; anything else is refused.
pub proof fn files_are_kept_among_what_is_found(
    disk: DiskView,
    found: Seq<Seq<char>>,
    paths: Seq<Seq<char>>,
    i: int,
)
    requires
        0 <= i <= paths.len(),
    ensures
        crate::openssh_include::files_among(disk, found, paths, i) matches Ok(out) ==> {
            &&& out == found + paths.skip(i).filter(
                |p: Seq<char>| crate::text_map::lookup(disk.kinds, p) == Some(NodeKind::File),
            )
            &&& forall|k: int|
                i <= k < paths.len() ==> {
                    let kind = crate::text_map::lookup(disk.kinds, #[trigger] paths[k]);
                    kind == Some(NodeKind::File) || kind == Some(NodeKind::Missing)
                }
        },
    decreases paths.len() - i,
{
    let f = |p: Seq<char>| crate::text_map::lookup(disk.kinds, p) == Some(NodeKind::File);
    let rest = paths.skip(i);
    if i < paths.len() {
        crate::manager_law::lemma_filter_first(rest, f);
        assert(rest.skip(1) =~= paths.skip(i + 1));
        files_are_kept_among_what_is_found(disk, found, paths, i + 1);
        files_are_kept_among_what_is_found(disk, found.push(paths[i]), paths, i + 1);
        let tail = paths.skip(i + 1).filter(f);
        assert(found.push(paths[i]) + tail =~= found + (seq![paths[i]] + tail));
    } else {
        reveal(Seq::filter);
        assert(rest =~= Seq::empty());
        assert(found + rest.filter(f) =~= found);
    }
}

/// In several directories a pattern finds what it finds in each, one directory
/// after the other; one that is gone holds nothing.
pub proof fn directories_are_searched_in_order(
    disk: DiskView,
    found: Seq<Seq<char>>,
    bases: Seq<Seq<char>>,
    c: int,
    part: Seq<char>,
)
    requires
        0 <= c < bases.len(),
    ensures
        ({
            let directory = if bases[c].len() == 0 {
                seq!['.']
            } else {
                bases[c]
            };
            match crate::text_map::lookup(disk.listings, directory) {
                Some(ListingView::Names(names)) => match crate::openssh_include::names_matched(
                    found,
                    names,
                    0,
                    part,
                    bases[c],
                ) {
                    Ok(more) => crate::openssh_include::bases_matched(disk, found, bases, c, part)
                        == crate::openssh_include::bases_matched(disk, more, bases, c + 1, part),
                    Err(e) => crate::openssh_include::bases_matched(disk, found, bases, c, part)
                        == Err::<Seq<Seq<char>>, IncludeFault>(e),
                },
                Some(ListingView::Missing) => crate::openssh_include::bases_matched(
                    disk,
                    found,
                    bases,
                    c,
                    part,
                ) == crate::openssh_include::bases_matched(disk, found, bases, c + 1, part),
                _ => crate::openssh_include::bases_matched(disk, found, bases, c, part) is Err,
            }
        }),
        crate::openssh_include::bases_matched(disk, found, bases, bases.len() as int, part) == Ok::<
            Seq<Seq<char>>,
            IncludeFault,
        >(found),
{
    reveal_strlit(".");
    assert("."@ =~= seq!['.']);
}

proof fn lemma_ordered(kept: Seq<(Seq<char>, Seq<char>)>, paths: Seq<Seq<char>>, i: int)
    requires
        0 <= i <= paths.len(),
        crate::text_map::sorted(kept),
        forall|k: int|
            0 <= k < kept.len() ==> #[trigger] kept[k].0 == crate::openssh_include::order_key(
                kept[k].1,
            ),
    ensures
        ({
            let all = crate::openssh_include::ordered_from(kept, paths, i);
            &&& crate::text_map::sorted(all)
            &&& forall|k: int|
                0 <= k < all.len() ==> #[trigger] all[k].0 == crate::openssh_include::order_key(
                    all[k].1,
                )
            &&& forall|k: int|
                0 <= k < all.len() ==> paths.skip(i).contains(#[trigger] all[k].1)
                    || kept.contains(all[k])
            &&& forall|key: Seq<char>| #[trigger]
                crate::text_map::has_key(kept, key) ==> crate::text_map::has_key(all, key)
            &&& forall|j: int|
                i <= j < paths.len() ==> crate::text_map::has_key(
                    all,
                    crate::openssh_include::order_key(#[trigger] paths[j]),
                )
        }),
    decreases paths.len() - i,
{
    if i < paths.len() {
        let path = paths[i];
        let key = crate::openssh_include::order_key(path);
        let more = crate::text_map::put(kept, key, path);
        crate::text_map::lemma_put(kept, key, path);
        crate::text_map::lemma_rank(kept, key);
        let p = crate::text_map::rank(kept, key);
        assert forall|k: int| 0 <= k < more.len() implies #[trigger] more[k].0
            == crate::openssh_include::order_key(more[k].1) && (more[k] == (key, path)
            || kept.contains(more[k])) by {
            if p < kept.len() && kept[p].0 == key {
                if k != p {
                    assert(more[k] == kept[k]);
                }
            } else if k < p {
                assert(more[k] == kept[k]);
            } else if k > p {
                assert(more[k] == kept[k - 1]);
            }
        }
        lemma_ordered(more, paths, i + 1);
        let all = crate::openssh_include::ordered_from(more, paths, i + 1);
        let rest = paths.skip(i);
        assert(rest[0] == path);
        assert forall|k: int| 0 <= k < all.len() implies rest.contains(#[trigger] all[k].1)
            || kept.contains(all[k]) by {
            if paths.skip(i + 1).contains(all[k].1) {
                let later = paths.skip(i + 1);
                let j = choose|j: int| 0 <= j < later.len() && later[j] == all[k].1;
                assert(rest[j + 1] == all[k].1);
            } else {
                let m = choose|m: int| 0 <= m < more.len() && more[m] == all[k];
                assert(more[m].0 == crate::openssh_include::order_key(more[m].1));
            }
        }
        assert forall|other: Seq<char>| #[trigger]
            crate::text_map::has_key(kept, other) implies crate::text_map::has_key(all, other) by {
            crate::text_map::lemma_lookup(kept, other);
            crate::text_map::lemma_lookup(more, other);
            if other == key {
                assert(crate::text_map::lookup(more, key) is Some);
            }
            assert(crate::text_map::has_key(more, other));
        }
        crate::text_map::lemma_lookup(more, key);
        assert(crate::text_map::has_key(more, key));
        assert forall|j: int| i <= j < paths.len() implies crate::text_map::has_key(
            all,
            crate::openssh_include::order_key(#[trigger] paths[j]),
        ) by {
            if j == i {
                assert(crate::text_map::has_key(all, key));
            }
        }
    } else {
        assert forall|k: int| 0 <= k < kept.len() implies kept.contains(#[trigger] kept[k]) by {}
    }
}

/// Paths are put in the order of their parts, and each is among those that were
/// given; for each that was given there is one of the same place.
pub proof fn found_paths_are_put_in_order(paths: Seq<Seq<char>>)
    ensures
        ({
            let out = crate::openssh_include::ordered(paths);
            &&& forall|i: int, j: int|
                0 <= i < j < out.len() ==> crate::text::text_less(
                    crate::openssh_include::order_key(#[trigger] out[i]),
                    crate::openssh_include::order_key(#[trigger] out[j]),
                )
            &&& forall|i: int| 0 <= i < out.len() ==> paths.contains(#[trigger] out[i])
            &&& forall|j: int|
                0 <= j < paths.len() ==> exists|i: int|
                    0 <= i < out.len() && crate::openssh_include::order_key(#[trigger] out[i])
                        == crate::openssh_include::order_key(#[trigger] paths[j])
        }),
{
    let none = Seq::<(Seq<char>, Seq<char>)>::empty();
    lemma_ordered(none, paths, 0);
    let all = crate::openssh_include::ordered_from(none, paths, 0);
    let out = crate::openssh_include::ordered(paths);
    assert(paths.skip(0) =~= paths);
    assert forall|i: int, j: int| 0 <= i < j < out.len() implies crate::text::text_less(
        crate::openssh_include::order_key(#[trigger] out[i]),
        crate::openssh_include::order_key(#[trigger] out[j]),
    ) by {
        assert(out[i] == all[i].1 && out[j] == all[j].1);
        assert(crate::text::text_less(all[i].0, all[j].0));
    }
    assert forall|i: int| 0 <= i < out.len() implies paths.contains(#[trigger] out[i]) by {
        assert(out[i] == all[i].1);
    }
    assert forall|j: int| 0 <= j < paths.len() implies exists|i: int|
        0 <= i < out.len() && crate::openssh_include::order_key(#[trigger] out[i])
            == crate::openssh_include::order_key(#[trigger] paths[j]) by {
        let key = crate::openssh_include::order_key(paths[j]);
        assert(crate::text_map::has_key(all, key));
        let i = choose|i: int| 0 <= i < all.len() && #[trigger] all[i].0 == key;
        assert(out[i] == all[i].1);
    }
}

/// Lines of a file that count are all kept, in their order; where the
/// configuration is for one host, lines of a part that is not for it are all left
/// out.
pub proof fn lines_count_with_their_part(
    scope: IncludeScope,
    active: Seq<Seq<char>>,
    count: IncludeCount,
    out: Seq<char>,
    all: Seq<Seq<char>>,
    i: int,
    on: bool,
    never: bool,
    room: nat,
)
    requires
        0 <= i <= all.len(),
        forall|k: int|
            i <= k < all.len() ==> !crate::openssh_law::is_structural(#[trigger] all[k]),
    ensures
        crate::openssh_include::lines_expanded(
            scope,
            active,
            count,
            out,
            all,
            i,
            on,
            never,
            room,
        ) matches Ok((used, text)) ==> {
            &&& used == count
            &&& scope.host is None || on ==> text == all.skip(i).fold_left(
                out,
                |o: Seq<char>, line: Seq<char>| o + line + seq!['\n'],
            )
            &&& scope.host is Some && !on ==> text == out
        },
    decreases all.len() - i,
{
    let f = |o: Seq<char>, line: Seq<char>| o + line + seq!['\n'];
    let rest = all.skip(i);
    if i < all.len() {
        assert(!crate::openssh_law::is_structural(all[i]));
        let longer = out + all[i] + seq!['\n'];
        assert(out + (all[i] + seq!['\n']) =~= longer);
        lines_count_with_their_part(scope, active, count, out, all, i + 1, on, never, room);
        lines_count_with_their_part(scope, active, count, longer, all, i + 1, on, never, room);
        assert(rest =~= seq![all[i]] + all.skip(i + 1));
        rest.lemma_fold_left_alt(out, f);
        all.skip(i + 1).lemma_fold_left_alt(longer, f);
        assert(rest.subrange(1, rest.len() as int) =~= all.skip(i + 1));
    } else {
        assert(rest =~= Seq::empty());
    }
}

/// A file is not taken in while it is being taken in, nor below sixteen others,
/// nor after 256.
pub proof fn files_are_taken_in_to_a_limit(
    scope: IncludeScope,
    active: Seq<Seq<char>>,
    count: IncludeCount,
    path: Seq<char>,
    inherited: bool,
    never: bool,
    room: nat,
)
    ensures
        ({
            let taken = crate::openssh_include::file_expanded(
                scope,
                active,
                count,
                path,
                inherited,
                never,
                room,
            );
            &&& room == 0 ==> taken == Err::<(IncludeCount, Seq<char>), IncludeFault>(
                IncludeFault { problem: IncludeProblem::TooDeep, subject: path },
            )
            &&& room > 0 && count.files >= 256 ==> taken == Err::<
                (IncludeCount, Seq<char>),
                IncludeFault,
            >(IncludeFault { problem: IncludeProblem::TooManyFiles, subject: path })
            &&& taken is Ok ==> {
                &&& room > 0 && count.files < 256
                &&& crate::text_map::lookup(scope.disk.canonical, path) matches Some(Some(id))
                &&& !active.contains(id)
                &&& crate::text_map::lookup(scope.disk.contents, path) matches Some(Some(text))
                &&& count.bytes + vstd::utf8::encode_utf8(text).len() <= 4194304
            }
        }),
{
}

/// The configuration of a host is that of its file, behind a line for all hosts.
pub proof fn configurations_begin_for_all_hosts(
    disk: DiskView,
    root: Seq<char>,
    home: Seq<char>,
    host: Seq<char>,
)
    ensures
        crate::openssh_include::config_for_host(disk, root, home, host) matches Ok(text) ==> {
            &&& crate::openssh_include::file_expanded(
                IncludeScope { disk, home, host: Some(host) },
                Seq::empty(),
                IncludeCount { files: 0, bytes: 0 },
                root,
                true,
                false,
                17,
            ) matches Ok((_, lines))
            &&& text == "Host *\n"@ + lines
        },
        crate::openssh_include::config_for_catalog(disk, root, home) == (
        match crate::openssh_include::file_expanded(
            IncludeScope { disk, home, host: None },
            Seq::empty(),
            IncludeCount { files: 0, bytes: 0 },
            root,
            true,
            false,
            17,
        ) {
            Ok((_, lines)) => Ok::<Seq<char>, IncludeFault>(lines),
            Err(e) => Err(e),
        }),
{
}

/// What is taken in ends with a line end, unless it is nothing.
pub proof fn taken_in_text_ends_its_line(
    host: Option<Seq<char>>,
    out: Seq<char>,
    more: Seq<char>,
)
    ensures
        crate::openssh_include::with_file(host, out, more) matches Ok(text) ==> {
            &&& more.len() > 0 && more.last() == '\n' ==> text == out + more
            &&& more.len() > 0 && more.last() != '\n' ==> text == out + more + seq!['\n']
            &&& more.len() == 0 && host is Some ==> text == out
        },
{
    if more.len() == 0 {
        assert(out + more =~= out);
    }
}

/// In a path that is taken in, text without dollar and percent signs stays as it
/// is.
pub proof fn plain_text_is_not_expanded(
    text: Seq<char>,
    max: nat,
    variables: Seq<(Seq<char>, Seq<char>)>,
)
    requires
        !text.contains('$'),
        !text.contains('%'),
    ensures
        crate::openssh_env::with_references(Seq::empty(), text, max, variables) == (
        if vstd::utf8::encode_utf8(text).len() <= max {
            Ok::<Seq<char>, EnvProblem>(text)
        } else {
            Err(EnvProblem::TooLong)
        }),
{
    lemma_no_reference(text);
    crate::text::lemma_position(text, '%');
    if crate::text::position(text, '%') < text.len() {
        assert(text.contains('%'));
    }
    let none = Seq::<char>::empty();
    assert(none + text =~= text);
    assert(vstd::utf8::encode_utf8(none).len() == 0);
}

proof fn lemma_no_reference(text: Seq<char>)
    requires
        !text.contains('$'),
    ensures
        crate::openssh_env::reference_position(text) == text.len(),
    decreases text.len(),
{
    if text.len() > 0 {
        assert(text.contains(text[0]));
        let rest = text.drop_first();
        assert(!rest.contains('$')) by {
            if rest.contains('$') {
                let i = choose|i: int| 0 <= i < rest.len() && rest[i] == '$';
                assert(text[i + 1] == '$');
            }
        }
        lemma_no_reference(rest);
    }
}

/// A name between `${` and `}` stands for the value of the variable, and what
/// comes behind it follows; a variable that is not set is refused.
pub proof fn variables_stand_for_their_value(
    output: Seq<char>,
    name: Seq<char>,
    rest: Seq<char>,
    max: nat,
    variables: Seq<(Seq<char>, Seq<char>)>,
)
    requires
        name.len() > 0,
        !name.contains('}'),
        vstd::utf8::encode_utf8(output).len() <= max,
    ensures
        crate::openssh_env::with_references(
            output,
            seq!['$', '{'] + name + seq!['}'] + rest,
            max,
            variables,
        ) == (match crate::text_map::lookup(variables, name) {
            None => Err::<Seq<char>, EnvProblem>(EnvProblem::MissingVariable),
            Some(value) => if vstd::utf8::encode_utf8(output).len() + vstd::utf8::encode_utf8(
                value,
            ).len() > max {
                Err(EnvProblem::TooLong)
            } else {
                crate::openssh_env::with_references(output + value, rest, max, variables)
            },
        }),
{
    let all = seq!['$', '{'] + name + seq!['}'] + rest;
    assert(all[0] == '$' && all[1] == '{');
    assert(crate::openssh_env::reference_position(all) == 0);
    assert(all.take(0) =~= Seq::empty());
    let none = Seq::<char>::empty();
    assert(crate::text::position(none, '%') == 0) by {
        crate::text::lemma_position(none, '%');
    }
    assert(output + none =~= output);
    assert(vstd::utf8::encode_utf8(none).len() == 0);
    let tail = all.skip(2);
    let n = name.len() as int;
    assert(tail =~= name + seq!['}'] + rest);
    assert(tail[n] == '}');
    assert forall|i: int| 0 <= i < n implies #[trigger] tail[i] != '}' by {
        assert(tail[i] == name[i]);
        assert(name.contains(name[i]));
    }
    crate::text::lemma_position_is(tail, '}', n);
    assert(tail.take(n) =~= name);
    assert(tail.skip(n + 1) =~= rest);
}

/// Two percent signs stand for one; any other text behind one is refused.
pub proof fn percent_signs_are_doubled(output: Seq<char>, rest: Seq<char>, c: char, max: nat)
    requires
        vstd::utf8::encode_utf8(output).len() < max,
    ensures
        crate::openssh_env::with_percent(output, seq!['%', '%'] + rest, max)
            == crate::openssh_env::with_percent(output + seq!['%'], rest, max),
        c != '%' ==> crate::openssh_env::with_percent(output, seq!['%', c] + rest, max) == Err::<
            Seq<char>,
            EnvProblem,
        >(EnvProblem::UnsupportedPercent),
        crate::openssh_env::with_percent(output, seq!['%'], max) == Err::<Seq<char>, EnvProblem>(
            EnvProblem::IncompletePercent,
        ),
{
    let doubled = seq!['%', '%'] + rest;
    let other = seq!['%', c] + rest;
    let one = seq!['%'];
    let none = Seq::<char>::empty();
    crate::text::lemma_position_is(doubled, '%', 0);
    crate::text::lemma_position_is(other, '%', 0);
    crate::text::lemma_position_is(one, '%', 0);
    assert(doubled.take(0) =~= none);
    assert(other.take(0) =~= none);
    assert(one.take(0) =~= none);
    assert(output + none =~= output);
    assert(vstd::utf8::encode_utf8(none).len() == 0);
    assert(doubled.skip(2) =~= rest);
    assert(one.drop_first() =~= none);
    reveal_with_fuel(vstd::utf8::encode_utf8, 2);
    assert(vstd::utf8::encode_utf8(one).len() == 1);
}

/// The files of a pattern come in order, and none comes twice.
pub proof fn files_of_a_pattern_come_in_order(disk: DiskView, pattern: Seq<char>)
    ensures
        crate::openssh_include::pattern_files(disk, pattern) matches Ok(files) ==> forall|
            i: int,
            j: int,
        |
            0 <= i < j < files.len() ==> crate::text::text_less(
                crate::openssh_include::order_key(#[trigger] files[i]),
                crate::openssh_include::order_key(#[trigger] files[j]),
            ),
{
    let root = seq![crate::openssh_include::pattern_root(pattern)];
    let parts = crate::paths::path_parts(pattern);
    if let Ok(paths) = crate::openssh_include::parts_matched(disk, root, parts, 0) {
        if let Ok(found) = crate::openssh_include::files_among(disk, Seq::empty(), paths, 0) {
            found_paths_are_put_in_order(found);
        }
    }
}

/// A line speaks of a host where a setting below it counts for the host: a port that
/// another setting for all hosts does not give.
pub proof fn lines_speak_of_whom_they_set(line: Seq<char>, host: Seq<char>)
    ensures
        ({
            let probe = line + "\n  Port 65534\nHost *\n  Port 65535\n"@;
            let applies = crate::openssh_include::host_line_applies(line, host);
            match crate::config::openssh_lookup(probe, host, None) {
                Some(found) if crate::config::patterns_fit(probe) => applies == Ok::<
                    bool,
                    IncludeFault,
                >(found.port == Some(65534u16)),
                _ => applies is Err,
            }
        }),
{
}

} // verus!
