//! `Include` in OpenSSH configurations: which files a directive names, and
//! what a configuration says once they are put in its place.
//!
//! Nothing here touches a disk. What the disk holds is handed in as `Disk`;
//! where it does not say enough, the error tells what to look up next.

use vstd::prelude::*;
use vstd::string::*;

use crate::config::has_small_patterns;
use crate::config::parse_settings;
use crate::model::any_control;
use crate::openssh_match::directive_rest_of;
use crate::openssh_match::line_is_directive;
use crate::openssh_match::rewrite_supported_match_config;
use crate::openssh_match::MatchProblem;
use crate::paths::absolute;
use crate::paths::join_path;
use crate::pattern::glob_match;
use crate::pattern::Verdict;
use crate::text::byte_len;
use crate::text::chars_of;
use crate::text::contains_char;
use crate::text::contains_text;
use crate::text::lines_of;
use crate::text::same_text;
use crate::text::text_between;
use crate::text::texts_contain;
use crate::text_map::TextMap;

verus! {

pub const MAX_INCLUDE_DEPTH: usize = 16;

pub const MAX_INCLUDE_FILES: usize = 256;

pub const MAX_CONFIG_BYTES: usize = 4194304;

pub const MAX_INCLUDE_ARGUMENTS_PER_LINE: usize = 64;

pub const MAX_INCLUDE_PATH_BYTES: usize = 16384;

pub const MAX_GLOB_COMPONENT_BYTES: usize = 1024;

pub const ACTIVE_PROBE_PORT: u16 = 65534;

pub const FALLBACK_PROBE_PORT: u16 = 65535;

/// Why a configuration cannot be expanded. The first four say what has to be
/// looked up before it can be told.
#[derive(Debug, Clone, Copy, PartialEq, Eq, Structural)]
pub enum IncludeProblem {
    NeedCanonical,
    NeedContents,
    NeedListing,
    NeedKind,
    TooDeep,
    TooManyFiles,
    Unresolvable,
    Cycle,
    Unreadable,
    InputTooLarge,
    OutputTooLarge,
    HostLine,
    MatchLine,
    UnsupportedMatch(MatchProblem),
    IncompleteEscape,
    UnterminatedQuote,
    NoPath,
    TooManyPaths,
    EmptyPath,
    PathTooLong,
    PathControl,
    PathToken,
    PathEnvironment,
    PathBracket,
    PathUser,
    GlobTooLong,
    GlobEscape,
    GlobName,
    GlobTooMany,
    ListingFailed,
    NotAFile,
    InspectFailed,
}

#[derive(Debug, PartialEq, Eq)]
pub struct IncludeError {
    pub problem: IncludeProblem,
    pub subject: String,
}

#[verifier::ext_equal]
pub struct IncludeFault {
    pub problem: IncludeProblem,
    pub subject: Seq<char>,
}

impl View for IncludeError {
    type V = IncludeFault;

    open spec fn view(&self) -> IncludeFault {
        IncludeFault { problem: self.problem, subject: self.subject@ }
    }
}

fn include_error(problem: IncludeProblem, subject: &str) -> (r: IncludeError)
    ensures
        r@ == include_fault(problem, subject@),
{
    IncludeError { problem, subject: subject.to_owned() }
}

pub open spec fn include_fault(problem: IncludeProblem, subject: Seq<char>) -> IncludeFault {
    IncludeFault { problem, subject }
}

/// A name in a directory. One that is no text is kept as far as it is.
#[derive(Debug, PartialEq, Eq)]
pub struct EntryName {
    pub name: String,
    pub is_text: bool,
}

#[verifier::ext_equal]
pub struct EntryNameView {
    pub name: Seq<char>,
    pub is_text: bool,
}

impl View for EntryName {
    type V = EntryNameView;

    open spec fn view(&self) -> EntryNameView {
        EntryNameView { name: self.name@, is_text: self.is_text }
    }
}

/// What listing a directory gave.
#[derive(Debug, PartialEq, Eq)]
pub enum Listing {
    Missing,
    Failed,
    Names(Vec<EntryName>),
}

#[verifier::ext_equal]
pub enum ListingView {
    Missing,
    Failed,
    Names(Seq<EntryNameView>),
}

pub open spec fn entry_names(names: Seq<EntryName>) -> Seq<EntryNameView> {
    names.map_values(|n: EntryName| n@)
}

impl View for Listing {
    type V = ListingView;

    open spec fn view(&self) -> ListingView {
        match *self {
            Listing::Missing => ListingView::Missing,
            Listing::Failed => ListingView::Failed,
            Listing::Names(names) => ListingView::Names(entry_names(names@)),
        }
    }
}

/// What a path leads to.
#[derive(Debug, Clone, Copy, PartialEq, Eq, Structural)]
pub enum NodeKind {
    Missing,
    Failed,
    File,
    Other,
}

/// What is known of the disk. A canonical path or a text that could not be had
/// is kept as nothing.
#[derive(Debug, PartialEq, Eq)]
pub struct Disk {
    pub canonical: TextMap<Option<String>>,
    pub contents: TextMap<Option<String>>,
    pub listings: TextMap<Listing>,
    pub kinds: TextMap<NodeKind>,
}

#[verifier::ext_equal]
pub struct DiskView {
    pub canonical: Seq<(Seq<char>, Option<Seq<char>>)>,
    pub contents: Seq<(Seq<char>, Option<Seq<char>>)>,
    pub listings: Seq<(Seq<char>, ListingView)>,
    pub kinds: Seq<(Seq<char>, NodeKind)>,
}

pub open spec fn optional_view() -> spec_fn(Option<String>) -> Option<Seq<char>> {
    |t: Option<String>| crate::model::option_view(t)
}

pub open spec fn listing_view() -> spec_fn(Listing) -> ListingView {
    |l: Listing| l@
}

impl View for Disk {
    type V = DiskView;

    open spec fn view(&self) -> DiskView {
        DiskView {
            canonical: crate::text_map::map_entries(self.canonical.entries(), optional_view()),
            contents: crate::text_map::map_entries(self.contents.entries(), optional_view()),
            listings: crate::text_map::map_entries(self.listings.entries(), listing_view()),
            kinds: self.kinds.entries(),
        }
    }
}

impl Disk {
    /// A disk of which nothing is known.
    pub fn unknown() -> (r: Self)
        ensures
            r@.canonical.len() == 0,
            r@.contents.len() == 0,
            r@.listings.len() == 0,
            r@.kinds.len() == 0,
    {
        Disk {
            canonical: TextMap::new(),
            contents: TextMap::new(),
            listings: TextMap::new(),
            kinds: TextMap::new(),
        }
    }

    fn canonical_of(&self, path: &str) -> (r: Result<String, IncludeError>)
        ensures
            match r {
                Ok(id) => crate::text_map::lookup(self@.canonical, path@) == Some(Some(id@)),
                Err(e) => match crate::text_map::lookup(self@.canonical, path@) {
                    None => e@ == include_fault(IncludeProblem::NeedCanonical, path@),
                    Some(None) => e@ == include_fault(IncludeProblem::Unresolvable, path@),
                    Some(Some(_)) => false,
                },
            },
    {
        self.canonical.recall_order();
        proof {
            crate::text_map::lemma_map_entries(self.canonical.entries(), optional_view(), path@);
        }
        match self.canonical.get(path) {
            None => Err(include_error(IncludeProblem::NeedCanonical, path)),
            Some(None) => Err(include_error(IncludeProblem::Unresolvable, path)),
            Some(Some(id)) => Ok(id.clone()),
        }
    }

    fn contents_of(&self, path: &str) -> (r: Result<String, IncludeError>)
        ensures
            match r {
                Ok(id) => crate::text_map::lookup(self@.contents, path@) == Some(Some(id@)),
                Err(e) => match crate::text_map::lookup(self@.contents, path@) {
                    None => e@ == include_fault(IncludeProblem::NeedContents, path@),
                    Some(None) => e@ == include_fault(IncludeProblem::Unreadable, path@),
                    Some(Some(_)) => false,
                },
            },
    {
        self.contents.recall_order();
        proof {
            crate::text_map::lemma_map_entries(self.contents.entries(), optional_view(), path@);
        }
        match self.contents.get(path) {
            None => Err(include_error(IncludeProblem::NeedContents, path)),
            Some(None) => Err(include_error(IncludeProblem::Unreadable, path)),
            Some(Some(text)) => Ok(text.clone()),
        }
    }

    fn listing_of(&self, path: &str) -> (r: Option<&Listing>)
        ensures
            match r {
                Some(l) => crate::text_map::lookup(self@.listings, path@) == Some(l@),
                None => crate::text_map::lookup(self@.listings, path@) is None,
            },
    {
        self.listings.recall_order();
        proof {
            crate::text_map::lemma_map_entries(self.listings.entries(), listing_view(), path@);
        }
        self.listings.get(path)
    }
}

/// The arguments of an `Include` directive, read character by character. A
/// backslash keeps the meaning of a wildcard or backslash behind it from being
/// special later on.
pub open spec fn arguments_after(
    done: Seq<Seq<char>>,
    begun: Seq<char>,
    quote: Option<char>,
    escaped: bool,
    s: Seq<char>,
) -> Result<Seq<Seq<char>>, IncludeProblem>
    decreases s.len(),
{
    let finished = if begun.len() > 0 {
        done.push(begun)
    } else {
        done
    };
    if s.len() == 0 {
        if escaped {
            Err(IncludeProblem::IncompleteEscape)
        } else if quote is Some {
            Err(IncludeProblem::UnterminatedQuote)
        } else {
            Ok(finished)
        }
    } else {
        let c = s[0];
        let rest = s.drop_first();
        if escaped {
            let kept = if c == '*' || c == '?' || c == '\\' {
                begun.push('\\')
            } else {
                begun
            };
            arguments_after(done, kept.push(c), quote, false, rest)
        } else if c == '\\' && quote != Some('\'') {
            arguments_after(done, begun, quote, true, rest)
        } else if quote is Some {
            if c == quote->0 {
                arguments_after(done, begun, None, false, rest)
            } else {
                arguments_after(done, begun.push(c), quote, false, rest)
            }
        } else if c == '\'' || c == '"' {
            arguments_after(done, begun, Some(c), false, rest)
        } else if c == '#' {
            Ok(finished)
        } else if crate::text::is_ascii_whitespace(c) {
            arguments_after(finished, Seq::empty(), None, false, rest)
        } else {
            arguments_after(done, begun.push(c), None, false, rest)
        }
    }
}

pub open spec fn parsed_arguments(s: Seq<char>) -> Result<Seq<Seq<char>>, IncludeProblem> {
    arguments_after(Seq::empty(), Seq::empty(), None, false, s)
}

/// Splits the arguments of an `Include` directive.
pub fn parse_arguments(input: &str) -> (r: Result<Vec<String>, IncludeProblem>)
    ensures
        match r {
            Ok(list) => parsed_arguments(input@) == Ok::<Seq<Seq<char>>, IncludeProblem>(
                crate::text::views(list@),
            ),
            Err(e) => parsed_arguments(input@) == Err::<Seq<Seq<char>>, IncludeProblem>(e),
        },
{
    let chars = chars_of(input);
    let mut done: Vec<String> = Vec::new();
    let mut begun = String::new();
    let mut quote: Option<char> = None;
    let mut escaped = false;
    let mut i: usize = 0;
    assert(crate::text::views(done@) =~= Seq::<Seq<char>>::empty());
    assert(input@.skip(0) =~= input@);
    while i < chars.len()
        invariant
            chars@ == input@,
            i <= chars@.len(),
            parsed_arguments(input@) == arguments_after(
                crate::text::views(done@),
                begun@,
                quote,
                escaped,
                input@.skip(i as int),
            ),
        decreases chars@.len() - i,
    {
        let c = chars[i];
        let ghost rest = input@.skip(i as int);
        assert(rest[0] == c);
        assert(rest.drop_first() =~= input@.skip(i + 1));
        if escaped {
            if c == '*' || c == '?' || c == '\\' {
                begun.push('\\');
            }
            begun.push(c);
            escaped = false;
        } else {
            let single = match quote {
                Some(q) => q == '\'',
                None => false,
            };
            if c == '\\' && !single {
                escaped = true;
            } else {
                match quote {
                    Some(q) => {
                        if c == q {
                            quote = None;
                        } else {
                            begun.push(c);
                        }
                    },
                    None => {
                        if c == '\'' || c == '"' {
                            quote = Some(c);
                        } else if c == '#' {
                            if !begun.as_str().is_empty() {
                                proof {
                                    crate::text::lemma_views_push(done@, begun);
                                }
                                done.push(begun);
                            }
                            return Ok(done);
                        } else if crate::text::ascii_whitespace(c) {
                            if !begun.as_str().is_empty() {
                                proof {
                                    crate::text::lemma_views_push(done@, begun);
                                }
                                done.push(begun);
                            }
                            begun = String::new();
                        } else {
                            begun.push(c);
                        }
                    },
                }
            }
        }
        i += 1;
    }
    if escaped {
        return Err(IncludeProblem::IncompleteEscape);
    }
    if quote.is_some() {
        return Err(IncludeProblem::UnterminatedQuote);
    }
    if !begun.as_str().is_empty() {
        proof {
            crate::text::lemma_views_push(done@, begun);
        }
        done.push(begun);
    }
    Ok(done)
}

/// The path of an `Include` argument; a relative one is taken from the user's
/// `.ssh` directory. What would need expansions that are not supported is
/// refused.
pub open spec fn anchored(value: Seq<char>, home: Seq<char>) -> Result<Seq<char>, IncludeFault> {
    if value.len() == 0 {
        Err(include_fault(IncludeProblem::EmptyPath, value))
    } else if crate::text::utf8_len(value) > MAX_INCLUDE_PATH_BYTES {
        Err(include_fault(IncludeProblem::PathTooLong, value))
    } else if crate::model::has_control(value) {
        Err(include_fault(IncludeProblem::PathControl, value))
    } else if value.contains('%') {
        Err(include_fault(IncludeProblem::PathToken, value))
    } else if crate::text::has_text(value, "${"@) {
        Err(include_fault(IncludeProblem::PathEnvironment, value))
    } else if value.contains('[') || value.contains(']') {
        Err(include_fault(IncludeProblem::PathBracket, value))
    } else if value == "~"@ {
        Ok(home)
    } else if value.len() >= 2 && value[0] == '~' && (value[1] == '/' || value[1] == '\\') {
        Ok(crate::paths::path_join(home, value.skip(2)))
    } else if value[0] == '~' {
        Err(include_fault(IncludeProblem::PathUser, value))
    } else if crate::paths::is_absolute(value) {
        Ok(value)
    } else {
        Ok(crate::paths::path_join(crate::paths::path_join(home, ".ssh"@), value))
    }
}

fn anchor_user_include(value: &str, home: &str) -> (r: Result<String, IncludeError>)
    ensures
        match r {
            Ok(path) => anchored(value@, home@) == Ok::<Seq<char>, IncludeFault>(path@),
            Err(e) => anchored(value@, home@) == Err::<Seq<char>, IncludeFault>(e@),
        },
{
    if value.is_empty() {
        return Err(include_error(IncludeProblem::EmptyPath, value));
    }
    if byte_len(value) > MAX_INCLUDE_PATH_BYTES {
        return Err(include_error(IncludeProblem::PathTooLong, value));
    }
    if any_control(value) {
        return Err(include_error(IncludeProblem::PathControl, value));
    }
    if contains_char(value, '%') {
        return Err(include_error(IncludeProblem::PathToken, value));
    }
    if contains_text(value, "${") {
        return Err(include_error(IncludeProblem::PathEnvironment, value));
    }
    if contains_char(value, '[') || contains_char(value, ']') {
        return Err(include_error(IncludeProblem::PathBracket, value));
    }
    if same_text(value, "~") {
        return Ok(home.to_owned());
    }
    let chars = chars_of(value);
    if chars.len() >= 2 && chars[0] == '~' && (chars[1] == '/' || chars[1] == '\\') {
        let rest = text_between(chars.as_slice(), 2, chars.len());
        assert(rest@ =~= value@.skip(2));
        return Ok(join_path(home, rest.as_str()));
    }
    if chars[0] == '~' {
        return Err(include_error(IncludeProblem::PathUser, value));
    }
    if absolute(value) {
        return Ok(value.to_owned());
    }
    let ssh = join_path(home, ".ssh");
    Ok(join_path(ssh.as_str(), value))
}

/// The part holds a wildcard.
pub open spec fn has_wildcard(part: Seq<char>) -> bool {
    part.contains('*') || part.contains('?')
}

/// The pattern starts with a period, so it may match hidden names.
pub open spec fn names_hidden(part: Seq<char>) -> bool {
    (part.len() > 0 && part[0] == '.') || (part.len() > 1 && part[0] == '\\' && part[1] == '.')
}

/// The paths found so far with those of the names from index `j` on that match.
pub open spec fn names_matched(
    found: Seq<Seq<char>>,
    names: Seq<EntryNameView>,
    j: int,
    part: Seq<char>,
    base: Seq<char>,
) -> Result<Seq<Seq<char>>, IncludeFault>
    decreases names.len() - j,
{
    if j < 0 || j >= names.len() {
        Ok(found)
    } else {
        let name = names[j].name;
        if !names_hidden(part) && name.len() > 0 && name[0] == '.' {
            names_matched(found, names, j + 1, part, base)
        } else if !names[j].is_text {
            Err(include_fault(IncludeProblem::GlobName, part))
        } else {
            match crate::pattern::glob(
                vstd::utf8::encode_utf8(part),
                vstd::utf8::encode_utf8(name),
            ) {
                Verdict::Broken => Err(include_fault(IncludeProblem::GlobEscape, part)),
                Verdict::No => names_matched(found, names, j + 1, part, base),
                Verdict::Yes => if found.len() >= MAX_INCLUDE_FILES {
                    Err(include_fault(IncludeProblem::GlobTooMany, part))
                } else {
                    names_matched(
                        found.push(crate::paths::path_join(base, name)),
                        names,
                        j + 1,
                        part,
                        base,
                    )
                },
            }
        }
    }
}

/// The directory to list for a path under construction.
pub open spec fn listed_directory(base: Seq<char>) -> Seq<char> {
    if base.len() == 0 {
        "."@
    } else {
        base
    }
}

/// The paths that a part with wildcards leads to, from the bases from index
/// `c` on.
pub open spec fn bases_matched(
    disk: DiskView,
    found: Seq<Seq<char>>,
    bases: Seq<Seq<char>>,
    c: int,
    part: Seq<char>,
) -> Result<Seq<Seq<char>>, IncludeFault>
    decreases bases.len() - c,
{
    if c < 0 || c >= bases.len() {
        Ok(found)
    } else {
        let directory = listed_directory(bases[c]);
        match crate::text_map::lookup(disk.listings, directory) {
            None => Err(include_fault(IncludeProblem::NeedListing, directory)),
            Some(ListingView::Missing) => bases_matched(disk, found, bases, c + 1, part),
            Some(ListingView::Failed) => Err(
                include_fault(IncludeProblem::ListingFailed, directory),
            ),
            Some(ListingView::Names(names)) => match names_matched(found, names, 0, part, bases[c]) {
                Err(e) => Err(e),
                Ok(more) => bases_matched(disk, more, bases, c + 1, part),
            },
        }
    }
}

/// Key by which paths are put in order, part by part.
pub open spec fn order_key_from(parts: Seq<Seq<char>>, i: int) -> Seq<char>
    decreases parts.len() - i,
{
    if i < 0 || i >= parts.len() {
        Seq::empty()
    } else {
        parts[i] + seq!['\0'] + order_key_from(parts, i + 1)
    }
}

pub open spec fn order_key(path: Seq<char>) -> Seq<char> {
    order_key_from(crate::text::split(path, '/'), 0)
}

/// The paths from index `i` on, put in order among `kept`, each once.
pub open spec fn ordered_from(
    kept: Seq<(Seq<char>, Seq<char>)>,
    paths: Seq<Seq<char>>,
    i: int,
) -> Seq<(Seq<char>, Seq<char>)>
    decreases paths.len() - i,
{
    if i < 0 || i >= paths.len() {
        kept
    } else {
        ordered_from(crate::text_map::put(kept, order_key(paths[i]), paths[i]), paths, i + 1)
    }
}

/// The paths in order, each once.
pub open spec fn ordered(paths: Seq<Seq<char>>) -> Seq<Seq<char>> {
    ordered_from(Seq::empty(), paths, 0).map_values(|e: (Seq<char>, Seq<char>)| e.1)
}

/// The paths that the parts of a pattern from index `i` on lead to.
pub open spec fn parts_matched(
    disk: DiskView,
    bases: Seq<Seq<char>>,
    parts: Seq<Seq<char>>,
    i: int,
) -> Result<Seq<Seq<char>>, IncludeFault>
    decreases parts.len() - i,
{
    if i < 0 || i >= parts.len() {
        Ok(bases)
    } else if has_wildcard(parts[i]) {
        if crate::text::utf8_len(parts[i]) > MAX_GLOB_COMPONENT_BYTES {
            Err(include_fault(IncludeProblem::GlobTooLong, parts[i]))
        } else {
            match bases_matched(disk, Seq::empty(), bases, 0, parts[i]) {
                Err(e) => Err(e),
                Ok(found) => parts_matched(disk, ordered(found), parts, i + 1),
            }
        }
    } else {
        parts_matched(
            disk,
            bases.map_values(|b: Seq<char>| crate::paths::path_join(b, parts[i])),
            parts,
            i + 1,
        )
    }
}

/// Those of the paths from index `i` on that lead to files.
pub open spec fn files_among(
    disk: DiskView,
    found: Seq<Seq<char>>,
    paths: Seq<Seq<char>>,
    i: int,
) -> Result<Seq<Seq<char>>, IncludeFault>
    decreases paths.len() - i,
{
    if i < 0 || i >= paths.len() {
        Ok(found)
    } else {
        match crate::text_map::lookup(disk.kinds, paths[i]) {
            None => Err(include_fault(IncludeProblem::NeedKind, paths[i])),
            Some(NodeKind::File) => files_among(disk, found.push(paths[i]), paths, i + 1),
            Some(NodeKind::Other) => Err(include_fault(IncludeProblem::NotAFile, paths[i])),
            Some(NodeKind::Missing) => files_among(disk, found, paths, i + 1),
            Some(NodeKind::Failed) => Err(include_fault(IncludeProblem::InspectFailed, paths[i])),
        }
    }
}

pub open spec fn pattern_root(pattern: Seq<char>) -> Seq<char> {
    if crate::paths::is_absolute(pattern) {
        seq!['/']
    } else {
        Seq::empty()
    }
}

/// The files that a path pattern names, in order. A pattern that matches
/// nothing names no file.
pub open spec fn pattern_files(disk: DiskView, pattern: Seq<char>) -> Result<
    Seq<Seq<char>>,
    IncludeFault,
> {
    match parts_matched(disk, seq![pattern_root(pattern)], crate::paths::path_parts(pattern), 0) {
        Err(e) => Err(e),
        Ok(paths) => match files_among(disk, Seq::empty(), paths, 0) {
            Err(e) => Err(e),
            Ok(files) => Ok(ordered(files)),
        },
    }
}

fn hidden_named(part: &str) -> (r: bool)
    ensures
        r == names_hidden(part@),
{
    let chars = chars_of(part);
    (chars.len() > 0 && chars[0] == '.') || (chars.len() > 1 && chars[0] == '\\' && chars[1] == '.')
}

fn match_names(
    found: &mut Vec<String>,
    names: &Vec<EntryName>,
    part: &str,
    base: &str,
) -> (r: Result<(), IncludeError>)
    ensures
        match r {
            Ok(()) => names_matched(
                crate::text::views(old(found)@),
                entry_names(names@),
                0,
                part@,
                base@,
            ) == Ok::<Seq<Seq<char>>, IncludeFault>(crate::text::views(final(found)@)),
            Err(e) => names_matched(
                crate::text::views(old(found)@),
                entry_names(names@),
                0,
                part@,
                base@,
            ) == Err::<Seq<Seq<char>>, IncludeFault>(e@),
        },
{
    let ghost all = entry_names(names@);
    let ghost start = crate::text::views(found@);
    let hidden = hidden_named(part);
    let mut j: usize = 0;
    while j < names.len()
        invariant
            all == entry_names(names@),
            hidden == names_hidden(part@),
            j <= names@.len(),
            start == crate::text::views(old(found)@),
            names_matched(start, all, 0, part@, base@) == names_matched(
                crate::text::views(found@),
                all,
                j as int,
                part@,
                base@,
            ),
        decreases names@.len() - j,
    {
        assert(all[j as int] == names@[j as int]@);
        let name = names[j].name.as_str();
        let chars = chars_of(name);
        if !(!hidden && chars.len() > 0 && chars[0] == '.') {
            if !names[j].is_text {
                return Err(include_error(IncludeProblem::GlobName, part));
            }
            match glob_match(part.as_bytes(), name.as_bytes()) {
                Verdict::Broken => {
                    return Err(include_error(IncludeProblem::GlobEscape, part));
                },
                Verdict::No => {},
                Verdict::Yes => {
                    if found.len() >= MAX_INCLUDE_FILES {
                        return Err(include_error(IncludeProblem::GlobTooMany, part));
                    }
                    let path = join_path(base, name);
                    proof {
                        crate::text::lemma_views_push(found@, path);
                    }
                    found.push(path);
                },
            }
        }
        j += 1;
    }
    Ok(())
}

fn match_bases(disk: &Disk, bases: &Vec<String>, part: &str) -> (r: Result<
    Vec<String>,
    IncludeError,
>)
    ensures
        match r {
            Ok(found) => bases_matched(
                disk@,
                Seq::empty(),
                crate::text::views(bases@),
                0,
                part@,
            ) == Ok::<Seq<Seq<char>>, IncludeFault>(crate::text::views(found@)),
            Err(e) => bases_matched(
                disk@,
                Seq::empty(),
                crate::text::views(bases@),
                0,
                part@,
            ) == Err::<Seq<Seq<char>>, IncludeFault>(e@),
        },
{
    let ghost all = crate::text::views(bases@);
    let mut found: Vec<String> = Vec::new();
    assert(crate::text::views(found@) =~= Seq::<Seq<char>>::empty());
    let mut c: usize = 0;
    while c < bases.len()
        invariant
            all == crate::text::views(bases@),
            c <= bases@.len(),
            bases_matched(disk@, Seq::empty(), all, 0, part@) == bases_matched(
                disk@,
                crate::text::views(found@),
                all,
                c as int,
                part@,
            ),
        decreases bases@.len() - c,
    {
        assert(all[c as int] == bases@[c as int]@);
        let base = bases[c].as_str();
        let directory = if base.is_empty() {
            "."
        } else {
            base
        };
        match disk.listing_of(directory) {
            None => {
                return Err(include_error(IncludeProblem::NeedListing, directory));
            },
            Some(Listing::Missing) => {},
            Some(Listing::Failed) => {
                return Err(include_error(IncludeProblem::ListingFailed, directory));
            },
            Some(Listing::Names(names)) => {
                match_names(&mut found, names, part, base)?;
            },
        }
        c += 1;
    }
    Ok(found)
}

fn order_key_of(path: &str) -> (r: String)
    ensures
        r@ == order_key(path@),
{
    let parts = crate::text::split_on(path, '/');
    let ghost all = crate::text::views(parts@);
    let mut out = String::new();
    let mut i: usize = 0;
    assert(out@ + order_key_from(all, 0) =~= order_key_from(all, 0));
    while i < parts.len()
        invariant
            all == crate::text::views(parts@),
            i <= parts@.len(),
            order_key_from(all, 0) == out@ + order_key_from(all, i as int),
        decreases parts@.len() - i,
    {
        assert(all[i as int] == parts@[i as int]@);
        let ghost before = out@;
        out.append(parts[i].as_str());
        out.push('\0');
        assert(out@ + order_key_from(all, i + 1) =~= before + (all[i as int] + seq!['\0']
            + order_key_from(all, i + 1)));
        i += 1;
    }
    assert(out@ + order_key_from(all, i as int) =~= out@);
    out
}

fn in_order(paths: &Vec<String>) -> (r: Vec<String>)
    ensures
        crate::text::views(r@) == ordered(crate::text::views(paths@)),
{
    let ghost all = crate::text::views(paths@);
    let mut kept: TextMap<String> = TextMap::new();
    let ghost f = crate::openssh_env::text_view();
    assert(crate::text_map::map_entries(kept.entries(), f) =~= Seq::<
        (Seq<char>, Seq<char>),
    >::empty());
    let mut i: usize = 0;
    while i < paths.len()
        invariant
            all == crate::text::views(paths@),
            f == crate::openssh_env::text_view(),
            i <= paths@.len(),
            ordered_from(Seq::empty(), all, 0) == ordered_from(
                crate::text_map::map_entries(kept.entries(), f),
                all,
                i as int,
            ),
        decreases paths@.len() - i,
    {
        assert(all[i as int] == paths@[i as int]@);
        let key = order_key_of(paths[i].as_str());
        let count = kept.len();
        let path = paths[i].clone();
        proof {
            crate::text_map::lemma_map_entries(kept.entries(), f, key@);
            assert(f(path) == path@);
        }
        kept.insert(key, path);
        i += 1;
    }
    let count = kept.len();
    let mut out: Vec<String> = Vec::new();
    let mut j: usize = 0;
    while j < count
        invariant
            count == kept.entries().len(),
            j <= count,
            out@.len() == j,
            forall|k: int| 0 <= k < j ==> (#[trigger] out@[k])@ == kept.entries()[k].1@,
        decreases count - j,
    {
        out.push(kept.value_at(j).clone());
        j += 1;
    }
    assert(crate::text::views(out@) =~= ordered(all));
    out
}

fn match_parts(disk: &Disk, root: &str, parts: &Vec<String>) -> (r: Result<
    Vec<String>,
    IncludeError,
>)
    ensures
        match r {
            Ok(paths) => parts_matched(
                disk@,
                seq![root@],
                crate::text::views(parts@),
                0,
            ) == Ok::<Seq<Seq<char>>, IncludeFault>(crate::text::views(paths@)),
            Err(e) => parts_matched(
                disk@,
                seq![root@],
                crate::text::views(parts@),
                0,
            ) == Err::<Seq<Seq<char>>, IncludeFault>(e@),
        },
{
    let ghost all = crate::text::views(parts@);
    let mut bases: Vec<String> = Vec::new();
    bases.push(root.to_owned());
    assert(crate::text::views(bases@) =~= seq![root@]);
    let mut i: usize = 0;
    while i < parts.len()
        invariant
            all == crate::text::views(parts@),
            i <= parts@.len(),
            parts_matched(disk@, seq![root@], all, 0) == parts_matched(
                disk@,
                crate::text::views(bases@),
                all,
                i as int,
            ),
        decreases parts@.len() - i,
    {
        assert(all[i as int] == parts@[i as int]@);
        let part = parts[i].as_str();
        if contains_char(part, '*') || contains_char(part, '?') {
            if byte_len(part) > MAX_GLOB_COMPONENT_BYTES {
                return Err(include_error(IncludeProblem::GlobTooLong, part));
            }
            let found = match_bases(disk, &bases, part)?;
            bases = in_order(&found);
        } else {
            let mut longer: Vec<String> = Vec::new();
            let mut b: usize = 0;
            while b < bases.len()
                invariant
                    b <= bases@.len(),
                    longer@.len() == b,
                    forall|k: int|
                        0 <= k < b ==> (#[trigger] longer@[k])@ == crate::paths::path_join(
                            bases@[k]@,
                            part@,
                        ),
                decreases bases@.len() - b,
            {
                longer.push(join_path(bases[b].as_str(), part));
                b += 1;
            }
            assert(crate::text::views(longer@) =~= crate::text::views(bases@).map_values(
                |x: Seq<char>| crate::paths::path_join(x, all[i as int]),
            ));
            bases = longer;
        }
        i += 1;
    }
    Ok(bases)
}

/// The files that a path pattern names, in order and each once.
pub fn expand_path_pattern(disk: &Disk, pattern: &str) -> (r: Result<Vec<String>, IncludeError>)
    ensures
        match r {
            Ok(files) => pattern_files(disk@, pattern@) == Ok::<Seq<Seq<char>>, IncludeFault>(
                crate::text::views(files@),
            ),
            Err(e) => pattern_files(disk@, pattern@) == Err::<Seq<Seq<char>>, IncludeFault>(e@),
        },
{
    let parts = crate::paths::significant_parts(pattern);
    let root = if absolute(pattern) {
        "/"
    } else {
        ""
    };
    proof {
        reveal_strlit("/");
        reveal_strlit("");
        assert("/"@ =~= seq!['/']);
        assert(""@ =~= Seq::<char>::empty());
    }
    let paths = match_parts(disk, root, &parts)?;
    let ghost all = crate::text::views(paths@);
    let mut files: Vec<String> = Vec::new();
    assert(crate::text::views(files@) =~= Seq::<Seq<char>>::empty());
    let mut i: usize = 0;
    while i < paths.len()
        invariant
            all == crate::text::views(paths@),
            i <= paths@.len(),
            parts_matched(
                disk@,
                seq![pattern_root(pattern@)],
                crate::paths::path_parts(pattern@),
                0,
            ) == Ok::<Seq<Seq<char>>, IncludeFault>(all),
            files_among(disk@, Seq::empty(), all, 0) == files_among(
                disk@,
                crate::text::views(files@),
                all,
                i as int,
            ),
        decreases paths@.len() - i,
    {
        assert(all[i as int] == paths@[i as int]@);
        let path = paths[i].as_str();
        match disk.kinds.get(path) {
            None => {
                return Err(include_error(IncludeProblem::NeedKind, path));
            },
            Some(NodeKind::File) => {
                let file = path.to_owned();
                proof {
                    crate::text::lemma_views_push(files@, file);
                }
                files.push(file);
            },
            Some(NodeKind::Other) => {
                return Err(include_error(IncludeProblem::NotAFile, path));
            },
            Some(NodeKind::Missing) => {},
            Some(NodeKind::Failed) => {
                return Err(include_error(IncludeProblem::InspectFailed, path));
            },
        }
        i += 1;
    }
    Ok(in_order(&files))
}

/// What a line is tried out in: it applies to a host exactly where the first
/// port is found.
pub open spec fn probe_of(line: Seq<char>) -> Seq<char> {
    line + "\n  Port 65534\nHost *\n  Port 65535\n"@
}

/// Whether the first block of a probe applies. Nothing, where the probe cannot
/// be read.
pub open spec fn probe_applies(probe: Seq<char>, host: Seq<char>) -> Option<bool> {
    if !crate::config::patterns_fit(probe) {
        None
    } else {
        match crate::config::openssh_lookup(probe, host, None) {
            None => None,
            Some(found) => Some(found.port == Some(ACTIVE_PROBE_PORT)),
        }
    }
}

/// Whether a `Host` line applies to the host.
pub open spec fn host_line_applies(line: Seq<char>, host: Seq<char>) -> Result<bool, IncludeFault> {
    match probe_applies(probe_of(line), host) {
        None => Err(include_fault(IncludeProblem::HostLine, line)),
        Some(applies) => Ok(applies),
    }
}

/// Whether a `Match` line applies to the host.
pub open spec fn match_line_applies(line: Seq<char>, host: Seq<char>) -> Result<bool, IncludeFault> {
    match crate::openssh_match::rewritten(probe_of(line), host) {
        Err(problem) => Err(include_fault(IncludeProblem::UnsupportedMatch(problem), line)),
        Ok(text) => match probe_applies(text, host) {
            None => Err(include_fault(IncludeProblem::MatchLine, line)),
            Some(applies) => Ok(applies),
        },
    }
}

/// What a whole expansion works on: the disk, the home directory, and the host
/// that is asked for. Without a host all blocks are kept.
#[verifier::ext_equal]
pub struct IncludeScope {
    pub disk: DiskView,
    pub home: Seq<char>,
    pub host: Option<Seq<char>>,
}

/// How much has been read so far.
#[derive(Debug, Clone, Copy, PartialEq, Eq, Structural)]
pub struct IncludeCount {
    pub files: usize,
    pub bytes: usize,
}

/// The text with another behind it, as far as it stays within the limit.
pub open spec fn with_text(out: Seq<char>, more: Seq<char>) -> Result<Seq<char>, IncludeFault> {
    if crate::text::utf8_len(out) + crate::text::utf8_len(more) > MAX_CONFIG_BYTES {
        Err(include_fault(IncludeProblem::OutputTooLarge, Seq::empty()))
    } else {
        Ok(out + more)
    }
}

/// The text of a file put behind another, closed by a line end. Where a host is
/// asked for, a file without text adds nothing.
pub open spec fn with_file(host: Option<Seq<char>>, out: Seq<char>, more: Seq<char>) -> Result<
    Seq<char>,
    IncludeFault,
> {
    match with_text(out, more) {
        Err(e) => Err(e),
        Ok(longer) => if more.len() > 0 && more.last() == '\n' || more.len() == 0 && host is Some {
            Ok(longer)
        } else {
            with_text(longer, seq!['\n'])
        },
    }
}

/// What a file says once its `Include` directives are replaced, with `room`
/// levels of files left, itself counted. `active` holds the files that are open
/// around it. It speaks for the host only where `inherited` holds and `never`
/// does not; `never` holds in all that it takes in from a part that does not
/// apply.
pub open spec fn file_expanded(
    scope: IncludeScope,
    active: Seq<Seq<char>>,
    count: IncludeCount,
    path: Seq<char>,
    inherited: bool,
    never: bool,
    room: nat,
) -> Result<(IncludeCount, Seq<char>), IncludeFault>
    decreases room, 0nat, 0int,
{
    if room == 0 {
        Err(include_fault(IncludeProblem::TooDeep, path))
    } else if count.files >= MAX_INCLUDE_FILES {
        Err(include_fault(IncludeProblem::TooManyFiles, path))
    } else {
        match crate::text_map::lookup(scope.disk.canonical, path) {
            None => Err(include_fault(IncludeProblem::NeedCanonical, path)),
            Some(None) => Err(include_fault(IncludeProblem::Unresolvable, path)),
            Some(Some(id)) => if active.contains(id) {
                Err(include_fault(IncludeProblem::Cycle, path))
            } else {
                match crate::text_map::lookup(scope.disk.contents, path) {
                    None => Err(include_fault(IncludeProblem::NeedContents, path)),
                    Some(None) => Err(include_fault(IncludeProblem::Unreadable, path)),
                    Some(Some(text)) => if count.bytes + crate::text::utf8_len(text)
                        > MAX_CONFIG_BYTES {
                        Err(include_fault(IncludeProblem::InputTooLarge, path))
                    } else {
                        lines_expanded(
                            scope,
                            active.push(id),
                            IncludeCount {
                                files: (count.files + 1) as usize,
                                bytes: (count.bytes + crate::text::utf8_len(text)) as usize,
                            },
                            Seq::empty(),
                            crate::text::lines(text),
                            0,
                            inherited && !never,
                            never,
                            (room - 1) as nat,
                        )
                    },
                }
            },
        }
    }
}

/// The lines of a file from index `i` on, put behind `out`. `on` tells whether
/// they apply to the host.
pub open spec fn lines_expanded(
    scope: IncludeScope,
    active: Seq<Seq<char>>,
    count: IncludeCount,
    out: Seq<char>,
    all: Seq<Seq<char>>,
    i: int,
    on: bool,
    never: bool,
    room: nat,
) -> Result<(IncludeCount, Seq<char>), IncludeFault>
    decreases room, 3nat, all.len() - i,
{
    if i < 0 || i >= all.len() {
        Ok((count, out))
    } else {
        let line = all[i];
        if scope.host is Some && crate::openssh_match::is_directive(line, "host"@) {
            match host_line_applies(line, scope.host->0) {
                Err(e) => Err(e),
                Ok(applies) => lines_expanded(
                    scope,
                    active,
                    count,
                    out,
                    all,
                    i + 1,
                    !never && applies,
                    never,
                    room,
                ),
            }
        } else if scope.host is Some && crate::openssh_match::is_directive(line, "match"@) {
            match match_line_applies(line, scope.host->0) {
                Err(e) => Err(e),
                Ok(applies) => lines_expanded(
                    scope,
                    active,
                    count,
                    out,
                    all,
                    i + 1,
                    !never && applies,
                    never,
                    room,
                ),
            }
        } else if crate::openssh_match::is_directive(line, "include"@) {
            match parsed_arguments(crate::openssh_match::directive_rest(line)) {
                Err(problem) => Err(include_fault(problem, line)),
                Ok(arguments) => if arguments.len() == 0 {
                    Err(include_fault(IncludeProblem::NoPath, line))
                } else if arguments.len() > MAX_INCLUDE_ARGUMENTS_PER_LINE {
                    Err(include_fault(IncludeProblem::TooManyPaths, line))
                } else {
                    match arguments_expanded(
                        scope,
                        active,
                        count,
                        out,
                        arguments,
                        0,
                        on,
                        never,
                        room,
                    ) {
                        Err(e) => Err(e),
                        Ok((used, longer)) => lines_expanded(
                            scope,
                            active,
                            used,
                            longer,
                            all,
                            i + 1,
                            on,
                            never,
                            room,
                        ),
                    }
                },
            }
        } else if scope.host is None || on {
            match with_text(out, line + seq!['\n']) {
                Err(e) => Err(e),
                Ok(longer) => lines_expanded(
                    scope,
                    active,
                    count,
                    longer,
                    all,
                    i + 1,
                    on,
                    never,
                    room,
                ),
            }
        } else {
            lines_expanded(scope, active, count, out, all, i + 1, on, never, room)
        }
    }
}

/// What the arguments of an `Include` from index `k` on name, put behind `out`.
pub open spec fn arguments_expanded(
    scope: IncludeScope,
    active: Seq<Seq<char>>,
    count: IncludeCount,
    out: Seq<char>,
    arguments: Seq<Seq<char>>,
    k: int,
    on: bool,
    never: bool,
    room: nat,
) -> Result<(IncludeCount, Seq<char>), IncludeFault>
    decreases room, 2nat, arguments.len() - k,
{
    if k < 0 || k >= arguments.len() {
        Ok((count, out))
    } else {
        match anchored(arguments[k], scope.home) {
            Err(e) => Err(e),
            Ok(pattern) => match pattern_files(scope.disk, pattern) {
                Err(e) => Err(e),
                Ok(files) => match files_expanded(
                    scope,
                    active,
                    count,
                    out,
                    files,
                    0,
                    on,
                    never,
                    room,
                ) {
                    Err(e) => Err(e),
                    Ok((used, longer)) => arguments_expanded(
                        scope,
                        active,
                        used,
                        longer,
                        arguments,
                        k + 1,
                        on,
                        never,
                        room,
                    ),
                },
            },
        }
    }
}

/// What the files from index `j` on say, put behind `out`.
pub open spec fn files_expanded(
    scope: IncludeScope,
    active: Seq<Seq<char>>,
    count: IncludeCount,
    out: Seq<char>,
    files: Seq<Seq<char>>,
    j: int,
    on: bool,
    never: bool,
    room: nat,
) -> Result<(IncludeCount, Seq<char>), IncludeFault>
    decreases room, 1nat, files.len() - j,
{
    if j < 0 || j >= files.len() {
        Ok((count, out))
    } else {
        match file_expanded(scope, active, count, files[j], on, never || !on, room) {
            Err(e) => Err(e),
            Ok((used, text)) => match with_file(scope.host, out, text) {
                Err(e) => Err(e),
                Ok(longer) => files_expanded(
                    scope,
                    active,
                    used,
                    longer,
                    files,
                    j + 1,
                    on,
                    never,
                    room,
                ),
            },
        }
    }
}

pub open spec fn nothing_read() -> IncludeCount {
    IncludeCount { files: 0, bytes: 0 }
}

/// What a configuration says for a host, as one block that applies to it.
pub open spec fn config_for_host(
    disk: DiskView,
    root: Seq<char>,
    home: Seq<char>,
    host: Seq<char>,
) -> Result<Seq<char>, IncludeFault> {
    match file_expanded(
        IncludeScope { disk, home, host: Some(host) },
        Seq::empty(),
        nothing_read(),
        root,
        true,
        false,
        (MAX_INCLUDE_DEPTH + 1) as nat,
    ) {
        Err(e) => Err(e),
        Ok((_, text)) => with_text("Host *\n"@, text),
    }
}

/// A configuration with the files that it takes in, for all hosts.
pub open spec fn config_for_catalog(disk: DiskView, root: Seq<char>, home: Seq<char>) -> Result<
    Seq<char>,
    IncludeFault,
> {
    match file_expanded(
        IncludeScope { disk, home, host: None },
        Seq::empty(),
        nothing_read(),
        root,
        true,
        false,
        (MAX_INCLUDE_DEPTH + 1) as nat,
    ) {
        Err(e) => Err(e),
        Ok((_, text)) => Ok(text),
    }
}

proof fn lemma_trim_without_last(s: Seq<char>)
    requires
        crate::text::trim_start(s).len() > 0,
        crate::text::is_whitespace(s.last()),
    ensures
        crate::text::trim_start(s.drop_last()) == crate::text::trim_start(s).drop_last(),
        crate::text::trim_start(s).len() > 1,
    decreases s.len(),
{
    if crate::text::is_whitespace(s[0]) {
        if s.len() == 1 {
            assert(s.drop_first().len() == 0);
            assert(crate::text::trim_start(s.drop_first()).len() == 0);
        }
        assert(s.drop_first().last() == s.last());
        lemma_trim_without_last(s.drop_first());
        assert(s.drop_first().drop_last() =~= s.drop_last().drop_first());
        assert(s.drop_last()[0] == s[0]);
    } else {
        assert(s.len() > 1);
        assert(s.drop_last()[0] == s[0]);
    }
}

proof fn lemma_key_without_last(s: Seq<char>)
    requires
        s.len() > 0,
        crate::openssh_match::is_key_end(s.last()),
    ensures
        crate::openssh_match::key_len(s.drop_last()) == crate::openssh_match::key_len(s),
        0 <= crate::openssh_match::key_len(s) < s.len(),
    decreases s.len(),
{
    if !crate::openssh_match::is_key_end(s[0]) {
        assert(s.len() > 1);
        assert(s.drop_first().last() == s.last());
        lemma_key_without_last(s.drop_first());
        assert(s.drop_first().drop_last() =~= s.drop_last().drop_first());
        assert(s.drop_last()[0] == s[0]);
    } else if s.len() > 1 {
        assert(s.drop_last()[0] == s[0]);
    }
}

/// A carriage return at its end is no part of what a line says.
proof fn lemma_carriage_return(line: Seq<char>)
    ensures
        crate::openssh_match::directive_key(crate::text::strip_carriage_return(line))
            == crate::openssh_match::directive_key(line),
        crate::config::may_set_path(crate::text::strip_carriage_return(line))
            == crate::config::may_set_path(line),
{
    let bare = crate::text::strip_carriage_return(line);
    if bare != line {
        assert(line.last() == '\r');
        assert(bare =~= line.drop_last());
        let t = crate::text::trim_start(line);
        if t.len() > 0 {
            lemma_trim_without_last(line);
            crate::text::lemma_trim_start(line);
            assert(t.last() == line.last());
            lemma_key_without_last(t);
            assert(t.drop_last()[0] == t[0]);
            assert(t.drop_last().take(crate::openssh_match::key_len(t)) =~= t.take(
                crate::openssh_match::key_len(t),
            ));
        } else {
            lemma_blank_without_last(line);
        }
    }
}

proof fn lemma_blank_without_last(s: Seq<char>)
    requires
        s.len() > 0,
        crate::text::trim_start(s).len() == 0,
    ensures
        crate::text::trim_start(s.drop_last()).len() == 0,
    decreases s.len(),
{
    if s.len() > 1 {
        assert(s.drop_last()[0] == s[0]);
        assert(s.drop_first().drop_last() =~= s.drop_last().drop_first());
        lemma_blank_without_last(s.drop_first());
    }
}

proof fn lemma_key_len(s: Seq<char>)
    ensures
        0 <= crate::openssh_match::key_len(s) <= s.len(),
    decreases s.len(),
{
    if s.len() > 0 && !crate::openssh_match::is_key_end(s[0]) {
        lemma_key_len(s.drop_first());
    }
}

/// A line whose keyword starts with an `h` sets no path.
proof fn lemma_host_line(line: Seq<char>)
    requires
        crate::openssh_match::is_directive(line, "host"@),
    ensures
        !crate::config::may_set_path(line),
{
    let t = crate::text::trim_start(line);
    lemma_key_len(t);
    let key = t.take(crate::openssh_match::key_len(t));
    reveal_strlit("host");
    let low = crate::text::lower_text(key);
    assert(low =~= crate::text::lower_text("host"@));
    assert(low.len() == 4);
    assert(low[0] == crate::text::lower('h'));
    assert(crate::text::lower(key[0]) == 'h');
    assert(key[0] == t[0]);
}

/// The lines of a probe.
proof fn lemma_probe_lines(line: Seq<char>)
    requires
        !line.contains('\n'),
    ensures
        crate::text::lines(probe_of(line)) == seq![
            crate::text::strip_carriage_return(line),
            "  Port 65534"@,
            "Host *"@,
            "  Port 65535"@,
        ],
        !crate::config::may_set_path("  Port 65534"@),
        !crate::config::may_set_path("Host *"@),
        !crate::config::may_set_path("  Port 65535"@),
{
    reveal_strlit("\n  Port 65534\nHost *\n  Port 65535\n");
    reveal_strlit("  Port 65534");
    reveal_strlit("Host *");
    reveal_strlit("  Port 65535");
    let a = "  Port 65534"@;
    let b = "Host *"@;
    let c = "  Port 65535"@;
    let end = seq!['\n'];
    let last: Seq<char> = Seq::empty();
    assert(probe_of(line) =~= line + end + (a + end + (b + end + (c + end + last))));
    assert(!a.contains('\n'));
    assert(!b.contains('\n'));
    assert(!c.contains('\n'));
    crate::text::lemma_lines_step(line, a + end + (b + end + (c + end + last)));
    crate::text::lemma_lines_step(a, b + end + (c + end + last));
    crate::text::lemma_lines_step(b, c + end + last);
    crate::text::lemma_lines_step(c, last);
    assert(crate::text::lines(last) =~= Seq::<Seq<char>>::empty());
    assert(crate::text::lines(probe_of(line)) =~= seq![
        crate::text::strip_carriage_return(line),
        a,
        b,
        c,
    ]);
    reveal_with_fuel(crate::text::trim_start, 3);
    assert(a.drop_first().drop_first()[0] == 'P');
    assert(c.drop_first().drop_first()[0] == 'P');
}

/// Dropping and replacing `Match` blocks brings in no line that sets a path.
proof fn lemma_rewrite_sets_no_path(
    out: Seq<char>,
    emit: bool,
    all: Seq<Seq<char>>,
    i: int,
    host: Seq<char>,
)
    requires
        0 <= i <= all.len(),
        out.len() == 0 || out.last() == '\n',
        !crate::config::has_path_line(out),
        forall|k: int|
            0 <= k < all.len() ==> !(#[trigger] all[k]).contains('\n') && (
            crate::openssh_match::is_directive(all[k], "match"@) || !crate::config::may_set_path(
                all[k],
            )),
        !crate::config::may_set_path("Host *"@),
    ensures
        match crate::openssh_match::rewrite_from(out, emit, all, i, host) {
            Ok(text) => !crate::config::has_path_line(text),
            Err(_) => true,
        },
    decreases all.len() - i,
{
    if i < all.len() {
        let line = all[i];
        match crate::openssh_match::rewrite_line(out, emit, line, host) {
            Err(_) => {},
            Ok((next, applies)) => {
                reveal_strlit("Host *");
                reveal_strlit("host");
                reveal_strlit("match");
                if next != out {
                    let added = if crate::openssh_match::is_directive(line, "match"@)
                        && !crate::openssh_match::is_directive(line, "host"@) {
                        "Host *"@
                    } else {
                        line
                    };
                    if crate::openssh_match::is_directive(line, "host"@) {
                        lemma_host_line(line);
                    }
                    assert(next == out + added + seq!['\n']);
                    lemma_carriage_return(added);
                    crate::text::lemma_lines_append(out, added);
                    assert forall|k: int| 0 <= k < crate::text::lines(next).len() implies
                        !crate::config::may_set_path(#[trigger] crate::text::lines(next)[k]) by {
                        if k < crate::text::lines(out).len() {
                            assert(crate::text::lines(next)[k] == crate::text::lines(out)[k]);
                        }
                    }
                    assert(next.last() == '\n');
                }
                lemma_rewrite_sets_no_path(next, applies, all, i + 1, host);
            },
        }
    }
}

fn probe_text(line: &str) -> (r: String)
    ensures
        r@ == probe_of(line@),
{
    crate::text::joined(line, "\n  Port 65534\nHost *\n  Port 65535\n")
}

/// Tries out a probe, which sets no path.
fn try_probe(probe: &str, host: &str) -> (r: Option<bool>)
    requires
        !crate::config::has_path_line(probe@),
    ensures
        r == probe_applies(probe@, host@),
{
    if !has_small_patterns(probe) {
        return None;
    }
    match parse_settings(probe, host) {
        Ok(found) => Some(
            match found.port {
                Some(port) => port == ACTIVE_PROBE_PORT,
                None => false,
            },
        ),
        Err(_) => None,
    }
}

/// Whether a `Host` line applies to the host.
pub fn host_directive_matches(line: &str, original_host: &str) -> (r: Result<bool, IncludeError>)
    requires
        !line@.contains('\n'),
        crate::openssh_match::is_directive(line@, "host"@),
    ensures
        match r {
            Ok(applies) => host_line_applies(line@, original_host@) == Ok::<bool, IncludeFault>(
                applies,
            ),
            Err(e) => host_line_applies(line@, original_host@) == Err::<bool, IncludeFault>(e@),
        },
{
    let probe = probe_text(line);
    proof {
        lemma_probe_lines(line@);
        lemma_carriage_return(line@);
        lemma_host_line(crate::text::strip_carriage_return(line@));
        assert(!crate::config::has_path_line(probe@));
    }
    match try_probe(probe.as_str(), original_host) {
        Some(applies) => Ok(applies),
        None => Err(include_error(IncludeProblem::HostLine, line)),
    }
}

/// Whether a `Match` line applies to the host.
pub fn supported_match_directive_matches(line: &str, original_host: &str) -> (r: Result<
    bool,
    IncludeError,
>)
    requires
        !line@.contains('\n'),
        crate::openssh_match::is_directive(line@, "match"@),
    ensures
        match r {
            Ok(applies) => match_line_applies(line@, original_host@) == Ok::<bool, IncludeFault>(
                applies,
            ),
            Err(e) => match_line_applies(line@, original_host@) == Err::<bool, IncludeFault>(e@),
        },
{
    let probe = probe_text(line);
    let text = match rewrite_supported_match_config(probe.as_str(), original_host) {
        Ok(text) => text,
        Err(problem) => {
            return Err(include_error(IncludeProblem::UnsupportedMatch(problem), line));
        },
    };
    proof {
        lemma_probe_lines(line@);
        lemma_carriage_return(line@);
        lemma_match_probe(line@, original_host@);
    }
    match try_probe(text.as_str(), original_host) {
        Some(applies) => Ok(applies),
        None => Err(include_error(IncludeProblem::MatchLine, line)),
    }
}

proof fn lemma_match_probe(line: Seq<char>, host: Seq<char>)
    requires
        !line.contains('\n'),
        crate::openssh_match::is_directive(line, "match"@),
    ensures
        match crate::openssh_match::rewritten(probe_of(line), host) {
            Ok(text) => !crate::config::has_path_line(text),
            Err(_) => true,
        },
{
    let all = crate::text::lines(probe_of(line));
    lemma_probe_lines(line);
    lemma_carriage_return(line);
    assert forall|k: int| 0 <= k < all.len() implies !(#[trigger] all[k]).contains('\n') by {
        crate::text::lemma_lines_single(probe_of(line), k);
    }
    reveal_strlit("  Port 65534");
    reveal_strlit("  Port 65535");
    reveal_strlit("Host *");
    reveal_strlit("Host *\n");
    let start = "Host *\n"@;
    assert(start =~= Seq::<char>::empty() + "Host *"@ + seq!['\n']);
    crate::text::lemma_lines_append(Seq::empty(), "Host *"@);
    assert(crate::text::lines(Seq::<char>::empty()) =~= Seq::<Seq<char>>::empty());
    assert(crate::text::lines(start) =~= seq!["Host *"@]);
    lemma_rewrite_sets_no_path(start, true, all, 0, host);
}

fn push_bounded(out: &mut String, more: &str) -> (r: Result<(), IncludeError>)
    ensures
        match r {
            Ok(()) => with_text(old(out)@, more@) == Ok::<Seq<char>, IncludeFault>(final(out)@),
            Err(e) => with_text(old(out)@, more@) == Err::<Seq<char>, IncludeFault>(e@),
        },
{
    let have = byte_len(out.as_str());
    let extra = byte_len(more);
    if have > MAX_CONFIG_BYTES || extra > MAX_CONFIG_BYTES - have {
        let r = include_error(IncludeProblem::OutputTooLarge, "");
        proof {
            reveal_strlit("");
            assert(""@ =~= Seq::<char>::empty());
        }
        return Err(r);
    }
    out.append(more);
    Ok(())
}

fn push_line_bounded(out: &mut String, line: &str) -> (r: Result<(), IncludeError>)
    ensures
        match r {
            Ok(()) => with_text(old(out)@, line@ + seq!['\n']) == Ok::<Seq<char>, IncludeFault>(
                final(out)@,
            ),
            Err(e) => with_text(old(out)@, line@ + seq!['\n']) == Err::<Seq<char>, IncludeFault>(
                e@,
            ),
        },
{
    let whole = crate::text::joined(line, "\n");
    proof {
        reveal_strlit("\n");
        assert("\n"@ =~= seq!['\n']);
    }
    push_bounded(out, whole.as_str())
}

fn push_file_bounded(out: &mut String, more: &str, host: Option<&str>) -> (r: Result<
    (),
    IncludeError,
>)
    ensures
        match r {
            Ok(()) => with_file(host_view(host), old(out)@, more@) == Ok::<
                Seq<char>,
                IncludeFault,
            >(final(out)@),
            Err(e) => with_file(host_view(host), old(out)@, more@) == Err::<
                Seq<char>,
                IncludeFault,
            >(e@),
        },
{
    push_bounded(out, more)?;
    let chars = chars_of(more);
    let closed = if chars.len() == 0 {
        host.is_some()
    } else {
        chars[chars.len() - 1] == '\n'
    };
    if !closed {
        proof {
            reveal_strlit("\n");
            assert("\n"@ =~= seq!['\n']);
        }
        push_bounded(out, "\n")?;
    }
    Ok(())
}

pub open spec fn host_view(host: Option<&str>) -> Option<Seq<char>> {
    match host {
        Some(h) => Some(h@),
        None => None,
    }
}

pub open spec fn scope_of(disk: Disk, home: &str, host: Option<&str>) -> IncludeScope {
    IncludeScope { disk: disk@, home: home@, host: host_view(host) }
}

/// Expansion gave what is stated, and how much has been read stays within the
/// limits.
pub open spec fn expands_to(
    r: Result<(IncludeCount, String), IncludeError>,
    stated: Result<(IncludeCount, Seq<char>), IncludeFault>,
) -> bool {
    match r {
        Ok((count, text)) => stated == Ok::<(IncludeCount, Seq<char>), IncludeFault>(
            (count, text@),
        ),
        Err(e) => stated == Err::<(IncludeCount, Seq<char>), IncludeFault>(e@),
    }
}

fn expand_file(
    disk: &Disk,
    home: &str,
    host: Option<&str>,
    active: &Vec<String>,
    count: IncludeCount,
    path: &str,
    inherited: bool,
    never: bool,
    room: usize,
) -> (r: Result<(IncludeCount, String), IncludeError>)
    ensures
        expands_to(
            r,
            file_expanded(
                scope_of(*disk, home, host),
                crate::text::views(active@),
                count,
                path@,
                inherited,
                never,
                room as nat,
            ),
        ),
    decreases room, 0nat,
{
    if room == 0 {
        return Err(include_error(IncludeProblem::TooDeep, path));
    }
    if count.files >= MAX_INCLUDE_FILES {
        return Err(include_error(IncludeProblem::TooManyFiles, path));
    }
    let id = disk.canonical_of(path)?;
    if texts_contain(active, id.as_str()) {
        return Err(include_error(IncludeProblem::Cycle, path));
    }
    let text = disk.contents_of(path)?;
    let size = byte_len(text.as_str());
    if count.bytes > MAX_CONFIG_BYTES || size > MAX_CONFIG_BYTES - count.bytes {
        return Err(include_error(IncludeProblem::InputTooLarge, path));
    }
    let mut inner = crate::model::copy_texts(active);
    proof {
        crate::text::lemma_views_push(inner@, id);
    }
    inner.push(id);
    let used = IncludeCount { files: count.files + 1, bytes: count.bytes + size };
    let all = lines_of(text.as_str());
    proof {
        assert forall|k: int| 0 <= k < all@.len() implies !(#[trigger] all@[k])@.contains('\n') by {
            crate::text::lemma_lines_single(text@, k);
            assert(crate::text::views(all@)[k] == all@[k]@);
        }
    }
    expand_lines(disk, home, host, &inner, used, &all, inherited && !never, never, room - 1)
}

fn expand_lines(
    disk: &Disk,
    home: &str,
    host: Option<&str>,
    active: &Vec<String>,
    count: IncludeCount,
    all: &Vec<String>,
    first_on: bool,
    never: bool,
    room: usize,
) -> (r: Result<(IncludeCount, String), IncludeError>)
    requires
        forall|k: int| 0 <= k < all@.len() ==> !(#[trigger] all@[k])@.contains('\n'),
    ensures
        expands_to(
            r,
            lines_expanded(
                scope_of(*disk, home, host),
                crate::text::views(active@),
                count,
                Seq::empty(),
                crate::text::views(all@),
                0,
                first_on,
                never,
                room as nat,
            ),
        ),
    decreases room, 3nat,
{
    let ghost scope = scope_of(*disk, home, host);
    let ghost lines = crate::text::views(all@);
    let ghost open = crate::text::views(active@);
    let ghost whole = lines_expanded(
        scope,
        open,
        count,
        Seq::empty(),
        lines,
        0,
        first_on,
        never,
        room as nat,
    );
    let mut on = first_on;
    let mut used = count;
    let mut out = String::new();
    let mut i: usize = 0;
    while i < all.len()
        invariant
            scope == scope_of(*disk, home, host),
            lines == crate::text::views(all@),
            open == crate::text::views(active@),
            i <= all@.len(),
            forall|k: int| 0 <= k < all@.len() ==> !(#[trigger] all@[k])@.contains('\n'),
            whole == lines_expanded(
                scope,
                open,
                count,
                Seq::empty(),
                lines,
                0,
                first_on,
                never,
                room as nat,
            ),
            whole == lines_expanded(
                scope,
                open,
                used,
                out@,
                lines,
                i as int,
                on,
                never,
                room as nat,
            ),
        decreases all@.len() - i,
    {
        assert(lines[i as int] == all@[i as int]@);
        let line = all[i].as_str();
        let mut structural = false;
        if let Some(original_host) = host {
            if line_is_directive(line, "host") {
                let applies = host_directive_matches(line, original_host)?;
                on = !never && applies;
                structural = true;
            } else if line_is_directive(line, "match") {
                let applies = supported_match_directive_matches(line, original_host)?;
                on = !never && applies;
                structural = true;
            }
        }
        if !structural {
            if line_is_directive(line, "include") {
                let rest = directive_rest_of(line);
                let arguments = match parse_arguments(rest.as_str()) {
                    Ok(arguments) => arguments,
                    Err(problem) => {
                        return Err(include_error(problem, line));
                    },
                };
                if arguments.len() == 0 {
                    return Err(include_error(IncludeProblem::NoPath, line));
                }
                if arguments.len() > MAX_INCLUDE_ARGUMENTS_PER_LINE {
                    return Err(include_error(IncludeProblem::TooManyPaths, line));
                }
                let (more, longer) = expand_arguments(
                    disk,
                    home,
                    host,
                    active,
                    used,
                    out,
                    &arguments,
                    on,
                    never,
                    room,
                )?;
                used = more;
                out = longer;
            } else if on || host.is_none() {
                push_line_bounded(&mut out, line)?;
            }
        }
        i += 1;
    }
    Ok((used, out))
}

fn expand_arguments(
    disk: &Disk,
    home: &str,
    host: Option<&str>,
    active: &Vec<String>,
    count: IncludeCount,
    begun: String,
    arguments: &Vec<String>,
    on: bool,
    never: bool,
    room: usize,
) -> (r: Result<(IncludeCount, String), IncludeError>)
    ensures
        expands_to(
            r,
            arguments_expanded(
                scope_of(*disk, home, host),
                crate::text::views(active@),
                count,
                begun@,
                crate::text::views(arguments@),
                0,
                on,
                never,
                room as nat,
            ),
        ),
    decreases room, 2nat,
{
    let ghost scope = scope_of(*disk, home, host);
    let ghost list = crate::text::views(arguments@);
    let ghost open = crate::text::views(active@);
    let ghost whole = arguments_expanded(
        scope,
        open,
        count,
        begun@,
        list,
        0,
        on,
        never,
        room as nat,
    );
    let mut used = count;
    let mut out = begun;
    let mut k: usize = 0;
    while k < arguments.len()
        invariant
            scope == scope_of(*disk, home, host),
            list == crate::text::views(arguments@),
            open == crate::text::views(active@),
            k <= arguments@.len(),
            whole == arguments_expanded(
                scope,
                open,
                count,
                begun@,
                list,
                0,
                on,
                never,
                room as nat,
            ),
            whole == arguments_expanded(
                scope,
                open,
                used,
                out@,
                list,
                k as int,
                on,
                never,
                room as nat,
            ),
        decreases arguments@.len() - k,
    {
        assert(list[k as int] == arguments@[k as int]@);
        let pattern = anchor_user_include(arguments[k].as_str(), home)?;
        let files = expand_path_pattern(disk, pattern.as_str())?;
        let (more, longer) = expand_files(
            disk,
            home,
            host,
            active,
            used,
            out,
            &files,
            on,
            never,
            room,
        )?;
        used = more;
        out = longer;
        k += 1;
    }
    Ok((used, out))
}

fn expand_files(
    disk: &Disk,
    home: &str,
    host: Option<&str>,
    active: &Vec<String>,
    count: IncludeCount,
    begun: String,
    files: &Vec<String>,
    on: bool,
    never: bool,
    room: usize,
) -> (r: Result<(IncludeCount, String), IncludeError>)
    ensures
        expands_to(
            r,
            files_expanded(
                scope_of(*disk, home, host),
                crate::text::views(active@),
                count,
                begun@,
                crate::text::views(files@),
                0,
                on,
                never,
                room as nat,
            ),
        ),
    decreases room, 1nat,
{
    let ghost scope = scope_of(*disk, home, host);
    let ghost list = crate::text::views(files@);
    let ghost open = crate::text::views(active@);
    let ghost whole = files_expanded(scope, open, count, begun@, list, 0, on, never, room as nat);
    let mut used = count;
    let mut out = begun;
    let mut j: usize = 0;
    while j < files.len()
        invariant
            scope == scope_of(*disk, home, host),
            list == crate::text::views(files@),
            open == crate::text::views(active@),
            j <= files@.len(),
            whole == files_expanded(scope, open, count, begun@, list, 0, on, never, room as nat),
            whole == files_expanded(
                scope,
                open,
                used,
                out@,
                list,
                j as int,
                on,
                never,
                room as nat,
            ),
        decreases files@.len() - j,
    {
        assert(list[j as int] == files@[j as int]@);
        let (more, text) = expand_file(
            disk,
            home,
            host,
            active,
            used,
            files[j].as_str(),
            on,
            never || !on,
            room,
        )?;
        push_file_bounded(&mut out, text.as_str(), host)?;
        used = more;
        j += 1;
    }
    Ok((used, out))
}

/// What the user's configuration says for a host, as one block that applies to
/// it: lines that do not apply are gone, and `Include` directives are replaced
/// by what they name.
pub fn expand_user_config(disk: &Disk, root: &str, home: &str, original_host: &str) -> (r: Result<
    String,
    IncludeError,
>)
    ensures
        match r {
            Ok(text) => config_for_host(disk@, root@, home@, original_host@) == Ok::<
                Seq<char>,
                IncludeFault,
            >(text@),
            Err(e) => config_for_host(disk@, root@, home@, original_host@) == Err::<
                Seq<char>,
                IncludeFault,
            >(e@),
        },
{
    let active: Vec<String> = Vec::new();
    assert(crate::text::views(active@) =~= Seq::<Seq<char>>::empty());
    let count = IncludeCount { files: 0, bytes: 0 };
    let (_, text) = expand_file(
        disk,
        home,
        Some(original_host),
        &active,
        count,
        root,
        true,
        false,
        MAX_INCLUDE_DEPTH + 1,
    )?;
    let mut out = "Host *\n".to_owned();
    push_bounded(&mut out, text.as_str())?;
    Ok(out)
}

/// The user's configuration with the files that it takes in, for all hosts.
pub fn expand_user_config_for_catalog(disk: &Disk, root: &str, home: &str) -> (r: Result<
    String,
    IncludeError,
>)
    ensures
        match r {
            Ok(text) => config_for_catalog(disk@, root@, home@) == Ok::<Seq<char>, IncludeFault>(
                text@,
            ),
            Err(e) => config_for_catalog(disk@, root@, home@) == Err::<Seq<char>, IncludeFault>(
                e@,
            ),
        },
{
    let active: Vec<String> = Vec::new();
    assert(crate::text::views(active@) =~= Seq::<Seq<char>>::empty());
    let count = IncludeCount { files: 0, bytes: 0 };
    let (_, text) = expand_file(
        disk,
        home,
        None,
        &active,
        count,
        root,
        true,
        false,
        MAX_INCLUDE_DEPTH + 1,
    )?;
    Ok(text)
}

} // verus!
