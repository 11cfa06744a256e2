//! What holds of every expanded configuration.

use vstd::prelude::*;

use crate::openssh_include::IncludeCount;
use crate::openssh_include::IncludeFault;
use crate::openssh_include::IncludeScope;
use crate::openssh_include::MAX_CONFIG_BYTES;
use crate::openssh_include::MAX_INCLUDE_FILES;

verus! {

pub open spec fn within_limits(count: IncludeCount) -> bool {
    count.files <= MAX_INCLUDE_FILES && count.bytes <= MAX_CONFIG_BYTES
}

spec fn small(r: Result<(IncludeCount, Seq<char>), IncludeFault>) -> bool {
    match r {
        Ok((count, text)) => within_limits(count) && crate::text::utf8_len(text)
            <= MAX_CONFIG_BYTES,
        Err(_) => true,
    }
}

proof fn lemma_file_small(
    scope: IncludeScope,
    active: Seq<Seq<char>>,
    count: IncludeCount,
    path: Seq<char>,
    inherited: bool,
    never: bool,
    room: nat,
)
    requires
        within_limits(count),
    ensures
        small(
            crate::openssh_include::file_expanded(
                scope,
                active,
                count,
                path,
                inherited,
                never,
                room,
            ),
        ),
    decreases room, 0nat, 0int,
{
    if room > 0 && count.files < MAX_INCLUDE_FILES {
        if let Some(Some(id)) = crate::text_map::lookup(scope.disk.canonical, path) {
            if let Some(Some(text)) = crate::text_map::lookup(scope.disk.contents, path) {
                if count.bytes + crate::text::utf8_len(text) <= MAX_CONFIG_BYTES {
                    let used = IncludeCount {
                        files: (count.files + 1) as usize,
                        bytes: (count.bytes + crate::text::utf8_len(text)) as usize,
                    };
                    lemma_lines_small(
                        scope,
                        active.push(id),
                        used,
                        Seq::empty(),
                        crate::text::lines(text),
                        0,
                        inherited && !never,
                        never,
                        (room - 1) as nat,
                    );
                }
            }
        }
    }
}

proof fn lemma_lines_small(
    scope: IncludeScope,
    active: Seq<Seq<char>>,
    count: IncludeCount,
    out: Seq<char>,
    all: Seq<Seq<char>>,
    i: int,
    on: bool,
    never: bool,
    room: nat,
)
    requires
        within_limits(count),
        crate::text::utf8_len(out) <= MAX_CONFIG_BYTES,
    ensures
        small(
            crate::openssh_include::lines_expanded(
                scope,
                active,
                count,
                out,
                all,
                i,
                on,
                never,
                room,
            ),
        ),
    decreases room, 3nat, all.len() - i,
{
    if 0 <= i < all.len() {
        let line = all[i];
        if scope.host is Some && crate::openssh_match::is_directive(line, "host"@) {
            if let Ok(applies) = crate::openssh_include::host_line_applies(line, scope.host->0) {
                lemma_lines_small(
                    scope,
                    active,
                    count,
                    out,
                    all,
                    i + 1,
                    !never && applies,
                    never,
                    room,
                );
            }
        } else if scope.host is Some && crate::openssh_match::is_directive(line, "match"@) {
            if let Ok(applies) = crate::openssh_include::match_line_applies(line, scope.host->0) {
                lemma_lines_small(
                    scope,
                    active,
                    count,
                    out,
                    all,
                    i + 1,
                    !never && applies,
                    never,
                    room,
                );
            }
        } else if crate::openssh_match::is_directive(line, "include"@) {
            if let Ok(arguments) = crate::openssh_include::parsed_arguments(
                crate::openssh_match::directive_rest(line),
            ) {
                lemma_arguments_small(scope, active, count, out, arguments, 0, on, never, room);
                if let Ok((used, longer)) = crate::openssh_include::arguments_expanded(
                    scope,
                    active,
                    count,
                    out,
                    arguments,
                    0,
                    on,
                    never,
                    room,
                ) {
                    lemma_lines_small(scope, active, used, longer, all, i + 1, on, never, room);
                }
            }
        } else if scope.host is None || on {
            let added = line + seq!['\n'];
            crate::text::lemma_utf8_len_add(out, added);
            if let Ok(longer) = crate::openssh_include::with_text(out, added) {
                lemma_lines_small(scope, active, count, longer, all, i + 1, on, never, room);
            }
        } else {
            lemma_lines_small(scope, active, count, out, all, i + 1, on, never, room);
        }
    }
}

proof fn lemma_arguments_small(
    scope: IncludeScope,
    active: Seq<Seq<char>>,
    count: IncludeCount,
    out: Seq<char>,
    arguments: Seq<Seq<char>>,
    k: int,
    on: bool,
    never: bool,
    room: nat,
)
    requires
        within_limits(count),
        crate::text::utf8_len(out) <= MAX_CONFIG_BYTES,
    ensures
        small(
            crate::openssh_include::arguments_expanded(
                scope,
                active,
                count,
                out,
                arguments,
                k,
                on,
                never,
                room,
            ),
        ),
    decreases room, 2nat, arguments.len() - k,
{
    if 0 <= k < arguments.len() {
        if let Ok(pattern) = crate::openssh_include::anchored(arguments[k], scope.home) {
            if let Ok(files) = crate::openssh_include::pattern_files(scope.disk, pattern) {
                lemma_files_small(scope, active, count, out, files, 0, on, never, room);
                if let Ok((used, longer)) = crate::openssh_include::files_expanded(
                    scope,
                    active,
                    count,
                    out,
                    files,
                    0,
                    on,
                    never,
                    room,
                ) {
                    lemma_arguments_small(
                        scope,
                        active,
                        used,
                        longer,
                        arguments,
                        k + 1,
                        on,
                        never,
                        room,
                    );
                }
            }
        }
    }
}

proof fn lemma_files_small(
    scope: IncludeScope,
    active: Seq<Seq<char>>,
    count: IncludeCount,
    out: Seq<char>,
    files: Seq<Seq<char>>,
    j: int,
    on: bool,
    never: bool,
    room: nat,
)
    requires
        within_limits(count),
        crate::text::utf8_len(out) <= MAX_CONFIG_BYTES,
    ensures
        small(
            crate::openssh_include::files_expanded(
                scope,
                active,
                count,
                out,
                files,
                j,
                on,
                never,
                room,
            ),
        ),
    decreases room, 1nat, files.len() - j,
{
    if 0 <= j < files.len() {
        lemma_file_small(scope, active, count, files[j], on, never || !on, room);
        if let Ok((used, text)) = crate::openssh_include::file_expanded(
            scope,
            active,
            count,
            files[j],
            on,
            never || !on,
            room,
        ) {
            crate::text::lemma_utf8_len_add(out, text);
            crate::text::lemma_utf8_len_add(out + text, seq!['\n']);
            if let Ok(longer) = crate::openssh_include::with_file(scope.host, out, text) {
                lemma_files_small(scope, active, used, longer, files, j + 1, on, never, room);
            }
        }
    }
}

/// However the files of a configuration take one another in, what comes out is
/// within the size limit, and so are the number of files that were read and
/// their bytes.
pub proof fn expanded_config_is_bounded(
    scope: IncludeScope,
    root: Seq<char>,
    inherited: bool,
    never: bool,
    room: nat,
)
    ensures
        match crate::openssh_include::file_expanded(
            scope,
            Seq::empty(),
            crate::openssh_include::nothing_read(),
            root,
            inherited,
            never,
            room,
        ) {
            Ok((count, text)) => within_limits(count) && crate::text::utf8_len(text)
                <= MAX_CONFIG_BYTES,
            Err(_) => true,
        },
{
    lemma_file_small(
        scope,
        Seq::empty(),
        crate::openssh_include::nothing_read(),
        root,
        inherited,
        never,
        room,
    );
}

/// What a host's configuration expands to starts with the block for all hosts
/// and is within the size limit.
pub proof fn host_config_is_one_bounded_block(
    disk: crate::openssh_include::DiskView,
    root: Seq<char>,
    home: Seq<char>,
    host: Seq<char>,
)
    ensures
        match crate::openssh_include::config_for_host(disk, root, home, host) {
            Ok(text) => "Host *\n"@.is_prefix_of(text) && crate::text::utf8_len(text)
                <= MAX_CONFIG_BYTES,
            Err(_) => true,
        },
{
    let scope = IncludeScope { disk, home, host: Some(host) };
    if let Ok((_, text)) = crate::openssh_include::file_expanded(
        scope,
        Seq::empty(),
        crate::openssh_include::nothing_read(),
        root,
        true,
        false,
        (crate::openssh_include::MAX_INCLUDE_DEPTH + 1) as nat,
    ) {
        crate::text::lemma_utf8_len_add("Host *\n"@, text);
    }
}

spec fn unchanged(r: Result<(IncludeCount, Seq<char>), IncludeFault>, out: Seq<char>) -> bool {
    match r {
        Ok((_, text)) => text == out,
        Err(_) => true,
    }
}

proof fn lemma_lines_silent(
    scope: IncludeScope,
    active: Seq<Seq<char>>,
    count: IncludeCount,
    out: Seq<char>,
    all: Seq<Seq<char>>,
    i: int,
    room: nat,
)
    requires
        scope.host is Some,
    ensures
        unchanged(
            crate::openssh_include::lines_expanded(
                scope,
                active,
                count,
                out,
                all,
                i,
                false,
                true,
                room,
            ),
            out,
        ),
    decreases room, 3nat, all.len() - i,
{
    if 0 <= i < all.len() {
        let line = all[i];
        if crate::openssh_match::is_directive(line, "host"@) {
            lemma_lines_silent(scope, active, count, out, all, i + 1, room);
        } else if crate::openssh_match::is_directive(line, "match"@) {
            lemma_lines_silent(scope, active, count, out, all, i + 1, room);
        } else if crate::openssh_match::is_directive(line, "include"@) {
            if let Ok(arguments) = crate::openssh_include::parsed_arguments(
                crate::openssh_match::directive_rest(line),
            ) {
                lemma_arguments_silent(scope, active, count, out, arguments, 0, room);
                if let Ok((used, longer)) = crate::openssh_include::arguments_expanded(
                    scope,
                    active,
                    count,
                    out,
                    arguments,
                    0,
                    false,
                    true,
                    room,
                ) {
                    lemma_lines_silent(scope, active, used, longer, all, i + 1, room);
                }
            }
        } else {
            lemma_lines_silent(scope, active, count, out, all, i + 1, room);
        }
    }
}

proof fn lemma_arguments_silent(
    scope: IncludeScope,
    active: Seq<Seq<char>>,
    count: IncludeCount,
    out: Seq<char>,
    arguments: Seq<Seq<char>>,
    k: int,
    room: nat,
)
    requires
        scope.host is Some,
    ensures
        unchanged(
            crate::openssh_include::arguments_expanded(
                scope,
                active,
                count,
                out,
                arguments,
                k,
                false,
                true,
                room,
            ),
            out,
        ),
    decreases room, 2nat, arguments.len() - k,
{
    if 0 <= k < arguments.len() {
        if let Ok(pattern) = crate::openssh_include::anchored(arguments[k], scope.home) {
            if let Ok(files) = crate::openssh_include::pattern_files(scope.disk, pattern) {
                lemma_files_silent(scope, active, count, out, files, 0, room);
                if let Ok((used, longer)) = crate::openssh_include::files_expanded(
                    scope,
                    active,
                    count,
                    out,
                    files,
                    0,
                    false,
                    true,
                    room,
                ) {
                    lemma_arguments_silent(scope, active, used, longer, arguments, k + 1, room);
                }
            }
        }
    }
}

proof fn lemma_files_silent(
    scope: IncludeScope,
    active: Seq<Seq<char>>,
    count: IncludeCount,
    out: Seq<char>,
    files: Seq<Seq<char>>,
    j: int,
    room: nat,
)
    requires
        scope.host is Some,
    ensures
        unchanged(
            crate::openssh_include::files_expanded(
                scope,
                active,
                count,
                out,
                files,
                j,
                false,
                true,
                room,
            ),
            out,
        ),
    decreases room, 1nat, files.len() - j,
{
    if 0 <= j < files.len() {
        part_that_does_not_apply_adds_nothing(scope, active, count, files[j], false, room);
        if let Ok((used, text)) = crate::openssh_include::file_expanded(
            scope,
            active,
            count,
            files[j],
            false,
            true,
            room,
        ) {
            assert(out + text =~= out);
            if let Ok(longer) = crate::openssh_include::with_file(scope.host, out, text) {
                lemma_files_silent(scope, active, used, longer, files, j + 1, room);
            }
        }
    }
}

/// A file taken in from a part that does not apply to the host adds nothing,
/// whatever `Host` and `Match` lines stand in it or in what it takes in itself.
pub proof fn part_that_does_not_apply_adds_nothing(
    scope: IncludeScope,
    active: Seq<Seq<char>>,
    count: IncludeCount,
    path: Seq<char>,
    inherited: bool,
    room: nat,
)
    requires
        scope.host is Some,
    ensures
        match crate::openssh_include::file_expanded(
            scope,
            active,
            count,
            path,
            inherited,
            true,
            room,
        ) {
            Ok((_, text)) => text.len() == 0,
            Err(_) => true,
        },
    decreases room, 0nat, 0int,
{
    if room > 0 && count.files < MAX_INCLUDE_FILES {
        if let Some(Some(id)) = crate::text_map::lookup(scope.disk.canonical, path) {
            if let Some(Some(text)) = crate::text_map::lookup(scope.disk.contents, path) {
                let used = IncludeCount {
                    files: (count.files + 1) as usize,
                    bytes: (count.bytes + crate::text::utf8_len(text)) as usize,
                };
                lemma_lines_silent(
                    scope,
                    active.push(id),
                    used,
                    Seq::empty(),
                    crate::text::lines(text),
                    0,
                    (room - 1) as nat,
                );
            }
        }
    }
}

} // verus!
