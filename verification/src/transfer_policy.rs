//! Transfers that appear at their destination whole or not at all.

use vstd::prelude::*;
use vstd::string::*;

use crate::nodes::Node;
use crate::text::hex_text;
use crate::text::joined;
use crate::transfer::check_cancelled;
use crate::transfer::OpenMode;
use crate::transfer::TransferProblem;
use crate::transfer::TransferStart;

verus! {

/// What stands in the way at the destination of an atomic transfer.
pub open spec fn destination_problem(destination: Node) -> Option<TransferProblem> {
    match destination {
        Node::Missing => None,
        Node::Link => Some(TransferProblem::DestinationIsLink),
        _ => Some(TransferProblem::DestinationExists),
    }
}

/// Nothing may stand at the destination: an atomic transfer never replaces.
pub fn ensure_atomic_destination_absent(destination: Node) -> (r: Result<(), TransferProblem>)
    ensures
        match r {
            Ok(()) => destination_problem(destination) is None,
            Err(e) => destination_problem(destination) == Some(e),
        },
{
    match destination {
        Node::Missing => Ok(()),
        Node::Link => Err(TransferProblem::DestinationIsLink),
        _ => Err(TransferProblem::DestinationExists),
    }
}

/// What is wrong with a part that a transfer is to go on with.
pub open spec fn resume_problem(staging: Node, total: u64) -> Option<TransferProblem> {
    match staging {
        Node::Link => Some(TransferProblem::WorkIsLink),
        Node::File { len } => if len > total {
            Some(TransferProblem::StagingTooLarge)
        } else {
            None
        },
        _ => Some(TransferProblem::WorkNotFile),
    }
}

/// Checks a part that a transfer is to go on with.
pub fn validate_resume_staging(staging: Node, total: u64) -> (r: Result<(), TransferProblem>)
    ensures
        match r {
            Ok(()) => resume_problem(staging, total) is None,
            Err(e) => resume_problem(staging, total) == Some(e),
        },
{
    match staging {
        Node::Link => Err(TransferProblem::WorkIsLink),
        Node::File { len } => if len > total {
            Err(TransferProblem::StagingTooLarge)
        } else {
            Ok(())
        },
        _ => Err(TransferProblem::WorkNotFile),
    }
}

/// How a staging file is opened: one that is gone on with as it is, a fresh one
/// only where none is there.
pub open spec fn staging_mode(existing: bool) -> OpenMode {
    OpenMode { create: !existing, exclusive: !existing, truncate: false }
}

pub fn atomic_open_flags(existing_staging: bool) -> (r: OpenMode)
    ensures
        r == staging_mode(existing_staging),
{
    OpenMode { create: !existing_staging, exclusive: !existing_staging, truncate: false }
}

/// How an atomic transfer starts.
pub open spec fn atomic_start(
    resume: bool,
    cancelled: bool,
    source: Node,
    destination: Node,
    staging: Node,
) -> Result<TransferStart, TransferProblem> {
    if cancelled {
        Err(TransferProblem::Cancelled)
    } else if source is Link {
        Err(TransferProblem::SourceIsLink)
    } else if !(source is File) {
        Err(TransferProblem::SourceNotFile)
    } else if destination_problem(destination) is Some {
        Err(destination_problem(destination)->0)
    } else {
        let total = source->len;
        if staging is Missing {
            Ok(TransferStart::Copy { offset: 0, total, open: staging_mode(false) })
        } else if !resume {
            Err(TransferProblem::StagingExists)
        } else if resume_problem(staging, total) is Some {
            Err(resume_problem(staging, total)->0)
        } else if staging->len == total && total != 0 {
            Ok(TransferStart::Complete { total })
        } else {
            Ok(TransferStart::Copy { offset: staging->len, total, open: staging_mode(true) })
        }
    }
}

/// How an atomic transfer starts, given what stands at the source, at the
/// destination and at the staging path.
pub fn start_atomic(
    resume: bool,
    cancelled: bool,
    source: Node,
    destination: Node,
    staging: Node,
) -> (r: Result<TransferStart, TransferProblem>)
    ensures
        r == atomic_start(resume, cancelled, source, destination, staging),
{
    check_cancelled(cancelled)?;
    let total = match source {
        Node::Link => {
            return Err(TransferProblem::SourceIsLink);
        },
        Node::File { len } => len,
        _ => {
            return Err(TransferProblem::SourceNotFile);
        },
    };
    ensure_atomic_destination_absent(destination)?;
    let existing = match staging {
        Node::Missing => false,
        _ => true,
    };
    if !existing {
        return Ok(TransferStart::Copy { offset: 0, total, open: atomic_open_flags(false) });
    }
    if !resume {
        return Err(TransferProblem::StagingExists);
    }
    validate_resume_staging(staging, total)?;
    let offset = match staging {
        Node::File { len } => len,
        _ => 0,
    };
    if offset == total && total != 0 {
        return Ok(TransferStart::Complete { total });
    }
    Ok(TransferStart::Copy { offset, total, open: atomic_open_flags(true) })
}

/// Why a remote rename to the destination failed: something has come to stand
/// there, which is not removed, or the server refused.
pub fn rename_failure(destination: Node) -> (r: TransferProblem)
    ensures
        r == (if destination is Missing {
            TransferProblem::PublishFailed
        } else {
            TransferProblem::DestinationExists
        }),
{
    match destination {
        Node::Missing => TransferProblem::PublishFailed,
        _ => TransferProblem::DestinationExists,
    }
}

/// The staging path of transfers that can be gone on with.
pub open spec fn stable_staging(path: Seq<char>) -> Seq<char> {
    path + ".kaduox.part"@
}

pub fn stable_remote_staging_path(path: &str) -> (r: String)
    ensures
        r@ == stable_staging(path@),
{
    joined(path, ".kaduox.part")
}

/// A staging path for one transfer alone.
pub open spec fn unique_staging(path: Seq<char>, process: u32, stamp: u64, serial: u64) -> Seq<
    char,
> {
    path + ".kaduox.part."@ + crate::text::hex(process as nat) + "."@ + crate::text::hex(
        stamp as nat,
    ) + "."@ + crate::text::hex(serial as nat)
}

/// A staging path that process, time and a running number tell apart.
pub fn unique_remote_staging_path(path: &str, process: u32, stamp: u64, serial: u64) -> (r: String)
    ensures
        r@ == unique_staging(path@, process, stamp, serial),
{
    let a = hex_text(process as u64);
    let b = hex_text(stamp);
    let c = hex_text(serial);
    let mut out = joined(path, ".kaduox.part.");
    out.append(a.as_str());
    out.append(".");
    out.append(b.as_str());
    out.append(".");
    out.append(c.as_str());
    out
}

/// An atomic transfer starts only where nothing stands at the destination, and
/// whether fresh or gone on with it never truncates a file; a fresh one creates
/// its staging file and takes none that is there.
pub proof fn atomic_start_never_overwrites(
    resume: bool,
    cancelled: bool,
    source: Node,
    destination: Node,
    staging: Node,
)
    ensures
        atomic_start(resume, cancelled, source, destination, staging) is Ok ==> destination is Missing
            && source is File,
        atomic_start(resume, cancelled, source, destination, staging) matches Ok(
            TransferStart::Copy { offset, total, open },
        ) ==> {
            &&& !open.truncate
            &&& open.exclusive == (staging is Missing)
            &&& open.create == (staging is Missing)
            &&& offset <= total
            &&& staging is Missing ==> offset == 0
            &&& staging is File ==> resume && offset == staging->len
        },
{
}

/// Running numbers tell the staging paths of one process apart, even at the
/// same time; none is the path of transfers that can be gone on with.
pub proof fn staging_paths_are_distinct(
    path: Seq<char>,
    process: u32,
    stamp: u64,
    first: u64,
    second: u64,
)
    ensures
        unique_staging(path, process, stamp, first) == unique_staging(path, process, stamp, second)
            ==> first == second,
        unique_staging(path, process, stamp, first) != stable_staging(path),
        stable_staging(path).is_prefix_of(unique_staging(path, process, stamp, first)),
{
    let head = path + ".kaduox.part."@ + crate::text::hex(process as nat) + "."@ + crate::text::hex(
        stamp as nat,
    ) + "."@;
    let a = unique_staging(path, process, stamp, first);
    let b = unique_staging(path, process, stamp, second);
    let x = crate::text::hex(first as nat);
    let y = crate::text::hex(second as nat);
    assert(a =~= head + x);
    assert(b =~= head + y);
    if a == b {
        assert(x =~= a.skip(head.len() as int));
        assert(y =~= b.skip(head.len() as int));
        crate::text::lemma_hex(first as nat, second as nat);
    }
    reveal_strlit(".kaduox.part.");
    reveal_strlit(".kaduox.part");
    assert(a.len() > stable_staging(path).len());
    assert(a.subrange(0, stable_staging(path).len() as int) =~= stable_staging(path));
}

} // verus!
