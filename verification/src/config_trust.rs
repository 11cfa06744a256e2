//! Which configuration files are trusted: owner, permissions and size.

use vstd::prelude::*;

verus! {

pub const MAX_CONFIG_FILE_BYTES: usize = 4194304;

pub const ACCESS_ALLOWED_ACE_TYPE: u8 = 0x00;

pub const ACCESS_ALLOWED_COMPOUND_ACE_TYPE: u8 = 0x04;

pub const ACCESS_ALLOWED_OBJECT_ACE_TYPE: u8 = 0x05;

pub const ACCESS_ALLOWED_CALLBACK_ACE_TYPE: u8 = 0x09;

pub const ACCESS_ALLOWED_CALLBACK_OBJECT_ACE_TYPE: u8 = 0x0b;

/// Rights that let a principal change a file: write data, append data, write
/// extended attributes, write attributes, delete, write DAC and write owner.
pub const SSH_SECURE_WRITE_MASK: u32 = 0x000d_0116;

/// Bytes of an allow entry with the first word of its SID.
pub const ALLOW_ACE_BYTES: usize = 12;

/// Offset of the SID in an allow entry.
pub const ALLOW_SID_OFFSET: usize = 8;

pub const SID_HEADER_BYTES: usize = 8;

#[derive(Debug, Clone, Copy, PartialEq, Eq, Structural)]
pub enum TrustProblem {
    NotAFile,
    ForeignOwner,
    WritableByOthers,
    TooLarge,
    BadOwner,
    UntrustedOwner,
    BadAccessList,
    AdvancedEntry,
    TruncatedEntry,
    BadTrustee,
    UntrustedWriter,
}

/// A file of the user or of root that neither group nor others may write.
pub open spec fn unix_trust(owner: u32, uid: u32, mode: u32) -> Option<TrustProblem> {
    if owner != uid && owner != 0 {
        Some(TrustProblem::ForeignOwner)
    } else if mode & 0o022 != 0 {
        Some(TrustProblem::WritableByOthers)
    } else {
        None
    }
}

pub fn verify_unix_trust(owner: u32, uid: u32, mode: u32) -> (r: Result<(), TrustProblem>)
    ensures
        match r {
            Ok(()) => unix_trust(owner, uid, mode) is None,
            Err(e) => unix_trust(owner, uid, mode) == Some(e),
        },
{
    if owner != uid && owner != 0 {
        return Err(TrustProblem::ForeignOwner);
    }
    if mode & 0o022 != 0 {
        return Err(TrustProblem::WritableByOthers);
    }
    Ok(())
}

/// Accepts the text of a configuration file: it must be a regular file, be
/// trusted, and stay within the size limit.
pub fn accept_config_file(
    is_file: bool,
    trust: Result<(), TrustProblem>,
    len: usize,
) -> (r: Result<(), TrustProblem>)
    ensures
        r == (if !is_file {
            Err::<(), TrustProblem>(TrustProblem::NotAFile)
        } else if trust is Err {
            trust
        } else if len > MAX_CONFIG_FILE_BYTES {
            Err(TrustProblem::TooLarge)
        } else {
            Ok(())
        }),
{
    if !is_file {
        return Err(TrustProblem::NotAFile);
    }
    trust?;
    if len > MAX_CONFIG_FILE_BYTES {
        return Err(TrustProblem::TooLarge);
    }
    Ok(())
}

/// One entry of a Windows access list, as far as trust depends on it.
#[derive(Debug, Clone, Copy, PartialEq, Eq)]
pub struct AccessEntry {
    pub ace_type: u8,
    pub ace_size: u16,
    pub mask: u32,
    pub sub_authority_count: u8,
    pub sid_valid: bool,
    pub sid_trusted: bool,
}

/// Owner and access list of a file.
#[derive(Debug)]
pub struct FileAccess {
    pub owner_valid: bool,
    pub owner_trusted: bool,
    pub list_valid: bool,
    pub entries: Vec<AccessEntry>,
}

/// Allow entries whose meaning is more than a mask for one principal.
pub open spec fn is_advanced_allow(ace_type: u8) -> bool {
    ace_type == ACCESS_ALLOWED_COMPOUND_ACE_TYPE || ace_type == ACCESS_ALLOWED_OBJECT_ACE_TYPE
        || ace_type == ACCESS_ALLOWED_CALLBACK_ACE_TYPE || ace_type
        == ACCESS_ALLOWED_CALLBACK_OBJECT_ACE_TYPE
}

pub fn is_advanced_allow_ace(ace_type: u8) -> (r: bool)
    ensures
        r == is_advanced_allow(ace_type),
{
    ace_type == ACCESS_ALLOWED_COMPOUND_ACE_TYPE || ace_type == ACCESS_ALLOWED_OBJECT_ACE_TYPE
        || ace_type == ACCESS_ALLOWED_CALLBACK_ACE_TYPE || ace_type
        == ACCESS_ALLOWED_CALLBACK_OBJECT_ACE_TYPE
}

/// Problem of an entry. An untrusted principal may keep read-only access.
pub open spec fn entry_fault(e: AccessEntry, least_size: usize, sid_fits: bool) -> Option<
    TrustProblem,
> {
    if e.ace_type != ACCESS_ALLOWED_ACE_TYPE {
        if is_advanced_allow(e.ace_type) {
            Some(TrustProblem::AdvancedEntry)
        } else {
            None
        }
    } else if e.ace_size < least_size {
        Some(TrustProblem::TruncatedEntry)
    } else if !sid_fits || !e.sid_valid {
        Some(TrustProblem::BadTrustee)
    } else if e.sid_trusted || e.mask & SSH_SECURE_WRITE_MASK == 0 {
        None
    } else {
        Some(TrustProblem::UntrustedWriter)
    }
}

fn judge_entry(e: &AccessEntry, least_size: usize, sid_fits: bool) -> (r: Result<(), TrustProblem>)
    ensures
        match r {
            Ok(()) => entry_fault(*e, least_size, sid_fits) is None,
            Err(p) => entry_fault(*e, least_size, sid_fits) == Some(p),
        },
{
    if e.ace_type != ACCESS_ALLOWED_ACE_TYPE {
        if is_advanced_allow_ace(e.ace_type) {
            return Err(TrustProblem::AdvancedEntry);
        }
        return Ok(());
    }
    if (e.ace_size as usize) < least_size {
        return Err(TrustProblem::TruncatedEntry);
    }
    if !sid_fits || !e.sid_valid {
        return Err(TrustProblem::BadTrustee);
    }
    if e.sid_trusted || e.mask & SSH_SECURE_WRITE_MASK == 0 {
        return Ok(());
    }
    Err(TrustProblem::UntrustedWriter)
}

/// The SID of an allow entry lies within the entry.
pub open spec fn sid_within(e: AccessEntry) -> bool {
    SID_HEADER_BYTES + e.sub_authority_count * 4 <= e.ace_size - ALLOW_SID_OFFSET
}

/// Judges one entry, and that its SID lies within it.
pub fn inspect_ace(e: &AccessEntry) -> (r: Result<(), TrustProblem>)
    ensures
        match r {
            Ok(()) => entry_fault(
                *e,
                (ALLOW_SID_OFFSET + SID_HEADER_BYTES) as usize,
                sid_within(*e),
            ) is None,
            Err(p) => entry_fault(
                *e,
                (ALLOW_SID_OFFSET + SID_HEADER_BYTES) as usize,
                sid_within(*e),
            ) == Some(p),
        },
{
    let sid_bytes: usize = SID_HEADER_BYTES + e.sub_authority_count as usize * 4;
    let fits = e.ace_size as usize >= ALLOW_SID_OFFSET && sid_bytes <= e.ace_size as usize
        - ALLOW_SID_OFFSET;
    judge_entry(e, ALLOW_SID_OFFSET + SID_HEADER_BYTES, fits)
}

/// First problem among the entries from index `i` on.
pub open spec fn entries_fault(entries: Seq<AccessEntry>, i: int) -> Option<TrustProblem>
    decreases entries.len() - i,
{
    if i < 0 || i >= entries.len() {
        None
    } else if entry_fault(entries[i], ALLOW_ACE_BYTES, true) is Some {
        entry_fault(entries[i], ALLOW_ACE_BYTES, true)
    } else {
        entries_fault(entries, i + 1)
    }
}

pub open spec fn access_fault(access: FileAccess) -> Option<TrustProblem> {
    if !access.owner_valid {
        Some(TrustProblem::BadOwner)
    } else if !access.owner_trusted {
        Some(TrustProblem::UntrustedOwner)
    } else if !access.list_valid {
        Some(TrustProblem::BadAccessList)
    } else {
        entries_fault(access.entries@, 0)
    }
}

/// Judges owner and access list of an open file. A missing access list grants
/// everything to everyone and is refused; an empty one grants nothing.
pub fn verify_open_file_acl(access: &FileAccess) -> (r: Result<(), TrustProblem>)
    ensures
        match r {
            Ok(()) => access_fault(*access) is None,
            Err(p) => access_fault(*access) == Some(p),
        },
{
    if !access.owner_valid {
        return Err(TrustProblem::BadOwner);
    }
    if !access.owner_trusted {
        return Err(TrustProblem::UntrustedOwner);
    }
    if !access.list_valid {
        return Err(TrustProblem::BadAccessList);
    }
    let mut i: usize = 0;
    while i < access.entries.len()
        invariant
            i <= access.entries@.len(),
            access_fault(*access) == entries_fault(access.entries@, 0),
            entries_fault(access.entries@, 0) == entries_fault(access.entries@, i as int),
        decreases access.entries@.len() - i,
    {
        judge_entry(&access.entries[i], ALLOW_ACE_BYTES, true)?;
        i += 1;
    }
    Ok(())
}

proof fn lemma_entries_fault(entries: Seq<AccessEntry>, i: int)
    requires
        0 <= i <= entries.len(),
        entries_fault(entries, i) is None,
    ensures
        forall|k: int|
            i <= k < entries.len() ==> entry_fault(#[trigger] entries[k], ALLOW_ACE_BYTES, true) is None,
    decreases entries.len() - i,
{
    if i < entries.len() {
        lemma_entries_fault(entries, i + 1);
    }
}

/// In an accepted file every plain allow entry with write rights belongs to a
/// trusted principal.
pub proof fn accepted_files_have_trusted_writers(access: FileAccess)
    requires
        access_fault(access) is None,
    ensures
        forall|k: int|
            0 <= k < access.entries@.len() && (#[trigger] access.entries@[k]).ace_type
                == ACCESS_ALLOWED_ACE_TYPE && access.entries@[k].mask & SSH_SECURE_WRITE_MASK != 0
                ==> access.entries@[k].sid_trusted,
{
    lemma_entries_fault(access.entries@, 0);
}

} // verus!
