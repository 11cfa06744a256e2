//! Uploads that another user of the remote system installs.

use vstd::prelude::*;
use vstd::string::*;

use crate::client::CommandOutput;
use crate::command::quote_posix;
use crate::text::decimal_text;
use crate::text::joined;
use crate::text::octal_text;
use crate::text::text_from_utf8_lossy;
use crate::text::trimmed;
use crate::transfer::TransferOptions;

verus! {

pub const MAX_FILE_MODE: u32 = 0o7777;

#[derive(Debug, PartialEq, Eq)]
pub enum PrivilegedError {
    Mode,
    EmptyPath,
    /// The command ended with a status, having written this to its error output.
    Status { status: u32, stderr: String },
    /// The command told no status.
    NoStatus,
}

pub fn validate_mode(mode: u32) -> (r: Result<(), PrivilegedError>)
    ensures
        r == (if mode > MAX_FILE_MODE {
            Err::<(), PrivilegedError>(PrivilegedError::Mode)
        } else {
            Ok(())
        }),
{
    if mode > MAX_FILE_MODE {
        Err(PrivilegedError::Mode)
    } else {
        Ok(())
    }
}

/// An installation has succeeded only where its command ended with status zero.
pub fn ensure_privileged_install_success(output: &CommandOutput) -> (r: Result<(), PrivilegedError>)
    ensures
        match output.exit_status {
            Some(0) => r is Ok,
            Some(code) => r matches Err(PrivilegedError::Status { status, stderr }) && status == code
                && stderr@ == crate::text::trim(crate::text::lossy_text(output.stderr@)),
            None => r == Err::<(), PrivilegedError>(PrivilegedError::NoStatus),
        },
{
    match output.exit_status {
        Some(0) => Ok(()),
        Some(status) => {
            let text = text_from_utf8_lossy(output.stderr.as_slice());
            Err(PrivilegedError::Status { status, stderr: trimmed(text.as_str()) })
        },
        None => Err(PrivilegedError::NoStatus),
    }
}

impl PrivilegedError {
    pub fn message(&self) -> (r: String)
        ensures
            r@ == (match *self {
                PrivilegedError::Mode => "invalid file mode; expected <= 0o7777"@,
                PrivilegedError::EmptyPath => "remote path cannot be empty"@,
                PrivilegedError::Status { status, stderr } =>
                    "privileged install failed with status "@ + crate::text::decimal(status as nat)
                    + ": "@ + stderr@,
                PrivilegedError::NoStatus =>
                    "privileged install failed: remote command did not report an exit status"@,
            }),
    {
        match self {
            PrivilegedError::Mode => "invalid file mode; expected <= 0o7777".to_owned(),
            PrivilegedError::EmptyPath => "remote path cannot be empty".to_owned(),
            PrivilegedError::Status { status, stderr } => {
                let number = decimal_text(*status as u64);
                let mut out = joined("privileged install failed with status ", number.as_str());
                out.append(": ");
                out.append(stderr.as_str());
                out
            },
            PrivilegedError::NoStatus =>
                "privileged install failed: remote command did not report an exit status".to_owned(),
        }
    }
}

/// Where the other user puts the file before it appears.
pub open spec fn privileged_work_path(remote_path: Seq<char>) -> Seq<char> {
    remote_path + ".kaduox.privileged.part"@
}

/// The command that installs a staged file under its name.
pub open spec fn install_line(mode: u32, staging: Seq<char>, remote_path: Seq<char>) -> Seq<char> {
    let work = crate::command::posix_word(privileged_work_path(remote_path));
    "install -m "@ + crate::text::octal(mode as nat) + " -- "@ + crate::command::posix_word(staging)
        + " "@ + work + " && mv -f -- "@ + work + " "@ + crate::command::posix_word(remote_path)
}

/// The command that installs a staged file with a mode. The file appears at its
/// path by a rename.
pub fn install_command(mode: u32, staging: &str, remote_path: &str) -> (r: Result<
    String,
    PrivilegedError,
>)
    ensures
        match r {
            Ok(line) => mode <= MAX_FILE_MODE && remote_path@.len() > 0 && line@ == install_line(
                mode,
                staging@,
                remote_path@,
            ),
            Err(e) => if mode > MAX_FILE_MODE {
                e == PrivilegedError::Mode
            } else {
                remote_path@.len() == 0 && e == PrivilegedError::EmptyPath
            },
        },
{
    validate_mode(mode)?;
    if remote_path.is_empty() {
        return Err(PrivilegedError::EmptyPath);
    }
    let work = joined(remote_path, ".kaduox.privileged.part");
    let work_word = quote_posix(work.as_str());
    let staging_word = quote_posix(staging);
    let path_word = quote_posix(remote_path);
    let digits = octal_text(mode);
    let mut out = joined("install -m ", digits.as_str());
    out.append(" -- ");
    out.append(staging_word.as_str());
    out.append(" ");
    out.append(work_word.as_str());
    out.append(" && mv -f -- ");
    out.append(work_word.as_str());
    out.append(" ");
    out.append(path_word.as_str());
    Ok(out)
}

/// The command that removes a staged file.
pub fn cleanup_command(staging: &str) -> (r: String)
    ensures
        r@ == "rm -f -- "@ + crate::command::posix_word(staging@),
{
    let word = quote_posix(staging);
    joined("rm -f -- ", word.as_str())
}

/// How a file is staged: afresh, and never over another.
pub fn staging_options(options: TransferOptions) -> (r: TransferOptions)
    ensures
        r == (TransferOptions { resume: false, atomic: true, ..options }),
{
    let mut changed = options;
    changed.resume = false;
    changed.atomic = true;
    changed
}

} // verus!
