//! What is told of a server's host key.

use vstd::prelude::*;

verus! {

#[derive(Debug, Clone, Copy, PartialEq, Eq, Structural)]
pub enum HostKeyVerification {
    Known,
    CertificateAuthority,
    Learned,
    Insecure,
}

#[derive(Debug, Clone, PartialEq, Eq)]
pub struct ServerHostKeyInfo {
    pub algorithm: String,
    pub fingerprint_sha256: String,
    pub verification: HostKeyVerification,
}

} // verus!
