//! Which host keys are revoked and which authorities may vouch for a host, as
//! the marked lines of a known-hosts file say.

use vstd::prelude::*;
use vstd::string::*;

use crate::directories::entry_of;
use crate::directories::Platform;
use crate::pattern::retrying_match;
use crate::text::chars_of;
use crate::text::decimal_text;
use crate::text::joined3;
use crate::text::lines_of;
use crate::text::lower_string;
use crate::text::same_text;
use crate::text::text_between;
use crate::text::trimmed;
use crate::text::words_of;

verus! {

pub const MAX_KNOWN_HOSTS_BYTES: usize = 8388608;

/// A public key: the name of its algorithm and its binary form, which holds
/// the name too.
#[derive(Debug, Clone, PartialEq, Eq)]
pub struct HostKey {
    pub algorithm: String,
    pub blob: Vec<u8>,
}

#[verifier::ext_equal]
pub struct KeyView {
    pub algorithm: Seq<char>,
    pub blob: Seq<u8>,
}

impl View for HostKey {
    type V = KeyView;

    open spec fn view(&self) -> KeyView {
        KeyView { algorithm: self.algorithm@, blob: self.blob@ }
    }
}

pub open spec fn key_views(keys: Seq<HostKey>) -> Seq<KeyView> {
    keys.map_values(|k: HostKey| k@)
}

impl HostKey {
    pub fn same(&self, other: &HostKey) -> (r: bool)
        ensures
            r == (self@ == other@),
    {
        if !same_text(self.algorithm.as_str(), other.algorithm.as_str()) {
            return false;
        }
        same_bytes(&self.blob, &other.blob)
    }

    /// Signatures of the key can be checked: it is an Ed25519 or ECDSA key.
    pub fn can_vouch(&self) -> (r: bool)
        ensures
            r == verifiable(self@),
    {
        let name = self.algorithm.as_str();
        same_text(name, "ssh-ed25519") || same_text(name, "ecdsa-sha2-nistp256") || same_text(
            name,
            "ecdsa-sha2-nistp384",
        ) || same_text(name, "ecdsa-sha2-nistp521")
    }
}

pub open spec fn verifiable(key: KeyView) -> bool {
    key.algorithm == "ssh-ed25519"@ || key.algorithm == "ecdsa-sha2-nistp256"@ || key.algorithm
        == "ecdsa-sha2-nistp384"@ || key.algorithm == "ecdsa-sha2-nistp521"@
}

fn same_bytes(a: &Vec<u8>, b: &Vec<u8>) -> (r: bool)
    ensures
        r == (a@ == b@),
{
    if a.len() != b.len() {
        return false;
    }
    let mut i: usize = 0;
    while i < a.len()
        invariant
            a@.len() == b@.len(),
            i <= a@.len(),
            forall|k: int| 0 <= k < i ==> #[trigger] a@[k] == b@[k],
        decreases a@.len() - i,
    {
        if a[i] != b[i] {
            return false;
        }
        i += 1;
    }
    assert(a@ =~= b@);
    true
}

/// What `PublicKey::from_openssh` of the `ssh_key` crate reads: the name of the
/// algorithm and the binary form of the key.
pub uninterp spec fn openssh_key(text: Seq<char>) -> Option<(Seq<char>, Seq<u8>)>;

/// `PublicKey::from_openssh` reads an algorithm and a key in Base64; the key's
/// `algorithm` and `to_bytes` hand out the two parts. What comes out depends on
/// the text alone.
#[verifier::external_body]
fn read_key(text: &str) -> (r: Option<HostKey>)
    ensures
        match r {
            Some(key) => openssh_key(text@) == Some((key@.algorithm, key@.blob)),
            None => openssh_key(text@) is None,
        },
{
    let key = russh::keys::ssh_key::PublicKey::from_openssh(text).ok()?;
    let blob = key.to_bytes().ok()?;
    Some(HostKey { algorithm: key.algorithm().as_str().to_owned(), blob })
}

/// Which hosts a line is about.
#[derive(Debug, Clone, PartialEq, Eq)]
pub enum HostPatterns {
    /// Patterns that match a host, or with `!` keep it from matching.
    Patterns(Vec<String>),
    /// The keyed hash of one host name.
    HashedName { salt: Vec<u8>, hash: Vec<u8> },
}

#[verifier::ext_equal]
pub enum PatternsView {
    Patterns(Seq<Seq<char>>),
    HashedName { salt: Seq<u8>, hash: Seq<u8> },
}

impl View for HostPatterns {
    type V = PatternsView;

    open spec fn view(&self) -> PatternsView {
        match *self {
            HostPatterns::Patterns(list) => PatternsView::Patterns(crate::text::views(list@)),
            HostPatterns::HashedName { salt, hash } => PatternsView::HashedName {
                salt: salt@,
                hash: hash@,
            },
        }
    }
}

/// The parts between commas; an empty part at the end is none.
pub open spec fn comma_parts(text: Seq<char>) -> Seq<Seq<char>> {
    let parts = crate::text::split(text, ',');
    if parts.last().len() == 0 {
        parts.drop_last()
    } else {
        parts
    }
}

pub open spec fn is_hashed(text: Seq<char>) -> bool {
    text.len() >= 3 && text[0] == '|' && text[1] == '1' && text[2] == '|'
}

/// What the `ssh_key` crate reads of a hashed host name: salt and hash.
pub uninterp spec fn hashed_name(text: Seq<char>) -> Option<(Seq<u8>, Seq<u8>)>;

pub open spec fn patterns_of(text: Seq<char>) -> Option<PatternsView> {
    if is_hashed(text) {
        match hashed_name(text) {
            Some(h) => Some(PatternsView::HashedName { salt: h.0, hash: h.1 }),
            None => None,
        }
    } else if text.len() > 0 {
        Some(PatternsView::Patterns(comma_parts(text)))
    } else {
        None
    }
}

/// `HostPatterns::from_str` of the `ssh_key` crate: text that begins with `|1|`
/// is a salt and a hash in Base64, and what those are depends on the text
/// alone; other text is patterns between commas, and may not be empty.
#[verifier::external_body]
fn read_patterns(text: &str) -> (r: Option<HostPatterns>)
    ensures
        match r {
            Some(HostPatterns::Patterns(list)) => !is_hashed(text@) && text@.len() > 0
                && crate::text::views(list@) == comma_parts(text@),
            Some(HostPatterns::HashedName { salt, hash }) => is_hashed(text@) && hashed_name(text@)
                == Some((salt@, hash@)),
            None => if is_hashed(text@) {
                hashed_name(text@) is None
            } else {
                text@.len() == 0
            },
        },
{
    match text.parse::<russh::keys::ssh_key::known_hosts::HostPatterns>().ok()? {
        russh::keys::ssh_key::known_hosts::HostPatterns::Patterns(list) => {
            Some(HostPatterns::Patterns(list))
        },
        russh::keys::ssh_key::known_hosts::HostPatterns::HashedName { salt, hash } => {
            Some(HostPatterns::HashedName { salt, hash: hash.to_vec() })
        },
    }
}

/// Reads which hosts a line is about.
pub fn parse_host_patterns(text: &str) -> (r: Option<HostPatterns>)
    ensures
        match r {
            Some(patterns) => patterns_of(text@) == Some(patterns@),
            None => patterns_of(text@) is None,
        },
{
    read_patterns(text)
}

/// The HMAC of a message with SHA-1, as the `hmac` and `sha1` crates compute
/// it.
pub uninterp spec fn hmac_sha1(key: Seq<u8>, message: Seq<u8>) -> Seq<u8>;

/// `Hmac::<Sha1>::new_from_slice` takes keys of any length; `verify_slice`
/// accepts exactly the code of the key and the message.
#[verifier::external_body]
fn is_hmac_sha1(key: &[u8], message: &[u8], expected: &[u8]) -> (r: bool)
    ensures
        r == (hmac_sha1(key@, message@) == expected@),
{
    match <hmac::Hmac<sha1::Sha1> as hmac::KeyInit>::new_from_slice(key) {
        Ok(mac) => {
            hmac::Mac::verify_slice(hmac::Mac::chain_update(mac, message), expected).is_ok()
        },
        Err(_) => false,
    }
}

/// A host matches a pattern, whatever the case of its letters.
pub open spec fn host_matches(pattern: Seq<char>, host: Seq<char>) -> bool {
    crate::pattern::retrying(
        vstd::utf8::encode_utf8(crate::text::lower_text(pattern)),
        vstd::utf8::encode_utf8(crate::text::lower_text(host)),
        crate::pattern::beginning(),
    )
}

/// A certificate that names a principal is good for the hosts that match it.
pub fn host_principal_matches(host: &str, principal: &str) -> (r: bool)
    ensures
        r == host_matches(principal@, host@),
{
    let pattern = lower_string(principal);
    let candidate = lower_string(host);
    retrying_match(pattern.as_str().as_bytes(), candidate.as_str().as_bytes())
}

#[derive(Debug, Clone, Copy, PartialEq, Eq, Structural)]
pub enum HostTrustProblem {
    UnknownMarker,
    NoPatterns,
    BadPatterns,
    NoAlgorithm,
    NoKey,
    EmptyPattern,
    EmptyNegation,
    BadKey,
    UnreadableCertificate,
    UserCertificate,
    RevokedKey,
    RevokedAuthority,
    WeakAuthority,
    NoAuthority,
    InvalidCertificate,
    CriticalOptions,
    WrongHost,
}

impl HostTrustProblem {
    pub open spec fn text(self) -> Seq<char> {
        match self {
            HostTrustProblem::UnknownMarker =>
                "unsupported known_hosts marker; refusing ambiguous trust policy"@,
            HostTrustProblem::NoPatterns => "known_hosts marker is missing host patterns"@,
            HostTrustProblem::BadPatterns => "invalid known_hosts host pattern"@,
            HostTrustProblem::NoAlgorithm => "known_hosts marker is missing a key algorithm"@,
            HostTrustProblem::NoKey => "known_hosts marker is missing key data"@,
            HostTrustProblem::EmptyPattern =>
                "known_hosts host pattern list contains an empty entry"@,
            HostTrustProblem::EmptyNegation => "known_hosts negated host pattern is empty"@,
            HostTrustProblem::BadKey => "invalid public key on known_hosts marker line"@,
            HostTrustProblem::UnreadableCertificate => "server host certificate is malformed"@,
            HostTrustProblem::UserCertificate =>
                "server presented a user certificate where a host certificate is required"@,
            HostTrustProblem::RevokedKey =>
                "server host certificate public key is marked @revoked"@,
            HostTrustProblem::RevokedAuthority =>
                "server host certificate signing CA is marked @revoked"@,
            HostTrustProblem::WeakAuthority =>
                "server host certificate uses a CA algorithm that is not enabled"@,
            HostTrustProblem::NoAuthority =>
                "no matching verifiable @cert-authority is trusted"@,
            HostTrustProblem::InvalidCertificate =>
                "server host certificate signature, authority, or validity window is invalid"@,
            HostTrustProblem::CriticalOptions =>
                "server host certificate contains unsupported critical options"@,
            HostTrustProblem::WrongHost =>
                "server host certificate does not authorize the hostname"@,
        }
    }

    pub fn message(self) -> (r: &'static str)
        ensures
            r@ == self.text(),
    {
        match self {
            HostTrustProblem::UnknownMarker =>
                "unsupported known_hosts marker; refusing ambiguous trust policy",
            HostTrustProblem::NoPatterns => "known_hosts marker is missing host patterns",
            HostTrustProblem::BadPatterns => "invalid known_hosts host pattern",
            HostTrustProblem::NoAlgorithm => "known_hosts marker is missing a key algorithm",
            HostTrustProblem::NoKey => "known_hosts marker is missing key data",
            HostTrustProblem::EmptyPattern =>
                "known_hosts host pattern list contains an empty entry",
            HostTrustProblem::EmptyNegation => "known_hosts negated host pattern is empty",
            HostTrustProblem::BadKey => "invalid public key on known_hosts marker line",
            HostTrustProblem::UnreadableCertificate => "server host certificate is malformed",
            HostTrustProblem::UserCertificate =>
                "server presented a user certificate where a host certificate is required",
            HostTrustProblem::RevokedKey =>
                "server host certificate public key is marked @revoked",
            HostTrustProblem::RevokedAuthority =>
                "server host certificate signing CA is marked @revoked",
            HostTrustProblem::WeakAuthority =>
                "server host certificate uses a CA algorithm that is not enabled",
            HostTrustProblem::NoAuthority =>
                "no matching verifiable @cert-authority is trusted",
            HostTrustProblem::InvalidCertificate =>
                "server host certificate signature, authority, or validity window is invalid",
            HostTrustProblem::CriticalOptions =>
                "server host certificate contains unsupported critical options",
            HostTrustProblem::WrongHost =>
                "server host certificate does not authorize the hostname",
        }
    }
}

/// A problem on a line, counted from one.
#[derive(Debug, Clone, Copy, PartialEq, Eq, Structural)]
pub struct MarkerError {
    pub problem: HostTrustProblem,
    pub line: usize,
}

/// How a host stands in a known-hosts file: with its port, unless that is the
/// usual one.
pub open spec fn target_name(host: Seq<char>, port: u16) -> Seq<char> {
    if port == 22 {
        host
    } else {
        "["@ + host + "]:"@ + crate::text::decimal(port as nat)
    }
}

pub fn known_hosts_target(host: &str, port: u16) -> (r: String)
    ensures
        r@ == target_name(host@, port),
{
    if port == 22 {
        return host.to_owned();
    }
    let mut out = joined3("[", host, "]:");
    out.append(decimal_text(port as u64).as_str());
    out
}

/// The host matches one of the patterns from index `i` on, or did before, and
/// no pattern with `!`.
pub open spec fn clear_match_from(
    target: Seq<char>,
    patterns: Seq<Seq<char>>,
    hit: bool,
    i: int,
) -> Result<bool, HostTrustProblem>
    decreases patterns.len() - i,
{
    if i < 0 || i >= patterns.len() {
        Ok(hit)
    } else {
        let p = patterns[i];
        if p.len() == 0 {
            Err(HostTrustProblem::EmptyPattern)
        } else if p[0] == '!' {
            if p.len() == 1 {
                Err(HostTrustProblem::EmptyNegation)
            } else if host_matches(p.subrange(1, p.len() as int), target) {
                Ok(false)
            } else {
                clear_match_from(target, patterns, hit, i + 1)
            }
        } else {
            clear_match_from(target, patterns, hit || host_matches(p, target), i + 1)
        }
    }
}

fn clear_host_patterns_match(target: &str, patterns: &Vec<String>) -> (r: Result<
    bool,
    HostTrustProblem,
>)
    ensures
        r == clear_match_from(target@, crate::text::views(patterns@), false, 0),
{
    let ghost all = crate::text::views(patterns@);
    let mut hit = false;
    let mut i: usize = 0;
    while i < patterns.len()
        invariant
            all == crate::text::views(patterns@),
            i <= patterns@.len(),
            clear_match_from(target@, all, false, 0) == clear_match_from(
                target@,
                all,
                hit,
                i as int,
            ),
        decreases patterns@.len() - i,
    {
        assert(all[i as int] == patterns@[i as int]@);
        let pattern = patterns[i].as_str();
        let chars = chars_of(pattern);
        if chars.len() == 0 {
            return Err(HostTrustProblem::EmptyPattern);
        }
        if chars[0] == '!' {
            if chars.len() == 1 {
                return Err(HostTrustProblem::EmptyNegation);
            }
            let rest = text_between(chars.as_slice(), 1, chars.len());
            if host_principal_matches(target, rest.as_str()) {
                return Ok(false);
            }
        } else if host_principal_matches(target, pattern) {
            hit = true;
        }
        i += 1;
    }
    Ok(hit)
}

/// The line is about the host. A hashed name is taken letter by letter.
pub open spec fn patterns_match(target: Seq<char>, patterns: PatternsView) -> Result<
    bool,
    HostTrustProblem,
> {
    match patterns {
        PatternsView::Patterns(list) => clear_match_from(target, list, false, 0),
        PatternsView::HashedName { salt, hash } => Ok(
            hmac_sha1(salt, vstd::utf8::encode_utf8(target)) == hash,
        ),
    }
}

pub fn host_patterns_match(target: &str, patterns: &HostPatterns) -> (r: Result<
    bool,
    HostTrustProblem,
>)
    ensures
        r == patterns_match(target@, patterns@),
{
    match patterns {
        HostPatterns::Patterns(list) => clear_host_patterns_match(target, list),
        HostPatterns::HashedName { salt, hash } => Ok(
            is_hmac_sha1(salt.as_slice(), target.as_bytes(), hash.as_slice()),
        ),
    }
}

/// What a line adds: a key, and whether it is revoked or may vouch for hosts.
#[verifier::ext_equal]
pub struct MarkView {
    pub revoked: bool,
    pub key: KeyView,
}

/// What a line says of the host. Lines without a marker say nothing here; with
/// one that is not understood the file is refused.
pub open spec fn marked(target: Seq<char>, line: Seq<char>) -> Result<
    Option<MarkView>,
    HostTrustProblem,
> {
    let text = crate::text::trim(line);
    let fields = crate::text::words(text);
    if text.len() == 0 || text[0] != '@' || fields.len() == 0 {
        Ok(None)
    } else if fields[0] != "@cert-authority"@ && fields[0] != "@revoked"@ {
        Err(HostTrustProblem::UnknownMarker)
    } else if fields.len() < 2 {
        Err(HostTrustProblem::NoPatterns)
    } else if patterns_of(fields[1]) is None {
        Err(HostTrustProblem::BadPatterns)
    } else if fields.len() < 3 {
        Err(HostTrustProblem::NoAlgorithm)
    } else if fields.len() < 4 {
        Err(HostTrustProblem::NoKey)
    } else {
        match patterns_match(target, patterns_of(fields[1])->0) {
            Err(e) => Err(e),
            Ok(false) => Ok(None),
            Ok(true) => match openssh_key(fields[2] + " "@ + fields[3]) {
                None => Err(HostTrustProblem::BadKey),
                Some(key) => Ok(
                    Some(
                        MarkView {
                            revoked: fields[0] != "@cert-authority"@,
                            key: KeyView { algorithm: key.0, blob: key.1 },
                        },
                    ),
                ),
            },
        }
    }
}

fn read_marker(target: &str, line: &str) -> (r: Result<Option<(bool, HostKey)>, HostTrustProblem>)
    ensures
        match r {
            Ok(Some(m)) => marked(target@, line@) == Ok::<Option<MarkView>, HostTrustProblem>(
                Some(MarkView { revoked: m.0, key: m.1@ }),
            ),
            Ok(None) => marked(target@, line@) == Ok::<Option<MarkView>, HostTrustProblem>(None),
            Err(e) => marked(target@, line@) == Err::<Option<MarkView>, HostTrustProblem>(e),
        },
{
    let text = trimmed(line);
    let chars = chars_of(text.as_str());
    if chars.len() == 0 || chars[0] != '@' {
        return Ok(None);
    }
    let fields = words_of(text.as_str());
    let ghost all = crate::text::views(fields@);
    if fields.len() == 0 {
        return Ok(None);
    }
    assert(all[0] == fields@[0]@);
    let authority = same_text(fields[0].as_str(), "@cert-authority");
    if !authority && !same_text(fields[0].as_str(), "@revoked") {
        return Err(HostTrustProblem::UnknownMarker);
    }
    if fields.len() < 2 {
        return Err(HostTrustProblem::NoPatterns);
    }
    assert(all[1] == fields@[1]@);
    let patterns = match parse_host_patterns(fields[1].as_str()) {
        Some(patterns) => patterns,
        None => {
            return Err(HostTrustProblem::BadPatterns);
        },
    };
    if fields.len() < 3 {
        return Err(HostTrustProblem::NoAlgorithm);
    }
    if fields.len() < 4 {
        return Err(HostTrustProblem::NoKey);
    }
    assert(all[2] == fields@[2]@);
    assert(all[3] == fields@[3]@);
    let applies = match host_patterns_match(target, &patterns) {
        Ok(applies) => applies,
        Err(e) => {
            return Err(e);
        },
    };
    if !applies {
        return Ok(None);
    }
    let key_text = joined3(fields[2].as_str(), " ", fields[3].as_str());
    match read_key(key_text.as_str()) {
        Some(key) => Ok(Some((!authority, key))),
        None => Err(HostTrustProblem::BadKey),
    }
}

/// The keys without those that stand before.
pub open spec fn distinct(keys: Seq<KeyView>) -> Seq<KeyView>
    decreases keys.len(),
{
    if keys.len() == 0 {
        Seq::empty()
    } else {
        let before = distinct(keys.drop_last());
        if before.contains(keys.last()) {
            before
        } else {
            before.push(keys.last())
        }
    }
}

/// The marked keys of the lines from index `i` on, behind those found before:
/// first the authorities, then the revoked keys.
pub open spec fn marks_from(
    target: Seq<char>,
    lines: Seq<Seq<char>>,
    trusted: Seq<KeyView>,
    revoked: Seq<KeyView>,
    i: int,
) -> Result<(Seq<KeyView>, Seq<KeyView>), MarkerError>
    decreases lines.len() - i,
{
    if i < 0 || i >= lines.len() {
        Ok((trusted, revoked))
    } else {
        match marked(target, lines[i]) {
            Err(problem) => Err(MarkerError { problem, line: (i + 1) as usize }),
            Ok(None) => marks_from(target, lines, trusted, revoked, i + 1),
            Ok(Some(m)) => if m.revoked {
                marks_from(target, lines, trusted, revoked.push(m.key), i + 1)
            } else {
                marks_from(target, lines, trusted.push(m.key), revoked, i + 1)
            },
        }
    }
}

/// What the marked lines of a known-hosts file say of one host.
#[derive(Debug, Clone, PartialEq, Eq)]
pub struct HostTrustPolicy {
    pub trusted_certificate_authorities: Vec<HostKey>,
    pub revoked_keys: Vec<HostKey>,
}

impl Default for HostTrustPolicy {
    fn default() -> (r: Self)
        ensures
            r.trusted_certificate_authorities@.len() == 0,
            r.revoked_keys@.len() == 0,
    {
        HostTrustPolicy {
            trusted_certificate_authorities: Vec::new(),
            revoked_keys: Vec::new(),
        }
    }
}

fn holds_key(keys: &Vec<HostKey>, key: &HostKey) -> (r: bool)
    ensures
        r == key_views(keys@).contains(key@),
{
    let ghost all = key_views(keys@);
    let mut i: usize = 0;
    while i < keys.len()
        invariant
            all == key_views(keys@),
            i <= keys@.len(),
            forall|k: int| 0 <= k < i ==> #[trigger] all[k] != key@,
        decreases keys@.len() - i,
    {
        assert(all[i as int] == keys@[i as int]@);
        if keys[i].same(key) {
            return true;
        }
        i += 1;
    }
    false
}

fn dedup_public_keys(keys: Vec<HostKey>) -> (r: Vec<HostKey>)
    ensures
        key_views(r@) == distinct(key_views(keys@)),
{
    let ghost all = key_views(keys@);
    let mut rest = reversed_keys(keys);
    let mut unique: Vec<HostKey> = Vec::new();
    let ghost mut done: int = 0;
    assert(all.take(0) =~= Seq::<KeyView>::empty());
    assert(key_views(unique@) =~= Seq::<KeyView>::empty());
    while rest.len() > 0
        invariant
            0 <= done,
            done + rest@.len() == all.len(),
            forall|k: int|
                0 <= k < rest@.len() ==> (#[trigger] rest@[k])@ == all[all.len() - 1 - k],
            key_views(unique@) == distinct(all.take(done)),
        decreases rest@.len(),
    {
        let ghost before = rest@;
        let top = rest.pop();
        match top {
            Some(key) => {
                proof {
                    assert(key@ == all[done]) by {
                        assert(before[before.len() - 1]@ == all[done]);
                    }
                    assert(all.take(done + 1).drop_last() =~= all.take(done));
                    assert(all.take(done + 1).last() == key@);
                }
                if !holds_key(&unique, &key) {
                    let ghost view = key@;
                    let ghost had = key_views(unique@);
                    unique.push(key);
                    assert(key_views(unique@) =~= had.push(view));
                }
                proof {
                    done = done + 1;
                }
            },
            None => {
                assert(false);
            },
        }
    }
    assert(all.take(all.len() as int) =~= all);
    unique
}

fn reversed_keys(keys: Vec<HostKey>) -> (r: Vec<HostKey>)
    ensures
        r@.len() == keys@.len(),
        forall|k: int| 0 <= k < r@.len() ==> #[trigger] r@[k] == keys@[keys@.len() - 1 - k],
{
    let ghost all = keys@;
    let mut rest = keys;
    let mut out: Vec<HostKey> = Vec::new();
    while rest.len() > 0
        invariant
            out@.len() + rest@.len() == all.len(),
            rest@ == all.take(rest@.len() as int),
            forall|k: int| 0 <= k < out@.len() ==> #[trigger] out@[k] == all[all.len() - 1 - k],
        decreases rest@.len(),
    {
        let ghost n = rest@.len();
        let top = rest.pop();
        match top {
            Some(key) => {
                out.push(key);
                assert(rest@ =~= all.take(n - 1));
            },
            None => {
                assert(false);
            },
        }
    }
    out
}

/// The facts of a certificate that decide whether a host may present it.
#[derive(Debug, Clone, PartialEq, Eq)]
pub struct HostCertificate {
    pub for_host: bool,
    pub key: HostKey,
    pub authority: HostKey,
    /// The names of the critical options.
    pub critical_options: Vec<String>,
    pub principals: Vec<String>,
}

#[verifier::ext_equal]
pub struct CertificateView {
    pub for_host: bool,
    pub key: KeyView,
    pub authority: KeyView,
    pub critical_options: Seq<Seq<char>>,
    pub principals: Seq<Seq<char>>,
}

impl View for HostCertificate {
    type V = CertificateView;

    open spec fn view(&self) -> CertificateView {
        CertificateView {
            for_host: self.for_host,
            key: self.key@,
            authority: self.authority@,
            critical_options: crate::text::views(self.critical_options@),
            principals: crate::text::views(self.principals@),
        }
    }
}

/// What `Certificate::from_bytes` of the `ssh_key` crate reads.
pub uninterp spec fn certificate_facts(encoded: Seq<u8>) -> Option<CertificateView>;

/// `Certificate::from_bytes` reads the binary form of a certificate; its
/// accessors hand out what is in it. What comes out depends on the bytes alone.
#[verifier::external_body]
fn read_certificate(encoded: &[u8]) -> (r: Option<HostCertificate>)
    ensures
        match r {
            Some(c) => certificate_facts(encoded@) == Some(c@),
            None => certificate_facts(encoded@) is None,
        },
{
    let c = russh::keys::Certificate::from_bytes(encoded).ok()?;
    let key = russh::keys::PublicKey::from(c.public_key().clone());
    let ca = russh::keys::PublicKey::from(c.signature_key().clone());
    Some(HostCertificate {
        for_host: c.cert_type().is_host(),
        key: HostKey { algorithm: key.algorithm().as_str().to_owned(), blob: key.to_bytes().ok()? },
        authority: HostKey { algorithm: ca.algorithm().as_str().to_owned(), blob: ca.to_bytes().ok()? },
        critical_options: c.critical_options().keys().cloned().collect(),
        principals: c.valid_principals().to_vec(),
    })
}

/// What `Certificate::validate_at` of the `ssh_key` crate decides for a
/// certificate at a time and one authority, given in binary form.
pub uninterp spec fn valid_certificate(encoded: Seq<u8>, now: u64, authority: Seq<u8>) -> bool;

/// `Certificate::validate_at` checks the signature, that the authority, named
/// by its SHA-256 fingerprint, made it, and that the time lies in the
/// certificate's window. What it decides depends on these arguments alone.
#[verifier::external_body]
fn validates(encoded: &[u8], now: u64, authority: &[u8]) -> (r: bool)
    ensures
        r == valid_certificate(encoded@, now, authority@),
{
    match (russh::keys::Certificate::from_bytes(encoded), russh::keys::PublicKey::from_bytes(authority)) {
        (Ok(c), Ok(key)) => c.validate_at(now, [&key.fingerprint(russh::keys::HashAlg::Sha256)]).is_ok(),
        _ => false,
    }
}

/// One of the authorities vouches for the certificate at that time.
pub open spec fn vouched_for(encoded: Seq<u8>, now: u64, authorities: Seq<KeyView>) -> bool {
    exists|i: int|
        0 <= i < authorities.len() && valid_certificate(
            encoded,
            now,
            (#[trigger] authorities[i]).blob,
        )
}

/// The keys that can vouch.
pub open spec fn vouching(keys: Seq<KeyView>) -> Seq<KeyView> {
    keys.filter(|k: KeyView| verifiable(k))
}

pub open spec fn names_host(principals: Seq<Seq<char>>, host: Seq<char>) -> bool {
    principals.len() == 0 || exists|i: int|
        0 <= i < principals.len() && host_matches(#[trigger] principals[i], host)
}

/// Why a certificate is refused, if it is.
pub open spec fn certificate_problem(
    trusted: Seq<KeyView>,
    revoked: Seq<KeyView>,
    host: Seq<char>,
    c: CertificateView,
    valid: bool,
) -> Option<HostTrustProblem> {
    if !c.for_host {
        Some(HostTrustProblem::UserCertificate)
    } else if revoked.contains(c.key) {
        Some(HostTrustProblem::RevokedKey)
    } else if revoked.contains(c.authority) {
        Some(HostTrustProblem::RevokedAuthority)
    } else if !verifiable(c.authority) {
        Some(HostTrustProblem::WeakAuthority)
    } else if vouching(trusted).len() == 0 {
        Some(HostTrustProblem::NoAuthority)
    } else if !valid {
        Some(HostTrustProblem::InvalidCertificate)
    } else if c.critical_options.len() > 0 {
        Some(HostTrustProblem::CriticalOptions)
    } else if !names_host(c.principals, host) {
        Some(HostTrustProblem::WrongHost)
    } else {
        None
    }
}

impl HostTrustPolicy {
    pub open spec fn trusted(&self) -> Seq<KeyView> {
        key_views(self.trusted_certificate_authorities@)
    }

    pub open spec fn revoked(&self) -> Seq<KeyView> {
        key_views(self.revoked_keys@)
    }

    /// Reads the marked lines that are about a host.
    pub fn parse(host: &str, port: u16, contents: &str) -> (r: Result<Self, MarkerError>)
        ensures
            ({
                let found = marks_from(
                    target_name(host@, port),
                    crate::text::lines(contents@),
                    Seq::empty(),
                    Seq::empty(),
                    0,
                );
                match r {
                    Ok(policy) => found matches Ok(keys) && policy.trusted() == distinct(keys.0)
                        && policy.revoked() == distinct(keys.1),
                    Err(e) => found == Err::<(Seq<KeyView>, Seq<KeyView>), MarkerError>(e),
                }
            }),
    {
        let target = known_hosts_target(host, port);
        let lines = lines_of(contents);
        let ghost all = crate::text::views(lines@);
        let ghost found = marks_from(target@, all, Seq::empty(), Seq::empty(), 0);
        let mut trusted: Vec<HostKey> = Vec::new();
        let mut revoked: Vec<HostKey> = Vec::new();
        assert(key_views(trusted@) =~= Seq::<KeyView>::empty());
        assert(key_views(revoked@) =~= Seq::<KeyView>::empty());
        let mut i: usize = 0;
        while i < lines.len()
            invariant
                all == crate::text::views(lines@),
                all == crate::text::lines(contents@),
                target@ == target_name(host@, port),
                i <= lines@.len(),
                found == marks_from(target@, all, Seq::empty(), Seq::empty(), 0),
                found == marks_from(
                    target@,
                    all,
                    key_views(trusted@),
                    key_views(revoked@),
                    i as int,
                ),
            decreases lines@.len() - i,
        {
            assert(all[i as int] == lines@[i as int]@);
            match read_marker(target.as_str(), lines[i].as_str()) {
                Ok(Some(mark)) => {
                    let ghost view = mark.1@;
                    if mark.0 {
                        let ghost had = key_views(revoked@);
                        revoked.push(mark.1);
                        assert(key_views(revoked@) =~= had.push(view));
                    } else {
                        let ghost had = key_views(trusted@);
                        trusted.push(mark.1);
                        assert(key_views(trusted@) =~= had.push(view));
                    }
                },
                Ok(None) => {},
                Err(problem) => {
                    return Err(MarkerError { problem, line: i + 1 });
                },
            }
            i += 1;
        }
        Ok(
            HostTrustPolicy {
                trusted_certificate_authorities: dedup_public_keys(trusted),
                revoked_keys: dedup_public_keys(revoked),
            },
        )
    }

    pub fn has_certificate_authority(&self) -> (r: bool)
        ensures
            r == (vouching(self.trusted()).len() > 0),
    {
        let found = self.authorities();
        found.len() > 0
    }

    fn authorities(&self) -> (r: Vec<&HostKey>)
        ensures
            r@.map_values(|k: &HostKey| k@) == vouching(self.trusted()),
    {
        let ghost all = self.trusted();
        let ghost good = |k: KeyView| verifiable(k);
        let keys = &self.trusted_certificate_authorities;
        let mut out: Vec<&HostKey> = Vec::new();
        let mut i: usize = 0;
        assert(all.take(0) =~= Seq::<KeyView>::empty());
        assert(out@.map_values(|k: &HostKey| k@) =~= all.take(0).filter(good)) by {
            reveal(Seq::filter);
        }
        while i < keys.len()
            invariant
                all == key_views(keys@),
                good == (|k: KeyView| verifiable(k)),
                i <= keys@.len(),
                out@.map_values(|k: &HostKey| k@) == all.take(i as int).filter(good),
            decreases keys@.len() - i,
        {
            assert(all[i as int] == keys@[i as int]@);
            let ghost had = out@.map_values(|k: &HostKey| k@);
            if keys[i].can_vouch() {
                out.push(&keys[i]);
                assert(out@.map_values(|k: &HostKey| k@) =~= had.push(all[i as int]));
            }
            proof {
                let longer = all.take(i + 1);
                assert(longer.drop_last() =~= all.take(i as int));
                assert(longer.last() == all[i as int]);
                reveal(Seq::filter);
            }
            i += 1;
        }
        assert(all.take(all.len() as int) =~= all);
        out
    }

    pub fn is_revoked(&self, key: &HostKey) -> (r: bool)
        ensures
            r == self.revoked().contains(key@),
    {
        holds_key(&self.revoked_keys, key)
    }

    /// Decides over a certificate, given whether its signature, its authority
    /// and its time are in order.
    pub fn check_host_certificate(&self, host: &str, certificate: &HostCertificate, valid: bool) -> (r:
        Result<(), HostTrustProblem>)
        ensures
            match r {
                Ok(()) => certificate_problem(
                    self.trusted(),
                    self.revoked(),
                    host@,
                    certificate@,
                    valid,
                ) is None,
                Err(e) => certificate_problem(
                    self.trusted(),
                    self.revoked(),
                    host@,
                    certificate@,
                    valid,
                ) == Some(e),
            },
    {
        if !certificate.for_host {
            return Err(HostTrustProblem::UserCertificate);
        }
        if self.is_revoked(&certificate.key) {
            return Err(HostTrustProblem::RevokedKey);
        }
        if self.is_revoked(&certificate.authority) {
            return Err(HostTrustProblem::RevokedAuthority);
        }
        if !certificate.authority.can_vouch() {
            return Err(HostTrustProblem::WeakAuthority);
        }
        if !self.has_certificate_authority() {
            return Err(HostTrustProblem::NoAuthority);
        }
        if !valid {
            return Err(HostTrustProblem::InvalidCertificate);
        }
        if certificate.critical_options.len() > 0 {
            return Err(HostTrustProblem::CriticalOptions);
        }
        let ghost all = crate::text::views(certificate.principals@);
        if certificate.principals.len() == 0 {
            return Ok(());
        }
        let mut i: usize = 0;
        while i < certificate.principals.len()
            invariant
                all == crate::text::views(certificate.principals@),
                i <= certificate.principals@.len(),
                forall|k: int| 0 <= k < i ==> !host_matches(#[trigger] all[k], host@),
                all.len() > 0,
                certificate@.for_host,
                !self.revoked().contains(certificate@.key),
                !self.revoked().contains(certificate@.authority),
                verifiable(certificate@.authority),
                vouching(self.trusted()).len() > 0,
                valid,
                certificate@.critical_options.len() == 0,
            decreases certificate.principals@.len() - i,
        {
            assert(all[i as int] == certificate.principals@[i as int]@);
            if host_principal_matches(host, certificate.principals[i].as_str()) {
                return Ok(());
            }
            i += 1;
        }
        Err(HostTrustProblem::WrongHost)
    }

    /// Decides over a certificate that a host presents at a time, in seconds
    /// since 1970.
    pub fn verify_host_certificate(&self, host: &str, encoded: &[u8], now: u64) -> (r: Result<
        (),
        HostTrustProblem,
    >)
        ensures
            match certificate_facts(encoded@) {
                None => r == Err::<(), HostTrustProblem>(HostTrustProblem::UnreadableCertificate),
                Some(c) => {
                    let problem = certificate_problem(
                        self.trusted(),
                        self.revoked(),
                        host@,
                        c,
                        vouched_for(encoded@, now, vouching(self.trusted())),
                    );
                    match r {
                        Ok(()) => problem is None,
                        Err(e) => problem == Some(e),
                    }
                },
            },
    {
        let certificate = match read_certificate(encoded) {
            Some(c) => c,
            None => {
                return Err(HostTrustProblem::UnreadableCertificate);
            },
        };
        let authorities = self.authorities();
        let ghost all = vouching(self.trusted());
        let mut valid = false;
        let mut i: usize = 0;
        while i < authorities.len() && !valid
            invariant
                all == authorities@.map_values(|k: &HostKey| k@),
                i <= authorities@.len(),
                valid ==> vouched_for(encoded@, now, all),
                !valid ==> forall|j: int|
                    0 <= j < i ==> !valid_certificate(encoded@, now, (#[trigger] all[j]).blob),
            decreases authorities@.len() - i,
        {
            assert(all[i as int] == authorities@[i as int]@);
            valid = validates(encoded, now, authorities[i].blob.as_slice());
            i += 1;
        }
        self.check_host_certificate(host, &certificate, valid)
    }
}

/// Whether a known-hosts file that was read up to one byte past the limit is
/// short enough.
pub fn known_hosts_fit(bytes: usize) -> (r: bool)
    ensures
        r == (bytes <= MAX_KNOWN_HOSTS_BYTES),
{
    bytes <= MAX_KNOWN_HOSTS_BYTES
}

/// The known-hosts file of the user.
pub fn default_known_hosts_path(home: Option<&str>, platform: Platform) -> (r: Option<String>)
    ensures
        match home {
            Some(h) => r matches Some(path) && path@ == crate::directories::entry_path(
                crate::directories::entry_path(h@, ".ssh"@, platform),
                "known_hosts"@,
                platform,
            ),
            None => r is None,
        },
{
    match home {
        Some(h) => {
            let directory = entry_of(h, ".ssh", platform);
            Some(entry_of(directory.as_str(), "known_hosts", platform))
        },
        None => None,
    }
}

/// A revoked key, or a key that a revoked authority vouches for, is refused,
/// whatever else the certificate says.
pub proof fn revoked_keys_are_refused(
    trusted: Seq<KeyView>,
    revoked: Seq<KeyView>,
    host: Seq<char>,
    c: CertificateView,
    valid: bool,
)
    requires
        revoked.contains(c.key) || revoked.contains(c.authority),
    ensures
        certificate_problem(trusted, revoked, host, c, valid) is Some,
{
}

proof fn lemma_distinct(keys: Seq<KeyView>)
    ensures
        distinct(keys).no_duplicates(),
        forall|k: KeyView| #[trigger] distinct(keys).contains(k) <==> keys.contains(k),
    decreases keys.len(),
{
    if keys.len() > 0 {
        let before = distinct(keys.drop_last());
        let last = keys.last();
        lemma_distinct(keys.drop_last());
        let all = distinct(keys);
        assert forall|k: KeyView| #[trigger] all.contains(k) <==> keys.contains(k) by {
            if keys.contains(k) && k != last {
                let i = choose|i: int| 0 <= i < keys.len() && keys[i] == k;
                assert(keys.drop_last()[i] == k);
                assert(before.contains(k));
            }
            if before.contains(k) {
                assert(keys.drop_last().contains(k));
                let i = choose|i: int| 0 <= i < keys.drop_last().len() && keys.drop_last()[i] == k;
                assert(keys[i] == k);
                let j = choose|j: int| 0 <= j < before.len() && before[j] == k;
                assert(all[j] == k);
            }
            if k == last {
                assert(keys[keys.len() - 1] == k);
                if !before.contains(last) {
                    assert(all[all.len() - 1] == k);
                }
            }
        }
    }
}

/// A policy holds each key once, and exactly the keys that were marked.
pub proof fn policies_hold_each_key_once(keys: Seq<KeyView>, key: KeyView)
    ensures
        distinct(keys).no_duplicates(),
        distinct(keys).contains(key) == keys.contains(key),
{
    lemma_distinct(keys);
}

} // verus!
