//! Ways of authenticating, the order in which they are tried, and when an
//! authenticated connection may be used again.

use vstd::prelude::*;
use vstd::string::*;

use crate::model::copy_option;
use crate::model::copy_texts;
use crate::paths::path_lists_match;
use crate::paths::paths_match;

verus! {

#[derive(Debug, Clone)]
pub enum Authentication {
    Password(String),
    KeyboardInteractive(String),
    PrivateKey { path: String, passphrase: Option<String> },
    Agent,
    Auto { identity_files: Vec<String>, passphrase: Option<String> },
}

#[verifier::ext_equal]
pub enum AuthView {
    Password(Seq<char>),
    KeyboardInteractive(Seq<char>),
    PrivateKey { path: Seq<char>, passphrase: Option<Seq<char>> },
    Agent,
    Auto { identity_files: Seq<Seq<char>>, passphrase: Option<Seq<char>> },
}

impl View for Authentication {
    type V = AuthView;

    open spec fn view(&self) -> AuthView {
        match *self {
            Authentication::Password(secret) => AuthView::Password(secret@),
            Authentication::KeyboardInteractive(secret) => AuthView::KeyboardInteractive(secret@),
            Authentication::PrivateKey { path, passphrase } => AuthView::PrivateKey {
                path: path@,
                passphrase: crate::model::option_view(passphrase),
            },
            Authentication::Agent => AuthView::Agent,
            Authentication::Auto { identity_files, passphrase } => AuthView::Auto {
                identity_files: crate::text::views(identity_files@),
                passphrase: crate::model::option_view(passphrase),
            },
        }
    }
}

/// Where the authentication of a connection came from, without any secret. A
/// password is never taken for another one.
#[derive(Debug, Clone, PartialEq, Eq)]
pub enum AuthenticationReuseKey {
    PrivateKey(String),
    Agent,
    Auto(Vec<String>),
    NonReusable,
}

#[verifier::ext_equal]
pub enum ReuseView {
    PrivateKey(Seq<char>),
    Agent,
    Auto(Seq<Seq<char>>),
    NonReusable,
}

impl View for AuthenticationReuseKey {
    type V = ReuseView;

    open spec fn view(&self) -> ReuseView {
        match *self {
            AuthenticationReuseKey::PrivateKey(path) => ReuseView::PrivateKey(path@),
            AuthenticationReuseKey::Agent => ReuseView::Agent,
            AuthenticationReuseKey::Auto(files) => ReuseView::Auto(crate::text::views(files@)),
            AuthenticationReuseKey::NonReusable => ReuseView::NonReusable,
        }
    }
}

impl AuthView {
    pub open spec fn reuse_key(self) -> ReuseView {
        match self {
            AuthView::Password(_) => ReuseView::NonReusable,
            AuthView::KeyboardInteractive(_) => ReuseView::NonReusable,
            AuthView::PrivateKey { path, .. } => ReuseView::PrivateKey(path),
            AuthView::Agent => ReuseView::Agent,
            AuthView::Auto { identity_files, .. } => ReuseView::Auto(identity_files),
        }
    }
}

impl ReuseView {
    /// A connection of this source serves a request of the other.
    pub open spec fn serves(self, requested: ReuseView) -> bool {
        match (self, requested) {
            (ReuseView::PrivateKey(a), ReuseView::PrivateKey(b)) => crate::paths::same_path(a, b),
            (ReuseView::Agent, ReuseView::Agent) => true,
            (ReuseView::Auto(a), ReuseView::Auto(b)) => crate::paths::same_paths(a, b),
            _ => false,
        }
    }
}

impl AuthenticationReuseKey {
    pub fn can_reuse_with(&self, requested: &Self) -> (r: bool)
        ensures
            r == self@.serves(requested@),
    {
        match (self, requested) {
            (
                AuthenticationReuseKey::PrivateKey(a),
                AuthenticationReuseKey::PrivateKey(b),
            ) => paths_match(a.as_str(), b.as_str()),
            (AuthenticationReuseKey::Agent, AuthenticationReuseKey::Agent) => true,
            (AuthenticationReuseKey::Auto(a), AuthenticationReuseKey::Auto(b)) => path_lists_match(
                a,
                b,
            ),
            _ => false,
        }
    }

    pub fn copy(&self) -> (r: Self)
        ensures
            r@ == self@,
    {
        match self {
            AuthenticationReuseKey::PrivateKey(path) => AuthenticationReuseKey::PrivateKey(
                path.clone(),
            ),
            AuthenticationReuseKey::Agent => AuthenticationReuseKey::Agent,
            AuthenticationReuseKey::Auto(files) => AuthenticationReuseKey::Auto(copy_texts(files)),
            AuthenticationReuseKey::NonReusable => AuthenticationReuseKey::NonReusable,
        }
    }
}

/// One way that is tried on a session.
#[derive(Debug, PartialEq, Eq)]
pub enum AuthAttempt {
    Password,
    KeyboardInteractive,
    Agent,
    PrivateKey(String),
}

#[verifier::ext_equal]
pub enum AttemptView {
    Password,
    KeyboardInteractive,
    Agent,
    PrivateKey(Seq<char>),
}

impl View for AuthAttempt {
    type V = AttemptView;

    open spec fn view(&self) -> AttemptView {
        match *self {
            AuthAttempt::Password => AttemptView::Password,
            AuthAttempt::KeyboardInteractive => AttemptView::KeyboardInteractive,
            AuthAttempt::Agent => AttemptView::Agent,
            AuthAttempt::PrivateKey(path) => AttemptView::PrivateKey(path@),
        }
    }
}

/// How an attempt went.
#[derive(Debug, Clone, Copy, PartialEq, Eq, Structural)]
pub enum AuthOutcome {
    Accepted,
    Refused,
    Failed,
}

/// What to do next while a session is being authenticated.
#[derive(Debug, PartialEq, Eq)]
pub enum AuthStep {
    Try(AuthAttempt),
    Authenticated,
    Refused,
    Failed,
}

#[verifier::ext_equal]
pub enum AuthStepView {
    Try(AttemptView),
    Authenticated,
    Refused,
    Failed,
}

impl View for AuthStep {
    type V = AuthStepView;

    open spec fn view(&self) -> AuthStepView {
        match *self {
            AuthStep::Try(attempt) => AuthStepView::Try(attempt@),
            AuthStep::Authenticated => AuthStepView::Authenticated,
            AuthStep::Refused => AuthStepView::Refused,
            AuthStep::Failed => AuthStepView::Failed,
        }
    }
}

impl AuthView {
    /// The attempt at this place in the order; nothing behind the last. The
    /// automatic way asks the agent first, then the identity files in turn.
    pub open spec fn attempt(self, place: nat) -> Option<AttemptView> {
        match self {
            AuthView::Password(_) => if place == 0 {
                Some(AttemptView::Password)
            } else {
                None
            },
            AuthView::KeyboardInteractive(_) => if place == 0 {
                Some(AttemptView::KeyboardInteractive)
            } else {
                None
            },
            AuthView::PrivateKey { path, .. } => if place == 0 {
                Some(AttemptView::PrivateKey(path))
            } else {
                None
            },
            AuthView::Agent => if place == 0 {
                Some(AttemptView::Agent)
            } else {
                None
            },
            AuthView::Auto { identity_files, .. } => if place == 0 {
                Some(AttemptView::Agent)
            } else if place <= identity_files.len() {
                Some(AttemptView::PrivateKey(identity_files[place - 1]))
            } else {
                None
            },
        }
    }

    /// The step after `tried` attempts, the last of which went like this. Where
    /// there are other ways left, an attempt that fails is one that is refused.
    pub open spec fn step(self, tried: nat, last: Option<AuthOutcome>) -> AuthStepView {
        if last == Some(AuthOutcome::Accepted) {
            AuthStepView::Authenticated
        } else if last == Some(AuthOutcome::Failed) && !(self is Auto) {
            AuthStepView::Failed
        } else {
            match self.attempt(tried) {
                Some(attempt) => AuthStepView::Try(attempt),
                None => AuthStepView::Refused,
            }
        }
    }
}

impl Authentication {
    pub fn reuse_key(&self) -> (r: AuthenticationReuseKey)
        ensures
            r@ == self@.reuse_key(),
    {
        match self {
            Authentication::Password(_) => AuthenticationReuseKey::NonReusable,
            Authentication::KeyboardInteractive(_) => AuthenticationReuseKey::NonReusable,
            Authentication::PrivateKey { path, passphrase: _ } =>
                AuthenticationReuseKey::PrivateKey(path.clone()),
            Authentication::Agent => AuthenticationReuseKey::Agent,
            Authentication::Auto { identity_files, passphrase: _ } => AuthenticationReuseKey::Auto(
                copy_texts(identity_files),
            ),
        }
    }

    pub fn copy(&self) -> (r: Self)
        ensures
            r@ == self@,
    {
        match self {
            Authentication::Password(secret) => Authentication::Password(secret.clone()),
            Authentication::KeyboardInteractive(secret) => Authentication::KeyboardInteractive(
                secret.clone(),
            ),
            Authentication::PrivateKey { path, passphrase } => Authentication::PrivateKey {
                path: path.clone(),
                passphrase: copy_option(passphrase),
            },
            Authentication::Agent => Authentication::Agent,
            Authentication::Auto { identity_files, passphrase } => Authentication::Auto {
                identity_files: copy_texts(identity_files),
                passphrase: copy_option(passphrase),
            },
        }
    }

    /// What to do after `tried` attempts, given how the last one went.
    pub fn next_step(&self, tried: usize, last: Option<AuthOutcome>) -> (r: AuthStep)
        ensures
            r@ == self@.step(tried as nat, last),
    {
        let automatic = match self {
            Authentication::Auto { .. } => true,
            _ => false,
        };
        match last {
            Some(AuthOutcome::Accepted) => {
                return AuthStep::Authenticated;
            },
            Some(AuthOutcome::Failed) => {
                if !automatic {
                    return AuthStep::Failed;
                }
            },
            _ => {},
        }
        if let Authentication::Auto { identity_files, passphrase: _ } = self {
            if tried > 0 {
                return if tried <= identity_files.len() {
                    AuthStep::Try(AuthAttempt::PrivateKey(identity_files[tried - 1].clone()))
                } else {
                    AuthStep::Refused
                };
            }
            return AuthStep::Try(AuthAttempt::Agent);
        }
        if tried > 0 {
            return AuthStep::Refused;
        }
        match self {
            Authentication::Password(_) => AuthStep::Try(AuthAttempt::Password),
            Authentication::KeyboardInteractive(_) => AuthStep::Try(
                AuthAttempt::KeyboardInteractive,
            ),
            Authentication::PrivateKey { path, passphrase: _ } => AuthStep::Try(
                AuthAttempt::PrivateKey(path.clone()),
            ),
            _ => AuthStep::Try(AuthAttempt::Agent),
        }
    }
}

/// The answers to the prompts of an interactive authentication: the secret for
/// each of them.
pub fn prompt_answers(secret: &str, prompts: usize) -> (r: Vec<String>)
    ensures
        crate::text::views(r@) == Seq::new(prompts as nat, |i: int| secret@),
{
    let mut out: Vec<String> = Vec::new();
    let mut i: usize = 0;
    while i < prompts
        invariant
            i <= prompts,
            out@.len() == i,
            forall|k: int| 0 <= k < i ==> (#[trigger] out@[k])@ == secret@,
        decreases prompts - i,
    {
        out.push(secret.to_owned());
        i += 1;
    }
    assert(crate::text::views(out@) =~= Seq::new(prompts as nat, |i: int| secret@));
    out
}

/// A private key on disk may be used for signing here. RSA keys are left to an
/// agent.
pub fn direct_key_allowed(is_rsa: bool) -> (r: bool)
    ensures
        r == !is_rsa,
{
    !is_rsa
}

/// A password, given either way, never serves another request, nor does
/// another source serve it.
pub proof fn passwords_are_never_reused(existing: AuthView, requested: AuthView)
    requires
        existing is Password || existing is KeyboardInteractive || requested is Password
            || requested is KeyboardInteractive,
    ensures
        !existing.reuse_key().serves(requested.reuse_key()),
{
}

/// The secrets of a key or of the automatic way play no part in reuse, and a
/// source that serves another is served by it.
pub proof fn reuse_ignores_secrets_and_is_symmetric(a: AuthView, b: AuthView)
    ensures
        a.reuse_key().serves(b.reuse_key()) == b.reuse_key().serves(a.reuse_key()),
        a matches AuthView::PrivateKey { path, .. } ==> a.reuse_key().serves(
            (AuthView::PrivateKey { path, passphrase: None }).reuse_key(),
        ),
        a matches AuthView::Auto { identity_files, .. } ==> a.reuse_key().serves(
            (AuthView::Auto { identity_files, passphrase: None }).reuse_key(),
        ),
{
}

/// Authentication comes to an end: behind the last attempt there is no other.
pub proof fn attempts_end(auth: AuthView, tried: nat, last: Option<AuthOutcome>)
    requires
        tried > match auth {
            AuthView::Auto { identity_files, .. } => identity_files.len(),
            _ => 0,
        },
    ensures
        !(auth.step(tried, last) is Try),
{
}

} // verus!
