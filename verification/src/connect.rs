//! Establishing a connection hop by hop.

use vstd::prelude::*;
use vstd::string::*;

use crate::auth::AuthView;
use crate::auth::Authentication;
use crate::config::JumpHost;
use crate::config::JumpHostView;
use crate::model::copy_texts;

verus! {

pub const MAX_JUMP_AUTH_ATTEMPTS: usize = 5;

#[derive(Debug, Clone, Copy, PartialEq, Eq, Structural)]
pub enum AuthenticationKind {
    Password,
    KeyboardInteractive,
    PrivateKey,
    Agent,
    Auto,
}

impl AuthenticationKind {
    pub open spec fn name(self) -> Seq<char> {
        match self {
            AuthenticationKind::Password => "password"@,
            AuthenticationKind::KeyboardInteractive => "keyboard-interactive"@,
            AuthenticationKind::PrivateKey => "private-key"@,
            AuthenticationKind::Agent => "agent"@,
            AuthenticationKind::Auto => "auto"@,
        }
    }

    pub fn as_str(self) -> (r: &'static str)
        ensures
            r@ == self.name(),
    {
        match self {
            AuthenticationKind::Password => "password",
            AuthenticationKind::KeyboardInteractive => "keyboard-interactive",
            AuthenticationKind::PrivateKey => "private-key",
            AuthenticationKind::Agent => "agent",
            AuthenticationKind::Auto => "auto",
        }
    }
}

pub open spec fn kind_of(auth: AuthView) -> AuthenticationKind {
    match auth {
        AuthView::Password(_) => AuthenticationKind::Password,
        AuthView::KeyboardInteractive(_) => AuthenticationKind::KeyboardInteractive,
        AuthView::PrivateKey { .. } => AuthenticationKind::PrivateKey,
        AuthView::Agent => AuthenticationKind::Agent,
        AuthView::Auto { .. } => AuthenticationKind::Auto,
    }
}

pub fn authentication_kind(authentication: &Authentication) -> (r: AuthenticationKind)
    ensures
        r == kind_of(authentication@),
{
    match authentication {
        Authentication::Password(_) => AuthenticationKind::Password,
        Authentication::KeyboardInteractive(_) => AuthenticationKind::KeyboardInteractive,
        Authentication::PrivateKey { .. } => AuthenticationKind::PrivateKey,
        Authentication::Agent => AuthenticationKind::Agent,
        Authentication::Auto { .. } => AuthenticationKind::Auto,
    }
}

/// A request for the credentials of one jump host whose session stands.
#[derive(Debug, Clone)]
pub struct JumpAuthRequest {
    /// Zero-based position in the resolved jump chain.
    pub index: usize,
    pub total: usize,
    /// Number of this request for the hop; the first is 1.
    pub attempt: usize,
    pub jump: JumpHost,
    /// The credentials given before were refused on this session.
    pub previous_failed: bool,
}

#[verifier::ext_equal]
pub struct JumpAuthView {
    pub index: nat,
    pub total: nat,
    pub attempt: nat,
    pub jump: JumpHostView,
    pub previous_failed: bool,
}

impl View for JumpAuthRequest {
    type V = JumpAuthView;

    open spec fn view(&self) -> JumpAuthView {
        JumpAuthView {
            index: self.index as nat,
            total: self.total as nat,
            attempt: self.attempt as nat,
            jump: self.jump@,
            previous_failed: self.previous_failed,
        }
    }
}

/// The request after `refused` refused ones; nothing once the limit is reached.
pub open spec fn jump_request(jump: JumpHostView, index: nat, total: nat, refused: nat) -> Option<
    JumpAuthView,
> {
    if refused >= MAX_JUMP_AUTH_ATTEMPTS {
        None
    } else {
        Some(
            JumpAuthView { index, total, attempt: refused + 1, jump, previous_failed: refused > 0 },
        )
    }
}

/// The next request for the credentials of a hop. However its provider behaves,
/// a hop is asked for only so often.
pub fn next_jump_request(jump: &JumpHost, index: usize, total: usize, refused: usize) -> (r: Option<
    JumpAuthRequest,
>)
    ensures
        match r {
            Some(request) => jump_request(jump@, index as nat, total as nat, refused as nat)
                == Some(request@),
            None => jump_request(jump@, index as nat, total as nat, refused as nat) is None,
        },
{
    if refused >= MAX_JUMP_AUTH_ATTEMPTS {
        return None;
    }
    Some(
        JumpAuthRequest {
            index,
            total,
            attempt: refused + 1,
            jump: jump.copy(),
            previous_failed: refused > 0,
        },
    )
}

/// Supplies credentials for one jump host whose session stands. `None` gives
/// up on that hop.
pub trait JumpAuthProvider {
    fn authentication(&mut self, request: JumpAuthRequest) -> (r: Option<Authentication>);
}

/// Offers agent and identity files once.
#[derive(Debug)]
pub struct AutoJumpAuthProvider;

/// What the automatic provider answers.
pub open spec fn automatic_answer(request: JumpAuthView) -> Option<AuthView> {
    if request.attempt > 1 {
        None
    } else {
        Some(
            AuthView::Auto { identity_files: request.jump.identity_files, passphrase: None },
        )
    }
}

impl JumpAuthProvider for AutoJumpAuthProvider {
    fn authentication(&mut self, request: JumpAuthRequest) -> (r: Option<Authentication>)
        ensures
            match r {
                Some(auth) => automatic_answer(request@) == Some(auth@),
                None => automatic_answer(request@) is None,
            },
    {
        if request.attempt > 1 {
            return None;
        }
        Some(
            Authentication::Auto {
                identity_files: copy_texts(&request.jump.identity_files),
                passphrase: None,
            },
        )
    }
}

/// How far a connection has come.
#[derive(Debug, Clone, PartialEq, Eq)]
pub enum ConnectionProgress {
    JumpConnecting { index: usize, total: usize, alias: String, host: String, port: u16 },
    JumpConnected { index: usize, total: usize, alias: String },
    JumpAuthenticating {
        index: usize,
        total: usize,
        alias: String,
        attempt: usize,
        method: AuthenticationKind,
    },
    JumpAuthenticationFailed { index: usize, total: usize, alias: String, attempt: usize },
    JumpAuthenticated { index: usize, total: usize, alias: String, method: AuthenticationKind },
    FinalConnecting { alias: String, host: String, port: u16 },
    FinalAuthenticating { alias: String, user: String, method: AuthenticationKind },
    Connected { alias: String },
}

} // verus!
