use vstd::prelude::*;

verus! {

/// A reply of the session-authentication daemon, reduced to what the login
/// exchange decides on.
#[derive(Clone, Copy, Debug, PartialEq, Eq, Structural)]
pub enum Reply {
    /// A prompt; `secret` when it asks for the password.
    AuthMessage { secret: bool },
    Success,
    Error,
}

/// Where the login exchange stands.
#[derive(Clone, Copy, Debug, PartialEq, Eq, Structural)]
pub enum LoginPhase {
    /// The session was requested; prompts are being answered.
    Authenticating,
    /// Authentication succeeded; the session's start was requested.
    Starting,
}

/// Why a login failed.
#[derive(Clone, Copy, Debug, PartialEq, Eq, Structural)]
pub enum LoginError {
    WrongCredentials,
    SessionFailedToStart,
}

/// What to do after a reply.
#[derive(Clone, Copy, Debug, PartialEq, Eq, Structural)]
pub enum LoginStep {
    /// Answer the prompt with the password, then read the next reply.
    SendPassword,
    /// Answer the prompt with an empty response, then read the next reply.
    SendEmpty,
    /// Ask to start the session, then read the reply.
    StartSession,
    /// The session started.
    LoggedIn,
    Failed(LoginError),
}

/// The login exchange: a password prompt is answered with the password and
/// any other prompt with nothing; success of authentication starts the
/// session, and success of that ends the exchange; an error, or a prompt once
/// the session is starting, fails it.
pub open spec fn login_next(phase: LoginPhase, reply: Reply) -> (LoginPhase, LoginStep) {
    match phase {
        LoginPhase::Authenticating => match reply {
            Reply::AuthMessage { secret } => (phase, if secret { LoginStep::SendPassword } else { LoginStep::SendEmpty }),
            Reply::Success => (LoginPhase::Starting, LoginStep::StartSession),
            Reply::Error => (phase, LoginStep::Failed(LoginError::WrongCredentials)),
        },
        LoginPhase::Starting => match reply {
            Reply::Success => (phase, LoginStep::LoggedIn),
            _ => (phase, LoginStep::Failed(LoginError::SessionFailedToStart)),
        },
    }
}

/// Decides the next move of the login exchange on `reply`.
pub fn login_step(phase: LoginPhase, reply: Reply) -> (r: (LoginPhase, LoginStep))
    ensures
        r == login_next(phase, reply),
{
    match phase {
        LoginPhase::Authenticating => match reply {
            Reply::AuthMessage { secret } => (phase, if secret { LoginStep::SendPassword } else { LoginStep::SendEmpty }),
            Reply::Success => (LoginPhase::Starting, LoginStep::StartSession),
            Reply::Error => (phase, LoginStep::Failed(LoginError::WrongCredentials)),
        },
        LoginPhase::Starting => match reply {
            Reply::Success => (phase, LoginStep::LoggedIn),
            _ => (phase, LoginStep::Failed(LoginError::SessionFailedToStart)),
        },
    }
}

} // verus!
