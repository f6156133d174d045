use vstd::prelude::*;
use crate::config::AuthMethod;

verus! {

/// The outcome of one remote command: its exit status and everything it
/// wrote to standard output.
pub struct CommandResult {
    pub exit_code: i32,
    pub output: String,
}

/// A remote command that exited with a non-zero status; `output` is what it
/// printed, absent when it printed nothing.
pub struct ExecError {
    pub exit_code: i32,
    pub output: Option<String>,
}

/// A failure of the remote session itself, before a command result exists.
pub enum SessionError {
    /// The TCP connection, the protocol handshake or the authentication call failed.
    Connection(String),
    /// Authentication raised no error, but the session is not authenticated.
    NotAuthenticated,
    /// Opening the channel, running the command or reading its result failed.
    Channel(String),
}

impl CommandResult {
    pub fn ok(&self) -> (r: bool)
        ensures
            r == (self.exit_code == 0),
    {
        self.exit_code == 0
    }

    /// The result itself when the command succeeded, else an error that
    /// carries the status and, when there is any, the output.
    pub fn check_exit_code(self) -> (r: Result<CommandResult, ExecError>)
        ensures
            self.exit_code == 0 <==> r is Ok,
            r matches Ok(c) ==> c == self,
            r matches Err(e) ==> {
                &&& e.exit_code == self.exit_code
                &&& (e.output is None <==> self.output@.len() == 0)
                &&& (e.output matches Some(o) ==> o@ == self.output@)
            },
    {
        if self.ok() {
            return Ok(self);
        }
        if self.output.as_str().is_empty() {
            return Err(ExecError { exit_code: self.exit_code, output: None });
        }
        Err(ExecError { exit_code: self.exit_code, output: Some(self.output) })
    }
}


/// The steps of one remote command. One connection serves one command:
/// connect, handshake, authenticate with the configured method, confirm the
/// session is authenticated, then open a channel, run the command, read all
/// of its output, wait for the channel to close and read the exit status.
#[derive(PartialEq, Eq, Structural, Clone, Copy, Debug)]
pub enum SessionStep {
    Connect,
    Handshake,
    AuthPassword,
    AuthKeyfile,
    CheckAuthenticated,
    OpenChannel,
    Exec,
    ReadOutput,
    WaitClose,
    ReadExitStatus,
}

/// How a step went.
pub enum StepOutcome {
    Done,
    Failed(String),
    /// What the session says of itself after authentication.
    Authenticated(bool),
}

/// What to do next.
pub enum SessionAction {
    Run(SessionStep),
    Fail(SessionError),
    /// The exit status has been read: the command result is complete.
    Finish,
}

/// The step that authenticates with `auth`.
pub open spec fn auth_step(auth: &AuthMethod) -> SessionStep {
    match auth {
        AuthMethod::Password { .. } => SessionStep::AuthPassword,
        AuthMethod::Keyfile { .. } => SessionStep::AuthKeyfile,
    }
}

/// The step that follows `step` when it went well; `None` after the last.
pub open spec fn following_step(auth: &AuthMethod, step: SessionStep) -> Option<SessionStep> {
    match step {
        SessionStep::Connect => Some(SessionStep::Handshake),
        SessionStep::Handshake => Some(auth_step(auth)),
        SessionStep::AuthPassword => Some(SessionStep::CheckAuthenticated),
        SessionStep::AuthKeyfile => Some(SessionStep::CheckAuthenticated),
        SessionStep::CheckAuthenticated => Some(SessionStep::OpenChannel),
        SessionStep::OpenChannel => Some(SessionStep::Exec),
        SessionStep::Exec => Some(SessionStep::ReadOutput),
        SessionStep::ReadOutput => Some(SessionStep::WaitClose),
        SessionStep::WaitClose => Some(SessionStep::ReadExitStatus),
        SessionStep::ReadExitStatus => None,
    }
}

/// The steps that belong to opening an authenticated connection.
pub open spec fn is_connection_step(step: SessionStep) -> bool {
    step == SessionStep::Connect || step == SessionStep::Handshake || step
        == SessionStep::AuthPassword || step == SessionStep::AuthKeyfile
}

/// The first step of a session.
pub fn first_step() -> (r: SessionStep)
    ensures
        r == SessionStep::Connect,
{
    SessionStep::Connect
}

/// Decides what follows `step` given how it went. A failed connection step
/// is a connection error, a failed later step a channel error; the session
/// counts as authenticated only when it says so itself.
pub fn next_action(auth: &AuthMethod, step: SessionStep, outcome: StepOutcome) -> (r: SessionAction)
    ensures
        outcome matches StepOutcome::Failed(m) ==> if is_connection_step(step) {
            r matches SessionAction::Fail(SessionError::Connection(x)) && x == m
        } else {
            r matches SessionAction::Fail(SessionError::Channel(x)) && x == m
        },
        step == SessionStep::CheckAuthenticated && !(outcome is Failed) ==> if outcome matches StepOutcome::Authenticated(true) {
            r == SessionAction::Run(SessionStep::OpenChannel)
        } else {
            r matches SessionAction::Fail(SessionError::NotAuthenticated)
        },
        step != SessionStep::CheckAuthenticated && !(outcome is Failed) ==> match following_step(auth, step) {
            Some(n) => r == SessionAction::Run(n),
            None => r is Finish,
        },
{
    match outcome {
        StepOutcome::Failed(m) => {
            if matches!(step, SessionStep::Connect | SessionStep::Handshake | SessionStep::AuthPassword | SessionStep::AuthKeyfile) {
                SessionAction::Fail(SessionError::Connection(m))
            } else {
                SessionAction::Fail(SessionError::Channel(m))
            }
        },
        StepOutcome::Authenticated(true) if step == SessionStep::CheckAuthenticated => {
            SessionAction::Run(SessionStep::OpenChannel)
        },
        _ => match step {
            SessionStep::Connect => SessionAction::Run(SessionStep::Handshake),
            SessionStep::Handshake => match auth {
                AuthMethod::Password { .. } => SessionAction::Run(SessionStep::AuthPassword),
                AuthMethod::Keyfile { .. } => SessionAction::Run(SessionStep::AuthKeyfile),
            },
            SessionStep::AuthPassword => SessionAction::Run(SessionStep::CheckAuthenticated),
            SessionStep::AuthKeyfile => SessionAction::Run(SessionStep::CheckAuthenticated),
            SessionStep::CheckAuthenticated => SessionAction::Fail(SessionError::NotAuthenticated),
            SessionStep::OpenChannel => SessionAction::Run(SessionStep::Exec),
            SessionStep::Exec => SessionAction::Run(SessionStep::ReadOutput),
            SessionStep::ReadOutput => SessionAction::Run(SessionStep::WaitClose),
            SessionStep::WaitClose => SessionAction::Run(SessionStep::ReadExitStatus),
            SessionStep::ReadExitStatus => SessionAction::Finish,
        },
    }
}

/// The steps of a session in which every step goes well.
pub open spec fn protocol_steps(auth: &AuthMethod) -> Seq<SessionStep> {
    seq![
        SessionStep::Connect,
        SessionStep::Handshake,
        auth_step(auth),
        SessionStep::CheckAuthenticated,
        SessionStep::OpenChannel,
        SessionStep::Exec,
        SessionStep::ReadOutput,
        SessionStep::WaitClose,
        SessionStep::ReadExitStatus,
    ]
}

/// A session that goes well runs its steps in protocol order, starting with
/// the connection and ending with the exit status: all output is read
/// before the channel is waited on, and the exit status comes last.
pub proof fn session_runs_in_protocol_order(auth: &AuthMethod)
    ensures
        protocol_steps(auth)[0] == SessionStep::Connect,
        forall|k: int|
            0 <= k < 8 ==> following_step(auth, #[trigger] protocol_steps(auth)[k]) == Some(
                protocol_steps(auth)[k + 1],
            ),
        following_step(auth, protocol_steps(auth)[8]) is None,
{
    let ps = protocol_steps(auth);
    assert(following_step(auth, ps[0]) == Some(ps[1]));
    assert(following_step(auth, ps[1]) == Some(ps[2]));
    assert(following_step(auth, ps[2]) == Some(ps[3]));
    assert(following_step(auth, ps[3]) == Some(ps[4]));
    assert(following_step(auth, ps[4]) == Some(ps[5]));
    assert(following_step(auth, ps[5]) == Some(ps[6]));
    assert(following_step(auth, ps[6]) == Some(ps[7]));
    assert(following_step(auth, ps[7]) == Some(ps[8]));
}

} // verus!
