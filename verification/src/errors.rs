use vstd::prelude::*;
use vstd::string::StringExecFns;

verus! {

/// Everything that can go wrong while starting a session or sending to one.
///
/// All failures are returned to the immediate caller as values; the reader
/// threads and the broadcaster never surface errors.
#[derive(Debug, Clone, PartialEq)]
pub enum SessionError {
    /// A start was requested for an identifier that is already registered.
    DuplicateSession,
    /// The shell invocation failed, or a standard stream could not be
    /// captured; no partial session is registered.
    SpawnFailure(String),
    /// A send referenced an identifier that is not registered.
    SessionNotFound,
    /// The outbound text does not parse as a protocol message; nothing is
    /// written to the process in this case.
    MalformedMessage,
    /// The write to the process's input stream, or its flush, failed.
    WriteFailure(String),
    /// No reply line arrived within the fixed window; the session stays
    /// registered.
    ReplyTimeout,
}

impl SessionError {
    /// The human-readable text of the error, as the host reports it.
    pub open spec fn spec_message(self) -> Seq<char> {
        match self {
            SessionError::DuplicateSession => "Server with this ID already exists"@,
            SessionError::SpawnFailure(e) => "Failed to start process: "@ + e@,
            SessionError::SessionNotFound => "Server not found"@,
            SessionError::MalformedMessage => "Malformed message"@,
            SessionError::WriteFailure(e) => "Failed to send command: "@ + e@,
            SessionError::ReplyTimeout => "Timed out waiting for reply"@,
        }
    }

    /// Renders the error as text for the caller.
    pub fn message(&self) -> (r: String)
        ensures
            r@ == self.spec_message(),
    {
        match self {
            SessionError::DuplicateSession => {
                String::from_str("Server with this ID already exists")
            },
            SessionError::SpawnFailure(e) => {
                let mut s = String::from_str("Failed to start process: ");
                s.append(e.as_str());
                s
            },
            SessionError::SessionNotFound => String::from_str("Server not found"),
            SessionError::MalformedMessage => String::from_str("Malformed message"),
            SessionError::WriteFailure(e) => {
                let mut s = String::from_str("Failed to send command: ");
                s.append(e.as_str());
                s
            },
            SessionError::ReplyTimeout => String::from_str("Timed out waiting for reply"),
        }
    }
}

} // verus!
