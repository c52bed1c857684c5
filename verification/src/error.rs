//! The ways in which starting the server or serving a connection can fail.

use vstd::prelude::*;
use vstd::string::*;

verus! {

/// A fatal configuration error: the server cannot start.
#[derive(Debug)]
pub enum StartError {
    /// The certificate bundle could not be decoded with the passphrase. The
    /// cause is absent when the passphrase holds a NUL character, which is
    /// refused before the TLS backend is asked.
    UndecodableCredential(Option<native_tls::Error>),
    /// The TLS backend could not build an acceptor from the decoded identity.
    UnbuildableAcceptor(native_tls::Error),
}

/// The text of the message for an undecodable credential.
pub open spec fn undecodable_text() -> Seq<char> {
    "Could not decrypt p12 file"@
}

/// The text of the message for an unbuildable acceptor.
pub open spec fn unbuildable_text() -> Seq<char> {
    "Could not create TLS acceptor."@
}

impl StartError {
    /// The message that goes with this error.
    pub open spec fn message_text(self) -> Seq<char> {
        match self {
            StartError::UndecodableCredential(_) => undecodable_text(),
            StartError::UnbuildableAcceptor(_) => unbuildable_text(),
        }
    }

    /// The message with which startup is abandoned on this error.
    pub fn message(&self) -> (text: &'static str)
        ensures
            text@ == self.message_text(),
    {
        match self {
            StartError::UndecodableCredential(_) => "Could not decrypt p12 file",
            StartError::UnbuildableAcceptor(_) => "Could not create TLS acceptor.",
        }
    }
}

/// Why a connection was torn down. Each variant carries the text of the
/// underlying failure as the caller reported it.
#[derive(Debug, PartialEq, Eq)]
pub enum ConnError {
    /// The TLS handshake did not complete.
    Handshake(String),
    /// The bytes received did not decode to a request.
    Decode(String),
    /// The dispatcher reported a failure for a request.
    Dispatch(String),
    /// The response could not be written back in full.
    Write(String),
}

impl ConnError {
    /// The reported text of the failure.
    pub open spec fn detail_text(self) -> Seq<char> {
        match self {
            ConnError::Handshake(d) => d@,
            ConnError::Decode(d) => d@,
            ConnError::Dispatch(d) => d@,
            ConnError::Write(d) => d@,
        }
    }

    /// The reported text of the failure.
    pub fn detail(&self) -> (text: &str)
        ensures
            text@ == self.detail_text(),
    {
        match self {
            ConnError::Handshake(d) => d.as_str(),
            ConnError::Decode(d) => d.as_str(),
            ConnError::Dispatch(d) => d.as_str(),
            ConnError::Write(d) => d.as_str(),
        }
    }
}

/// How a connection ended.
#[derive(Debug, PartialEq, Eq)]
pub enum Outcome {
    /// The peer closed the stream between two exchanges.
    Clean,
    /// The connection was torn down on an error.
    Failed(ConnError),
}

/// What every log line for a failed connection starts with.
pub open spec fn log_prefix() -> Seq<char> {
    "failed to process connection; error = "@
}

impl Outcome {
    /// The log line owed for this outcome: none for a clean close, and for a
    /// failure the fixed prefix followed by the failure's text.
    pub open spec fn log_text(self) -> Option<Seq<char>> {
        match self {
            Outcome::Clean => None,
            Outcome::Failed(e) => Some(log_prefix() + e.detail_text()),
        }
    }

    /// The line to log when a connection has ended with this outcome.
    pub fn log_line(&self) -> (line: Option<String>)
        ensures
            line is Some <==> self.log_text() is Some,
            line matches Some(l) ==> Some(l@) == self.log_text(),
    {
        match self {
            Outcome::Clean => None,
            Outcome::Failed(e) => {
                let mut line = String::from_str("failed to process connection; error = ");
                line.append(e.detail());
                Some(line)
            },
        }
    }
}

} // verus!
