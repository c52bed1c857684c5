//! One connection, from handshake to close.
//!
//! A connection is driven from outside: the driver carries out the pending
//! action (a handshake, a decode, a call to the dispatcher, a write), reports
//! what came of it as an [`Event`], and is handed the next [`Action`]. The
//! connection itself only decides. Exchanges are strictly sequential: no
//! request is decoded before the response to the one before it is written.

use crate::error::{ConnError, Outcome};
use vstd::prelude::*;

verus! {

/// What the driver reports to a connection.
#[derive(Debug, PartialEq, Eq)]
pub enum Event<Req, Route, Resp> {
    /// The TLS handshake completed.
    HandshakeDone,
    /// The TLS handshake failed.
    HandshakeFailed(String),
    /// The codec produced the next request.
    Decoded(Req),
    /// The codec could not decode what the peer sent.
    DecodeFailed(String),
    /// The peer closed the stream.
    EndOfStream,
    /// The dispatcher resolved the route of the request in hand.
    Routed(Route),
    /// The dispatcher produced the response to the request.
    Executed(Resp),
    /// The dispatcher reported a failure for the request.
    ExecuteFailed(String),
    /// The response was written back in full.
    Written,
    /// The response could not be written.
    WriteFailed(String),
}

/// What a connection asks of its driver.
#[derive(Debug, PartialEq, Eq)]
pub enum Action<Req, Route, Resp> {
    /// Perform the TLS handshake on the raw stream.
    Handshake,
    /// Wait for the codec to produce the next request.
    Decode,
    /// Have the dispatcher resolve the route of the request in hand, from its
    /// method and path.
    Resolve,
    /// Hand the request and its route to the dispatcher.
    Execute(Req, Route),
    /// Write the response back and flush.
    Write(Resp),
    /// Release the connection; it ended as given.
    Close(Outcome),
    /// The event did not answer the pending action and was dropped.
    Rejected,
}

/// What a serving connection is waiting for.
#[derive(Debug, PartialEq, Eq)]
pub enum Pending<Req> {
    /// The next request from the codec.
    Request,
    /// The route of the request held here.
    Route(Req),
    /// The dispatcher's response.
    Response,
    /// The end of the write.
    Flush,
}

/// The state of one connection.
#[derive(Debug, PartialEq, Eq)]
pub enum Connection<Req> {
    /// The TLS handshake is under way.
    Handshaking,
    /// The handshake is done and exchanges are served, one at a time.
    Serving(Pending<Req>),
    /// The connection has ended. No event moves it again.
    Closed,
}

impl<Req> Connection<Req> {
    /// The state and action that follow `event` in this state.
    pub open spec fn next<Route, Resp>(self, event: Event<Req, Route, Resp>) -> (
        Connection<Req>,
        Action<Req, Route, Resp>,
    ) {
        match (self, event) {
            (Connection::Handshaking, Event::HandshakeDone) => (
                Connection::Serving(Pending::Request),
                Action::Decode,
            ),
            (Connection::Handshaking, Event::HandshakeFailed(detail)) => (
                Connection::Closed,
                Action::Close(Outcome::Failed(ConnError::Handshake(detail))),
            ),
            (Connection::Serving(Pending::Request), Event::Decoded(request)) => (
                Connection::Serving(Pending::Route(request)),
                Action::Resolve,
            ),
            (Connection::Serving(Pending::Request), Event::EndOfStream) => (
                Connection::Closed,
                Action::Close(Outcome::Clean),
            ),
            (Connection::Serving(Pending::Request), Event::DecodeFailed(detail)) => (
                Connection::Closed,
                Action::Close(Outcome::Failed(ConnError::Decode(detail))),
            ),
            (Connection::Serving(Pending::Route(request)), Event::Routed(route)) => (
                Connection::Serving(Pending::Response),
                Action::Execute(request, route),
            ),
            (Connection::Serving(Pending::Response), Event::Executed(response)) => (
                Connection::Serving(Pending::Flush),
                Action::Write(response),
            ),
            (Connection::Serving(Pending::Response), Event::ExecuteFailed(detail)) => (
                Connection::Closed,
                Action::Close(Outcome::Failed(ConnError::Dispatch(detail))),
            ),
            (Connection::Serving(Pending::Flush), Event::Written) => (
                Connection::Serving(Pending::Request),
                Action::Decode,
            ),
            (Connection::Serving(Pending::Flush), Event::WriteFailed(detail)) => (
                Connection::Closed,
                Action::Close(Outcome::Failed(ConnError::Write(detail))),
            ),
            (state, _) => (state, Action::Rejected),
        }
    }

    /// A new connection over a raw stream, and its first action: the handshake.
    pub fn open<Route, Resp>() -> (opened: (Self, Action<Req, Route, Resp>))
        ensures
            opened.0 == Connection::<Req>::Handshaking,
            opened.1 == Action::<Req, Route, Resp>::Handshake,
    {
        (Connection::Handshaking, Action::Handshake)
    }

    /// Takes in what the driver reports and says what to do next.
    pub fn step<Route, Resp>(self, event: Event<Req, Route, Resp>) -> (stepped: (
        Self,
        Action<Req, Route, Resp>,
    ))
        ensures
            stepped == self.next(event),
    {
        match (self, event) {
            (Connection::Handshaking, Event::HandshakeDone) => (
                Connection::Serving(Pending::Request),
                Action::Decode,
            ),
            (Connection::Handshaking, Event::HandshakeFailed(detail)) => (
                Connection::Closed,
                Action::Close(Outcome::Failed(ConnError::Handshake(detail))),
            ),
            (Connection::Serving(Pending::Request), Event::Decoded(request)) => (
                Connection::Serving(Pending::Route(request)),
                Action::Resolve,
            ),
            (Connection::Serving(Pending::Request), Event::EndOfStream) => (
                Connection::Closed,
                Action::Close(Outcome::Clean),
            ),
            (Connection::Serving(Pending::Request), Event::DecodeFailed(detail)) => (
                Connection::Closed,
                Action::Close(Outcome::Failed(ConnError::Decode(detail))),
            ),
            (Connection::Serving(Pending::Route(request)), Event::Routed(route)) => (
                Connection::Serving(Pending::Response),
                Action::Execute(request, route),
            ),
            (Connection::Serving(Pending::Response), Event::Executed(response)) => (
                Connection::Serving(Pending::Flush),
                Action::Write(response),
            ),
            (Connection::Serving(Pending::Response), Event::ExecuteFailed(detail)) => (
                Connection::Closed,
                Action::Close(Outcome::Failed(ConnError::Dispatch(detail))),
            ),
            (Connection::Serving(Pending::Flush), Event::Written) => (
                Connection::Serving(Pending::Request),
                Action::Decode,
            ),
            (Connection::Serving(Pending::Flush), Event::WriteFailed(detail)) => (
                Connection::Closed,
                Action::Close(Outcome::Failed(ConnError::Write(detail))),
            ),
            (state, _) => (state, Action::Rejected),
        }
    }

    /// The request whose route is being resolved, if that is what the
    /// connection is waiting for.
    pub open spec fn in_hand(self) -> Option<Req> {
        match self {
            Connection::Serving(Pending::Route(request)) => Some(request),
            _ => None,
        }
    }

    /// The request in hand, for the driver to read its method and path.
    pub fn request(&self) -> (held: Option<&Req>)
        ensures
            held is Some <==> self.in_hand() is Some,
            held matches Some(request) ==> Some(*request) == self.in_hand(),
    {
        match self {
            Connection::Serving(Pending::Route(request)) => Some(request),
            _ => None,
        }
    }

    /// Whether the connection has ended.
    pub fn is_closed(&self) -> (closed: bool)
        ensures
            closed == (*self is Closed),
    {
        match self {
            Connection::Closed => true,
            _ => false,
        }
    }
}

} // verus!
