//! The listener: from the prepared server to the accept loop.
//!
//! Like a connection, the supervisor only decides. Its driver binds the
//! socket, waits for connection attempts and starts a task for each accepted
//! stream; it reports what happened as a [`ListenEvent`] and is handed the
//! next [`ListenAction`].

use crate::error::StartError;
use crate::server::Startup;
use vstd::prelude::*;

verus! {

/// What the driver reports to the supervisor.
#[derive(Debug, PartialEq, Eq)]
pub enum ListenEvent<S> {
    /// The listening socket is bound.
    Bound,
    /// The listening socket could not be bound.
    BindFailed(String),
    /// A raw connection was accepted.
    Accepted(S),
    /// A connection attempt failed before it was established.
    AcceptFailed(String),
    /// No further connection attempts will arrive: the server was stopped.
    Ended,
}

/// What the supervisor asks of its driver.
#[derive(Debug)]
pub enum ListenAction<A, S> {
    /// Startup is abandoned on a configuration error. Nothing was bound.
    Refuse(StartError),
    /// Bind the listening socket at the prepared address, and keep the
    /// application and the acceptor to share among the connections.
    Bind(Startup<A>),
    /// Startup is abandoned: the socket could not be bound.
    Abandon(String),
    /// Wait for the next connection attempt.
    Accept,
    /// Start an independent connection on the accepted stream, and wait for
    /// the next connection attempt without waiting for that connection.
    Serve(S),
    /// Note the failed attempt and wait for the next one.
    Skip(String),
    /// Stop accepting. Connections already started finish on their own.
    Stop,
    /// The event did not answer the pending action and was dropped.
    Rejected,
}

/// The state of the listener.
#[derive(Debug, PartialEq, Eq)]
pub enum Supervisor {
    /// The socket is being bound.
    Binding,
    /// The accept loop is running.
    Accepting,
    /// Nothing is accepted any more. No event moves the supervisor again.
    Stopped,
}

impl Supervisor {
    /// The state and first action for the outcome of preparing the server.
    pub open spec fn begin<A, S>(prepared: Result<Startup<A>, StartError>) -> (
        Supervisor,
        ListenAction<A, S>,
    ) {
        match prepared {
            Ok(startup) => (Supervisor::Binding, ListenAction::Bind(startup)),
            Err(error) => (Supervisor::Stopped, ListenAction::Refuse(error)),
        }
    }

    /// The state and action that follow `event` in this state.
    pub open spec fn next<A, S>(self, event: ListenEvent<S>) -> (Supervisor, ListenAction<A, S>) {
        match (self, event) {
            (Supervisor::Binding, ListenEvent::Bound) => (
                Supervisor::Accepting,
                ListenAction::Accept,
            ),
            (Supervisor::Binding, ListenEvent::BindFailed(detail)) => (
                Supervisor::Stopped,
                ListenAction::Abandon(detail),
            ),
            (Supervisor::Accepting, ListenEvent::Accepted(stream)) => (
                Supervisor::Accepting,
                ListenAction::Serve(stream),
            ),
            (Supervisor::Accepting, ListenEvent::AcceptFailed(detail)) => (
                Supervisor::Accepting,
                ListenAction::Skip(detail),
            ),
            (Supervisor::Binding, ListenEvent::Ended) => (Supervisor::Stopped, ListenAction::Stop),
            (Supervisor::Accepting, ListenEvent::Ended) => (
                Supervisor::Stopped,
                ListenAction::Stop,
            ),
            (state, _) => (state, ListenAction::Rejected),
        }
    }

    /// Starts the listener from the outcome of preparing the server: a
    /// prepared server is bound, a configuration error ends startup with
    /// nothing bound.
    pub fn start<A, S>(prepared: Result<Startup<A>, StartError>) -> (started: (
        Self,
        ListenAction<A, S>,
    ))
        ensures
            started == Supervisor::begin::<A, S>(prepared),
    {
        match prepared {
            Ok(startup) => (Supervisor::Binding, ListenAction::Bind(startup)),
            Err(error) => (Supervisor::Stopped, ListenAction::Refuse(error)),
        }
    }

    /// Takes in what the driver reports and says what to do next.
    pub fn step<A, S>(self, event: ListenEvent<S>) -> (stepped: (Self, ListenAction<A, S>))
        ensures
            stepped == self.next::<A, S>(event),
    {
        match (self, event) {
            (Supervisor::Binding, ListenEvent::Bound) => (
                Supervisor::Accepting,
                ListenAction::Accept,
            ),
            (Supervisor::Binding, ListenEvent::BindFailed(detail)) => (
                Supervisor::Stopped,
                ListenAction::Abandon(detail),
            ),
            (Supervisor::Accepting, ListenEvent::Accepted(stream)) => (
                Supervisor::Accepting,
                ListenAction::Serve(stream),
            ),
            (Supervisor::Accepting, ListenEvent::AcceptFailed(detail)) => (
                Supervisor::Accepting,
                ListenAction::Skip(detail),
            ),
            (Supervisor::Binding, ListenEvent::Ended) => (Supervisor::Stopped, ListenAction::Stop),
            (Supervisor::Accepting, ListenEvent::Ended) => (
                Supervisor::Stopped,
                ListenAction::Stop,
            ),
            (state, _) => (state, ListenAction::Rejected),
        }
    }

    /// Whether the supervisor has stopped.
    pub fn is_stopped(&self) -> (stopped: bool)
        ensures
            stopped == (*self is Stopped),
    {
        match self {
            Supervisor::Stopped => true,
            _ => false,
        }
    }
}

/// The state reached from `start` when `events` are reported in order, and
/// the action issued in answer to each.
pub open spec fn listen<A, S>(start: Supervisor, events: Seq<ListenEvent<S>>) -> (
    Supervisor,
    Seq<ListenAction<A, S>>,
)
    decreases events.len(),
{
    if events.len() == 0 {
        (start, Seq::empty())
    } else {
        let (mid, first) = start.next::<A, S>(events.first());
        let (end, rest) = listen::<A, S>(mid, events.drop_first());
        (end, seq![first] + rest)
    }
}

/// A stopped supervisor stays stopped: every event reported to it is
/// dropped.
pub proof fn lemma_stopped_is_terminal<A, S>(events: Seq<ListenEvent<S>>)
    ensures
        listen::<A, S>(Supervisor::Stopped, events).0 == Supervisor::Stopped,
        listen::<A, S>(Supervisor::Stopped, events).1.len() == events.len(),
        forall|k: int|
            0 <= k < events.len() ==> listen::<A, S>(Supervisor::Stopped, events).1[k]
                == ListenAction::<A, S>::Rejected,
    decreases events.len(),
{
    if events.len() > 0 {
        lemma_stopped_is_terminal::<A, S>(events.drop_first());
    }
}

/// Nothing is bound without a credential that the backend took. The socket
/// is bound in answer to the outcome of preparing the server and to nothing
/// else: a prepared server is bound first of all, no event ever leads to a
/// second binding, and after a configuration error startup is refused and
/// whatever is reported afterwards, nothing is bound, accepted or served.
pub proof fn lemma_bound_only_when_prepared<A, S>(
    prepared: Result<Startup<A>, StartError>,
    events: Seq<ListenEvent<S>>,
)
    ensures
        ({
            let (state, first) = Supervisor::begin::<A, S>(prepared);
            let (end, actions) = listen::<A, S>(state, events);
            &&& first is Bind <==> prepared is Ok
            &&& prepared matches Ok(startup) ==> first == ListenAction::<A, S>::Bind(startup)
            &&& prepared matches Err(error) ==> first == ListenAction::<A, S>::Refuse(error)
            &&& actions.len() == events.len()
            &&& forall|k: int| 0 <= k < events.len() ==> !(#[trigger] actions[k] is Bind)
            &&& prepared is Err ==> end == Supervisor::Stopped && forall|k: int|
                0 <= k < events.len() ==> #[trigger] actions[k] == ListenAction::<A, S>::Rejected
        }),
{
    let (state, first) = Supervisor::begin::<A, S>(prepared);
    lemma_never_bound_again::<A, S>(state, events);
    if prepared is Err {
        lemma_stopped_is_terminal::<A, S>(events);
    }
}

proof fn lemma_never_bound_again<A, S>(start: Supervisor, events: Seq<ListenEvent<S>>)
    ensures
        listen::<A, S>(start, events).1.len() == events.len(),
        forall|k: int|
            0 <= k < events.len() ==> !(#[trigger] listen::<A, S>(start, events).1[k] is Bind),
    decreases events.len(),
{
    if events.len() > 0 {
        let (mid, first) = start.next::<A, S>(events.first());
        lemma_never_bound_again::<A, S>(mid, events.drop_first());
    }
}

/// The accept loop runs until it is told to stop. While no end is reported,
/// an accepting supervisor keeps accepting: each accepted stream is served,
/// that very stream, each failed attempt is skipped, and neither ends the
/// loop.
pub proof fn lemma_accept_loop_keeps_going<A, S>(events: Seq<ListenEvent<S>>)
    requires
        forall|k: int| 0 <= k < events.len() ==> !(#[trigger] events[k] is Ended),
    ensures
        listen::<A, S>(Supervisor::Accepting, events).0 == Supervisor::Accepting,
        listen::<A, S>(Supervisor::Accepting, events).1.len() == events.len(),
        forall|k: int|
            0 <= k < events.len() ==> (#[trigger] events[k] matches ListenEvent::Accepted(stream)
                ==> listen::<A, S>(Supervisor::Accepting, events).1[k] == ListenAction::<
                A,
                S,
            >::Serve(stream)),
        forall|k: int|
            0 <= k < events.len() ==> (#[trigger] events[k] matches ListenEvent::AcceptFailed(
                detail,
            ) ==> listen::<A, S>(Supervisor::Accepting, events).1[k] == ListenAction::<
                A,
                S,
            >::Skip(detail)),
    decreases events.len(),
{
    if events.len() > 0 {
        let rest = events.drop_first();
        assert(!(events[0] is Ended));
        assert forall|k: int| 0 <= k < rest.len() implies !(#[trigger] rest[k] is Ended) by {
            assert(rest[k] == events[k + 1]);
        }
        lemma_accept_loop_keeps_going::<A, S>(rest);
        let answers = listen::<A, S>(Supervisor::Accepting, rest).1;
        let actions = listen::<A, S>(Supervisor::Accepting, events).1;
        assert forall|k: int| 0 <= k < events.len() implies (#[trigger] events[k] matches ListenEvent::Accepted(
            stream,
        ) ==> actions[k] == ListenAction::<A, S>::Serve(stream)) by {
            if k > 0 {
                assert(events[k] == rest[k - 1]);
                assert(actions[k] == answers[k - 1]);
            }
        }
        assert forall|k: int| 0 <= k < events.len() implies (#[trigger] events[k] matches ListenEvent::AcceptFailed(
            detail,
        ) ==> actions[k] == ListenAction::<A, S>::Skip(detail)) by {
            if k > 0 {
                assert(events[k] == rest[k - 1]);
                assert(actions[k] == answers[k - 1]);
            }
        }
    }
}

} // verus!
