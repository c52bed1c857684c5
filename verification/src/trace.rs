//! Whole runs of a connection: a series of events reported in order, and the
//! actions issued in answer, one per event; and what can be counted and read
//! off such a run.

use crate::connection::{Action, Connection, Event};
use crate::error::Outcome;
use vstd::prelude::*;

verus! {

/// The state reached from `start` when `events` are reported in order, and
/// the action issued in answer to each.
pub open spec fn run<Req, Route, Resp>(
    start: Connection<Req>,
    events: Seq<Event<Req, Route, Resp>>,
) -> (Connection<Req>, Seq<Action<Req, Route, Resp>>)
    decreases events.len(),
{
    if events.len() == 0 {
        (start, Seq::empty())
    } else {
        let (mid, first) = start.next(events.first());
        let (end, rest) = run(mid, events.drop_first());
        (end, seq![first] + rest)
    }
}

/// Reports a series of events to a connection, in order, and collects the
/// action issued in answer to each.
pub fn replay<Req, Route, Resp>(start: Connection<Req>, events: Vec<Event<Req, Route, Resp>>) -> (ran:
    (Connection<Req>, Vec<Action<Req, Route, Resp>>))
    ensures
        ran.0 == run(start, events@).0,
        ran.1@ == run(start, events@).1,
{
    let ghost all = events@;
    let mut state = start;
    let mut actions: Vec<Action<Req, Route, Resp>> = Vec::new();
    proof {
        assert(all.skip(0) == all);
    }
    for event in it: events
        invariant
            it.seq() == all,
            run(start, all).0 == run(state, all.skip(it.index() as int)).0,
            run(start, all).1 == actions@ + run(state, all.skip(it.index() as int)).1,
    {
        proof {
            let rest = all.skip(it.index() as int);
            assert(rest.first() == event);
            assert(rest.drop_first() == all.skip(it.index() + 1));
        }
        let (next, action) = state.step(event);
        state = next;
        actions.push(action);
    }
    (state, actions)
}

/// The number of times the dispatcher is asked to resolve a route.
pub open spec fn resolve_count<Req, Route, Resp>(actions: Seq<Action<Req, Route, Resp>>) -> nat
    decreases actions.len(),
{
    if actions.len() == 0 {
        0
    } else if actions.first() is Resolve {
        1 + resolve_count(actions.drop_first())
    } else {
        resolve_count(actions.drop_first())
    }
}

/// The number of requests handed to the dispatcher.
pub open spec fn execute_count<Req, Route, Resp>(actions: Seq<Action<Req, Route, Resp>>) -> nat
    decreases actions.len(),
{
    if actions.len() == 0 {
        0
    } else if actions.first() is Execute {
        1 + execute_count(actions.drop_first())
    } else {
        execute_count(actions.drop_first())
    }
}

/// The number of requests that the codec produced.
pub open spec fn decoded_count<Req, Route, Resp>(events: Seq<Event<Req, Route, Resp>>) -> nat
    decreases events.len(),
{
    if events.len() == 0 {
        0
    } else if events.first() is Decoded {
        1 + decoded_count(events.drop_first())
    } else {
        decoded_count(events.drop_first())
    }
}

/// The responses written back, in the order of their writing.
pub open spec fn written<Req, Route, Resp>(actions: Seq<Action<Req, Route, Resp>>) -> Seq<Resp>
    decreases actions.len(),
{
    if actions.len() == 0 {
        Seq::empty()
    } else {
        match actions.first() {
            Action::Write(response) => seq![response] + written(actions.drop_first()),
            _ => written(actions.drop_first()),
        }
    }
}

/// What is reported in one well-formed exchange: the request decoded, its
/// route resolved, the response produced and the write completed.
pub open spec fn exchange_events<Req, Route, Resp>(exchange: (Req, Route, Resp)) -> Seq<
    Event<Req, Route, Resp>,
> {
    seq![
        Event::Decoded(exchange.0),
        Event::Routed(exchange.1),
        Event::Executed(exchange.2),
        Event::Written,
    ]
}

/// What is asked in one well-formed exchange, one action in answer to each of
/// its events.
pub open spec fn exchange_actions<Req, Route, Resp>(exchange: (Req, Route, Resp)) -> Seq<
    Action<Req, Route, Resp>,
> {
    seq![
        Action::Resolve,
        Action::Execute(exchange.0, exchange.1),
        Action::Write(exchange.2),
        Action::Decode,
    ]
}

/// The events of a series of well-formed exchanges, one after the other.
pub open spec fn exchanges_events<Req, Route, Resp>(exchanges: Seq<(Req, Route, Resp)>) -> Seq<
    Event<Req, Route, Resp>,
>
    decreases exchanges.len(),
{
    if exchanges.len() == 0 {
        Seq::empty()
    } else {
        exchange_events(exchanges.first()) + exchanges_events(exchanges.drop_first())
    }
}

/// The actions of a series of well-formed exchanges, one after the other.
pub open spec fn exchanges_actions<Req, Route, Resp>(exchanges: Seq<(Req, Route, Resp)>) -> Seq<
    Action<Req, Route, Resp>,
>
    decreases exchanges.len(),
{
    if exchanges.len() == 0 {
        Seq::empty()
    } else {
        exchange_actions(exchanges.first()) + exchanges_actions(exchanges.drop_first())
    }
}

/// A whole well-formed session: the handshake, the exchanges, and the peer's
/// clean close.
pub open spec fn session_events<Req, Route, Resp>(exchanges: Seq<(Req, Route, Resp)>) -> Seq<
    Event<Req, Route, Resp>,
> {
    seq![Event::HandshakeDone] + exchanges_events(exchanges) + seq![Event::EndOfStream]
}

/// What a well-formed session is answered with.
pub open spec fn session_actions<Req, Route, Resp>(exchanges: Seq<(Req, Route, Resp)>) -> Seq<
    Action<Req, Route, Resp>,
> {
    seq![Action::Decode] + exchanges_actions(exchanges) + seq![Action::Close(Outcome::Clean)]
}

/// The responses of a series of exchanges, in order.
pub open spec fn responses<Req, Route, Resp>(exchanges: Seq<(Req, Route, Resp)>) -> Seq<Resp> {
    Seq::new(exchanges.len(), |i: int| exchanges[i].2)
}

} // verus!
