//! What holds of every run of a connection.

use crate::connection::{Action, Connection, Event, Pending};
use crate::error::{ConnError, Outcome};
use crate::trace::{
    decoded_count, exchange_actions, exchange_events, exchanges_actions, exchanges_events,
    execute_count, resolve_count, responses, run, session_actions, session_events, written,
};
use vstd::prelude::*;

verus! {

/// A run has one action for each event, and reporting one series of events
/// after another is the same as reporting them in one go.
pub proof fn lemma_run_concat<Req, Route, Resp>(
    start: Connection<Req>,
    head: Seq<Event<Req, Route, Resp>>,
    tail: Seq<Event<Req, Route, Resp>>,
)
    ensures
        run(start, head).1.len() == head.len(),
        run(start, head + tail).0 == run(run(start, head).0, tail).0,
        run(start, head + tail).1 == run(start, head).1 + run(run(start, head).0, tail).1,
    decreases head.len(),
{
    if head.len() == 0 {
        assert(head + tail == tail);
        assert(run(start, head).1 + run(start, tail).1 == run(start, tail).1);
    } else {
        let (mid, first) = start.next(head.first());
        assert((head + tail).first() == head.first());
        assert((head + tail).drop_first() == head.drop_first() + tail);
        lemma_run_concat(mid, head.drop_first(), tail);
        let after = run(mid, head.drop_first());
        assert(run(start, head + tail).1 == seq![first] + (after.1 + run(after.0, tail).1));
        assert(seq![first] + (after.1 + run(after.0, tail).1) == (seq![first] + after.1) + run(
            after.0,
            tail,
        ).1);
    }
}

/// A closed connection stays closed: every event reported to it is dropped.
pub proof fn lemma_closed_is_terminal<Req, Route, Resp>(events: Seq<Event<Req, Route, Resp>>)
    ensures
        run(Connection::<Req>::Closed, events).0 == Connection::<Req>::Closed,
        run(Connection::<Req>::Closed, events).1.len() == events.len(),
        forall|k: int|
            0 <= k < events.len() ==> run(Connection::<Req>::Closed, events).1[k]
                == Action::<Req, Route, Resp>::Rejected,
        resolve_count(run(Connection::<Req>::Closed, events).1) == 0,
        execute_count(run(Connection::<Req>::Closed, events).1) == 0,
        written(run(Connection::<Req>::Closed, events).1) == Seq::<Resp>::empty(),
    decreases events.len(),
{
    if events.len() > 0 {
        lemma_closed_is_terminal(events.drop_first());
        let rest = run(Connection::<Req>::Closed, events.drop_first()).1;
        let all = run(Connection::<Req>::Closed, events).1;
        assert(all == seq![Action::<Req, Route, Resp>::Rejected] + rest);
        assert(all.drop_first() == rest);
    }
}

/// A failed handshake ends the connection at once, with the handshake's
/// failure as its outcome, and whatever is reported afterwards the dispatcher
/// is never asked anything and nothing is written.
pub proof fn lemma_failed_handshake_never_dispatches<Req, Route, Resp>(
    detail: String,
    rest: Seq<Event<Req, Route, Resp>>,
)
    ensures
        ({
            let events = seq![Event::<Req, Route, Resp>::HandshakeFailed(detail)] + rest;
            let (end, actions) = run(Connection::<Req>::Handshaking, events);
            &&& end == Connection::<Req>::Closed
            &&& actions.len() == events.len()
            &&& actions[0] == Action::<Req, Route, Resp>::Close(
                Outcome::Failed(ConnError::Handshake(detail)),
            )
            &&& forall|k: int|
                1 <= k < actions.len() ==> actions[k] == Action::<Req, Route, Resp>::Rejected
            &&& resolve_count(actions) == 0
            &&& execute_count(actions) == 0
            &&& written(actions) == Seq::<Resp>::empty()
        }),
{
    let events = seq![Event::<Req, Route, Resp>::HandshakeFailed(detail)] + rest;
    let close = Action::<Req, Route, Resp>::Close(Outcome::Failed(ConnError::Handshake(detail)));
    assert(events.drop_first() == rest);
    lemma_closed_is_terminal(rest);
    let tail = run(Connection::<Req>::Closed, rest).1;
    let actions = run(Connection::<Req>::Handshaking, events).1;
    assert(actions == seq![close] + tail);
    assert(actions.drop_first() == tail);
}

/// A series of exchanges has four events and four actions for each exchange:
/// the request of exchange `i` is decoded at place `4 * i`, and its response
/// is written in answer to the event at place `4 * i + 2`.
pub proof fn lemma_exchanges_layout<Req, Route, Resp>(exchanges: Seq<(Req, Route, Resp)>)
    ensures
        exchanges_events(exchanges).len() == 4 * exchanges.len(),
        exchanges_actions(exchanges).len() == 4 * exchanges.len(),
        forall|i: int|
            0 <= i < exchanges.len() ==> {
                &&& #[trigger] exchanges_events(exchanges)[4 * i] == Event::<Req, Route, Resp>::Decoded(
                    exchanges[i].0,
                )
                &&& exchanges_actions(exchanges)[4 * i + 1] == Action::<Req, Route, Resp>::Execute(
                    exchanges[i].0,
                    exchanges[i].1,
                )
                &&& exchanges_actions(exchanges)[4 * i + 2] == Action::<Req, Route, Resp>::Write(exchanges[i].2)
            },
        written(exchanges_actions(exchanges)) == responses(exchanges),
        resolve_count(exchanges_actions(exchanges)) == exchanges.len(),
        execute_count(exchanges_actions(exchanges)) == exchanges.len(),
    decreases exchanges.len(),
{
    if exchanges.len() == 0 {
        assert(responses(exchanges) == Seq::<Resp>::empty());
    } else {
        let first = exchanges.first();
        let rest = exchanges.drop_first();
        lemma_exchanges_layout(rest);
        let events = exchanges_events(exchanges);
        let actions = exchanges_actions(exchanges);
        assert forall|i: int| 0 <= i < exchanges.len() implies {
            &&& #[trigger] events[4 * i] == Event::<Req, Route, Resp>::Decoded(exchanges[i].0)
            &&& actions[4 * i + 1] == Action::<Req, Route, Resp>::Execute(exchanges[i].0, exchanges[i].1)
            &&& actions[4 * i + 2] == Action::<Req, Route, Resp>::Write(exchanges[i].2)
        } by {
            if i > 0 {
                assert(exchanges[i] == rest[i - 1]);
                assert(events[4 * i] == exchanges_events(rest)[4 * (i - 1)]);
                assert(actions[4 * i + 1] == exchanges_actions(rest)[4 * (i - 1) + 1]);
                assert(actions[4 * i + 2] == exchanges_actions(rest)[4 * (i - 1) + 2]);
            }
        }
        let a1 = actions.drop_first();
        let a2 = a1.drop_first();
        let a3 = a2.drop_first();
        assert(a3.drop_first() == exchanges_actions(rest));
        assert(written(a3) == written(exchanges_actions(rest)));
        assert(written(a2) == seq![first.2] + written(a3));
        assert(written(a1) == written(a2));
        assert(written(actions) == written(a1));
        assert(seq![first.2] + responses(rest) == responses(exchanges));
        assert(resolve_count(a3) == resolve_count(exchanges_actions(rest)));
        assert(resolve_count(a2) == resolve_count(a3));
        assert(resolve_count(a1) == resolve_count(a2));
        assert(execute_count(a3) == execute_count(exchanges_actions(rest)));
        assert(execute_count(a2) == execute_count(a3));
        assert(execute_count(a1) == 1 + execute_count(a2));
    }
}

/// A serving connection that waits for a request answers a series of
/// well-formed exchanges action by action, and waits for a request again.
pub proof fn lemma_exchanges_served<Req, Route, Resp>(exchanges: Seq<(Req, Route, Resp)>)
    ensures
        run(Connection::Serving(Pending::Request), exchanges_events(exchanges)) == (
            Connection::Serving(Pending::<Req>::Request),
            exchanges_actions(exchanges),
        ),
    decreases exchanges.len(),
{
    let waiting = Connection::Serving(Pending::<Req>::Request);
    if exchanges.len() == 0 {
    } else {
        let first = exchanges.first();
        let rest = exchanges.drop_first();
        let e0 = exchange_events(first);
        let e1 = e0.drop_first();
        let e2 = e1.drop_first();
        let e3 = e2.drop_first();
        let a0 = exchange_actions(first);
        assert(e3.drop_first() == Seq::<Event<Req, Route, Resp>>::empty());
        assert(run(waiting, e3.drop_first()) == (waiting, Seq::<Action<Req, Route, Resp>>::empty()));
        assert(run(Connection::Serving(Pending::<Req>::Flush), e3) == (waiting, seq![a0[3]]));
        assert(run(Connection::Serving(Pending::<Req>::Response), e2) == (
            waiting,
            seq![a0[2]] + seq![a0[3]],
        ));
        assert(run(Connection::Serving(Pending::Route(first.0)), e1) == (
            waiting,
            seq![a0[1]] + (seq![a0[2]] + seq![a0[3]]),
        ));
        assert(run(waiting, e0) == (waiting, seq![a0[0]] + (seq![a0[1]] + (seq![a0[2]] + seq![a0[3]]))));
        assert(seq![a0[0]] + (seq![a0[1]] + (seq![a0[2]] + seq![a0[3]])) == a0);
        lemma_exchanges_served(rest);
        lemma_run_concat(waiting, e0, exchanges_events(rest));
    }
}

/// Requests are answered one by one and in order. For any series of
/// well-formed exchanges on one connection, from the handshake to the peer's
/// clean close: the connection asks for exactly the actions of the session
/// and ends closed without an error; the responses written are exactly those
/// of the exchanges, as many and in the same order; and the response of each
/// exchange is written only in answer to an event that comes after the one
/// with which its request was decoded.
pub proof fn lemma_session_in_order<Req, Route, Resp>(exchanges: Seq<(Req, Route, Resp)>)
    ensures
        run(Connection::Handshaking, session_events(exchanges)) == (
            Connection::<Req>::Closed,
            session_actions(exchanges),
        ),
        session_actions(exchanges).len() == session_events(exchanges).len(),
        session_actions(exchanges).last() == Action::<Req, Route, Resp>::Close(Outcome::Clean),
        written(session_actions(exchanges)) == responses(exchanges),
        execute_count(session_actions(exchanges)) == exchanges.len(),
        forall|i: int|
            0 <= i < exchanges.len() ==> {
                &&& #[trigger] session_events(exchanges)[4 * i + 1] == Event::<Req, Route, Resp>::Decoded(
                    exchanges[i].0,
                )
                &&& session_actions(exchanges)[4 * i + 2] == Action::<Req, Route, Resp>::Execute(
                    exchanges[i].0,
                    exchanges[i].1,
                )
                &&& session_actions(exchanges)[4 * i + 3] == Action::<Req, Route, Resp>::Write(exchanges[i].2)
            },
{
    let waiting = Connection::Serving(Pending::<Req>::Request);
    let hello = seq![Event::<Req, Route, Resp>::HandshakeDone];
    let bye = seq![Event::<Req, Route, Resp>::EndOfStream];
    let middle = exchanges_events(exchanges);
    let decode = seq![Action::<Req, Route, Resp>::Decode];
    let close = seq![Action::<Req, Route, Resp>::Close(Outcome::Clean)];
    let served = exchanges_actions(exchanges);
    lemma_exchanges_layout(exchanges);
    lemma_exchanges_served(exchanges);

    assert(run(Connection::<Req>::Handshaking, hello) == (waiting, decode)) by {
        assert(hello.drop_first() == Seq::<Event<Req, Route, Resp>>::empty());
        assert(run(waiting, hello.drop_first()) == (
            waiting,
            Seq::<Action<Req, Route, Resp>>::empty(),
        ));
        assert(decode + Seq::<Action<Req, Route, Resp>>::empty() == decode);
    }
    assert(run(waiting, bye) == (Connection::<Req>::Closed, close)) by {
        assert(bye.drop_first() == Seq::<Event<Req, Route, Resp>>::empty());
        assert(run(Connection::<Req>::Closed, bye.drop_first()) == (
            Connection::<Req>::Closed,
            Seq::<Action<Req, Route, Resp>>::empty(),
        ));
        assert(close + Seq::<Action<Req, Route, Resp>>::empty() == close);
    }
    lemma_run_concat(Connection::<Req>::Handshaking, hello, middle);
    lemma_run_concat(Connection::<Req>::Handshaking, hello + middle, bye);

    let actions = session_actions(exchanges);
    assert forall|i: int| 0 <= i < exchanges.len() implies {
        &&& #[trigger] session_events(exchanges)[4 * i + 1] == Event::<Req, Route, Resp>::Decoded(exchanges[i].0)
        &&& actions[4 * i + 2] == Action::<Req, Route, Resp>::Execute(exchanges[i].0, exchanges[i].1)
        &&& actions[4 * i + 3] == Action::<Req, Route, Resp>::Write(exchanges[i].2)
    } by {
        assert(session_events(exchanges)[4 * i + 1] == middle[4 * i]);
        assert(actions[4 * i + 2] == served[4 * i + 1]);
        assert(actions[4 * i + 3] == served[4 * i + 2]);
    }
    lemma_written_concat(decode + served, close);
    lemma_written_concat(decode, served);
    assert(written(decode) == Seq::<Resp>::empty()) by {
        reveal_with_fuel(written, 2);
    }
    assert(written(close) == Seq::<Resp>::empty()) by {
        reveal_with_fuel(written, 2);
    }
    lemma_execute_count_concat(decode + served, close);
    lemma_execute_count_concat(decode, served);
    assert(execute_count(decode) == 0) by {
        reveal_with_fuel(execute_count, 2);
    }
    assert(execute_count(close) == 0) by {
        reveal_with_fuel(execute_count, 2);
    }
}

/// The responses written over two stretches of actions are those of the
/// first followed by those of the second.
pub proof fn lemma_written_concat<Req, Route, Resp>(
    head: Seq<Action<Req, Route, Resp>>,
    tail: Seq<Action<Req, Route, Resp>>,
)
    ensures
        written(head + tail) == written(head) + written(tail),
    decreases head.len(),
{
    if head.len() == 0 {
        assert(head + tail == tail);
    } else {
        assert((head + tail).first() == head.first());
        assert((head + tail).drop_first() == head.drop_first() + tail);
        lemma_written_concat(head.drop_first(), tail);
    }
}

/// The requests handed to the dispatcher over two stretches of actions are
/// as many as in the first and the second together.
pub proof fn lemma_execute_count_concat<Req, Route, Resp>(
    head: Seq<Action<Req, Route, Resp>>,
    tail: Seq<Action<Req, Route, Resp>>,
)
    ensures
        execute_count(head + tail) == execute_count(head) + execute_count(tail),
    decreases head.len(),
{
    if head.len() == 0 {
        assert(head + tail == tail);
    } else {
        assert((head + tail).first() == head.first());
        assert((head + tail).drop_first() == head.drop_first() + tail);
        lemma_execute_count_concat(head.drop_first(), tail);
    }
}

/// The action at place `k` of a run is the answer that the state reached by
/// the first `k` events gives to the event at place `k`.
pub proof fn lemma_run_at<Req, Route, Resp>(
    start: Connection<Req>,
    events: Seq<Event<Req, Route, Resp>>,
    k: int,
)
    requires
        0 <= k < events.len(),
    ensures
        run(start, events).1.len() == events.len(),
        run(start, events).1[k] == run(start, events.take(k)).0.next(events[k]).1,
    decreases events.len(),
{
    let (mid, first) = start.next(events.first());
    let rest = events.drop_first();
    lemma_run_concat(mid, rest, Seq::empty());
    if k == 0 {
        assert(events.take(0) == Seq::<Event<Req, Route, Resp>>::empty());
    } else {
        lemma_run_at(mid, rest, k - 1);
        assert(events.take(k).first() == events.first());
        assert(events.take(k).drop_first() == rest.take(k - 1));
    }
}

/// A log line is owed for a close exactly when the close does not answer the
/// peer's end of stream: a clean close logs nothing, every other close logs
/// its failure.
pub proof fn lemma_only_failures_are_logged<Req, Route, Resp>(
    start: Connection<Req>,
    events: Seq<Event<Req, Route, Resp>>,
)
    ensures
        run(start, events).1.len() == events.len(),
        forall|k: int|
            0 <= k < events.len() ==> (#[trigger] run(start, events).1[k] matches Action::Close(
                outcome,
            ) ==> (outcome.log_text() is None <==> events[k] is EndOfStream)),
{
    lemma_run_concat(start, events, Seq::empty());
    assert forall|k: int| 0 <= k < events.len() implies (#[trigger] run(
        start,
        events,
    ).1[k] matches Action::Close(outcome) ==> (outcome.log_text() is None
        <==> events[k] is EndOfStream)) by {
        lemma_run_at(start, events, k);
    }
}

/// The dispatcher is asked to resolve a route at most once for each request
/// that the codec produced, whatever state the run starts in.
pub proof fn lemma_resolves_bounded_by_requests<Req, Route, Resp>(
    start: Connection<Req>,
    events: Seq<Event<Req, Route, Resp>>,
)
    ensures
        resolve_count(run(start, events).1) <= decoded_count(events),
    decreases events.len(),
{
    if events.len() > 0 {
        let (mid, first) = start.next(events.first());
        let rest = run(mid, events.drop_first()).1;
        lemma_resolves_bounded_by_requests(mid, events.drop_first());
        assert((seq![first] + rest).drop_first() == rest);
    }
}

/// The allowance of a state: one where a request is already in hand, whose
/// execution no further resolving precedes.
spec fn in_hand_count<Req>(state: Connection<Req>) -> nat {
    if state is Serving && state->Serving_0 is Route {
        1
    } else {
        0
    }
}

proof fn lemma_executes_bounded_from<Req, Route, Resp>(
    start: Connection<Req>,
    events: Seq<Event<Req, Route, Resp>>,
)
    ensures
        execute_count(run(start, events).1) + in_hand_count(run(start, events).0) <= resolve_count(
            run(start, events).1,
        ) + in_hand_count(start),
    decreases events.len(),
{
    if events.len() > 0 {
        let (mid, first) = start.next(events.first());
        let rest = run(mid, events.drop_first()).1;
        lemma_executes_bounded_from(mid, events.drop_first());
        assert((seq![first] + rest).drop_first() == rest);
    }
}

/// On a connection run from its handshake, the dispatcher is handed no more
/// requests than it resolved routes for, and resolves no more routes than
/// requests were decoded.
pub proof fn lemma_dispatch_bounded_by_requests<Req, Route, Resp>(
    events: Seq<Event<Req, Route, Resp>>,
)
    ensures
        execute_count(run(Connection::<Req>::Handshaking, events).1) <= resolve_count(
            run(Connection::<Req>::Handshaking, events).1,
        ) <= decoded_count(events),
{
    lemma_resolves_bounded_by_requests(Connection::<Req>::Handshaking, events);
    lemma_executes_bounded_from(Connection::<Req>::Handshaking, events);
}

/// A connection on which no request is ever decoded never asks the
/// dispatcher anything, and if the peer's end of stream closes it, the close
/// is clean and no log line is owed.
pub proof fn lemma_no_request_no_dispatch<Req, Route, Resp>(events: Seq<Event<Req, Route, Resp>>)
    requires
        decoded_count(events) == 0,
    ensures
        resolve_count(run(Connection::<Req>::Handshaking, events).1) == 0,
        execute_count(run(Connection::<Req>::Handshaking, events).1) == 0,
        run(Connection::<Req>::Handshaking, events).1.len() == events.len(),
        forall|k: int|
            0 <= k < events.len() && events[k] is EndOfStream ==> (#[trigger] run(
                Connection::<Req>::Handshaking,
                events,
            ).1[k] matches Action::Close(outcome) ==> outcome.log_text() is None),
{
    lemma_dispatch_bounded_by_requests(events);
    lemma_only_failures_are_logged(Connection::<Req>::Handshaking, events);
}

proof fn lemma_in_flight_needs_flush<Req, Route, Resp>(
    start: Connection<Req>,
    events: Seq<Event<Req, Route, Resp>>,
    j: int,
)
    requires
        start == Connection::Serving(Pending::<Req>::Response) || start == Connection::Serving(
            Pending::<Req>::Flush,
        ),
        0 <= j < events.len(),
        run(start, events).1.len() == events.len(),
        run(start, events).1[j] is Execute,
    ensures
        exists|k: int|
            0 <= k < j && #[trigger] events[k] is Written && run(start, events).1[k] is Decode,
    decreases events.len(),
{
    let (mid, first) = start.next(events.first());
    let rest = events.drop_first();
    let answers = run(mid, rest).1;
    let actions = run(start, events).1;
    lemma_run_concat(mid, rest, Seq::empty());
    assert(actions == seq![first] + answers);
    if j > 0 {
        assert(actions[j] == answers[j - 1]);
        if events[0] is Written && first is Decode {
            assert(0 <= 0 < j && events[0] is Written && actions[0] is Decode);
        } else if mid is Closed {
            lemma_closed_is_terminal(rest);
        } else {
            lemma_in_flight_needs_flush(mid, rest, j - 1);
            let w = choose|k: int|
                0 <= k < j - 1 && #[trigger] rest[k] is Written && answers[k] is Decode;
            assert(events[w + 1] == rest[w]);
            assert(actions[w + 1] == answers[w]);
            assert(0 <= w + 1 < j && events[w + 1] is Written && actions[w + 1] is Decode);
        }
    }
}

/// One exchange at a time: between any two requests handed to the
/// dispatcher, the write of the first one's response was reported complete
/// and the connection went back to decoding. So no request is dispatched
/// before the response to the one before it is fully written.
pub proof fn lemma_one_exchange_at_a_time<Req, Route, Resp>(
    start: Connection<Req>,
    events: Seq<Event<Req, Route, Resp>>,
    i: int,
    j: int,
)
    requires
        0 <= i < j < events.len(),
        run(start, events).1[i] is Execute,
        run(start, events).1[j] is Execute,
    ensures
        run(start, events).1.len() == events.len(),
        exists|k: int|
            i < k < j && #[trigger] events[k] is Written && run(start, events).1[k] is Decode,
    decreases events.len(),
{
    let (mid, first) = start.next(events.first());
    let rest = events.drop_first();
    let answers = run(mid, rest).1;
    let actions = run(start, events).1;
    lemma_run_concat(mid, rest, Seq::empty());
    lemma_run_concat(start, events, Seq::empty());
    assert(actions == seq![first] + answers);
    assert(actions[j] == answers[j - 1]);
    if i == 0 {
        lemma_in_flight_needs_flush(mid, rest, j - 1);
        let w = choose|k: int|
            0 <= k < j - 1 && #[trigger] rest[k] is Written && answers[k] is Decode;
        assert(events[w + 1] == rest[w]);
        assert(actions[w + 1] == answers[w]);
        assert(i < w + 1 < j && events[w + 1] is Written && actions[w + 1] is Decode);
    } else {
        assert(actions[i] == answers[i - 1]);
        lemma_one_exchange_at_a_time(mid, rest, i - 1, j - 1);
        let w = choose|k: int|
            i - 1 < k < j - 1 && #[trigger] rest[k] is Written && answers[k] is Decode;
        assert(events[w + 1] == rest[w]);
        assert(actions[w + 1] == answers[w]);
        assert(i < w + 1 < j && events[w + 1] is Written && actions[w + 1] is Decode);
    }
}

/// The state after one more event is the next state of the state before it.
proof fn lemma_run_grows<Req, Route, Resp>(
    start: Connection<Req>,
    events: Seq<Event<Req, Route, Resp>>,
    k: int,
)
    requires
        0 <= k < events.len(),
    ensures
        run(start, events.take(k + 1)).0 == run(start, events.take(k)).0.next(events[k]).0,
{
    let before = run(start, events.take(k)).0;
    assert(events.take(k + 1) == events.take(k) + seq![events[k]]);
    lemma_run_concat(start, events.take(k), seq![events[k]]);
    assert(run(before, seq![events[k]]).0 == before.next(events[k]).0) by {
        reveal_with_fuel(run, 2);
        assert(seq![events[k]].first() == events[k]);
        assert(seq![events[k]].drop_first().len() == 0);
    }
}

proof fn lemma_in_hand_was_decoded<Req, Route, Resp>(
    start: Connection<Req>,
    events: Seq<Event<Req, Route, Resp>>,
    n: int,
    request: Req,
)
    requires
        0 <= n <= events.len(),
        run(start, events.take(n)).0.in_hand() == Some(request),
    ensures
        start.in_hand() == Some(request) || exists|d: int|
            0 <= d < n && #[trigger] events[d] == Event::<Req, Route, Resp>::Decoded(request)
                && run(start, events).1[d] is Resolve,
    decreases n,
{
    if n == 0 {
        assert(events.take(0) == Seq::<Event<Req, Route, Resp>>::empty());
    } else {
        let before = run(start, events.take(n - 1)).0;
        lemma_run_at(start, events, n - 1);
        lemma_run_grows(start, events, n - 1);
        if before.in_hand() == Some(request) {
            lemma_in_hand_was_decoded(start, events, n - 1, request);
        } else {
            assert(events[n - 1] == Event::<Req, Route, Resp>::Decoded(request));
            assert(run(start, events).1[n - 1] is Resolve);
        }
    }
}

/// Nothing is written that the dispatcher did not produce: a write answers
/// the very event that carries its response.
pub proof fn lemma_written_was_produced<Req, Route, Resp>(
    start: Connection<Req>,
    events: Seq<Event<Req, Route, Resp>>,
    k: int,
    response: Resp,
)
    requires
        0 <= k < events.len(),
        run(start, events).1[k] == Action::<Req, Route, Resp>::Write(response),
    ensures
        events[k] == Event::<Req, Route, Resp>::Executed(response),
{
    lemma_run_at(start, events, k);
}

/// No request is handed to the dispatcher that was not decoded on this
/// connection. On a connection run from its handshake, an execution answers
/// the event that carries its route, and its request was decoded by an
/// earlier event, in answer to which the route was asked for.
pub proof fn lemma_executed_was_decoded<Req, Route, Resp>(
    events: Seq<Event<Req, Route, Resp>>,
    k: int,
    request: Req,
    route: Route,
)
    requires
        0 <= k < events.len(),
        run(Connection::<Req>::Handshaking, events).1[k] == Action::<Req, Route, Resp>::Execute(
            request,
            route,
        ),
    ensures
        events[k] == Event::<Req, Route, Resp>::Routed(route),
        exists|d: int|
            0 <= d < k && #[trigger] events[d] == Event::<Req, Route, Resp>::Decoded(request)
                && run(Connection::<Req>::Handshaking, events).1[d] is Resolve,
{
    lemma_run_at(Connection::<Req>::Handshaking, events, k);
    lemma_in_hand_was_decoded(Connection::<Req>::Handshaking, events, k, request);
}

} // verus!
