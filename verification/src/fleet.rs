//! Several connections open at once.
//!
//! Each accepted stream gets a connection of its own, and the connections
//! make progress in any order. Here that is a series of events, each tagged
//! with the connection it belongs to. What one connection is asked to do
//! depends on its own events alone.

use crate::connection::{Action, Connection, Event};
use crate::trace::run;
use vstd::prelude::*;

verus! {

/// The states reached by the open connections when the tagged events are
/// reported in order, each to the connection it names, and the action issued
/// in answer to each, tagged alike. An event for a connection that is not
/// open is dropped.
pub open spec fn run_all<Req, Route, Resp>(
    open: Map<int, Connection<Req>>,
    tagged: Seq<(int, Event<Req, Route, Resp>)>,
) -> (Map<int, Connection<Req>>, Seq<(int, Action<Req, Route, Resp>)>)
    decreases tagged.len(),
{
    if tagged.len() == 0 {
        (open, Seq::empty())
    } else {
        let (id, event) = tagged.first();
        if open.dom().contains(id) {
            let (state, action) = open[id].next(event);
            let (end, rest) = run_all(open.insert(id, state), tagged.drop_first());
            (end, seq![(id, action)] + rest)
        } else {
            let (end, rest) = run_all(open, tagged.drop_first());
            (end, seq![(id, Action::Rejected)] + rest)
        }
    }
}

/// The events that belong to one connection, in order.
pub open spec fn events_of<Req, Route, Resp>(
    tagged: Seq<(int, Event<Req, Route, Resp>)>,
    id: int,
) -> Seq<Event<Req, Route, Resp>>
    decreases tagged.len(),
{
    if tagged.len() == 0 {
        Seq::empty()
    } else if tagged.first().0 == id {
        seq![tagged.first().1] + events_of(tagged.drop_first(), id)
    } else {
        events_of(tagged.drop_first(), id)
    }
}

/// The actions asked of one connection, in order.
pub open spec fn actions_of<Req, Route, Resp>(
    tagged: Seq<(int, Action<Req, Route, Resp>)>,
    id: int,
) -> Seq<Action<Req, Route, Resp>>
    decreases tagged.len(),
{
    if tagged.len() == 0 {
        Seq::empty()
    } else if tagged.first().0 == id {
        seq![tagged.first().1] + actions_of(tagged.drop_first(), id)
    } else {
        actions_of(tagged.drop_first(), id)
    }
}

/// No connection affects another. However the events of the open
/// connections are interleaved, and whatever the others receive (malformed
/// bytes, failures, nothing at all), each connection ends in the state and is
/// asked exactly the actions, in the same order, that its own events would
/// give it if it were the only one. No connection is opened or forgotten.
pub proof fn lemma_connections_are_isolated<Req, Route, Resp>(
    open: Map<int, Connection<Req>>,
    tagged: Seq<(int, Event<Req, Route, Resp>)>,
    id: int,
)
    requires
        open.dom().contains(id),
    ensures
        run_all(open, tagged).0.dom() == open.dom(),
        run_all(open, tagged).0[id] == run(open[id], events_of(tagged, id)).0,
        actions_of(run_all(open, tagged).1, id) == run(open[id], events_of(tagged, id)).1,
    decreases tagged.len(),
{
    if tagged.len() > 0 {
        let (other, event) = tagged.first();
        let rest = tagged.drop_first();
        if open.dom().contains(other) {
            let (state, action) = open[other].next(event);
            let moved = open.insert(other, state);
            lemma_connections_are_isolated(moved, rest, id);
            assert(moved.dom() == open.dom());
            let answers = run_all(moved, rest).1;
            assert((seq![(other, action)] + answers).drop_first() == answers);
            if other == id {
                assert((seq![event] + events_of(rest, id)).drop_first() == events_of(rest, id));
            }
        } else {
            lemma_connections_are_isolated(open, rest, id);
            let answers = run_all(open, rest).1;
            assert((seq![(other, Action::<Req, Route, Resp>::Rejected)] + answers).drop_first()
                == answers);
        }
    }
}

} // verus!
