//! The decisions of the workspace search thread: which query to run once a
//! burst of queries has settled, when to answer without searching, and when
//! to stop.  Waiting on the channel and the clock is the caller's.

use vstd::prelude::*;

use crate::model::SearchOptions;

verus! {

/// A search the panel asked for.
pub struct PendingQuery {
    pub pattern: String,
    pub options: SearchOptions,
}

/// Whether the thread waits for a first query or lets a burst settle.
pub enum QueueState {
    Idle,
    /// The newest query so far, waiting for the settling deadline.
    Settling(PendingQuery),
}

/// What the thread's wait ended with.
pub enum QueueEvent {
    /// A query arrived.
    Received(PendingQuery),
    /// The panel asked the thread to stop, or hung up while it was idle.
    Shutdown,
    /// The settling deadline passed (or the panel hung up while a query was
    /// settling).
    Settled,
}

/// What the thread does next.
pub enum QueueAction {
    /// Wait for the next query.
    AwaitQuery,
    /// Start the settling deadline and wait for newer queries until it.
    StartDeadline,
    /// Keep waiting for newer queries until the deadline already running.
    AwaitDeadline,
    /// Send back an empty list of results without searching.
    ReplyEmpty,
    /// Search the workspace for this query and send back the results.
    Search(PendingQuery),
    /// End the thread.
    Stop,
}

/// One step of the thread: a shutdown stops it; the first query starts the
/// settling deadline and each newer one replaces it; when the deadline
/// passes, the newest query is searched for, or answered with no results
/// when its pattern is empty.
pub open spec fn queue_next(state: QueueState, event: QueueEvent) -> (QueueState, QueueAction) {
    match event {
        QueueEvent::Shutdown => (QueueState::Idle, QueueAction::Stop),
        QueueEvent::Received(q) => (
            QueueState::Settling(q),
            if state is Idle {
                QueueAction::StartDeadline
            } else {
                QueueAction::AwaitDeadline
            },
        ),
        QueueEvent::Settled => match state {
            QueueState::Idle => (QueueState::Idle, QueueAction::AwaitQuery),
            QueueState::Settling(q) => (QueueState::Idle, settled_action(q)),
        },
    }
}

/// What a settled query asks for: no results for an empty pattern, a search
/// otherwise.
pub open spec fn settled_action(q: PendingQuery) -> QueueAction {
    if q.pattern@.len() == 0 {
        QueueAction::ReplyEmpty
    } else {
        QueueAction::Search(q)
    }
}

pub fn queue_step(state: QueueState, event: QueueEvent) -> (r: (QueueState, QueueAction))
    ensures
        r == queue_next(state, event),
{
    match event {
        QueueEvent::Shutdown => (QueueState::Idle, QueueAction::Stop),
        QueueEvent::Received(q) => {
            let action = match state {
                QueueState::Idle => QueueAction::StartDeadline,
                QueueState::Settling(_) => QueueAction::AwaitDeadline,
            };
            (QueueState::Settling(q), action)
        },
        QueueEvent::Settled => match state {
            QueueState::Idle => (QueueState::Idle, QueueAction::AwaitQuery),
            QueueState::Settling(q) => {
                if q.pattern.as_str().is_empty() {
                    (QueueState::Idle, QueueAction::ReplyEmpty)
                } else {
                    (QueueState::Idle, QueueAction::Search(q))
                }
            },
        },
    }
}

/// The state after a run of events, and the action of each step.
pub open spec fn queue_run(state: QueueState, events: Seq<QueueEvent>) -> (
    QueueState,
    Seq<QueueAction>,
)
    decreases events.len(),
{
    if events.len() == 0 {
        (state, Seq::<QueueAction>::empty())
    } else {
        let (next, a) = queue_next(state, events[0]);
        let (last, rest) = queue_run(next, events.drop_first());
        (last, seq![a] + rest)
    }
}

/// The events of a burst of queries arriving one after the other.
pub open spec fn arrivals(qs: Seq<PendingQuery>) -> Seq<QueueEvent> {
    qs.map_values(|q: PendingQuery| QueueEvent::Received(q))
}

/// Whether an action sends something back (a search or an empty answer).
pub open spec fn answers(a: QueueAction) -> bool {
    a is ReplyEmpty || a is Search
}

proof fn lemma_burst_then(st: QueueState, qs: Seq<PendingQuery>, last: QueueEvent)
    requires
        qs.len() >= 1,
    ensures
        queue_run(st, arrivals(qs).push(last)).1.len() == qs.len() + 1,
        queue_run(st, arrivals(qs).push(last)).1[0] == queue_next(st, QueueEvent::Received(
            qs[0],
        )).1,
        forall|i: int|
            1 <= i < qs.len() ==> #[trigger] queue_run(st, arrivals(qs).push(last)).1[i]
                is AwaitDeadline,
        queue_run(st, arrivals(qs).push(last)).1[qs.len() as int] == queue_next(
            QueueState::Settling(qs.last()),
            last,
        ).1,
        queue_run(st, arrivals(qs).push(last)).0 == queue_next(
            QueueState::Settling(qs.last()),
            last,
        ).0,
    decreases qs.len(),
{
    let evs = arrivals(qs).push(last);
    assert(evs[0] == QueueEvent::Received(qs[0]));
    let next = queue_next(st, evs[0]).0;
    assert(next == QueueState::Settling(qs[0]));
    if qs.len() == 1 {
        assert(evs.drop_first() =~= seq![last]);
        assert(seq![last].drop_first() =~= Seq::<QueueEvent>::empty());
        let e = queue_next(next, last);
        assert(queue_run(e.0, Seq::<QueueEvent>::empty()).1 =~= Seq::<QueueAction>::empty());
        assert(queue_run(next, seq![last]).1 =~= seq![e.1]);
        assert(queue_run(next, seq![last]).0 == e.0);
        assert(queue_run(st, evs).1 =~= seq![queue_next(st, evs[0]).1] + seq![e.1]);
        assert(qs.last() == qs[0]);
    } else {
        let rest = qs.drop_first();
        assert(evs.drop_first() =~= arrivals(rest).push(last));
        lemma_burst_then(next, rest, last);
        assert(rest.last() == qs.last());
        let tail = queue_run(next, arrivals(rest).push(last)).1;
        assert(queue_run(st, evs).1 =~= seq![queue_next(st, evs[0]).1] + tail);
        assert(queue_run(st, evs).0 == queue_run(next, arrivals(rest).push(last)).0);
        assert(queue_run(st, evs).1[qs.len() as int] == tail[rest.len() as int]);
        assert forall|i: int| 1 <= i < qs.len() implies #[trigger] queue_run(st, evs).1[i]
            is AwaitDeadline by {
            assert(queue_run(st, evs).1[i] == tail[i - 1]);
            if i - 1 == 0 {
                assert(tail[0] == queue_next(next, QueueEvent::Received(rest[0])).1);
            }
        }
    }
}

/// A burst of queries that arrives while the thread is idle and then
/// settles gets exactly one answer, for the newest query: the first query
/// starts the deadline, every later one only waits, none of them is
/// searched, and at the deadline the newest is searched for (or answered
/// with no results when its pattern is empty).
pub proof fn law_burst_answers_newest(qs: Seq<PendingQuery>)
    requires
        qs.len() >= 1,
    ensures
        ({
            let (end, acts) = queue_run(QueueState::Idle, arrivals(qs).push(QueueEvent::Settled));
            &&& end is Idle
            &&& acts.len() == qs.len() + 1
            &&& acts[0] is StartDeadline
            &&& forall|i: int| 1 <= i < qs.len() ==> #[trigger] acts[i] is AwaitDeadline
            &&& acts.last() == settled_action(qs.last())
            &&& forall|i: int| 0 <= i < qs.len() ==> !answers(#[trigger] acts[i])
        }),
{
    lemma_burst_then(QueueState::Idle, qs, QueueEvent::Settled);
    let acts = queue_run(QueueState::Idle, arrivals(qs).push(QueueEvent::Settled)).1;
    assert forall|i: int| 0 <= i < qs.len() implies !answers(#[trigger] acts[i]) by {
        if i >= 1 {
            assert(acts[i] is AwaitDeadline);
        }
    }
}

/// A shutdown during a burst, or while idle, stops the thread without any
/// answer: no query of the burst is searched for.
pub proof fn law_shutdown_answers_nothing(st: QueueState, qs: Seq<PendingQuery>)
    ensures
        ({
            let (end, acts) = queue_run(st, arrivals(qs).push(QueueEvent::Shutdown));
            &&& end is Idle
            &&& acts.len() == qs.len() + 1
            &&& acts.last() is Stop
            &&& forall|i: int| 0 <= i < acts.len() ==> !answers(#[trigger] acts[i])
        }),
{
    let evs = arrivals(qs).push(QueueEvent::Shutdown);
    if qs.len() == 0 {
        assert(evs =~= seq![QueueEvent::Shutdown]);
        assert(evs.drop_first() =~= Seq::<QueueEvent>::empty());
        let e = queue_next(st, QueueEvent::Shutdown);
        assert(queue_run(e.0, Seq::<QueueEvent>::empty()).1 =~= Seq::<QueueAction>::empty());
        assert(queue_run(st, evs).1 =~= seq![e.1]);
    } else {
        lemma_burst_then(st, qs, QueueEvent::Shutdown);
        let acts = queue_run(st, evs).1;
        assert forall|i: int| 0 <= i < acts.len() implies !answers(#[trigger] acts[i]) by {
            if 1 <= i < qs.len() {
                assert(acts[i] is AwaitDeadline);
            }
        }
    }
}

} // verus!
