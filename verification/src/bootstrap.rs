//! The provider client is set up once, by the first request that needs it;
//! requests that arrive meanwhile wait for that one attempt.

use vstd::prelude::*;

verus! {

/// Where the setting-up of the provider client stands.
#[derive(Debug, Clone, Copy, PartialEq, Eq, Structural)]
pub enum Bootstrap {
    /// Nobody has asked yet.
    Idle,
    /// One discovery is under way.
    InFlight,
    /// The client is there, for good.
    Ready,
    /// Discovery failed, for good.
    Failed,
}

#[derive(Debug, Clone, Copy, PartialEq, Eq, Structural)]
pub enum BootEvent {
    /// A request needs the client.
    Arrive,
    /// The discovery under way has ended, well or not.
    Settled(bool),
}

#[derive(Debug, Clone, Copy, PartialEq, Eq, Structural)]
pub enum BootAction {
    /// Start discovery, and report with `Settled` how it ended.
    Discover,
    /// Wait until the discovery under way has ended, then arrive again.
    Await,
    /// Use the client.
    Proceed,
    /// There is no client and there will be none.
    Refuse,
    /// Nothing to do.
    Ignore,
}

/// The state after an event, and what the one who brought the event does.
pub open spec fn next(state: Bootstrap, event: BootEvent) -> (Bootstrap, BootAction) {
    match event {
        BootEvent::Arrive => match state {
            Bootstrap::Idle => (Bootstrap::InFlight, BootAction::Discover),
            Bootstrap::InFlight => (Bootstrap::InFlight, BootAction::Await),
            Bootstrap::Ready => (Bootstrap::Ready, BootAction::Proceed),
            Bootstrap::Failed => (Bootstrap::Failed, BootAction::Refuse),
        },
        BootEvent::Settled(ok) => match state {
            Bootstrap::InFlight => if ok {
                (Bootstrap::Ready, BootAction::Proceed)
            } else {
                (Bootstrap::Failed, BootAction::Refuse)
            },
            _ => (state, BootAction::Ignore),
        },
    }
}

/// The state after a run of events.
pub open spec fn run(state: Bootstrap, events: Seq<BootEvent>) -> Bootstrap
    decreases events.len(),
{
    if events.len() == 0 {
        state
    } else {
        next(run(state, events.drop_last()), events.last()).0
    }
}

/// How many discoveries a run of events starts.
pub open spec fn discoveries(state: Bootstrap, events: Seq<BootEvent>) -> nat
    decreases events.len(),
{
    if events.len() == 0 {
        0
    } else {
        let before = discoveries(state, events.drop_last());
        if next(run(state, events.drop_last()), events.last()).1 == BootAction::Discover {
            before + 1
        } else {
            before
        }
    }
}

/// How the one attempt ended, once it has.
pub open spec fn outcome(state: Bootstrap) -> Option<bool> {
    match state {
        Bootstrap::Ready => Some(true),
        Bootstrap::Failed => Some(false),
        _ => None,
    }
}

/// Takes one event.
pub fn step(state: Bootstrap, event: BootEvent) -> (r: (Bootstrap, BootAction))
    ensures
        r == next(state, event),
{
    match event {
        BootEvent::Arrive => match state {
            Bootstrap::Idle => (Bootstrap::InFlight, BootAction::Discover),
            Bootstrap::InFlight => (Bootstrap::InFlight, BootAction::Await),
            Bootstrap::Ready => (Bootstrap::Ready, BootAction::Proceed),
            Bootstrap::Failed => (Bootstrap::Failed, BootAction::Refuse),
        },
        BootEvent::Settled(ok) => match state {
            Bootstrap::InFlight => if ok {
                (Bootstrap::Ready, BootAction::Proceed)
            } else {
                (Bootstrap::Failed, BootAction::Refuse)
            },
            _ => (state, BootAction::Ignore),
        },
    }
}

proof fn lemma_discoveries(events: Seq<BootEvent>)
    ensures
        discoveries(Bootstrap::Idle, events) <= 1,
        discoveries(Bootstrap::Idle, events) == 0 <==> run(Bootstrap::Idle, events)
            == Bootstrap::Idle,
    decreases events.len(),
{
    if events.len() > 0 {
        lemma_discoveries(events.drop_last());
    }
}

/// Whatever requests arrive and whenever the discovery ends, discovery is
/// started at most once; it is started exactly once as soon as one request
/// has arrived.
pub proof fn lemma_single_flight(events: Seq<BootEvent>)
    ensures
        discoveries(Bootstrap::Idle, events) <= 1,
        events.contains(BootEvent::Arrive) ==> discoveries(Bootstrap::Idle, events) == 1,
    decreases events.len(),
{
    lemma_discoveries(events);
    if events.len() > 0 {
        let d = events.drop_last();
        lemma_single_flight(d);
        lemma_discoveries(d);
        if events.contains(BootEvent::Arrive) {
            let i = choose|i: int| 0 <= i < events.len() && events[i] == BootEvent::Arrive;
            if i < d.len() {
                assert(d[i] == BootEvent::Arrive);
            }
        }
    }
}

/// Once the attempt has ended, no event changes how it ended.
pub proof fn lemma_outcome_shared(state: Bootstrap, events: Seq<BootEvent>)
    requires
        outcome(state) is Some,
    ensures
        run(state, events) == state,
    decreases events.len(),
{
    if events.len() > 0 {
        lemma_outcome_shared(state, events.drop_last());
    }
}

proof fn lemma_run_split(state: Bootstrap, first: Seq<BootEvent>, second: Seq<BootEvent>)
    ensures
        run(state, first + second) == run(run(state, first), second),
    decreases second.len(),
{
    if second.len() == 0 {
        assert(first + second =~= first);
    } else {
        assert((first + second).drop_last() =~= first + second.drop_last());
        lemma_run_split(state, first, second.drop_last());
    }
}

proof fn lemma_settled_prefix(events: Seq<BootEvent>, i: int, k: int)
    requires
        0 <= i <= k <= events.len(),
        outcome(run(Bootstrap::Idle, events.take(i))) is Some,
    ensures
        run(Bootstrap::Idle, events.take(k)) == run(Bootstrap::Idle, events.take(i)),
{
    let first = events.take(i);
    let second = events.subrange(i, k);
    assert(first + second =~= events.take(k));
    lemma_run_split(Bootstrap::Idle, first, second);
    lemma_outcome_shared(run(Bootstrap::Idle, first), second);
}

/// What the one who brings the event at place `i` is told to do, when the
/// events start from `Idle`.
pub open spec fn action_at(events: Seq<BootEvent>, i: int) -> BootAction {
    next(run(Bootstrap::Idle, events.take(i)), events[i]).1
}

/// In one run of events nobody is told to proceed while another is refused:
/// all requests see the one success or the one failure.
pub proof fn lemma_one_outcome(events: Seq<BootEvent>, i: int, j: int)
    requires
        0 <= i < events.len(),
        0 <= j < events.len(),
    ensures
        !(action_at(events, i) == BootAction::Proceed && action_at(events, j)
            == BootAction::Refuse),
{
    if action_at(events, i) == BootAction::Proceed && action_at(events, j) == BootAction::Refuse {
        assert(events.take(i + 1).drop_last() =~= events.take(i));
        assert(events.take(j + 1).drop_last() =~= events.take(j));
        assert(run(Bootstrap::Idle, events.take(i + 1)) == Bootstrap::Ready);
        assert(run(Bootstrap::Idle, events.take(j + 1)) == Bootstrap::Failed);
        if i < j {
            lemma_settled_prefix(events, i + 1, j);
        } else if j < i {
            lemma_settled_prefix(events, j + 1, i);
        }
    }
}

} // verus!
