//! Running a session over a whole trace of events.
//!
//! The negotiation loop observes one event at a time; `run_events` folds a
//! recorded trace through `Session::step` in receipt order and collects every
//! prescribed action. `spec_run` is the same fold in the logic, and the laws
//! below state what holds of every trace: the outcome fires at most once, and
//! a trace that never opens a data channel can only time out at the deadline.

use vstd::prelude::*;

use crate::errors::{Outcome, TunnelError};
use crate::ops::OpModel;
use crate::session::{
    spec_step, ActionModel, Event, EventModel, Session, SessionModel, Action,
};

verus! {

/// The state and the accumulated actions after a whole trace of events, in
/// order.
pub open spec fn spec_run(s: SessionModel, events: Seq<EventModel>) -> (SessionModel, Seq<
    ActionModel,
>)
    decreases events.len(),
{
    if events.len() == 0 {
        (s, Seq::empty())
    } else {
        let (s1, first) = spec_step(s, events[0]);
        let (s2, rest) = spec_run(s1, events.drop_first());
        (s2, first + rest)
    }
}

/// Feeds a trace of events to the session in order and returns every action
/// the session prescribed, in order: exactly the fold `spec_run`.
pub fn run_events(session: &mut Session, events: Vec<Event>) -> (actions: Vec<Action>)
    ensures
        final(session)@ == spec_run(old(session)@, events.deep_view()).0,
        actions.deep_view() == spec_run(old(session)@, events.deep_view()).1,
{
    let ghost pre = session@;
    let ghost all = events.deep_view();
    let mut remaining = events;
    let mut actions: Vec<Action> = Vec::new();
    while remaining.len() > 0
        invariant
            spec_run(pre, all).0 == spec_run(session@, remaining.deep_view()).0,
            spec_run(pre, all).1 == actions.deep_view() + spec_run(
                session@,
                remaining.deep_view(),
            ).1,
        decreases remaining.len(),
    {
        let ghost rest = remaining.deep_view();
        let e = remaining.remove(0);
        assert(remaining.deep_view() =~~= rest.drop_first());
        assert(e.deep_view() == rest[0]);
        let mut stepped = session.step(e);
        let ghost stepped_model = stepped.deep_view();
        let ghost acc_before = actions.deep_view();
        actions.append(&mut stepped);
        assert(actions.deep_view() =~~= acc_before + stepped_model);
        assert(acc_before + (stepped_model + spec_run(session@, remaining.deep_view()).1)
            =~= (acc_before + stepped_model) + spec_run(session@, remaining.deep_view()).1);
    }
    assert(remaining.deep_view() =~= Seq::<EventModel>::empty());
    assert(actions.deep_view() =~= actions.deep_view() + Seq::<ActionModel>::empty());
    actions
}

/// Once any outcome has fired, no event changes the session or prescribes an
/// action: the three raceable outcomes are mutually exclusive and fire at
/// most once per session.
pub proof fn lemma_outcome_fires_once(s: SessionModel, e: EventModel)
    requires
        s.terminal is Some,
    ensures
        spec_step(s, e).0 == s,
        spec_step(s, e).1 == Seq::<ActionModel>::empty(),
{
}

/// A step never opens the data channel unless the event itself is the
/// channel-open notification.
pub proof fn lemma_channel_opens_only_by_event(s: SessionModel, e: EventModel)
    requires
        !s.channel_opened,
        !(e is ChannelOpen),
    ensures
        !spec_step(s, e).0.channel_opened,
{
    match e {
        EventModel::ControlOp(op) => {
            match op {
                OpModel::Config(_) => {},
                OpModel::RequestOffer(_) => {},
                OpModel::Offer(_) => {},
                OpModel::Answer(_) => {},
                OpModel::Candidate(_) => {},
            }
        },
        _ => {},
    }
}

/// A trace with no channel-open notification leaves the channel unopened.
pub proof fn lemma_run_never_opens(s: SessionModel, events: Seq<EventModel>)
    requires
        !s.channel_opened,
        forall|i: int| 0 <= i < events.len() ==> !(#[trigger] events[i] is ChannelOpen),
    ensures
        !spec_run(s, events).0.channel_opened,
    decreases events.len(),
{
    if events.len() > 0 {
        lemma_channel_opens_only_by_event(s, events[0]);
        lemma_run_never_opens(spec_step(s, events[0]).0, events.drop_first());
    }
}

/// The watchdog rule: when the underlying transport never opens a data
/// channel over a whole trace and no other outcome has fired by the
/// deadline, the deadline resolves the session to
/// `NoChannelInPeerConnectionTimeout`; and by `lemma_outcome_fires_once`, no
/// other outcome can fire afterward.
pub proof fn lemma_watchdog_timeout(s: SessionModel, events: Seq<EventModel>)
    requires
        !s.channel_opened,
        forall|i: int| 0 <= i < events.len() ==> !(#[trigger] events[i] is ChannelOpen),
        spec_run(s, events).0.terminal is None,
    ensures
        spec_step(spec_run(s, events).0, EventModel::DeadlineElapsed).0.terminal == Some(
            Outcome::Failure(TunnelError::NoChannelInPeerConnectionTimeout),
        ),
{
    lemma_run_never_opens(s, events);
}

} // verus!
