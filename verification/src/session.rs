//! The peer negotiation state machine.
//!
//! One `Session` drives exactly one tunnel attempt to an open data channel
//! and one relayed transaction, or to a terminal failure. The session is a
//! pure state machine: the caller feeds it events (decoded control
//! operations, transport notifications, relay results, the watchdog
//! deadline) one at a time, in the order they were observed, and performs
//! the returned actions (send an operation, drive the transport, start the
//! relay, tear the connection down). Every transition is given by
//! `spec_step`, and `Session::step` returns exactly what it prescribes.
//!
//! Once any terminal outcome fires, every later event is a no-op: the
//! outcome of a session is decided at most once.

use vstd::prelude::*;

use crate::errors::{Outcome, TunnelError};
use crate::ops::{ControlOperation, OpModel};
use crate::routes::{
    copy_bytes, spec_resolve_key, spec_split_channel_name, RouteEntryModel, RouteTable,
};

verus! {

/// The reported state of the underlying peer connection.
#[derive(Clone, Copy, Debug, PartialEq, Eq, Structural)]
pub enum PeerState {
    New,
    Connecting,
    Connected,
    Disconnected,
    Failed,
    Closed,
}

/// Which half of the signaling protocol this session plays.
#[derive(Clone, Copy, Debug, PartialEq, Eq, Structural)]
pub enum Role {
    /// Generates the offer, owns the data channel, and carries the relayed
    /// request.
    Offering,
    /// Answers the offer it receives.
    Answering,
}

/// One observed event, fed to `Session::step` in receipt order.
#[derive(Debug, PartialEq, Eq)]
pub enum Event {
    /// A control operation decoded from the signaling stream.
    ControlOp(ControlOperation),
    /// The transport produced the local SDP offer.
    OfferReady(Vec<u8>),
    /// The transport produced the local SDP answer.
    AnswerReady(Vec<u8>),
    /// A locally discovered ICE candidate; the empty string is the
    /// end-of-candidates marker.
    LocalCandidate(Vec<u8>),
    /// The peer connection changed state.
    TransportState(PeerState),
    /// A data channel with the given label opened.
    ChannelOpen(Vec<u8>),
    /// The relayed transaction ended with this HTTP status code.
    RelayStatus(u16),
    /// The relayed transaction failed before any status arrived.
    RelayTransportError,
    /// The watchdog deadline elapsed.
    DeadlineElapsed,
    /// The signaling stream failed with the given error.
    StreamFault(TunnelError),
}

/// The ghost value of an `Event`.
pub enum EventModel {
    ControlOp(OpModel),
    OfferReady(Seq<u8>),
    AnswerReady(Seq<u8>),
    LocalCandidate(Seq<u8>),
    TransportState(PeerState),
    ChannelOpen(Seq<u8>),
    RelayStatus(u16),
    RelayTransportError,
    DeadlineElapsed,
    StreamFault(TunnelError),
}

impl View for Event {
    type V = EventModel;

    open spec fn view(&self) -> EventModel {
        match self {
            Event::ControlOp(op) => EventModel::ControlOp(op@),
            Event::OfferReady(sdp) => EventModel::OfferReady(sdp@),
            Event::AnswerReady(sdp) => EventModel::AnswerReady(sdp@),
            Event::LocalCandidate(c) => EventModel::LocalCandidate(c@),
            Event::TransportState(ps) => EventModel::TransportState(*ps),
            Event::ChannelOpen(label) => EventModel::ChannelOpen(label@),
            Event::RelayStatus(code) => EventModel::RelayStatus(*code),
            Event::RelayTransportError => EventModel::RelayTransportError,
            Event::DeadlineElapsed => EventModel::DeadlineElapsed,
            Event::StreamFault(e) => EventModel::StreamFault(*e),
        }
    }
}

impl DeepView for Event {
    type V = EventModel;

    open spec fn deep_view(&self) -> EventModel {
        self.view()
    }
}

/// What the caller must do after a step, in order.
#[derive(Debug, PartialEq, Eq)]
pub enum Action {
    /// Serialize the operation and write it to the signaling stream as one
    /// whole line.
    SendOp(ControlOperation),
    /// Create the peer connection from the given STUN servers, create the
    /// data channel under the given name, and ask the transport for an
    /// offer; feed the result back as `OfferReady`.
    CreateOffer { channel_name: Vec<u8>, stun_servers: Vec<Vec<u8>> },
    /// Apply the received offer as the remote description and ask the
    /// transport for an answer; feed the result back as `AnswerReady`.
    ProduceAnswer(Vec<u8>),
    /// Apply this locally generated description to the transport.
    ApplyLocalDescription(Vec<u8>),
    /// Apply the received answer as the remote description.
    ApplyRemoteAnswer(Vec<u8>),
    /// Add the received ICE candidate to the transport.
    ApplyRemoteCandidate(Vec<u8>),
    /// Run the single relayed transaction against this origin; feed the
    /// result back as `RelayStatus` or `RelayTransportError`.
    StartRelay(Vec<u8>),
    /// Close the data channel and the peer connection and drop every
    /// pending listener.
    Teardown,
}

/// The ghost value of an `Action`.
pub enum ActionModel {
    SendOp(OpModel),
    CreateOffer { channel_name: Seq<u8>, stun_servers: Seq<Seq<u8>> },
    ProduceAnswer(Seq<u8>),
    ApplyLocalDescription(Seq<u8>),
    ApplyRemoteAnswer(Seq<u8>),
    ApplyRemoteCandidate(Seq<u8>),
    StartRelay(Seq<u8>),
    Teardown,
}

impl View for Action {
    type V = ActionModel;

    open spec fn view(&self) -> ActionModel {
        match self {
            Action::SendOp(op) => ActionModel::SendOp(op@),
            Action::CreateOffer { channel_name, stun_servers } => ActionModel::CreateOffer {
                channel_name: channel_name@,
                stun_servers: stun_servers.deep_view(),
            },
            Action::ProduceAnswer(sdp) => ActionModel::ProduceAnswer(sdp@),
            Action::ApplyLocalDescription(sdp) => ActionModel::ApplyLocalDescription(sdp@),
            Action::ApplyRemoteAnswer(sdp) => ActionModel::ApplyRemoteAnswer(sdp@),
            Action::ApplyRemoteCandidate(c) => ActionModel::ApplyRemoteCandidate(c@),
            Action::StartRelay(origin) => ActionModel::StartRelay(origin@),
            Action::Teardown => ActionModel::Teardown,
        }
    }
}

impl DeepView for Action {
    type V = ActionModel;

    open spec fn deep_view(&self) -> ActionModel {
        self.view()
    }
}

/// The ghost state of a `Session`.
#[verifier::ext_equal]
pub struct SessionModel {
    pub role: Role,
    pub has_config: bool,
    pub stun_servers: Seq<Seq<u8>>,
    pub routes: Seq<RouteEntryModel>,
    pub offer_started: bool,
    pub offer_sent: bool,
    pub answer_done: bool,
    pub channel_opened: bool,
    pub relay_started: bool,
    pub origin: Option<Seq<u8>>,
    pub session_token: Seq<u8>,
    pub peer_state: PeerState,
    pub terminal: Option<Outcome>,
}

/// One negotiation session: the state of one tunnel attempt.
#[derive(Debug)]
pub struct Session {
    pub role: Role,
    pub has_config: bool,
    pub stun_servers: Vec<Vec<u8>>,
    pub routes: RouteTable,
    pub offer_started: bool,
    pub offer_sent: bool,
    pub answer_done: bool,
    pub channel_opened: bool,
    pub relay_started: bool,
    pub origin: Option<Vec<u8>>,
    pub session_token: Vec<u8>,
    pub peer_state: PeerState,
    pub terminal: Option<Outcome>,
}

impl View for Session {
    type V = SessionModel;

    open spec fn view(&self) -> SessionModel {
        SessionModel {
            role: self.role,
            has_config: self.has_config,
            stun_servers: self.stun_servers.deep_view(),
            routes: self.routes@,
            offer_started: self.offer_started,
            offer_sent: self.offer_sent,
            answer_done: self.answer_done,
            channel_opened: self.channel_opened,
            relay_started: self.relay_started,
            origin: match self.origin {
                Some(o) => Some(o@),
                None => None,
            },
            session_token: self.session_token@,
            peer_state: self.peer_state,
            terminal: self.terminal,
        }
    }
}

/// The state of a session that has just been created for `role`.
pub open spec fn spec_new_session(role: Role) -> SessionModel {
    SessionModel {
        role: role,
        has_config: false,
        stun_servers: Seq::empty(),
        routes: Seq::empty(),
        offer_started: false,
        offer_sent: false,
        answer_done: false,
        channel_opened: false,
        relay_started: false,
        origin: None,
        session_token: Seq::empty(),
        peer_state: PeerState::New,
        terminal: None,
    }
}

/// The session after a terminal failure: the reason is recorded and the one
/// teardown is requested.
pub open spec fn spec_fail(s: SessionModel, reason: TunnelError) -> (SessionModel, Seq<
    ActionModel,
>) {
    (
        SessionModel { terminal: Some(Outcome::Failure(reason)), ..s },
        seq![ActionModel::Teardown],
    )
}

/// What one event does to a session: the next state and the actions the
/// caller must perform, in order. A session whose outcome has fired absorbs
/// every event unchanged.
pub open spec fn spec_step(s: SessionModel, e: EventModel) -> (SessionModel, Seq<ActionModel>) {
    if s.terminal is Some {
        (s, Seq::empty())
    } else {
        match e {
            EventModel::ControlOp(op) => spec_step_op(s, op),
            EventModel::OfferReady(sdp) => {
                if s.role == Role::Offering && s.offer_started && !s.offer_sent {
                    (
                        SessionModel { offer_sent: true, ..s },
                        seq![
                            ActionModel::ApplyLocalDescription(sdp),
                            ActionModel::SendOp(OpModel::Offer(sdp)),
                        ],
                    )
                } else {
                    (s, Seq::empty())
                }
            },
            EventModel::AnswerReady(sdp) => {
                if s.role == Role::Answering && s.offer_started && !s.answer_done {
                    (
                        SessionModel { answer_done: true, ..s },
                        seq![
                            ActionModel::SendOp(OpModel::Answer(sdp)),
                            ActionModel::ApplyLocalDescription(sdp),
                        ],
                    )
                } else {
                    (s, Seq::empty())
                }
            },
            EventModel::LocalCandidate(c) => {
                (s, seq![ActionModel::SendOp(OpModel::Candidate(c))])
            },
            EventModel::TransportState(ps) => {
                if ps == PeerState::Failed {
                    spec_fail(SessionModel { peer_state: ps, ..s }, TunnelError::NegotiationFailed)
                } else {
                    (SessionModel { peer_state: ps, ..s }, Seq::empty())
                }
            },
            EventModel::ChannelOpen(label) => spec_step_channel_open(s, label),
            EventModel::RelayStatus(code) => {
                if !s.relay_started {
                    (s, Seq::empty())
                } else if code == 200 {
                    (SessionModel { terminal: Some(Outcome::Success), ..s }, seq![
                        ActionModel::Teardown,
                    ])
                } else {
                    spec_fail(s, TunnelError::RelayFailed)
                }
            },
            EventModel::RelayTransportError => {
                if !s.relay_started {
                    (s, Seq::empty())
                } else {
                    spec_fail(s, TunnelError::RelayFailed)
                }
            },
            EventModel::DeadlineElapsed => {
                if s.channel_opened {
                    (s, Seq::empty())
                } else {
                    spec_fail(s, TunnelError::NoChannelInPeerConnectionTimeout)
                }
            },
            EventModel::StreamFault(err) => spec_fail(s, err),
        }
    }
}

/// The transition for a received control operation. Callers go through
/// `spec_step`; this arm requires that no outcome has fired yet.
pub open spec fn spec_step_op(s: SessionModel, op: OpModel) -> (SessionModel, Seq<ActionModel>) {
    match op {
        OpModel::Config(c) => {
            if s.offer_started {
                spec_fail(s, TunnelError::UnexpectedMessage)
            } else {
                (
                    SessionModel {
                        has_config: true,
                        stun_servers: c.stun_servers,
                        routes: c.http_routes,
                        ..s
                    },
                    Seq::empty(),
                )
            }
        },
        OpModel::RequestOffer(name) => {
            if s.role != Role::Offering || s.offer_started {
                spec_fail(s, TunnelError::UnexpectedMessage)
            } else {
                let (key, token) = spec_split_channel_name(name);
                match spec_resolve_key(s.routes, key) {
                    Some(origin) => (
                        SessionModel {
                            offer_started: true,
                            origin: Some(origin),
                            session_token: token,
                            ..s
                        },
                        seq![
                            ActionModel::CreateOffer {
                                channel_name: name,
                                stun_servers: s.stun_servers,
                            },
                        ],
                    ),
                    None => spec_fail(s, TunnelError::UnknownRoute),
                }
            }
        },
        OpModel::Offer(sdp) => {
            if s.role != Role::Answering || !s.has_config || s.offer_started {
                spec_fail(s, TunnelError::UnexpectedMessage)
            } else {
                (
                    SessionModel { offer_started: true, ..s },
                    seq![ActionModel::ProduceAnswer(sdp)],
                )
            }
        },
        OpModel::Answer(sdp) => {
            if s.role != Role::Offering || s.answer_done {
                spec_fail(s, TunnelError::UnexpectedMessage)
            } else {
                (
                    SessionModel { answer_done: true, ..s },
                    seq![ActionModel::ApplyRemoteAnswer(sdp)],
                )
            }
        },
        OpModel::Candidate(c) => {
            if c.len() == 0 {
                (s, Seq::empty())
            } else {
                (s, seq![ActionModel::ApplyRemoteCandidate(c)])
            }
        },
    }
}

/// The transition for an opened data channel. The side that resolved the
/// route already knows the origin; the other side resolves it here from the
/// channel label.
pub open spec fn spec_step_channel_open(s: SessionModel, label: Seq<u8>) -> (SessionModel, Seq<
    ActionModel,
>) {
    if s.channel_opened {
        (s, Seq::empty())
    } else {
        match s.origin {
            Some(origin) => (
                SessionModel { channel_opened: true, relay_started: true, ..s },
                seq![ActionModel::StartRelay(origin)],
            ),
            None => {
                let (key, token) = spec_split_channel_name(label);
                match spec_resolve_key(s.routes, key) {
                    Some(origin) => (
                        SessionModel {
                            channel_opened: true,
                            relay_started: true,
                            origin: Some(origin),
                            session_token: token,
                            ..s
                        },
                        seq![ActionModel::StartRelay(origin)],
                    ),
                    None => spec_fail(
                        SessionModel { channel_opened: true, ..s },
                        TunnelError::UnknownRoute,
                    ),
                }
            },
        }
    }
}

/// An empty-string `Candidate` operation is a no-op: whatever the state of
/// the session, it neither changes the state nor prescribes an action, and
/// in particular it never transitions negotiation state.
pub proof fn lemma_empty_candidate_noop(s: SessionModel)
    ensures
        spec_step(s, EventModel::ControlOp(OpModel::Candidate(Seq::empty()))).0 == s,
        spec_step(s, EventModel::ControlOp(OpModel::Candidate(Seq::empty()))).1 == Seq::<
            ActionModel,
        >::empty(),
{
}

/// A second `Answer` within one session always fails with
/// `UnexpectedMessage`, whatever the answer's content: once one answer has
/// been applied, any further answer is a protocol violation.
pub proof fn lemma_second_answer_unexpected(s: SessionModel, sdp: Seq<u8>)
    requires
        s.terminal is None,
        s.role == Role::Offering,
        s.answer_done,
    ensures
        spec_step(s, EventModel::ControlOp(OpModel::Answer(sdp))).0.terminal == Some(
            Outcome::Failure(TunnelError::UnexpectedMessage),
        ),
{
}

/// Once a data channel has opened, the watchdog deadline never raises
/// `NoChannelInPeerConnectionTimeout`: the elapsed deadline is a no-op.
pub proof fn lemma_no_timeout_after_channel_open(s: SessionModel)
    requires
        s.channel_opened,
    ensures
        spec_step(s, EventModel::DeadlineElapsed).0 == s,
        spec_step(s, EventModel::DeadlineElapsed).1 == Seq::<ActionModel>::empty(),
{
}

/// A copy of a vector of byte strings.
fn copy_byte_vecs(v: &Vec<Vec<u8>>) -> (r: Vec<Vec<u8>>)
    ensures
        r.deep_view() == v.deep_view(),
{
    let n = v.len();
    let mut r: Vec<Vec<u8>> = Vec::new();
    let mut i: usize = 0;
    while i < n
        invariant
            0 <= i <= n,
            n == v@.len(),
            r@.len() == i,
            forall|j: int| 0 <= j < i ==> r@[j]@ == v@[j]@,
        decreases n - i,
    {
        let item = copy_bytes(&v[i]);
        assert(item@ == v@[i as int]@);
        r.push(item);
        i = i + 1;
    }
    assert(r.deep_view() =~~= v.deep_view());
    r
}

impl Session {
    /// A fresh session for one tunnel attempt.
    pub fn new(role: Role) -> (r: Session)
        ensures
            r@ == spec_new_session(role),
    {
        let r = Session {
            role,
            has_config: false,
            stun_servers: Vec::new(),
            routes: RouteTable::new(),
            offer_started: false,
            offer_sent: false,
            answer_done: false,
            channel_opened: false,
            relay_started: false,
            origin: None,
            session_token: Vec::new(),
            peer_state: PeerState::New,
            terminal: None,
        };
        assert(r@ =~= spec_new_session(role));
        r
    }

    /// The terminal outcome, once one has fired.
    pub fn outcome(&self) -> (r: Option<Outcome>)
        ensures
            r == self@.terminal,
    {
        self.terminal
    }

    /// Feeds one observed event to the session and returns the actions the
    /// caller must perform, in order: exactly the transition `spec_step`
    /// prescribes.
    pub fn step(&mut self, event: Event) -> (actions: Vec<Action>)
        ensures
            final(self)@ == spec_step(old(self)@, event@).0,
            actions.deep_view() == spec_step(old(self)@, event@).1,
    {
        let ghost pre = self@;
        let mut actions: Vec<Action> = Vec::new();
        if self.terminal.is_some() {
            assert(actions.deep_view() =~= spec_step(pre, event@).1);
            return actions;
        }
        match event {
            Event::ControlOp(op) => {
                let a = self.step_op(op);
                return a;
            },
            Event::OfferReady(sdp) => {
                if self.role == Role::Offering && self.offer_started && !self.offer_sent {
                    self.offer_sent = true;
                    actions.push(Action::ApplyLocalDescription(copy_bytes(&sdp)));
                    actions.push(Action::SendOp(ControlOperation::Offer(sdp)));
                }
            },
            Event::AnswerReady(sdp) => {
                if self.role == Role::Answering && self.offer_started && !self.answer_done {
                    self.answer_done = true;
                    actions.push(Action::SendOp(ControlOperation::Answer(copy_bytes(&sdp))));
                    actions.push(Action::ApplyLocalDescription(sdp));
                }
            },
            Event::LocalCandidate(c) => {
                actions.push(Action::SendOp(ControlOperation::Candidate(c)));
            },
            Event::TransportState(ps) => {
                self.peer_state = ps;
                if ps == PeerState::Failed {
                    self.terminal = Some(Outcome::Failure(TunnelError::NegotiationFailed));
                    actions.push(Action::Teardown);
                }
            },
            Event::ChannelOpen(label) => {
                let a = self.step_channel_open(label);
                return a;
            },
            Event::RelayStatus(code) => {
                if self.relay_started {
                    if code == 200 {
                        self.terminal = Some(Outcome::Success);
                    } else {
                        self.terminal = Some(Outcome::Failure(TunnelError::RelayFailed));
                    }
                    actions.push(Action::Teardown);
                }
            },
            Event::RelayTransportError => {
                if self.relay_started {
                    self.terminal = Some(Outcome::Failure(TunnelError::RelayFailed));
                    actions.push(Action::Teardown);
                }
            },
            Event::DeadlineElapsed => {
                if !self.channel_opened {
                    self.terminal = Some(
                        Outcome::Failure(TunnelError::NoChannelInPeerConnectionTimeout),
                    );
                    actions.push(Action::Teardown);
                }
            },
            Event::StreamFault(err) => {
                self.terminal = Some(Outcome::Failure(err));
                actions.push(Action::Teardown);
            },
        }
        assert(self@ =~= spec_step(pre, event@).0);
        assert(actions.deep_view() =~= spec_step(pre, event@).1);
        actions
    }

    /// The `ControlOp` arm of `step`.
    fn step_op(&mut self, op: ControlOperation) -> (actions: Vec<Action>)
        requires
            old(self)@.terminal is None,
        ensures
            final(self)@ == spec_step_op(old(self)@, op@).0,
            actions.deep_view() == spec_step_op(old(self)@, op@).1,
    {
        let ghost pre = self@;
        let mut actions: Vec<Action> = Vec::new();
        match op {
            ControlOperation::Config(c) => {
                if self.offer_started {
                    self.terminal = Some(Outcome::Failure(TunnelError::UnexpectedMessage));
                    actions.push(Action::Teardown);
                } else {
                    self.has_config = true;
                    self.stun_servers = c.stun_servers;
                    self.routes = RouteTable::from_entries(c.http_routes);
                }
            },
            ControlOperation::RequestOffer(name) => {
                if self.role != Role::Offering || self.offer_started {
                    self.terminal = Some(Outcome::Failure(TunnelError::UnexpectedMessage));
                    actions.push(Action::Teardown);
                } else {
                    match self.routes.resolve(&name) {
                        Ok(resolved) => {
                            let (origin, token) = resolved;
                            self.offer_started = true;
                            self.origin = Some(origin);
                            self.session_token = token;
                            let stuns = copy_byte_vecs(&self.stun_servers);
                            actions.push(
                                Action::CreateOffer { channel_name: name, stun_servers: stuns },
                            );
                        },
                        Err(_) => {
                            self.terminal = Some(Outcome::Failure(TunnelError::UnknownRoute));
                            actions.push(Action::Teardown);
                        },
                    }
                }
            },
            ControlOperation::Offer(sdp) => {
                if self.role != Role::Answering || !self.has_config || self.offer_started {
                    self.terminal = Some(Outcome::Failure(TunnelError::UnexpectedMessage));
                    actions.push(Action::Teardown);
                } else {
                    self.offer_started = true;
                    actions.push(Action::ProduceAnswer(sdp));
                }
            },
            ControlOperation::Answer(sdp) => {
                if self.role != Role::Offering || self.answer_done {
                    self.terminal = Some(Outcome::Failure(TunnelError::UnexpectedMessage));
                    actions.push(Action::Teardown);
                } else {
                    self.answer_done = true;
                    actions.push(Action::ApplyRemoteAnswer(sdp));
                }
            },
            ControlOperation::Candidate(c) => {
                if c.len() > 0 {
                    actions.push(Action::ApplyRemoteCandidate(c));
                }
            },
        }
        assert(self@ =~= spec_step_op(pre, op@).0);
        assert(actions.deep_view() =~= spec_step_op(pre, op@).1);
        actions
    }

    /// The `ChannelOpen` arm of `step`.
    fn step_channel_open(&mut self, label: Vec<u8>) -> (actions: Vec<Action>)
        requires
            old(self)@.terminal is None,
        ensures
            final(self)@ == spec_step_channel_open(old(self)@, label@).0,
            actions.deep_view() == spec_step_channel_open(old(self)@, label@).1,
    {
        let ghost pre = self@;
        let mut actions: Vec<Action> = Vec::new();
        if self.channel_opened {
            assert(actions.deep_view() =~= spec_step_channel_open(pre, label@).1);
            return actions;
        }
        let origin_known = self.origin.is_some();
        if origin_known {
            self.channel_opened = true;
            self.relay_started = true;
            let origin = match &self.origin {
                Some(o) => copy_bytes(o),
                None => Vec::new(),
            };
            actions.push(Action::StartRelay(origin));
        } else {
            match self.routes.resolve(&label) {
                Ok(resolved) => {
                    let (origin, token) = resolved;
                    self.channel_opened = true;
                    self.relay_started = true;
                    self.session_token = token;
                    let for_relay = copy_bytes(&origin);
                    self.origin = Some(origin);
                    actions.push(Action::StartRelay(for_relay));
                },
                Err(_) => {
                    self.channel_opened = true;
                    self.terminal = Some(Outcome::Failure(TunnelError::UnknownRoute));
                    actions.push(Action::Teardown);
                },
            }
        }
        assert(self@ =~= spec_step_channel_open(pre, label@).0);
        assert(actions.deep_view() =~= spec_step_channel_open(pre, label@).1);
        actions
    }
}


} // verus!
