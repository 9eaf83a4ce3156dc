use gt::errors::{Outcome, TunnelError};
use gt::driver::run_events;
use gt::ops::{ConfigData, ControlOperation};
use gt::routes::RouteEntry;
use gt::session::{Action, Event, PeerState, Role, Session};

fn config_op(routes: &[(&[u8], &[u8])]) -> ControlOperation {
    ControlOperation::Config(ConfigData {
        stun_servers: vec![b"stun:stun.l.google.com:19302".to_vec()],
        http_routes: routes
            .iter()
            .map(|(k, o)| RouteEntry { key: k.to_vec(), origin: o.to_vec() })
            .collect(),
    })
}

fn teardown_count(actions: &[Action]) -> usize {
    actions.iter().filter(|a| matches!(a, Action::Teardown)).count()
}

#[test]
fn empty_candidate_is_a_noop() {
    let mut s = Session::new(Role::Offering);
    let actions = s.step(Event::ControlOp(ControlOperation::Candidate(Vec::new())));
    assert!(actions.is_empty());
    assert_eq!(s.outcome(), None);
    assert!(!s.offer_started && !s.answer_done && !s.channel_opened);
}

#[test]
fn nonempty_candidate_is_applied() {
    let mut s = Session::new(Role::Offering);
    let actions = s.step(Event::ControlOp(ControlOperation::Candidate(b"cand".to_vec())));
    assert_eq!(actions, vec![Action::ApplyRemoteCandidate(b"cand".to_vec())]);
    assert_eq!(s.outcome(), None);
}

#[test]
fn local_candidates_are_sent_including_end_marker() {
    let mut s = Session::new(Role::Offering);
    let actions = s.step(Event::LocalCandidate(b"cand".to_vec()));
    assert_eq!(
        actions,
        vec![Action::SendOp(ControlOperation::Candidate(b"cand".to_vec()))]
    );
    let actions = s.step(Event::LocalCandidate(Vec::new()));
    assert_eq!(
        actions,
        vec![Action::SendOp(ControlOperation::Candidate(Vec::new()))]
    );
}

#[test]
fn second_answer_is_unexpected_message() {
    let mut s = Session::new(Role::Offering);
    s.step(Event::ControlOp(config_op(&[(b"www", b"http://example.test")])));
    s.step(Event::ControlOp(ControlOperation::RequestOffer(b"www/s".to_vec())));
    let actions = s.step(Event::ControlOp(ControlOperation::Answer(b"sdp-a".to_vec())));
    assert_eq!(actions, vec![Action::ApplyRemoteAnswer(b"sdp-a".to_vec())]);
    assert_eq!(s.outcome(), None);
    let actions = s.step(Event::ControlOp(ControlOperation::Answer(b"other".to_vec())));
    assert_eq!(teardown_count(&actions), 1);
    assert_eq!(
        s.outcome(),
        Some(Outcome::Failure(TunnelError::UnexpectedMessage))
    );
}

#[test]
fn config_after_offer_is_unexpected_message() {
    let mut s = Session::new(Role::Answering);
    s.step(Event::ControlOp(config_op(&[])));
    let actions = s.step(Event::ControlOp(ControlOperation::Offer(b"sdp-o".to_vec())));
    assert_eq!(actions, vec![Action::ProduceAnswer(b"sdp-o".to_vec())]);
    let actions = s.step(Event::ControlOp(config_op(&[])));
    assert_eq!(teardown_count(&actions), 1);
    assert_eq!(
        s.outcome(),
        Some(Outcome::Failure(TunnelError::UnexpectedMessage))
    );
}

#[test]
fn offer_before_config_is_unexpected_message() {
    let mut s = Session::new(Role::Answering);
    s.step(Event::ControlOp(ControlOperation::Offer(b"sdp-o".to_vec())));
    assert_eq!(
        s.outcome(),
        Some(Outcome::Failure(TunnelError::UnexpectedMessage))
    );
}

#[test]
fn answering_side_sends_then_applies_its_answer() {
    let mut s = Session::new(Role::Answering);
    s.step(Event::ControlOp(config_op(&[])));
    s.step(Event::ControlOp(ControlOperation::Offer(b"sdp-o".to_vec())));
    let actions = s.step(Event::AnswerReady(b"sdp-a".to_vec()));
    assert_eq!(
        actions,
        vec![
            Action::SendOp(ControlOperation::Answer(b"sdp-a".to_vec())),
            Action::ApplyLocalDescription(b"sdp-a".to_vec()),
        ]
    );
}

#[test]
fn transport_failed_ends_negotiation() {
    let mut s = Session::new(Role::Offering);
    s.step(Event::TransportState(PeerState::Connecting));
    assert_eq!(s.outcome(), None);
    let actions = s.step(Event::TransportState(PeerState::Failed));
    assert_eq!(teardown_count(&actions), 1);
    assert_eq!(
        s.outcome(),
        Some(Outcome::Failure(TunnelError::NegotiationFailed))
    );
}

#[test]
fn informational_states_do_not_terminate() {
    let mut s = Session::new(Role::Offering);
    for ps in [
        PeerState::New,
        PeerState::Connecting,
        PeerState::Connected,
        PeerState::Disconnected,
        PeerState::Closed,
    ] {
        let actions = s.step(Event::TransportState(ps));
        assert!(actions.is_empty());
        assert_eq!(s.outcome(), None);
    }
}

#[test]
fn stream_fault_ends_the_session() {
    let mut s = Session::new(Role::Offering);
    s.step(Event::StreamFault(TunnelError::MalformedMessage));
    assert_eq!(
        s.outcome(),
        Some(Outcome::Failure(TunnelError::MalformedMessage))
    );
}

#[test]
fn deadline_without_channel_times_out_and_nothing_fires_after() {
    let mut s = Session::new(Role::Offering);
    s.step(Event::ControlOp(config_op(&[(b"www", b"http://example.test")])));
    s.step(Event::ControlOp(ControlOperation::RequestOffer(b"www/s".to_vec())));
    let actions = s.step(Event::DeadlineElapsed);
    assert_eq!(teardown_count(&actions), 1);
    assert_eq!(
        s.outcome(),
        Some(Outcome::Failure(TunnelError::NoChannelInPeerConnectionTimeout))
    );
    let actions = s.step(Event::RelayStatus(200));
    assert!(actions.is_empty());
    let actions = s.step(Event::TransportState(PeerState::Failed));
    assert!(actions.is_empty());
    assert_eq!(
        s.outcome(),
        Some(Outcome::Failure(TunnelError::NoChannelInPeerConnectionTimeout))
    );
}

#[test]
fn scenario_success_end_to_end() {
    let mut s = Session::new(Role::Offering);
    let events = vec![
        Event::ControlOp(config_op(&[(b"www", b"http://example.test")])),
        Event::ControlOp(ControlOperation::RequestOffer(b"www/session1".to_vec())),
        Event::OfferReady(b"sdp-offer".to_vec()),
        Event::LocalCandidate(b"cand-local".to_vec()),
        Event::ControlOp(ControlOperation::Answer(b"sdp-answer".to_vec())),
        Event::ControlOp(ControlOperation::Candidate(b"cand-remote".to_vec())),
        Event::ControlOp(ControlOperation::Candidate(Vec::new())),
        Event::TransportState(PeerState::Connected),
        Event::ChannelOpen(b"www/session1".to_vec()),
        Event::RelayStatus(200),
    ];
    let actions = run_events(&mut s, events);
    assert_eq!(s.outcome(), Some(Outcome::Success));
    assert!(actions.contains(&Action::CreateOffer {
        channel_name: b"www/session1".to_vec(),
        stun_servers: vec![b"stun:stun.l.google.com:19302".to_vec()],
    }));
    assert!(actions.contains(&Action::SendOp(ControlOperation::Offer(b"sdp-offer".to_vec()))));
    assert!(actions.contains(&Action::ApplyRemoteAnswer(b"sdp-answer".to_vec())));
    assert!(actions.contains(&Action::StartRelay(b"http://example.test".to_vec())));
    assert_eq!(teardown_count(&actions), 1);
    assert_eq!(s.session_token, b"session1".to_vec());
}

#[test]
fn scenario_unknown_route_fails_before_any_sdp() {
    let mut s = Session::new(Role::Offering);
    let events = vec![
        Event::ControlOp(config_op(&[(b"api", b"http://api.test")])),
        Event::ControlOp(ControlOperation::RequestOffer(b"www/session1".to_vec())),
    ];
    let actions = run_events(&mut s, events);
    assert_eq!(s.outcome(), Some(Outcome::Failure(TunnelError::UnknownRoute)));
    assert!(actions.iter().all(|a| !matches!(a, Action::CreateOffer { .. })));
    assert!(actions.iter().all(|a| !matches!(a, Action::SendOp(ControlOperation::Offer(_)))));
    assert_eq!(teardown_count(&actions), 1);
}

#[test]
fn scenario_no_answer_times_out_and_tears_down_once() {
    let mut s = Session::new(Role::Offering);
    let events = vec![
        Event::ControlOp(config_op(&[(b"www", b"http://example.test")])),
        Event::ControlOp(ControlOperation::RequestOffer(b"www/session1".to_vec())),
        Event::OfferReady(b"sdp-offer".to_vec()),
        Event::LocalCandidate(b"cand-local".to_vec()),
        Event::DeadlineElapsed,
    ];
    let actions = run_events(&mut s, events);
    assert_eq!(
        s.outcome(),
        Some(Outcome::Failure(TunnelError::NoChannelInPeerConnectionTimeout))
    );
    assert_eq!(teardown_count(&actions), 1);
}

#[test]
fn scenario_bad_relay_status_fails_without_timeout() {
    let mut s = Session::new(Role::Offering);
    let events = vec![
        Event::ControlOp(config_op(&[(b"www", b"http://example.test")])),
        Event::ControlOp(ControlOperation::RequestOffer(b"www/session1".to_vec())),
        Event::OfferReady(b"sdp-offer".to_vec()),
        Event::ControlOp(ControlOperation::Answer(b"sdp-answer".to_vec())),
        Event::ChannelOpen(b"www/session1".to_vec()),
        Event::RelayStatus(502),
        Event::DeadlineElapsed,
    ];
    let actions = run_events(&mut s, events);
    assert_eq!(s.outcome(), Some(Outcome::Failure(TunnelError::RelayFailed)));
    assert_eq!(teardown_count(&actions), 1);
}

#[test]
fn deadline_after_channel_open_is_a_noop() {
    let mut s = Session::new(Role::Offering);
    run_events(
        &mut s,
        vec![
            Event::ControlOp(config_op(&[(b"www", b"http://example.test")])),
            Event::ControlOp(ControlOperation::RequestOffer(b"www/s".to_vec())),
            Event::ChannelOpen(b"www/s".to_vec()),
        ],
    );
    let actions = s.step(Event::DeadlineElapsed);
    assert!(actions.is_empty());
    assert_eq!(s.outcome(), None);
    s.step(Event::RelayTransportError);
    assert_eq!(s.outcome(), Some(Outcome::Failure(TunnelError::RelayFailed)));
}

#[test]
fn answering_side_resolves_from_channel_label() {
    let mut s = Session::new(Role::Answering);
    let actions = run_events(
        &mut s,
        vec![
            Event::ControlOp(config_op(&[(b"@", b"http://www.baidu.com")])),
            Event::ControlOp(ControlOperation::Offer(b"sdp-o".to_vec())),
            Event::AnswerReady(b"sdp-a".to_vec()),
            Event::ChannelOpen(b"@/uuid".to_vec()),
        ],
    );
    assert!(actions.contains(&Action::StartRelay(b"http://www.baidu.com".to_vec())));
    assert_eq!(s.outcome(), None);
    s.step(Event::RelayStatus(200));
    assert_eq!(s.outcome(), Some(Outcome::Success));
}

#[test]
fn channel_label_with_unknown_route_fails() {
    let mut s = Session::new(Role::Answering);
    run_events(
        &mut s,
        vec![
            Event::ControlOp(config_op(&[(b"api", b"http://api.test")])),
            Event::ControlOp(ControlOperation::Offer(b"sdp-o".to_vec())),
            Event::ChannelOpen(b"www/uuid".to_vec()),
        ],
    );
    assert_eq!(s.outcome(), Some(Outcome::Failure(TunnelError::UnknownRoute)));
}

#[test]
fn duplicate_offer_is_unexpected_message() {
    let mut s = Session::new(Role::Answering);
    s.step(Event::ControlOp(config_op(&[])));
    s.step(Event::ControlOp(ControlOperation::Offer(b"one".to_vec())));
    s.step(Event::ControlOp(ControlOperation::Offer(b"two".to_vec())));
    assert_eq!(
        s.outcome(),
        Some(Outcome::Failure(TunnelError::UnexpectedMessage))
    );
}
