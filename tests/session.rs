use nestri_server::messages::{AnswerType, IceCandidate, SdpType, SessionDescription};
use nestri_server::session::{
    NegotiationState, Negotiator, PeerConnectionState, SessionAction, SessionEvent,
};

fn candidate(text: &str) -> IceCandidate {
    IceCandidate {
        candidate: text.to_string(),
        sdp_mid: Some("0".to_string()),
        sdp_mline_index: Some(0),
        username_fragment: None,
    }
}

fn description(kind: SdpType, text: &str) -> SessionDescription {
    SessionDescription { sdp_type: kind, sdp: text.to_string() }
}

fn describe(actions: &[SessionAction]) -> Vec<String> {
    actions
        .iter()
        .map(|a| match a {
            SessionAction::SendJoin => "join".to_string(),
            SessionAction::CreateOffer => "create-offer".to_string(),
            SessionAction::SendOffer(d) => format!("offer:{}", d.sdp),
            SessionAction::SetRemoteDescription(d) => format!("remote:{}", d.sdp),
            SessionAction::ApplyIce(c) => format!("ice:{}", c.candidate),
            SessionAction::EndSession => "end".to_string(),
            SessionAction::Fail => "fail".to_string(),
        })
        .collect()
}

fn negotiating() -> Negotiator {
    let mut n = Negotiator::new();
    assert_eq!(describe(&n.handle_event(SessionEvent::Start)), vec!["join"]);
    assert_eq!(
        describe(&n.handle_event(SessionEvent::Answer(AnswerType::AnswerOK))),
        vec!["create-offer"]
    );
    assert_eq!(n.state(), NegotiationState::Negotiating);
    n
}

#[test]
fn early_candidates_wait_for_the_remote_description() {
    let mut n = negotiating();
    assert!(n.handle_event(SessionEvent::Ice(candidate("A"))).is_empty());
    let out = n.handle_event(SessionEvent::RemoteDescription(description(SdpType::Answer, "v=0")));
    assert_eq!(describe(&out), vec!["remote:v=0", "ice:A"]);
    let out = n.handle_event(SessionEvent::Ice(candidate("B")));
    assert_eq!(describe(&out), vec!["ice:B"]);
}

#[test]
fn buffered_candidates_keep_arrival_order() {
    let mut n = negotiating();
    for c in ["1", "2", "3"] {
        assert!(n.handle_event(SessionEvent::Ice(candidate(c))).is_empty());
    }
    let out = n.handle_event(SessionEvent::RemoteDescription(description(SdpType::Answer, "s")));
    assert_eq!(describe(&out), vec!["remote:s", "ice:1", "ice:2", "ice:3"]);
}

#[test]
fn offline_answer_keeps_waiting() {
    let mut n = Negotiator::new();
    n.handle_event(SessionEvent::Start);
    let out = n.handle_event(SessionEvent::Answer(AnswerType::AnswerOffline));
    assert!(out.is_empty());
    assert_eq!(n.state(), NegotiationState::AwaitingAnswer);
}

#[test]
fn in_use_answer_fails_for_good() {
    let mut n = Negotiator::new();
    n.handle_event(SessionEvent::Start);
    let out = n.handle_event(SessionEvent::Answer(AnswerType::AnswerInUse));
    assert_eq!(describe(&out), vec!["fail"]);
    assert_eq!(n.state(), NegotiationState::Failed);
    assert!(n.handle_event(SessionEvent::Answer(AnswerType::AnswerOK)).is_empty());
    assert!(n.handle_event(SessionEvent::Start).is_empty());
    assert!(n.handle_event(SessionEvent::Reconnected).is_empty());
    assert_eq!(n.state(), NegotiationState::Failed);
}

#[test]
fn offer_is_sent_once_gathered() {
    let mut n = negotiating();
    let out = n.handle_event(SessionEvent::LocalOffer(description(SdpType::Offer, "o")));
    assert_eq!(describe(&out), vec!["offer:o"]);
    assert!(n.handle_event(SessionEvent::PeerState(PeerConnectionState::Connecting)).is_empty());
    assert!(n.handle_event(SessionEvent::PeerState(PeerConnectionState::Connected)).is_empty());
    assert_eq!(n.state(), NegotiationState::Connected);
}

#[test]
fn peer_failure_ends_the_session() {
    let mut n = negotiating();
    n.handle_event(SessionEvent::PeerState(PeerConnectionState::Connected));
    let out = n.handle_event(SessionEvent::PeerState(PeerConnectionState::Disconnected));
    assert_eq!(describe(&out), vec!["end"]);
    assert_eq!(n.state(), NegotiationState::Ended);
    assert_eq!(describe(&n.handle_event(SessionEvent::Start)), vec!["join"]);
    assert_eq!(n.state(), NegotiationState::AwaitingAnswer);
}

#[test]
fn reconnect_restarts_negotiation() {
    let mut n = negotiating();
    n.handle_event(SessionEvent::Ice(candidate("stale")));
    let out = n.handle_event(SessionEvent::Reconnected);
    assert_eq!(describe(&out), vec!["end", "join"]);
    assert_eq!(n.state(), NegotiationState::AwaitingAnswer);
    n.handle_event(SessionEvent::Answer(AnswerType::AnswerOK));
    let out = n.handle_event(SessionEvent::RemoteDescription(description(SdpType::Answer, "x")));
    assert_eq!(describe(&out), vec!["remote:x"]);
}

#[test]
fn events_outside_a_session_are_ignored() {
    let mut n = Negotiator::new();
    assert!(n.handle_event(SessionEvent::Ice(candidate("A"))).is_empty());
    assert!(n.handle_event(SessionEvent::Answer(AnswerType::AnswerOK)).is_empty());
    assert!(n.handle_event(SessionEvent::Reconnected).is_empty());
    assert_eq!(n.state(), NegotiationState::Idle);
}
