//! The session negotiator: join, wait for the relay's answer, offer, then
//! exchange descriptions and network path candidates until the peer session
//! ends. The driver performs the returned actions and reports what happens
//! as events.

use vstd::prelude::*;
use crate::messages::{AnswerType, IceCandidate, SessionDescription};

verus! {

#[derive(Debug, PartialEq, Eq, Structural, Clone, Copy)]
pub enum NegotiationState {
    Idle,
    AwaitingAnswer,
    Negotiating,
    Connected,
    Ended,
    /// Terminal: another node holds the room.
    Failed,
}

/// The connection state that the peer session reports.
#[derive(Debug, PartialEq, Eq, Structural, Clone, Copy)]
pub enum PeerConnectionState {
    New,
    Connecting,
    Connected,
    Disconnected,
    Failed,
    Closed,
}

/// What happens to the negotiator.
pub enum SessionEvent {
    /// The caller starts (or, after an end, restarts) a negotiation.
    Start,
    /// The relay answered the join.
    Answer(AnswerType),
    /// The local offer is ready and candidate gathering is complete.
    LocalOffer(SessionDescription),
    /// The viewer's description arrived.
    RemoteDescription(SessionDescription),
    /// A candidate of the viewer arrived.
    Ice(IceCandidate),
    /// The peer session changed state.
    PeerState(PeerConnectionState),
    /// The control channel reconnected, losing the relay-side state.
    Reconnected,
}

/// What the driver must do, in order.
pub enum SessionAction {
    /// Send a join request for the room.
    SendJoin,
    /// Create the peer session with its tracks and data channel, build the
    /// local offer and gather candidates.
    CreateOffer,
    /// Send the local offer to the viewer.
    SendOffer(SessionDescription),
    /// Set the viewer's description on the peer session.
    SetRemoteDescription(SessionDescription),
    /// Add a candidate of the viewer to the peer session.
    ApplyIce(IceCandidate),
    /// Close the peer session and cancel its forwarders.
    EndSession,
    /// Report that the room is in use by another node.
    Fail,
}

/// The negotiator's state as mathematical values.
pub struct NegotiatorView {
    pub state: NegotiationState,
    /// Whether the viewer's description is set on the current session.
    pub remote_set: bool,
    /// Candidates that arrived before the viewer's description, in order.
    pub pending: Seq<IceCandidate>,
}

pub struct Negotiator {
    state: NegotiationState,
    remote_set: bool,
    pending: Vec<IceCandidate>,
}

impl View for Negotiator {
    type V = NegotiatorView;

    closed spec fn view(&self) -> NegotiatorView {
        NegotiatorView { state: self.state, remote_set: self.remote_set, pending: self.pending@ }
    }
}

pub open spec fn has_session(s: NegotiationState) -> bool {
    s == NegotiationState::Negotiating || s == NegotiationState::Connected
}

pub open spec fn fresh(state: NegotiationState) -> NegotiatorView {
    NegotiatorView { state, remote_set: false, pending: Seq::empty() }
}

pub open spec fn apply_all(cs: Seq<IceCandidate>) -> Seq<SessionAction> {
    cs.map_values(|c: IceCandidate| SessionAction::ApplyIce(c))
}

/// The negotiator's transition: the next state and the actions to perform.
pub open spec fn next(m: NegotiatorView, e: SessionEvent) -> (NegotiatorView, Seq<SessionAction>) {
    match e {
        SessionEvent::Start => {
            if m.state == NegotiationState::Idle || m.state == NegotiationState::Ended {
                (fresh(NegotiationState::AwaitingAnswer), seq![SessionAction::SendJoin])
            } else {
                (m, seq![])
            }
        },
        SessionEvent::Answer(a) => {
            if m.state == NegotiationState::AwaitingAnswer {
                match a {
                    AnswerType::AnswerOK => (
                        fresh(NegotiationState::Negotiating),
                        seq![SessionAction::CreateOffer],
                    ),
                    AnswerType::AnswerInUse => (
                        fresh(NegotiationState::Failed),
                        seq![SessionAction::Fail],
                    ),
                    AnswerType::AnswerOffline => (m, seq![]),
                }
            } else {
                (m, seq![])
            }
        },
        SessionEvent::LocalOffer(d) => {
            if m.state == NegotiationState::Negotiating {
                (m, seq![SessionAction::SendOffer(d)])
            } else {
                (m, seq![])
            }
        },
        SessionEvent::RemoteDescription(d) => {
            if has_session(m.state) {
                (
                    NegotiatorView { state: m.state, remote_set: true, pending: Seq::empty() },
                    seq![SessionAction::SetRemoteDescription(d)] + apply_all(m.pending),
                )
            } else {
                (m, seq![])
            }
        },
        SessionEvent::Ice(c) => {
            if has_session(m.state) {
                if m.remote_set {
                    (m, seq![SessionAction::ApplyIce(c)])
                } else {
                    (NegotiatorView { pending: m.pending.push(c), ..m }, seq![])
                }
            } else {
                (m, seq![])
            }
        },
        SessionEvent::PeerState(s) => {
            if has_session(m.state) && (s == PeerConnectionState::Failed || s
                == PeerConnectionState::Disconnected || s == PeerConnectionState::Closed) {
                (fresh(NegotiationState::Ended), seq![SessionAction::EndSession])
            } else if m.state == NegotiationState::Negotiating && s
                == PeerConnectionState::Connected {
                (NegotiatorView { state: NegotiationState::Connected, ..m }, seq![])
            } else {
                (m, seq![])
            }
        },
        SessionEvent::Reconnected => {
            if has_session(m.state) {
                (
                    fresh(NegotiationState::AwaitingAnswer),
                    seq![SessionAction::EndSession, SessionAction::SendJoin],
                )
            } else if m.state == NegotiationState::AwaitingAnswer {
                (fresh(NegotiationState::AwaitingAnswer), seq![SessionAction::SendJoin])
            } else {
                (m, seq![])
            }
        },
    }
}

impl Negotiator {
    pub fn new() -> (r: Self)
        ensures
            r@ == fresh(NegotiationState::Idle),
    {
        let r = Negotiator { state: NegotiationState::Idle, remote_set: false, pending: Vec::new() };
        assert(r@.pending =~= Seq::<IceCandidate>::empty());
        r
    }

    pub fn state(&self) -> (r: NegotiationState)
        ensures
            r == self@.state,
    {
        self.state
    }

    fn reset(&mut self, state: NegotiationState)
        ensures
            final(self)@ == fresh(state),
    {
        self.state = state;
        self.remote_set = false;
        self.pending = Vec::new();
        assert(self@.pending =~= Seq::<IceCandidate>::empty());
    }

    /// Moves the buffered candidates, in arrival order, to the end of `actions`.
    fn flush_pending(&mut self, actions: &mut Vec<SessionAction>)
        ensures
            final(actions)@ == old(actions)@ + apply_all(old(self)@.pending),
            final(self)@ == (NegotiatorView { pending: Seq::empty(), ..old(self)@ }),
    {
        let mut held: Vec<IceCandidate> = Vec::new();
        std::mem::swap(&mut held, &mut self.pending);
        let ghost all = held@;
        let ghost start = actions@;
        assert(all.len() == held.len());
        let mut n: usize = 0;
        while held.len() > 0
            invariant
                n <= all.len(),
                all.len() <= usize::MAX,
                held@ == all.subrange(n as int, all.len() as int),
                actions@ == start + apply_all(all.take(n as int)),
            decreases held.len(),
        {
            let c = held.remove(0);
            actions.push(SessionAction::ApplyIce(c));
            proof {
                assert(all.take(n + 1) =~= all.take(n as int).push(c));
                assert(apply_all(all.take(n + 1)) =~= apply_all(all.take(n as int)).push(
                    SessionAction::ApplyIce(c),
                ));
            }
            n = n + 1;
            assert(held@ =~= all.subrange(n as int, all.len() as int));
        }
        assert(all.take(n as int) =~= all);
        assert(self@.pending =~= Seq::<IceCandidate>::empty());
    }

    /// Applies an event and returns the actions that the driver must perform.
    pub fn handle_event(&mut self, event: SessionEvent) -> (r: Vec<SessionAction>)
        ensures
            (final(self)@, r@) == next(old(self)@, event),
    {
        let mut actions: Vec<SessionAction> = Vec::new();
        match event {
            SessionEvent::Start => {
                if self.state == NegotiationState::Idle || self.state == NegotiationState::Ended {
                    self.reset(NegotiationState::AwaitingAnswer);
                    actions.push(SessionAction::SendJoin);
                }
            },
            SessionEvent::Answer(a) => {
                if self.state == NegotiationState::AwaitingAnswer {
                    match a {
                        AnswerType::AnswerOK => {
                            self.reset(NegotiationState::Negotiating);
                            actions.push(SessionAction::CreateOffer);
                        },
                        AnswerType::AnswerInUse => {
                            self.reset(NegotiationState::Failed);
                            actions.push(SessionAction::Fail);
                        },
                        AnswerType::AnswerOffline => {},
                    }
                }
            },
            SessionEvent::LocalOffer(d) => {
                if self.state == NegotiationState::Negotiating {
                    actions.push(SessionAction::SendOffer(d));
                }
            },
            SessionEvent::RemoteDescription(d) => {
                if self.state == NegotiationState::Negotiating || self.state
                    == NegotiationState::Connected {
                    actions.push(SessionAction::SetRemoteDescription(d));
                    self.flush_pending(&mut actions);
                    self.remote_set = true;
                }
            },
            SessionEvent::Ice(c) => {
                if self.state == NegotiationState::Negotiating || self.state
                    == NegotiationState::Connected {
                    if self.remote_set {
                        actions.push(SessionAction::ApplyIce(c));
                    } else {
                        self.pending.push(c);
                    }
                }
            },
            SessionEvent::PeerState(s) => {
                let live = self.state == NegotiationState::Negotiating || self.state
                    == NegotiationState::Connected;
                if live && (s == PeerConnectionState::Failed || s
                    == PeerConnectionState::Disconnected || s == PeerConnectionState::Closed) {
                    self.reset(NegotiationState::Ended);
                    actions.push(SessionAction::EndSession);
                } else if self.state == NegotiationState::Negotiating && s
                    == PeerConnectionState::Connected {
                    self.state = NegotiationState::Connected;
                }
            },
            SessionEvent::Reconnected => {
                if self.state == NegotiationState::Negotiating || self.state
                    == NegotiationState::Connected {
                    self.reset(NegotiationState::AwaitingAnswer);
                    actions.push(SessionAction::EndSession);
                    actions.push(SessionAction::SendJoin);
                } else if self.state == NegotiationState::AwaitingAnswer {
                    self.reset(NegotiationState::AwaitingAnswer);
                    actions.push(SessionAction::SendJoin);
                }
            },
        }
        assert(actions@ =~= next(old(self)@, event).1);
        actions
    }
}

/// The events applied in order: the final state and all actions, in order.
pub open spec fn run(m: NegotiatorView, events: Seq<SessionEvent>) -> (
    NegotiatorView,
    Seq<SessionAction>,
)
    decreases events.len(),
{
    if events.len() == 0 {
        (m, seq![])
    } else {
        let prev = run(m, events.drop_last());
        let step = next(prev.0, events.last());
        (step.0, prev.1 + step.1)
    }
}

/// The candidates that `actions` add to the peer session, in order.
pub open spec fn applied(actions: Seq<SessionAction>) -> Seq<IceCandidate>
    decreases actions.len(),
{
    if actions.len() == 0 {
        seq![]
    } else {
        match actions.last() {
            SessionAction::ApplyIce(c) => applied(actions.drop_last()).push(c),
            _ => applied(actions.drop_last()),
        }
    }
}

/// One candidate event for each candidate, in order.
pub open spec fn ice_events(cs: Seq<IceCandidate>) -> Seq<SessionEvent> {
    cs.map_values(|c: IceCandidate| SessionEvent::Ice(c))
}

proof fn lemma_run_concat(m: NegotiatorView, a: Seq<SessionEvent>, b: Seq<SessionEvent>)
    ensures
        run(m, a + b) == (run(run(m, a).0, b).0, run(m, a).1 + run(run(m, a).0, b).1),
    decreases b.len(),
{
    if b.len() == 0 {
        assert(a + b =~= a);
        assert(run(m, a).1 + seq![] =~= run(m, a).1);
    } else {
        lemma_run_concat(m, a, b.drop_last());
        assert((a + b).drop_last() =~= a + b.drop_last());
        let mid = run(m, a);
        let r = run(mid.0, b.drop_last());
        let step = next(r.0, b.last());
        assert(mid.1 + r.1 + step.1 =~= mid.1 + (r.1 + step.1));
    }
}

proof fn lemma_applied_concat(a: Seq<SessionAction>, b: Seq<SessionAction>)
    ensures
        applied(a + b) == applied(a) + applied(b),
    decreases b.len(),
{
    if b.len() == 0 {
        assert(a + b =~= a);
        assert(applied(a) + seq![] =~= applied(a));
    } else {
        lemma_applied_concat(a, b.drop_last());
        assert((a + b).drop_last() =~= a + b.drop_last());
        match b.last() {
            SessionAction::ApplyIce(c) => {
                assert(applied(a) + applied(b.drop_last()).push(c) =~= (applied(a) + applied(
                    b.drop_last(),
                )).push(c));
            },
            _ => {},
        }
    }
}

proof fn lemma_applied_all(cs: Seq<IceCandidate>)
    ensures
        applied(apply_all(cs)) == cs,
    decreases cs.len(),
{
    if cs.len() > 0 {
        lemma_applied_all(cs.drop_last());
        assert(apply_all(cs).drop_last() =~= apply_all(cs.drop_last()));
        assert(cs.drop_last().push(cs.last()) =~= cs);
    } else {
        assert(cs =~= seq![]);
    }
}

/// Before the viewer's description, candidates are buffered and nothing is sent.
proof fn lemma_buffering(m: NegotiatorView, cs: Seq<IceCandidate>)
    requires
        has_session(m.state),
        !m.remote_set,
    ensures
        run(m, ice_events(cs)) == (NegotiatorView { pending: m.pending + cs, ..m }, Seq::<
            SessionAction,
        >::empty()),
    decreases cs.len(),
{
    if cs.len() == 0 {
        assert(m.pending + cs =~= m.pending);
        assert(ice_events(cs) =~= seq![]);
    } else {
        lemma_buffering(m, cs.drop_last());
        assert(ice_events(cs).drop_last() =~= ice_events(cs.drop_last()));
        assert((m.pending + cs.drop_last()).push(cs.last()) =~= m.pending + cs);
        assert(Seq::<SessionAction>::empty() + seq![] =~= Seq::<SessionAction>::empty());
    }
}

/// After the viewer's description, each candidate is applied at once.
proof fn lemma_streaming(m: NegotiatorView, cs: Seq<IceCandidate>)
    requires
        has_session(m.state),
        m.remote_set,
    ensures
        run(m, ice_events(cs)) == (m, apply_all(cs)),
    decreases cs.len(),
{
    if cs.len() == 0 {
        assert(ice_events(cs) =~= seq![]);
        assert(apply_all(cs) =~= seq![]);
    } else {
        lemma_streaming(m, cs.drop_last());
        assert(ice_events(cs).drop_last() =~= ice_events(cs.drop_last()));
        assert(apply_all(cs.drop_last()) + seq![SessionAction::ApplyIce(cs.last())] =~= apply_all(
            cs,
        ));
    }
}

/// Candidates that arrive before the viewer's description are applied right
/// after it is set, in arrival order, and later ones follow in arrival order:
/// the candidates applied are the earlier buffer, then `before`, then `after`.
pub proof fn lemma_ice_arrival_order(
    m: NegotiatorView,
    before: Seq<IceCandidate>,
    d: SessionDescription,
    after: Seq<IceCandidate>,
)
    requires
        has_session(m.state),
        !m.remote_set,
    ensures
        applied(
            run(
                m,
                ice_events(before) + seq![SessionEvent::RemoteDescription(d)] + ice_events(after),
            ).1,
        ) == m.pending + before + after,
        ({
            let r = run(
                m,
                ice_events(before) + seq![SessionEvent::RemoteDescription(d)],
            );
            r.1 == seq![SessionAction::SetRemoteDescription(d)] + apply_all(m.pending + before)
        }),
{
    let e1 = ice_events(before);
    let e2 = seq![SessionEvent::RemoteDescription(d)];
    let e3 = ice_events(after);
    lemma_buffering(m, before);
    let m1 = NegotiatorView { pending: m.pending + before, ..m };
    lemma_run_concat(m, e1, e2);
    assert(e2.drop_last() =~= seq![]);
    assert(run(m1, e2.drop_last()) == (m1, Seq::<SessionAction>::empty()));
    assert(e2.last() == SessionEvent::RemoteDescription(d));
    let m2 = NegotiatorView { state: m.state, remote_set: true, pending: Seq::empty() };
    let acts2 = seq![SessionAction::SetRemoteDescription(d)] + apply_all(m1.pending);
    assert(run(m1, e2) == (m2, Seq::<SessionAction>::empty() + acts2));
    assert(Seq::<SessionAction>::empty() + acts2 =~= acts2);
    lemma_run_concat(m, e1 + e2, e3);
    lemma_streaming(m2, after);
    lemma_applied_concat(acts2, apply_all(after));
    lemma_applied_concat(seq![SessionAction::SetRemoteDescription(d)], apply_all(m1.pending));
    lemma_applied_all(m1.pending);
    lemma_applied_all(after);
    assert(seq![SessionAction::SetRemoteDescription(d)].drop_last() =~= seq![]);
    assert(applied(seq![SessionAction::SetRemoteDescription(d)].drop_last()) == Seq::<
        IceCandidate,
    >::empty());
    assert(applied(seq![SessionAction::SetRemoteDescription(d)]) == Seq::<IceCandidate>::empty());
    assert(Seq::<SessionAction>::empty() + acts2 + apply_all(after) =~= acts2 + apply_all(after));
    assert(Seq::<IceCandidate>::empty() + m1.pending =~= m1.pending);
}

/// A failed negotiation stays failed and asks for nothing, whatever follows.
pub proof fn lemma_failed_is_terminal(m: NegotiatorView, events: Seq<SessionEvent>)
    requires
        m.state == NegotiationState::Failed,
    ensures
        run(m, events) == (m, Seq::<SessionAction>::empty()),
    decreases events.len(),
{
    if events.len() > 0 {
        lemma_failed_is_terminal(m, events.drop_last());
        assert(Seq::<SessionAction>::empty() + seq![] =~= Seq::<SessionAction>::empty());
    }
}

/// An `InUse` answer while awaiting the answer fails the negotiation for
/// good: no offer is ever created and the state never reaches negotiation.
pub proof fn lemma_in_use_rejects(m: NegotiatorView, later: Seq<SessionEvent>)
    requires
        m.state == NegotiationState::AwaitingAnswer,
    ensures
        next(m, SessionEvent::Answer(AnswerType::AnswerInUse)) == (
            fresh(NegotiationState::Failed),
            seq![SessionAction::Fail],
        ),
        run(m, seq![SessionEvent::Answer(AnswerType::AnswerInUse)] + later).0.state
            == NegotiationState::Failed,
        run(m, seq![SessionEvent::Answer(AnswerType::AnswerInUse)] + later).1 == seq![
            SessionAction::Fail,
        ],
{
    let first = seq![SessionEvent::Answer(AnswerType::AnswerInUse)];
    lemma_run_concat(m, first, later);
    assert(first.drop_last() =~= seq![]);
    assert(run(m, first.drop_last()) == (m, Seq::<SessionAction>::empty()));
    assert(run(m, first).0 == fresh(NegotiationState::Failed));
    assert(run(m, first).1 =~= seq![SessionAction::Fail]);
    lemma_failed_is_terminal(fresh(NegotiationState::Failed), later);
    assert(seq![SessionAction::Fail] + Seq::<SessionAction>::empty() =~= seq![SessionAction::Fail]);
}

/// Whether an event can start a new negotiation attempt.
pub open spec fn restarts(e: SessionEvent) -> bool {
    e is Start || e is Reconnected
}

/// Within one negotiation attempt the join is sent once: events that do not
/// start a new attempt never ask for another join.
pub proof fn lemma_join_once_per_attempt(m: NegotiatorView, events: Seq<SessionEvent>)
    requires
        forall|i: int| 0 <= i < events.len() ==> !restarts(#[trigger] events[i]),
    ensures
        forall|i: int|
            0 <= i < run(m, events).1.len() ==> !(#[trigger] run(m, events).1[i] is SendJoin),
    decreases events.len(),
{
    if events.len() > 0 {
        let p = events.drop_last();
        assert forall|i: int| 0 <= i < p.len() implies !restarts(#[trigger] p[i]) by {
            assert(p[i] == events[i]);
        }
        lemma_join_once_per_attempt(m, p);
        let prev = run(m, p);
        let e = events.last();
        assert(!restarts(events[events.len() - 1]));
        let step = next(prev.0, e);
        assert forall|i: int| 0 <= i < step.1.len() implies !(#[trigger] step.1[i] is SendJoin) by {
            match e {
                SessionEvent::RemoteDescription(d) => {
                    if has_session(prev.0.state) && i > 0 {
                        assert(step.1[i] == apply_all(prev.0.pending)[i - 1]);
                    }
                },
                _ => {},
            }
        }
        let all = prev.1 + step.1;
        assert forall|i: int| 0 <= i < all.len() implies !(#[trigger] all[i] is SendJoin) by {
            if i < prev.1.len() {
                assert(all[i] == prev.1[i]);
            } else {
                assert(all[i] == step.1[i - prev.1.len()]);
            }
        }
    }
}

} // verus!
