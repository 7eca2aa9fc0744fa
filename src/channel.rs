//! The control channel's own rules: which message goes out next, what a
//! failed transmission or a reconnect does to the outbound queue, which
//! handler a message tag reaches, and where the relay's endpoint is.

use std::collections::VecDeque;
use vstd::prelude::*;
use crate::text::{seq_starts_with, starts_with, str_eq};

verus! {

/// Seconds to wait between connection attempts; attempts never stop.
pub const RECONNECT_DELAY_SECS: u64 = 3;

/// The outbound queue as mathematical values.
pub struct OutboxView {
    /// Messages not yet known to be transmitted, oldest first.
    pub pending: Seq<Seq<u8>>,
    /// Whether the transport is up.
    pub connected: bool,
}

/// What happens to the outbound queue.
pub enum OutboxEvent {
    /// A message is handed over for sending.
    Enqueue(Seq<u8>),
    /// The message at the front was transmitted.
    Transmitted,
    /// A transmission failed; the transport is down.
    TransmitFailed,
    /// The transport is up again.
    Reconnected,
}

/// The queue after an event, and the message that left it, if any. Only a
/// successful transmission while connected removes a message.
pub open spec fn outbox_step(m: OutboxView, e: OutboxEvent) -> (OutboxView, Option<Seq<u8>>) {
    match e {
        OutboxEvent::Enqueue(msg) => (OutboxView { pending: m.pending.push(msg), ..m }, None),
        OutboxEvent::Transmitted => {
            if m.connected && m.pending.len() > 0 {
                (OutboxView { pending: m.pending.drop_first(), ..m }, Some(m.pending[0]))
            } else {
                (m, None)
            }
        },
        OutboxEvent::TransmitFailed => (OutboxView { connected: false, ..m }, None),
        OutboxEvent::Reconnected => (OutboxView { connected: true, ..m }, None),
    }
}

/// The outbound queue that a writer task drains.
pub struct Outbox {
    pending: VecDeque<Vec<u8>>,
    connected: bool,
}

pub open spec fn bytes_view(q: Seq<Vec<u8>>) -> Seq<Seq<u8>> {
    q.map_values(|v: Vec<u8>| v@)
}

impl View for Outbox {
    type V = OutboxView;

    closed spec fn view(&self) -> OutboxView {
        OutboxView { pending: bytes_view(self.pending@), connected: self.connected }
    }
}

impl Outbox {
    /// An empty queue over a transport that has just connected.
    pub fn new() -> (r: Self)
        ensures
            r@.pending == Seq::<Seq<u8>>::empty(),
            r@.connected,
    {
        let r = Outbox { pending: VecDeque::new(), connected: true };
        assert(r@.pending =~= Seq::<Seq<u8>>::empty());
        r
    }

    /// Hands a message over for sending; it is never refused.
    pub fn send_message(&mut self, message: Vec<u8>)
        ensures
            final(self)@ == outbox_step(old(self)@, OutboxEvent::Enqueue(message@)).0,
    {
        let ghost before = self.pending@;
        self.pending.push_back(message);
        assert(bytes_view(self.pending@) =~= bytes_view(before).push(message@));
    }

    /// The message to transmit now: the oldest pending one, while connected.
    pub fn next_message(&self) -> (r: Option<&Vec<u8>>)
        ensures
            r matches Some(v) ==> self@.connected && self@.pending.len() > 0 && v@
                == self@.pending[0],
            r is None ==> !self@.connected || self@.pending.len() == 0,
    {
        if self.connected && self.pending.len() > 0 {
            Some(&self.pending[0])
        } else {
            None
        }
    }

    /// Records that the front message was transmitted, and hands it back.
    pub fn transmitted(&mut self) -> (r: Option<Vec<u8>>)
        ensures
            ({
                let (m, out) = outbox_step(old(self)@, OutboxEvent::Transmitted);
                &&& final(self)@ == m
                &&& (match r {
                    Some(v) => out == Some(v@),
                    None => out is None,
                })
            }),
    {
        if self.connected && self.pending.len() > 0 {
            let ghost before = self.pending@;
            let r = self.pending.pop_front();
            assert(bytes_view(self.pending@) =~= bytes_view(before).drop_first());
            r
        } else {
            None
        }
    }

    /// Records a failed transmission: the transport is down and the message
    /// stays at the front, to go out again after the reconnect.
    pub fn transmit_failed(&mut self)
        ensures
            final(self)@ == outbox_step(old(self)@, OutboxEvent::TransmitFailed).0,
    {
        self.connected = false;
    }

    /// Records that the transport is up again.
    pub fn reconnected(&mut self)
        ensures
            final(self)@ == outbox_step(old(self)@, OutboxEvent::Reconnected).0,
    {
        self.connected = true;
    }
}

/// The events applied in order: the final queue and the messages that left
/// it, in order.
pub open spec fn run_outbox(m: OutboxView, events: Seq<OutboxEvent>) -> (OutboxView, Seq<Seq<u8>>)
    decreases events.len(),
{
    if events.len() == 0 {
        (m, seq![])
    } else {
        let prev = run_outbox(m, events.drop_last());
        let step = outbox_step(prev.0, events.last());
        match step.1 {
            Some(msg) => (step.0, prev.1.push(msg)),
            None => (step.0, prev.1),
        }
    }
}

/// The messages that `events` hand over, in order.
pub open spec fn enqueued(events: Seq<OutboxEvent>) -> Seq<Seq<u8>>
    decreases events.len(),
{
    if events.len() == 0 {
        seq![]
    } else {
        match events.last() {
            OutboxEvent::Enqueue(msg) => enqueued(events.drop_last()).push(msg),
            _ => enqueued(events.drop_last()),
        }
    }
}

/// No message is lost or reordered, whatever failures and reconnects occur:
/// the messages transmitted, followed by those still pending, are exactly
/// those that were pending at the start followed by those handed over.
pub proof fn lemma_outbox_never_drops(m: OutboxView, events: Seq<OutboxEvent>)
    ensures
        run_outbox(m, events).1 + run_outbox(m, events).0.pending == m.pending + enqueued(events),
    decreases events.len(),
{
    if events.len() == 0 {
        assert(Seq::<Seq<u8>>::empty() + m.pending =~= m.pending);
        assert(m.pending + Seq::<Seq<u8>>::empty() =~= m.pending);
    } else {
        let prev = run_outbox(m, events.drop_last());
        lemma_outbox_never_drops(m, events.drop_last());
        match events.last() {
            OutboxEvent::Enqueue(msg) => {
                assert(prev.1 + prev.0.pending.push(msg) =~= (prev.1 + prev.0.pending).push(msg));
                assert(m.pending + enqueued(events.drop_last()).push(msg) =~= (m.pending + enqueued(
                    events.drop_last(),
                )).push(msg));
            },
            OutboxEvent::Transmitted => {
                if prev.0.connected && prev.0.pending.len() > 0 {
                    assert(prev.1.push(prev.0.pending[0]) + prev.0.pending.drop_first() =~= prev.1
                        + prev.0.pending);
                }
            },
            _ => {},
        }
    }
}

/// Handlers keyed by message tag. The entries are a list, searched from the
/// latest: Verus's model of `HashMap` covers keys with a known hash model,
/// such as integers, and not strings.
pub struct CallbackRegistry<H> {
    entries: Vec<(String, H)>,
}

/// The handler of the latest entry with key `k`.
pub open spec fn latest_for<H>(s: Seq<(String, H)>, k: Seq<char>) -> Option<H>
    decreases s.len(),
{
    if s.len() == 0 {
        None
    } else if s.last().0@ == k {
        Some(s.last().1)
    } else {
        latest_for(s.drop_last(), k)
    }
}

proof fn lemma_remove_other<H>(s: Seq<(String, H)>, i: int, k: Seq<char>)
    requires
        0 <= i < s.len(),
        s[i].0@ != k,
    ensures
        latest_for(s.remove(i), k) == latest_for(s, k),
    decreases s.len(),
{
    if i == s.len() - 1 {
        assert(s.remove(i) =~= s.drop_last());
    } else {
        assert(s.remove(i).last() == s.last());
        assert(s.remove(i).drop_last() =~= s.drop_last().remove(i));
        lemma_remove_other(s.drop_last(), i, k);
    }
}

impl<H> CallbackRegistry<H> {
    /// The handler that tag `tag` reaches.
    pub closed spec fn handler_for(&self, tag: Seq<char>) -> Option<H> {
        latest_for(self.entries@, tag)
    }

    pub fn new() -> (r: Self)
        ensures
            forall|t: Seq<char>| #[trigger] r.handler_for(t) is None,
    {
        CallbackRegistry { entries: Vec::new() }
    }

    /// Registers `handler` for `tag`, replacing any handler it had.
    pub fn register_callback(&mut self, tag: &str, handler: H)
        ensures
            final(self).handler_for(tag@) == Some(handler),
            forall|t: Seq<char>|
                t != tag@ ==> #[trigger] final(self).handler_for(t) == old(self).handler_for(t),
    {
        let mut i: usize = 0;
        let mut found: Option<usize> = None;
        while i < self.entries.len()
            invariant
                i <= self.entries.len(),
                found matches Some(j) ==> j < self.entries.len() && self.entries@[j as int].0@
                    == tag@,
            decreases self.entries.len() - i,
        {
            if str_eq(self.entries[i].0.as_str(), tag) {
                found = Some(i);
                break;
            }
            i = i + 1;
        }
        if let Some(j) = found {
            let ghost before = self.entries@;
            let _ = self.entries.remove(j);
            assert forall|t: Seq<char>| t != tag@ implies latest_for(self.entries@, t) == latest_for(
                before,
                t,
            ) by {
                lemma_remove_other(before, j as int, t);
            }
        }
        let ghost mid = self.entries@;
        self.entries.push((String::from_str(tag), handler));
        assert(self.entries@.drop_last() =~= mid);
    }

    /// The handler registered for `tag`, if any.
    pub fn get(&self, tag: &str) -> (r: Option<&H>)
        ensures
            match r {
                Some(h) => self.handler_for(tag@) == Some(*h),
                None => self.handler_for(tag@) is None,
            },
    {
        let mut i: usize = self.entries.len();
        assert(self.entries@.take(i as int) =~= self.entries@);
        while i > 0
            invariant
                i <= self.entries.len(),
                latest_for(self.entries@, tag@) == latest_for(self.entries@.take(i as int), tag@),
            decreases i,
        {
            let ghost prefix = self.entries@.take(i as int);
            assert(prefix.drop_last() =~= self.entries@.take(i - 1));
            if str_eq(self.entries[i - 1].0.as_str(), tag) {
                return Some(&self.entries[i - 1].1);
            }
            i = i - 1;
        }
        None
    }
}

/// The relay URL with its scheme switched to the websocket one.
pub open spec fn upgrade_scheme(u: Seq<char>) -> Seq<char> {
    if seq_starts_with(u, "http://"@) {
        "ws://"@ + u.subrange(7, u.len() as int)
    } else if seq_starts_with(u, "https://"@) {
        "wss://"@ + u.subrange(8, u.len() as int)
    } else {
        u
    }
}

/// The control endpoint of a room: `<relay>/api/ws/<room>`, with `http` and
/// `https` relays reached over `ws` and `wss`.
pub open spec fn control_endpoint(relay_url: Seq<char>, room: Seq<char>) -> Seq<char> {
    upgrade_scheme(relay_url) + "/api/ws/"@ + room
}

/// The control endpoint of a room on a relay.
pub fn control_url(relay_url: &str, room: &str) -> (r: String)
    ensures
        r@ == control_endpoint(relay_url@, room@),
{
    let mut out = String::new();
    let n = relay_url.unicode_len();
    proof {
        reveal_strlit("http://");
        reveal_strlit("https://");
    }
    if starts_with(relay_url, "http://") {
        out.append("ws://");
        out.append(relay_url.substring_char(7, n));
    } else if starts_with(relay_url, "https://") {
        out.append("wss://");
        out.append(relay_url.substring_char(8, n));
    } else {
        out.append(relay_url);
    }
    out.append("/api/ws/");
    out.append(room);
    assert(out@ =~= control_endpoint(relay_url@, room@));
    out
}

} // verus!
