//! The worker's handling of signaling messages: which session a message is for, what its
//! payload is, and the messages held back until a session is ready.
use vstd::prelude::*;

use crate::message::{SignalMessage, SignalMessageView};
use crate::ids;
use crate::json::{base64_decode, base64_decoded};
use crate::strmap::StrMap;
use crate::text::str_eq;

verus! {

/// At most this many sessions have messages held back.
pub const MAX_PENDING_SESSIONS: usize = 512;

/// At most this many messages are held back per session; older ones are dropped.
pub const MAX_PENDING_MESSAGES_PER_SESSION: usize = 32;

/// An optional string, unless it is empty.
pub open spec fn non_empty(o: Option<Seq<char>>) -> Option<Seq<char>> {
    match o {
        Some(s) => if s.len() > 0 {
            Some(s)
        } else {
            None
        },
        None => None,
    }
}

/// The session a message is for: its non-empty routing target.
pub fn signal_client_id(msg: &SignalMessage) -> (r: Option<&str>)
    ensures
        r.deep_view() == non_empty(msg@.session_id),
{
    match &msg.session_id {
        Some(s) => if s.as_str().is_empty() {
            None
        } else {
            Some(s.as_str())
        },
        None => None,
    }
}

/// The payload of a message, unless it is missing or empty.
pub fn signal_payload(msg: &SignalMessage) -> (r: Option<&str>)
    ensures
        r.deep_view() == non_empty(msg@.data),
{
    match &msg.data {
        Some(s) => if s.as_str().is_empty() {
            None
        } else {
            Some(s.as_str())
        },
        None => None,
    }
}

/// Signaling messages that arrived before their session was set up.
pub struct PendingSessionSignals {
    by_client: StrMap<Vec<SignalMessage>>,
}

/// The messages of a queue, seen through their views.
pub open spec fn queue_view(q: Seq<SignalMessage>) -> Seq<SignalMessageView> {
    q.map_values(|m: SignalMessage| m@)
}

impl View for PendingSessionSignals {
    type V = Map<Seq<char>, Seq<SignalMessageView>>;

    closed spec fn view(&self) -> Map<Seq<char>, Seq<SignalMessageView>> {
        self.by_client@.map_values(|q: Vec<SignalMessage>| queue_view(q@))
    }
}

/// The messages held back for `client`.
pub open spec fn held_back(m: Map<Seq<char>, Seq<SignalMessageView>>, client: Seq<char>) -> Seq<SignalMessageView> {
    if m.contains_key(client) {
        m[client]
    } else {
        Seq::empty()
    }
}

/// A queue with `m` added last, its first message dropped when it was full.
pub open spec fn bounded_push(q: Seq<SignalMessageView>, m: SignalMessageView) -> Seq<SignalMessageView> {
    if q.len() >= MAX_PENDING_MESSAGES_PER_SESSION {
        q.drop_first().push(m)
    } else {
        q.push(m)
    }
}

/// Whether `after` is what holding back `m` makes of `before`: nothing changes for a
/// message without a session; otherwise the session's queue gets the message, and when the
/// session is new and the limit of sessions is reached, one other session is dropped.
pub open spec fn enqueued(
    before: Map<Seq<char>, Seq<SignalMessageView>>,
    m: SignalMessageView,
    after: Map<Seq<char>, Seq<SignalMessageView>>,
) -> bool {
    match non_empty(m.session_id) {
        None => after == before,
        Some(c) => {
            let q = bounded_push(held_back(before, c), m);
            if before.contains_key(c) || before.len() < MAX_PENDING_SESSIONS {
                after == before.insert(c, q)
            } else {
                exists|k: Seq<char>|
                    #![trigger before.remove(k)]
                    before.contains_key(k) && after == before.remove(k).insert(c, q)
            }
        },
    }
}

impl PendingSessionSignals {
    /// The map is well formed.
    pub closed spec fn wf(&self) -> bool {
        self.by_client.wf()
    }

    /// Nothing held back.
    pub fn new() -> (r: Self)
        ensures
            r.wf(),
            r@ == Map::<Seq<char>, Seq<SignalMessageView>>::empty(),
    {
        let r = PendingSessionSignals { by_client: StrMap::new() };
        assert(r@ =~= Map::<Seq<char>, Seq<SignalMessageView>>::empty());
        r
    }

    /// Holds a message back for its session; a message without a session is dropped. When
    /// the session is new and the limit of sessions is reached, one held-back session is
    /// dropped to make room.
    pub fn enqueue(&mut self, msg: SignalMessage)
        requires
            old(self).wf(),
        ensures
            final(self).wf(),
            enqueued(old(self)@, msg@, final(self)@),
    {
        let client_id = match signal_client_id(&msg) {
            Some(c) => c.to_owned(),
            None => return,
        };
        let ghost c = client_id@;
        let ghost m0 = old(self)@;
        let ghost mut evicted: Option<Seq<char>> = None;
        assert(m0.dom() =~= self.by_client@.dom());
        assert(m0.len() == self.by_client@.len());
        if !self.by_client.contains_key(client_id.as_str()) && self.by_client.len() >= MAX_PENDING_SESSIONS {
            proof {
                self.by_client.lemma_view();
            }
            let first = self.by_client.key_at(0).clone();
            proof {
                evicted = Some(first@);
                assert(self.by_client@.contains_key(first@));
            }
            let _ = self.by_client.remove(first.as_str());
            assert(self@ =~= m0.remove(first@));
        } else {
            assert(self@ == m0);
        }
        let ghost m1 = self@;
        let mut queue = match self.by_client.remove(client_id.as_str()) {
            Some(q) => q,
            None => Vec::new(),
        };
        assert(queue_view(queue@) == held_back(m0, c));
        let ghost q0 = queue_view(queue@);
        if queue.len() >= MAX_PENDING_MESSAGES_PER_SESSION {
            let _ = queue.remove(0);
            assert(queue_view(queue@) =~= q0.drop_first());
        }
        let ghost q1 = queue_view(queue@);
        queue.push(msg);
        assert(queue_view(queue@) =~= q1.push(msg@));
        let ghost q = queue_view(queue@);
        self.by_client.insert(client_id, queue);
        proof {
            assert(self@ =~= m1.insert(c, q));
            match evicted {
                Some(k) => {
                    assert(m0.contains_key(k));
                    assert(!m0.contains_key(c));
                    assert(m0.remove(k).insert(c, q) =~= m1.insert(c, q));
                    assert(self@ == m0.remove(k).insert(c, q));
                },
                None => {
                    assert(m1.insert(c, q) =~= m0.insert(c, q));
                },
            }
        }
    }

    /// Takes the messages held back for a session, oldest first.
    pub fn drain(&mut self, client_id: &str) -> (ms: Vec<SignalMessage>)
        requires
            old(self).wf(),
        ensures
            final(self).wf(),
            queue_view(ms@) == held_back(old(self)@, client_id@),
            final(self)@ == old(self)@.remove(client_id@),
    {
        let r = match self.by_client.remove(client_id) {
            Some(q) => q,
            None => Vec::new(),
        };
        assert(queue_view(r@) =~= held_back(old(self)@, client_id@));
        assert(self@ =~= old(self)@.remove(client_id@));
        r
    }

    /// Drops the messages held back for a session.
    pub fn clear(&mut self, client_id: &str)
        requires
            old(self).wf(),
        ensures
            final(self).wf(),
            final(self)@ == old(self)@.remove(client_id@),
    {
        let _ = self.by_client.remove(client_id);
        assert(self@ =~= old(self)@.remove(client_id@));
    }
}

/// What the worker is to do with a signaling message.
pub enum RouterAction {
    /// Set up a WebRTC session for the browser, then replay what was held back for it.
    StartSession { client_id: String },
    /// End the browser's session and free its player slot.
    EndSession { client_id: String },
    /// Apply the browser's SDP answer to its session.
    ApplyAnswer { client_id: String, data: String },
    /// Add the browser's ICE candidate to its session.
    ApplyCandidate { client_id: String, data: String },
    /// The message was held back until the browser's session exists.
    HeldBack,
    /// Seat the browser in the room.
    JoinRoom { client_id: String },
    /// Hand the browser's decoded input batch to the room.
    Input { client_id: String, payload: Vec<u8> },
    /// Nothing to do: a required part is missing, the input is not base64, or the message
    /// is not for the worker.
    Ignore,
}

/// The content of a [`RouterAction`].
pub enum RouterActionView {
    StartSession { client_id: Seq<char> },
    EndSession { client_id: Seq<char> },
    ApplyAnswer { client_id: Seq<char>, data: Seq<char> },
    ApplyCandidate { client_id: Seq<char>, data: Seq<char> },
    HeldBack,
    JoinRoom { client_id: Seq<char> },
    Input { client_id: Seq<char>, payload: Seq<u8> },
    Ignore,
}

impl View for RouterAction {
    type V = RouterActionView;

    open spec fn view(&self) -> RouterActionView {
        match self {
            RouterAction::StartSession { client_id } => RouterActionView::StartSession { client_id: client_id@ },
            RouterAction::EndSession { client_id } => RouterActionView::EndSession { client_id: client_id@ },
            RouterAction::ApplyAnswer { client_id, data } => RouterActionView::ApplyAnswer {
                client_id: client_id@,
                data: data@,
            },
            RouterAction::ApplyCandidate { client_id, data } => RouterActionView::ApplyCandidate {
                client_id: client_id@,
                data: data@,
            },
            RouterAction::HeldBack => RouterActionView::HeldBack,
            RouterAction::JoinRoom { client_id } => RouterActionView::JoinRoom { client_id: client_id@ },
            RouterAction::Input { client_id, payload } => RouterActionView::Input {
                client_id: client_id@,
                payload: payload@,
            },
            RouterAction::Ignore => RouterActionView::Ignore,
        }
    }
}

/// What the worker does with message `m` when the browser's session is `ready` or not.
/// `held` tells whether the message is to be held back.
pub open spec fn routed(m: SignalMessageView, ready: bool) -> (RouterActionView, bool) {
    let c = non_empty(m.session_id);
    let d = non_empty(m.data);
    if m.id == ids::INIT_WEBRTC@ {
        match c {
            Some(c) => (RouterActionView::StartSession { client_id: c }, false),
            None => (RouterActionView::Ignore, false),
        }
    } else if m.id == ids::TERMINATE_SESSION@ {
        match c {
            Some(c) => (RouterActionView::EndSession { client_id: c }, false),
            None => (RouterActionView::Ignore, false),
        }
    } else if m.id == ids::ANSWER@ || m.id == ids::CANDIDATE@ {
        match (c, d) {
            (Some(c), Some(d)) => if ready {
                if m.id == ids::ANSWER@ {
                    (RouterActionView::ApplyAnswer { client_id: c, data: d }, false)
                } else {
                    (RouterActionView::ApplyCandidate { client_id: c, data: d }, false)
                }
            } else {
                (RouterActionView::HeldBack, true)
            },
            _ => (RouterActionView::Ignore, false),
        }
    } else if m.id == ids::JOIN_ROOM@ {
        match c {
            Some(c) => (RouterActionView::JoinRoom { client_id: c }, false),
            None => (RouterActionView::Ignore, false),
        }
    } else if m.id == ids::INPUT@ {
        match (c, d) {
            (Some(c), Some(d)) => match base64_decoded(d) {
                Some(bytes) => (RouterActionView::Input { client_id: c, payload: bytes }, false),
                None => (RouterActionView::Ignore, false),
            },
            _ => (RouterActionView::Ignore, false),
        }
    } else {
        (RouterActionView::Ignore, false)
    }
}

/// A message that names a session and carries a payload is never dropped for its kind: an
/// answer or a candidate is applied to a ready session as what its id names, with that
/// session and payload, and held back for a session not ready yet; a session's start, end
/// and room join go to that session; and input that is base64 goes to it decoded.
pub proof fn law_session_messages_are_acted_on(m: SignalMessageView, ready: bool, c: Seq<char>, d: Seq<char>)
    requires
        m.session_id == Some(c),
        c.len() > 0,
        m.data == Some(d),
        d.len() > 0,
    ensures
        m.id == ids::ANSWER@ ==> routed(m, ready) == (if ready {
            (RouterActionView::ApplyAnswer { client_id: c, data: d }, false)
        } else {
            (RouterActionView::HeldBack, true)
        }),
        m.id == ids::CANDIDATE@ ==> routed(m, ready) == (if ready {
            (RouterActionView::ApplyCandidate { client_id: c, data: d }, false)
        } else {
            (RouterActionView::HeldBack, true)
        }),
        m.id == ids::INIT_WEBRTC@ ==> routed(m, ready) == (RouterActionView::StartSession { client_id: c }, false),
        m.id == ids::TERMINATE_SESSION@ ==> routed(m, ready) == (RouterActionView::EndSession { client_id: c }, false),
        m.id == ids::JOIN_ROOM@ ==> routed(m, ready) == (RouterActionView::JoinRoom { client_id: c }, false),
        m.id == ids::INPUT@ ==> (base64_decoded(d) matches Some(b) ==> routed(m, ready) == (
            RouterActionView::Input { client_id: c, payload: b },
            false,
        )),
{
    reveal_strlit("initwebrtc");
    reveal_strlit("terminateSession");
    reveal_strlit("answer");
    reveal_strlit("candidate");
    reveal_strlit("joinRoom");
    reveal_strlit("input");
    assert(ids::ANSWER@.len() != ids::CANDIDATE@.len());
    assert(ids::INIT_WEBRTC@.len() != ids::TERMINATE_SESSION@.len());
    assert(ids::JOIN_ROOM@.len() != ids::INPUT@.len());
    assert(ids::INIT_WEBRTC@.len() != ids::ANSWER@.len() && ids::INIT_WEBRTC@.len() != ids::CANDIDATE@.len());
    assert(ids::TERMINATE_SESSION@.len() != ids::ANSWER@.len() && ids::TERMINATE_SESSION@.len() != ids::CANDIDATE@.len());
    assert(ids::JOIN_ROOM@.len() != ids::ANSWER@.len() && ids::JOIN_ROOM@.len() != ids::CANDIDATE@.len());
    assert(ids::INPUT@.len() != ids::ANSWER@.len() && ids::INPUT@.len() != ids::CANDIDATE@.len());
    assert(ids::JOIN_ROOM@.len() != ids::INIT_WEBRTC@.len() && ids::JOIN_ROOM@.len() != ids::TERMINATE_SESSION@.len());
    assert(ids::INPUT@.len() != ids::INIT_WEBRTC@.len() && ids::INPUT@.len() != ids::TERMINATE_SESSION@.len());
}

/// The worker's signaling decisions, with the messages held back for sessions not set up yet.
pub struct SignalRouter {
    pending_signals: PendingSessionSignals,
}

impl SignalRouter {
    /// The held-back messages are well formed.
    pub closed spec fn wf(&self) -> bool {
        self.pending_signals.wf()
    }

    /// The messages held back, per session.
    pub closed spec fn held(&self) -> Map<Seq<char>, Seq<SignalMessageView>> {
        self.pending_signals@
    }

    /// Nothing held back.
    pub fn new() -> (r: Self)
        ensures
            r.wf(),
            r.held() == Map::<Seq<char>, Seq<SignalMessageView>>::empty(),
    {
        SignalRouter { pending_signals: PendingSessionSignals::new() }
    }

    /// Decides what to do with a message, given whether the browser's session is ready;
    /// an answer or candidate for a session not ready is held back, and a session's end
    /// drops what was held back for it.
    pub fn handle_message(&mut self, msg: SignalMessage, session_ready: bool) -> (a: RouterAction)
        requires
            old(self).wf(),
        ensures
            final(self).wf(),
            a@ == routed(msg@, session_ready).0,
            routed(msg@, session_ready).1 ==> enqueued(old(self).held(), msg@, final(self).held()),
            a@ matches RouterActionView::EndSession { client_id } ==> final(self).held() == old(self).held().remove(
                client_id,
            ),
            !routed(msg@, session_ready).1 && !(a@ is EndSession) ==> final(self).held() == old(self).held(),
    {
        let client = match signal_client_id(&msg) {
            Some(c) => Some(c.to_owned()),
            None => None,
        };
        let data = match signal_payload(&msg) {
            Some(d) => Some(d.to_owned()),
            None => None,
        };
        let id = msg.id.as_str();
        if str_eq(id, ids::INIT_WEBRTC) {
            return match client {
                Some(c) => RouterAction::StartSession { client_id: c },
                None => RouterAction::Ignore,
            };
        }
        if str_eq(id, ids::TERMINATE_SESSION) {
            return match client {
                Some(c) => {
                    self.pending_signals.clear(c.as_str());
                    RouterAction::EndSession { client_id: c }
                },
                None => RouterAction::Ignore,
            };
        }
        if str_eq(id, ids::ANSWER) || str_eq(id, ids::CANDIDATE) {
            let is_answer = str_eq(id, ids::ANSWER);
            return match (client, data) {
                (Some(c), Some(d)) => if session_ready {
                    if is_answer {
                        RouterAction::ApplyAnswer { client_id: c, data: d }
                    } else {
                        RouterAction::ApplyCandidate { client_id: c, data: d }
                    }
                } else {
                    self.pending_signals.enqueue(msg);
                    RouterAction::HeldBack
                },
                _ => RouterAction::Ignore,
            };
        }
        if str_eq(id, ids::JOIN_ROOM) {
            return match client {
                Some(c) => RouterAction::JoinRoom { client_id: c },
                None => RouterAction::Ignore,
            };
        }
        if str_eq(id, ids::INPUT) {
            return match (client, data) {
                (Some(c), Some(d)) => match base64_decode(d.as_str()) {
                    Some(bytes) => RouterAction::Input { client_id: c, payload: bytes },
                    None => RouterAction::Ignore,
                },
                _ => RouterAction::Ignore,
            };
        }
        RouterAction::Ignore
    }

    /// Takes the messages held back for a session, to replay them once it is set up.
    pub fn replay_pending_signals(&mut self, client_id: &str) -> (ms: Vec<SignalMessage>)
        requires
            old(self).wf(),
        ensures
            final(self).wf(),
            queue_view(ms@) == held_back(old(self).held(), client_id@),
            final(self).held() == old(self).held().remove(client_id@),
    {
        self.pending_signals.drain(client_id)
    }
}

/// A session never has more than the limit of messages held back, and the newest message
/// is kept, last.
pub proof fn law_held_back_queue_stays_bounded(q: Seq<SignalMessageView>, m: SignalMessageView)
    requires
        q.len() <= MAX_PENDING_MESSAGES_PER_SESSION,
    ensures
        bounded_push(q, m).len() <= MAX_PENDING_MESSAGES_PER_SESSION,
        bounded_push(q, m).last() == m,
{
}

} // verus!
