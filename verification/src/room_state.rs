//! The worker's room bookkeeping: which session holds which player slot, and the input
//! batches that wait for a session to be ready.
use vstd::prelude::*;

use crate::strmap::StrMap;
use crate::text::str_eq;

verus! {

/// A room holds at most this many players.
pub const MAX_PLAYERS: usize = 8;

/// At most this many input batches wait per session; older ones are dropped.
pub const MAX_PENDING_INPUT_BATCHES: usize = 64;

/// The player slots of a room, each empty or held by a session.
#[derive(Debug)]
pub struct PlayerSlots {
    slots: Vec<Option<String>>,
}

impl View for PlayerSlots {
    type V = Seq<Option<Seq<char>>>;

    closed spec fn view(&self) -> Seq<Option<Seq<char>>> {
        self.slots.deep_view()
    }
}

/// The first slot held by `client`, if any.
pub open spec fn slot_of(s: Seq<Option<Seq<char>>>, client: Seq<char>) -> Option<int> {
    if exists|i: int| 0 <= i < s.len() && s[i] == Some(client) {
        Some(choose|i: int| 0 <= i < s.len() && s[i] == Some(client) && forall|j: int| 0 <= j < i ==> s[j] != Some(client))
    } else {
        None
    }
}

/// Whether `i` is the first slot holding `client`.
pub open spec fn is_first_slot_of(s: Seq<Option<Seq<char>>>, client: Seq<char>, i: int) -> bool {
    0 <= i < s.len() && s[i] == Some(client) && forall|j: int| 0 <= j < i ==> s[j] != Some(client)
}

/// Whether `i` is the first empty slot.
pub open spec fn is_first_free(s: Seq<Option<Seq<char>>>, i: int) -> bool {
    0 <= i < s.len() && s[i] is None && forall|j: int| 0 <= j < i ==> s[j] is Some
}

/// The number of held slots.
pub open spec fn held_count(s: Seq<Option<Seq<char>>>) -> nat
    decreases s.len(),
{
    if s.len() == 0 {
        0
    } else {
        held_count(s.drop_last()) + if s.last() is Some {
            1nat
        } else {
            0nat
        }
    }
}

/// No session holds two slots.
pub open spec fn holders_distinct(s: Seq<Option<Seq<char>>>) -> bool {
    forall|i: int, j: int|
        #![trigger s[i], s[j]]
        0 <= i < j < s.len() && s[i] is Some ==> s[i] != s[j]
}

proof fn lemma_held_count_bound(s: Seq<Option<Seq<char>>>)
    ensures
        held_count(s) <= s.len(),
    decreases s.len(),
{
    if s.len() > 0 {
        lemma_held_count_bound(s.drop_last());
    }
}

impl PlayerSlots {
    /// There are exactly [`MAX_PLAYERS`] slots.
    pub closed spec fn wf(&self) -> bool {
        self.slots@.len() == MAX_PLAYERS
    }

    /// A room with every slot empty.
    pub fn new() -> (r: Self)
        ensures
            r.wf(),
            r@ == Seq::new(MAX_PLAYERS as nat, |i: int| None::<Seq<char>>),
    {
        let mut slots: Vec<Option<String>> = Vec::new();
        let mut i: usize = 0;
        while i < MAX_PLAYERS
            invariant
                i <= MAX_PLAYERS,
                slots@.len() == i,
                forall|j: int| 0 <= j < i ==> slots@[j] is None,
            decreases MAX_PLAYERS - i,
        {
            slots.push(None);
            i = i + 1;
        }
        let r = PlayerSlots { slots };
        assert(r@ =~= Seq::new(MAX_PLAYERS as nat, |i: int| None::<Seq<char>>));
        r
    }

    /// The slot held by a session, if any.
    pub fn slot_for_client(&self, client_id: &str) -> (r: Option<usize>)
        ensures
            match r {
                Some(i) => is_first_slot_of(self@, client_id@, i as int),
                None => forall|j: int| 0 <= j < self@.len() ==> self@[j] != Some(client_id@),
            },
    {
        let mut i: usize = 0;
        while i < self.slots.len()
            invariant
                i <= self.slots.len(),
                forall|j: int| 0 <= j < i ==> self@[j] != Some(client_id@),
            decreases self.slots.len() - i,
        {
            let held = match &self.slots[i] {
                Some(s) => str_eq(s.as_str(), client_id),
                None => false,
            };
            if held {
                return Some(i);
            }
            i = i + 1;
        }
        None
    }

    /// Gives a session a slot: the one it holds, else the first empty one. Returns the
    /// slot, if any, and whether it was newly taken.
    pub fn assign_client(&mut self, client_id: &str) -> (r: (Option<usize>, bool))
        requires
            old(self).wf(),
        ensures
            final(self).wf(),
            (exists|i: int| 0 <= i < old(self)@.len() && old(self)@[i] == Some(client_id@)) ==> {
                &&& final(self)@ == old(self)@
                &&& !r.1
                &&& r.0 matches Some(i) && is_first_slot_of(old(self)@, client_id@, i as int)
            },
            !(exists|i: int| 0 <= i < old(self)@.len() && old(self)@[i] == Some(client_id@)) ==> {
                ||| (r.0 matches Some(i) && r.1 && is_first_free(old(self)@, i as int) && final(self)@ == old(
                    self,
                )@.update(i as int, Some(client_id@)))
                ||| (r == (None::<usize>, false) && final(self)@ == old(self)@ && forall|j: int|
                    0 <= j < old(self)@.len() ==> old(self)@[j] is Some)
            },
    {
        if let Some(existing) = self.slot_for_client(client_id) {
            return (Some(existing), false);
        }
        let mut i: usize = 0;
        while i < self.slots.len()
            invariant
                self.wf(),
                self@ == old(self)@,
                i <= self.slots.len(),
                forall|j: int| 0 <= j < i ==> self@[j] is Some,
                forall|j: int| 0 <= j < self@.len() ==> self@[j] != Some(client_id@),
            decreases self.slots.len() - i,
        {
            if self.slots[i].is_none() {
                self.slots.set(i, Some(client_id.to_owned()));
                assert(self@ =~= old(self)@.update(i as int, Some(client_id@)));
                return (Some(i), true);
            }
            i = i + 1;
        }
        (None, false)
    }

    /// Frees the slot a session holds; false when it held none.
    pub fn release_client(&mut self, client_id: &str) -> (released: bool)
        requires
            old(self).wf(),
        ensures
            final(self).wf(),
            released == (exists|i: int| 0 <= i < old(self)@.len() && old(self)@[i] == Some(client_id@)),
            !released ==> final(self)@ == old(self)@,
            released ==> exists|i: int|
                is_first_slot_of(old(self)@, client_id@, i) && final(self)@ == old(self)@.update(i, None),
    {
        match self.slot_for_client(client_id) {
            Some(i) => {
                self.slots.set(i, None);
                assert(self@ =~= old(self)@.update(i as int, None));
                assert(is_first_slot_of(old(self)@, client_id@, i as int));
                true
            },
            None => false,
        }
    }

    /// The number of held slots.
    pub fn count(&self) -> (n: usize)
        ensures
            n == held_count(self@),
    {
        let mut n: usize = 0;
        let mut i: usize = 0;
        while i < self.slots.len()
            invariant
                i <= self.slots.len(),
                n == held_count(self@.subrange(0, i as int)),
                n <= i,
            decreases self.slots.len() - i,
        {
            assert(self@.subrange(0, i + 1).drop_last() =~= self@.subrange(0, i as int));
            if self.slots[i].is_some() {
                n = n + 1;
            }
            i = i + 1;
        }
        assert(self@.subrange(0, i as int) =~= self@);
        n
    }
}

/// Input batches waiting for their sessions.
#[derive(Debug)]
pub struct PendingInputs {
    pending: StrMap<Vec<Vec<u8>>>,
}

/// The last `n` elements of `s`, or all of them when there are fewer.
pub open spec fn keep_last<T>(s: Seq<T>, n: nat) -> Seq<T> {
    if s.len() > n {
        s.subrange(s.len() - n, s.len() as int)
    } else {
        s
    }
}

/// The batches waiting for `client`.
pub open spec fn waiting(m: Map<Seq<char>, Seq<Seq<u8>>>, client: Seq<char>) -> Seq<Seq<u8>> {
    if m.contains_key(client) {
        m[client]
    } else {
        Seq::empty()
    }
}

impl View for PendingInputs {
    type V = Map<Seq<char>, Seq<Seq<u8>>>;

    closed spec fn view(&self) -> Map<Seq<char>, Seq<Seq<u8>>> {
        self.pending@.map_values(|v: Vec<Vec<u8>>| v.deep_view())
    }
}

/// A copy of a byte buffer.
pub fn clone_bytes(v: &Vec<u8>) -> (r: Vec<u8>)
    ensures
        r@ == v@,
        r.deep_view() == v.deep_view(),
{
    let r = v.clone();
    assert(r@ =~= v@);
    assert(r.deep_view() =~= v.deep_view());
    r
}

impl PendingInputs {
    /// The map is well formed.
    pub closed spec fn wf(&self) -> bool {
        self.pending.wf()
    }

    /// Nothing waiting.
    pub fn new() -> (r: Self)
        ensures
            r.wf(),
            r@ == Map::<Seq<char>, Seq<Seq<u8>>>::empty(),
    {
        let r = PendingInputs { pending: StrMap::new() };
        assert(r@ =~= Map::<Seq<char>, Seq<Seq<u8>>>::empty());
        r
    }

    /// Queues a batch for a session, dropping its oldest batches beyond the cap.
    pub fn queue_client(&mut self, client_id: &str, payload: Vec<u8>)
        requires
            old(self).wf(),
        ensures
            final(self).wf(),
            final(self)@ == old(self)@.insert(
                client_id@,
                keep_last(waiting(old(self)@, client_id@).push(payload@), MAX_PENDING_INPUT_BATCHES as nat),
            ),
    {
        let ghost before = waiting(old(self)@, client_id@);
        let mut bucket = match self.pending.remove(client_id) {
            Some(b) => b,
            None => Vec::new(),
        };
        assert(bucket.deep_view() == before);
        let ghost pushed = before.push(payload@);
        assert(payload.deep_view() =~= payload@);
        bucket.push(payload);
        assert(bucket.deep_view() =~= pushed);
        let mut kept: Vec<Vec<u8>> = Vec::new();
        if bucket.len() > MAX_PENDING_INPUT_BATCHES {
            let start = bucket.len() - MAX_PENDING_INPUT_BATCHES;
            let mut i = start;
            while i < bucket.len()
                invariant
                    start <= i <= bucket.len(),
                    bucket.deep_view() == pushed,
                    kept.deep_view() == pushed.subrange(start as int, i as int),
                decreases bucket.len() - i,
            {
                let b = clone_bytes(&bucket[i]);
                assert(bucket.deep_view()[i as int] == bucket@[i as int].deep_view());
                assert(b.deep_view() == pushed[i as int]);
                let ghost bv = b.deep_view();
                let ghost prev = kept.deep_view();
                kept.push(b);
                assert(kept.deep_view() =~= prev.push(bv));
                i = i + 1;
                assert(kept.deep_view() =~= pushed.subrange(start as int, i as int));
            }
        } else {
            kept = bucket;
        }
        assert(kept.deep_view() =~= keep_last(pushed, MAX_PENDING_INPUT_BATCHES as nat));
        let ghost kv = kept.deep_view();
        self.pending.insert(client_id.to_owned(), kept);
        assert(self@ =~= old(self)@.insert(client_id@, kv));
    }

    /// Takes every batch waiting for a session, oldest first.
    pub fn drain_client(&mut self, client_id: &str) -> (batches: Vec<Vec<u8>>)
        requires
            old(self).wf(),
        ensures
            final(self).wf(),
            batches.deep_view() == waiting(old(self)@, client_id@),
            final(self)@ == old(self)@.remove(client_id@),
    {
        let r = match self.pending.remove(client_id) {
            Some(b) => b,
            None => Vec::new(),
        };
        assert(self@ =~= old(self)@.remove(client_id@));
        r
    }
}

/// The worker room's bookkeeping of players and their input.
pub struct RoomCore {
    slots: PlayerSlots,
    pending: PendingInputs,
    keyframe_refresh: bool,
}

/// What a room does with an input batch: the batches to hand to the emulator, in order,
/// and the player count to announce, if it changed.
pub struct InputDispatch {
    pub send: Vec<Vec<u8>>,
    pub player_count: Option<usize>,
}

/// The content of a [`RoomCore`].
pub struct RoomView {
    pub slots: Seq<Option<Seq<char>>>,
    pub pending: Map<Seq<char>, Seq<Seq<u8>>>,
    pub keyframe_refresh: bool,
}

impl View for RoomCore {
    type V = RoomView;

    closed spec fn view(&self) -> RoomView {
        RoomView { slots: self.slots@, pending: self.pending@, keyframe_refresh: self.keyframe_refresh }
    }
}

/// Whether `client` holds a slot.
pub open spec fn holds_slot(s: Seq<Option<Seq<char>>>, client: Seq<char>) -> bool {
    exists|i: int| 0 <= i < s.len() && s[i] == Some(client)
}

/// The outcome of giving `client` a slot in `s`: the slots after, the slot it got, and
/// whether the player count is to be announced (always, unless it already held a slot).
pub open spec fn joined(s: Seq<Option<Seq<char>>>, client: Seq<char>, s2: Seq<Option<Seq<char>>>, slot: Option<usize>) -> bool {
    if holds_slot(s, client) {
        &&& s2 == s
        &&& slot matches Some(i) && is_first_slot_of(s, client, i as int)
    } else {
        ||| (slot matches Some(i) && is_first_free(s, i as int) && s2 == s.update(i as int, Some(client)))
        ||| (slot is None && s2 == s && forall|j: int| 0 <= j < s.len() ==> s[j] is Some)
    }
}

impl RoomCore {
    /// The slots are well formed.
    pub closed spec fn wf(&self) -> bool {
        self.slots.wf() && self.pending.wf()
    }

    /// An empty room.
    pub fn new() -> (r: Self)
        ensures
            r.wf(),
            r@.slots == Seq::new(MAX_PLAYERS as nat, |i: int| None::<Seq<char>>),
            r@.pending == Map::<Seq<char>, Seq<Seq<u8>>>::empty(),
            !r@.keyframe_refresh,
    {
        RoomCore { slots: PlayerSlots::new(), pending: PendingInputs::new(), keyframe_refresh: false }
    }

    /// The slot a session holds.
    pub fn player_index_for_session(&self, session_id: &str) -> (r: Option<usize>)
        requires
            self.wf(),
        ensures
            r is Some <==> holds_slot(self@.slots, session_id@),
            r matches Some(i) ==> is_first_slot_of(self@.slots, session_id@, i as int),
    {
        self.slots.slot_for_client(session_id)
    }

    /// Seats a session: the slot it holds, else the first free one. A session seated anew
    /// asks for a fresh keyframe, and the player count is announced unless the session was
    /// already seated.
    pub fn join_room(&mut self, session_id: &str) -> (r: (Option<usize>, Option<usize>))
        requires
            old(self).wf(),
        ensures
            final(self).wf(),
            joined(old(self)@.slots, session_id@, final(self)@.slots, r.0),
            final(self)@.pending == old(self)@.pending,
            final(self)@.keyframe_refresh == (old(self)@.keyframe_refresh || !holds_slot(old(self)@.slots, session_id@)),
            r.1 == (if holds_slot(old(self)@.slots, session_id@) {
                None
            } else {
                Some(held_count(final(self)@.slots) as usize)
            }),
    {
        let had = self.slots.slot_for_client(session_id).is_some();
        let (slot, is_new) = self.slots.assign_client(session_id);
        if !had {
            self.keyframe_refresh = true;
        }
        if had {
            return (slot, None);
        }
        let count = self.slots.count();
        proof {
            if is_new {
            }
        }
        (slot, Some(count))
    }

    /// Routes an input batch: a session without a slot is seated if one is free, its batch
    /// queued if not; a session seated just now has its queued batches sent first, in order.
    pub fn buffer_or_send_input(&mut self, session_id: &str, payload: Vec<u8>) -> (d: InputDispatch)
        requires
            old(self).wf(),
        ensures
            final(self).wf(),
            holds_slot(old(self)@.slots, session_id@) ==> {
                &&& final(self)@ == old(self)@
                &&& d.send.deep_view() == seq![payload@]
                &&& d.player_count is None
            },
            !holds_slot(old(self)@.slots, session_id@) ==> {
                &&& final(self)@.keyframe_refresh
                &&& d.player_count == Some(held_count(final(self)@.slots) as usize)
                &&& exists|slot: Option<usize>| joined(old(self)@.slots, session_id@, final(self)@.slots, slot) && if slot is Some {
                    &&& d.send.deep_view() == waiting(old(self)@.pending, session_id@).push(payload@)
                    &&& final(self)@.pending == old(self)@.pending.remove(session_id@)
                } else {
                    &&& d.send@.len() == 0
                    &&& final(self)@.pending == old(self)@.pending.insert(
                        session_id@,
                        keep_last(waiting(old(self)@.pending, session_id@).push(payload@), MAX_PENDING_INPUT_BATCHES as nat),
                    )
                }
            },
    {
        let ghost p = payload@;
        if self.slots.slot_for_client(session_id).is_some() {
            let mut send: Vec<Vec<u8>> = Vec::new();
            assert(payload.deep_view() =~= p);
            send.push(payload);
            assert(send.deep_view() =~= seq![p]);
            return InputDispatch { send, player_count: None };
        }
        let ghost s0 = self@;
        let (slot, count) = self.join_room(session_id);
        let ghost s1 = self@;
        assert(joined(s0.slots, session_id@, s1.slots, slot));
        match slot {
            None => {
                self.pending.queue_client(session_id, payload);
                assert(self@.slots == s1.slots);
                assert(joined(old(self)@.slots, session_id@, self@.slots, slot));
                InputDispatch { send: Vec::new(), player_count: count }
            },
            Some(_) => {
                let mut send = self.pending.drain_client(session_id);
                let ghost before = send.deep_view();
                assert(payload.deep_view() =~= p);
                send.push(payload);
                assert(send.deep_view() =~= before.push(p));
                assert(self@.slots == s1.slots);
                assert(joined(old(self)@.slots, session_id@, self@.slots, slot));
                InputDispatch { send, player_count: count }
            },
        }
    }

    /// Forgets a session's input: its queued batches are dropped and its slot freed; the new
    /// player count is announced when a slot was freed.
    pub fn release_input_source(&mut self, session_id: &str) -> (r: (bool, Option<usize>))
        requires
            old(self).wf(),
        ensures
            final(self).wf(),
            r.0 == holds_slot(old(self)@.slots, session_id@),
            final(self)@.pending == old(self)@.pending.remove(session_id@),
            final(self)@.keyframe_refresh == old(self)@.keyframe_refresh,
            !r.0 ==> final(self)@.slots == old(self)@.slots && r.1 is None,
            r.0 ==> r.1 == Some(held_count(final(self)@.slots) as usize) && exists|i: int|
                is_first_slot_of(old(self)@.slots, session_id@, i) && final(self)@.slots == old(self)@.slots.update(i, None),
    {
        let _ = self.pending.drain_client(session_id);
        assert(self@.slots == old(self)@.slots);
        let released = self.slots.release_client(session_id);
        if released {
            let ghost i = choose|i: int| is_first_slot_of(old(self)@.slots, session_id@, i) && self@.slots == old(self)@.slots.update(i, None);
            assert(is_first_slot_of(old(self)@.slots, session_id@, i) && self@.slots == old(self)@.slots.update(i, None));
            (true, Some(self.slots.count()))
        } else {
            (false, None)
        }
    }

    /// Frees the slot of a session that left, keeping its queued input; the new player
    /// count is announced when a slot was freed.
    pub fn release_slot(&mut self, session_id: &str) -> (count: Option<usize>)
        requires
            old(self).wf(),
        ensures
            final(self).wf(),
            count is Some == holds_slot(old(self)@.slots, session_id@),
            final(self)@.pending == old(self)@.pending,
            final(self)@.keyframe_refresh == old(self)@.keyframe_refresh,
            count is None ==> final(self)@.slots == old(self)@.slots,
            count is Some ==> count == Some(held_count(final(self)@.slots) as usize) && exists|i: int|
                is_first_slot_of(old(self)@.slots, session_id@, i) && final(self)@.slots == old(self)@.slots.update(i, None),
    {
        let released = self.slots.release_client(session_id);
        if released {
            let ghost i = choose|i: int| is_first_slot_of(old(self)@.slots, session_id@, i) && self@.slots == old(self)@.slots.update(i, None);
            assert(is_first_slot_of(old(self)@.slots, session_id@, i) && self@.slots == old(self)@.slots.update(i, None));
            Some(self.slots.count())
        } else {
            None
        }
    }

    /// Holds back an input batch of a session that has no slot, the newest batches kept.
    pub fn queue_pending_input(&mut self, session_id: &str, payload: Vec<u8>)
        requires
            old(self).wf(),
        ensures
            final(self).wf(),
            final(self)@ == (RoomView {
                pending: old(self)@.pending.insert(
                    session_id@,
                    keep_last(waiting(old(self)@.pending, session_id@).push(payload@), MAX_PENDING_INPUT_BATCHES as nat),
                ),
                ..old(self)@
            }),
    {
        self.pending.queue_client(session_id, payload);
    }

    /// Asks for a fresh keyframe, as when a session's video starts.
    pub fn request_keyframe_refresh(&mut self)
        requires
            old(self).wf(),
        ensures
            final(self).wf(),
            final(self)@ == (RoomView { keyframe_refresh: true, ..old(self)@ }),
    {
        self.keyframe_refresh = true;
    }

    /// Whether a fresh keyframe was asked for since the last call; the request is cleared.
    pub fn take_keyframe_refresh(&mut self) -> (b: bool)
        requires
            old(self).wf(),
        ensures
            final(self).wf(),
            b == old(self)@.keyframe_refresh,
            final(self)@ == (RoomView { keyframe_refresh: false, ..old(self)@ }),
    {
        let b = self.keyframe_refresh;
        self.keyframe_refresh = false;
        b
    }
}

/// No session holds two slots, however sessions are assigned and released.
pub proof fn law_slots_stay_distinct(s: Seq<Option<Seq<char>>>, client: Seq<char>, i: int)
    requires
        holders_distinct(s),
    ensures
        !(exists|k: int| 0 <= k < s.len() && s[k] == Some(client)) && is_first_free(s, i) ==> holders_distinct(
            s.update(i, Some(client)),
        ),
        0 <= i < s.len() ==> holders_distinct(s.update(i, None)),
{
    if !(exists|k: int| 0 <= k < s.len() && s[k] == Some(client)) && is_first_free(s, i) {
        let t = s.update(i, Some(client));
        assert forall|a: int, b: int| #![trigger t[a], t[b]] 0 <= a < b < t.len() && t[a] is Some implies t[a] != t[b] by {
            if a == i {
                assert(s[b] != Some(client));
            } else if b == i {
                assert(s[a] != Some(client));
            } else {
                assert(s[a] != s[b]);
            }
        }
    }
    if 0 <= i < s.len() {
        let t = s.update(i, None);
        assert forall|a: int, b: int| #![trigger t[a], t[b]] 0 <= a < b < t.len() && t[a] is Some implies t[a] != t[b] by {
            if a != i && b != i {
                assert(s[a] != s[b]);
            }
        }
    }
}

/// A room never counts more players than it has slots.
pub proof fn law_player_count_bounded(s: Seq<Option<Seq<char>>>)
    ensures
        held_count(s) <= s.len(),
{
    lemma_held_count_bound(s);
}

/// However many batches are queued, a session never has more than the cap waiting, and
/// the newest batch is always among them, last.
pub proof fn law_queue_keeps_newest_within_cap(m: Map<Seq<char>, Seq<Seq<u8>>>, client: Seq<char>, payload: Seq<u8>)
    ensures
        ({
            let q = keep_last(waiting(m, client).push(payload), MAX_PENDING_INPUT_BATCHES as nat);
            &&& q.len() <= MAX_PENDING_INPUT_BATCHES
            &&& q.len() > 0
            &&& q.last() == payload
        }),
{
}

/// Input held back while a session has no slot is handed on first once it is seated, in
/// the order it came: the newest held batch is followed by the batch that found the seat.
pub proof fn law_held_input_goes_first(
    m: Map<Seq<char>, Seq<Seq<u8>>>,
    client: Seq<char>,
    held: Seq<u8>,
    live: Seq<u8>,
)
    ensures
        ({
            let q = keep_last(waiting(m, client).push(held), MAX_PENDING_INPUT_BATCHES as nat);
            let sent = waiting(m.insert(client, q), client).push(live);
            &&& sent.len() >= 2
            &&& sent[sent.len() - 2] == held
            &&& sent.last() == live
        }),
{
    let q = keep_last(waiting(m, client).push(held), MAX_PENDING_INPUT_BATCHES as nat);
    assert(waiting(m.insert(client, q), client) == q);
}


} // verus!
