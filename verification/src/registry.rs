//! Who is connected to the signal server, which worker each browser is bound to, and
//! what each worker's room is playing.
use vstd::prelude::*;

use crate::json::{json_object_text, json_object_to_string, fields_map, fields_view, JsonMember, JsonMemberView};
use crate::strmap::StrMap;
use crate::text::{decimal, u64_to_string, chars_of, is_whitespace, is_ws, lowercase, push_char, to_lowercase};

verus! {

/// What a browser leaving left behind: the worker it was bound to, if any.
pub struct ClientDrop {
    pub worker_id: Option<String>,
}

/// What a worker leaving left behind: the browsers bound to it that must be disconnected.
pub struct WorkerDrop {
    pub clients_to_close: Vec<String>,
}

/// The connection registry of the signal server.
pub struct Registry {
    clients: StrMap<()>,
    workers: StrMap<()>,
    client_to_worker: StrMap<String>,
    game_rooms: StrMap<String>,
    player_counts: StrMap<usize>,
    worker_order: StrMap<u64>,
    next_worker_order: u64,
}

/// The mathematical content of a [`Registry`].
pub struct RegistryView {
    pub clients: Set<Seq<char>>,
    pub workers: Set<Seq<char>>,
    /// Browser to the worker it is bound to.
    pub bindings: Map<Seq<char>, Seq<char>>,
    /// Worker to the game its room plays.
    pub games: Map<Seq<char>, Seq<char>>,
    pub player_counts: Map<Seq<char>, usize>,
    /// Worker to the order in which it connected.
    pub worker_order: Map<Seq<char>, u64>,
    pub next_worker_order: u64,
}

/// A map of strings seen through the strings' contents.
pub open spec fn string_values(m: Map<Seq<char>, String>) -> Map<Seq<char>, Seq<char>> {
    m.map_values(|s: String| s@)
}

impl View for Registry {
    type V = RegistryView;

    closed spec fn view(&self) -> RegistryView {
        RegistryView {
            clients: self.clients@.dom(),
            workers: self.workers@.dom(),
            bindings: string_values(self.client_to_worker@),
            games: string_values(self.game_rooms@),
            player_counts: self.player_counts@,
            worker_order: self.worker_order@,
            next_worker_order: self.next_worker_order,
        }
    }
}

/// A registry with nobody in it.
pub open spec fn empty_registry() -> RegistryView {
    RegistryView {
        clients: Set::empty(),
        workers: Set::empty(),
        bindings: Map::empty(),
        games: Map::empty(),
        player_counts: Map::empty(),
        worker_order: Map::empty(),
        next_worker_order: 0,
    }
}

/// The browsers bound to worker `w`.
pub open spec fn bound_to(b: Map<Seq<char>, Seq<char>>, w: Seq<char>) -> Set<Seq<char>> {
    Set::new(|c: Seq<char>| b.contains_key(c) && b[c] == w)
}

/// The registry after worker `w` left.
pub open spec fn spec_unregister_worker(v: RegistryView, w: Seq<char>) -> RegistryView {
    let gone = bound_to(v.bindings, w);
    RegistryView {
        clients: v.clients.difference(gone),
        workers: v.workers.remove(w),
        bindings: v.bindings.remove_keys(gone),
        games: v.games.remove(w),
        player_counts: v.player_counts.remove(w),
        worker_order: v.worker_order.remove(w),
        next_worker_order: v.next_worker_order,
    }
}

/// `n + 1`, or `n` when that does not fit.
pub open spec fn saturating_inc(n: u64) -> u64 {
    if n == u64::MAX {
        n
    } else {
        (n + 1) as u64
    }
}

/// The set of the first `i + 1` elements adds the `i`-th to that of the first `i`; without
/// duplicates the `i`-th is new.
pub proof fn lemma_prefix_set_push<T>(s: Seq<T>, i: int)
    requires
        0 <= i < s.len(),
    ensures
        s.subrange(0, i + 1).to_set() == s.subrange(0, i).to_set().insert(s[i]),
        s.no_duplicates() ==> !s.subrange(0, i).to_set().contains(s[i]),
{
    let a = s.subrange(0, i);
    let b = s.subrange(0, i + 1);
    assert forall|k: T| b.to_set().contains(k) <==> a.to_set().insert(s[i]).contains(k) by {
        if b.contains(k) {
            let t = choose|t: int| 0 <= t < b.len() && b[t] == k;
            if t < i {
                assert(a[t] == k);
            }
        }
        if a.contains(k) {
            let t = choose|t: int| 0 <= t < a.len() && a[t] == k;
            assert(b[t] == k);
        }
        if k == s[i] {
            assert(b[i] == k);
        }
    }
    assert(b.to_set() =~= a.to_set().insert(s[i]));
    if s.no_duplicates() && a.contains(s[i]) {
        let t = choose|t: int| 0 <= t < a.len() && a[t] == s[i];
        assert(s[t] == s[i]);
    }
}

impl Registry {
    /// The maps are well formed.
    pub closed spec fn wf(&self) -> bool {
        &&& self.clients.wf()
        &&& self.workers.wf()
        &&& self.client_to_worker.wf()
        &&& self.game_rooms.wf()
        &&& self.player_counts.wf()
        &&& self.worker_order.wf()
    }

    /// An empty registry.
    pub fn new() -> (r: Self)
        ensures
            r.wf(),
            r@ == empty_registry(),
    {
        let r = Registry {
            clients: StrMap::new(),
            workers: StrMap::new(),
            client_to_worker: StrMap::new(),
            game_rooms: StrMap::new(),
            player_counts: StrMap::new(),
            worker_order: StrMap::new(),
            next_worker_order: 0,
        };
        assert(r@.clients =~= Set::empty());
        assert(r@.workers =~= Set::empty());
        assert(r@.bindings =~= Map::empty());
        assert(r@.games =~= Map::empty());
        r
    }

    /// Records a connected browser.
    pub fn register_client(&mut self, client_id: String)
        requires
            old(self).wf(),
        ensures
            final(self).wf(),
            final(self)@ == (RegistryView { clients: old(self)@.clients.insert(client_id@), ..old(self)@ }),
    {
        let ghost c = client_id@;
        self.clients.insert(client_id, ());
        assert(self@.clients =~= old(self)@.clients.insert(c));
    }

    /// Records a connected worker and the order in which it arrived.
    pub fn register_worker(&mut self, worker_id: String)
        requires
            old(self).wf(),
        ensures
            final(self).wf(),
            final(self)@ == (RegistryView {
                workers: old(self)@.workers.insert(worker_id@),
                worker_order: old(self)@.worker_order.insert(worker_id@, old(self)@.next_worker_order),
                next_worker_order: saturating_inc(old(self)@.next_worker_order),
                ..old(self)@
            }),
    {
        let ghost w = worker_id@;
        self.workers.insert(worker_id.clone(), ());
        let order = self.next_worker_order;
        self.next_worker_order = self.next_worker_order.saturating_add(1);
        self.worker_order.insert(worker_id, order);
        assert(self@.workers =~= old(self)@.workers.insert(w));
    }

    /// Forgets a browser and its binding; hands back the worker it was bound to.
    pub fn unregister_client(&mut self, client_id: &str) -> (d: ClientDrop)
        requires
            old(self).wf(),
        ensures
            final(self).wf(),
            final(self)@ == (RegistryView {
                clients: old(self)@.clients.remove(client_id@),
                bindings: old(self)@.bindings.remove(client_id@),
                ..old(self)@
            }),
            d.worker_id.deep_view() == (if old(self)@.bindings.contains_key(client_id@) {
                Some(old(self)@.bindings[client_id@])
            } else {
                None
            }),
    {
        let _ = self.clients.remove(client_id);
        let worker_id = self.client_to_worker.remove(client_id);
        assert(self@.clients =~= old(self)@.clients.remove(client_id@));
        assert(self@.bindings =~= old(self)@.bindings.remove(client_id@));
        ClientDrop { worker_id }
    }

    /// Forgets a worker and everything about its room; the browsers bound to it are
    /// unbound and forgotten, and handed back to be disconnected.
    pub fn unregister_worker(&mut self, worker_id: &str) -> (d: WorkerDrop)
        requires
            old(self).wf(),
        ensures
            final(self).wf(),
            final(self)@ == spec_unregister_worker(old(self)@, worker_id@),
            d.clients_to_close.deep_view().no_duplicates(),
            d.clients_to_close.deep_view().to_set() == bound_to(old(self)@.bindings, worker_id@).intersect(
                old(self)@.clients,
            ),
    {
        let ghost w = worker_id@;
        let ghost b0 = self.client_to_worker@;
        let ghost c0 = self.clients@;
        let ghost gone = bound_to(old(self)@.bindings, w);
        let _ = self.workers.remove(worker_id);
        let _ = self.worker_order.remove(worker_id);
        let _ = self.game_rooms.remove(worker_id);
        let _ = self.player_counts.remove(worker_id);
        let affected = self.client_to_worker.keys_with_value(worker_id);
        let mut clients_to_close: Vec<String> = Vec::new();
        let mut i: usize = 0;
        while i < affected.len()
            invariant
                self.wf(),
                i <= affected.len(),
                affected.deep_view().no_duplicates(),
                forall|k: Seq<char>| #[trigger]
                    affected.deep_view().contains(k) <==> (b0.contains_key(k) && b0[k]@ == w),
                self.client_to_worker@ == b0.remove_keys(affected.deep_view().subrange(0, i as int).to_set()),
                self.clients@ == c0.remove_keys(affected.deep_view().subrange(0, i as int).to_set()),
                clients_to_close.deep_view().no_duplicates(),
                clients_to_close.deep_view().to_set() == affected.deep_view().subrange(0, i as int).to_set().intersect(c0.dom()),
                self.workers@ == old(self).workers@.remove(w),
                self.worker_order@ == old(self).worker_order@.remove(w),
                self.game_rooms@ == old(self).game_rooms@.remove(w),
                self.player_counts@ == old(self).player_counts@.remove(w),
                self.next_worker_order == old(self).next_worker_order,
            decreases affected.len() - i,
        {
            let client_id = &affected[i];
            let ghost ci = affected.deep_view()[i as int];
            let ghost pre = affected.deep_view().subrange(0, i as int).to_set();
            let ghost pre1 = affected.deep_view().subrange(0, i + 1).to_set();
            proof {
                lemma_prefix_set_push(affected.deep_view(), i as int);
            }
            let _ = self.client_to_worker.remove(client_id.as_str());
            let was_client = self.clients.remove(client_id.as_str());
            if was_client.is_some() {
                let ghost before = clients_to_close.deep_view();
                clients_to_close.push(client_id.clone());
                proof {
                    assert(clients_to_close.deep_view() =~= before.push(ci));
                    assert(!before.contains(ci)) by {
                        if before.contains(ci) {
                            assert(before.to_set().contains(ci));
                        }
                    }
                    assert forall|a: int, bb: int|
                        0 <= a < clients_to_close.deep_view().len() && 0 <= bb < clients_to_close.deep_view().len() && a != bb
                            implies clients_to_close.deep_view()[a] != clients_to_close.deep_view()[bb] by {
                        if a == before.len() {
                            assert(before.contains(clients_to_close.deep_view()[bb]));
                        } else if bb == before.len() {
                            assert(before.contains(clients_to_close.deep_view()[a]));
                        }
                    }
                    let t = before.push(ci);
                    lemma_prefix_set_push(t, before.len() as int);
                    assert(t.subrange(0, before.len() + 1 as int) =~= t);
                    assert(t.subrange(0, before.len() as int) =~= before);
                    assert(clients_to_close.deep_view().to_set() =~= before.to_set().insert(ci));
                }
            }
            i = i + 1;
            proof {
                assert(self.client_to_worker@ =~= b0.remove_keys(pre1));
                assert(self.clients@ =~= c0.remove_keys(pre1));
                assert(clients_to_close.deep_view().to_set() =~= pre1.intersect(c0.dom()));
            }
        }
        proof {
            let all = affected.deep_view().subrange(0, i as int).to_set();
            assert(affected.deep_view().subrange(0, i as int) =~= affected.deep_view());
            assert(all =~= gone) by {
                assert forall|k: Seq<char>| all.contains(k) <==> gone.contains(k) by {
                    if affected.deep_view().contains(k) {
                        assert(b0.contains_key(k));
                    }
                }
            }
            assert(self@.clients =~= old(self)@.clients.difference(gone));
            assert(self@.workers =~= old(self)@.workers.remove(w));
            assert(self@.bindings =~= old(self)@.bindings.remove_keys(gone));
            assert(self@.games =~= old(self)@.games.remove(w));
        }
        WorkerDrop { clients_to_close }
    }

    /// Binds a browser to a worker, replacing any earlier binding.
    pub fn bind_client_to_worker(&mut self, client_id: &str, worker_id: &str)
        requires
            old(self).wf(),
        ensures
            final(self).wf(),
            final(self)@ == (RegistryView {
                bindings: old(self)@.bindings.insert(client_id@, worker_id@),
                ..old(self)@
            }),
    {
        self.client_to_worker.insert(client_id.to_owned(), worker_id.to_owned());
        assert(self@.bindings =~= old(self)@.bindings.insert(client_id@, worker_id@));
    }

    /// Removes a browser's binding.
    pub fn unbind_client(&mut self, client_id: &str)
        requires
            old(self).wf(),
        ensures
            final(self).wf(),
            final(self)@ == (RegistryView { bindings: old(self)@.bindings.remove(client_id@), ..old(self)@ }),
    {
        let _ = self.client_to_worker.remove(client_id);
        assert(self@.bindings =~= old(self)@.bindings.remove(client_id@));
    }

    /// The worker a browser is bound to.
    pub fn worker_for_client(&self, client_id: &str) -> (r: Option<String>)
        requires
            self.wf(),
        ensures
            r.deep_view() == (if self@.bindings.contains_key(client_id@) {
                Some(self@.bindings[client_id@])
            } else {
                None
            }),
    {
        match self.client_to_worker.get(client_id) {
            Some(w) => Some(w.clone()),
            None => None,
        }
    }

    /// Whether a browser is bound to the given worker.
    pub fn is_client_bound_to_worker(&self, client_id: &str, worker_id: &str) -> (b: bool)
        requires
            self.wf(),
        ensures
            b == (self@.bindings.contains_key(client_id@) && self@.bindings[client_id@] == worker_id@),
    {
        match self.client_to_worker.get(client_id) {
            Some(w) => crate::text::str_eq(w.as_str(), worker_id),
            None => false,
        }
    }

    /// Whether a browser is connected.
    pub fn has_client(&self, client_id: &str) -> (b: bool)
        requires
            self.wf(),
        ensures
            b == self@.clients.contains(client_id@),
    {
        self.clients.contains_key(client_id)
    }

    /// Whether a worker is connected.
    pub fn has_worker(&self, worker_id: &str) -> (b: bool)
        requires
            self.wf(),
        ensures
            b == self@.workers.contains(worker_id@),
    {
        self.workers.contains_key(worker_id)
    }

    /// The connected browsers, each once.
    pub fn all_clients(&self) -> (r: Vec<String>)
        requires
            self.wf(),
        ensures
            r.deep_view().no_duplicates(),
            r.deep_view().to_set() == self@.clients,
    {
        proof {
            self.clients.lemma_view();
        }
        let r = self.clients.keys();
        assert(r.deep_view().to_set() =~= self@.clients);
        r
    }

    /// Records the player count of a worker's room.
    pub fn set_worker_player_count(&mut self, worker_id: String, count: usize)
        requires
            old(self).wf(),
        ensures
            final(self).wf(),
            final(self)@ == (RegistryView {
                player_counts: old(self)@.player_counts.insert(worker_id@, count),
                ..old(self)@
            }),
    {
        self.player_counts.insert(worker_id, count);
    }

    /// The player count of every room, each worker once.
    pub fn player_counts_snapshot(&self) -> (r: Vec<(String, usize)>)
        requires
            self.wf(),
        ensures
            r@.len() == self@.player_counts.len(),
            forall|i: int, j: int| 0 <= i < j < r@.len() ==> r@[i].0@ != r@[j].0@,
            forall|i: int| #![trigger r@[i]] 0 <= i < r@.len() ==> self@.player_counts.contains_key(r@[i].0@)
                && self@.player_counts[r@[i].0@] == r@[i].1,
    {
        proof {
            self.player_counts.lemma_view();
        }
        let n = self.player_counts.len();
        let mut r: Vec<(String, usize)> = Vec::new();
        let mut i: usize = 0;
        while i < n
            invariant
                self.wf(),
                n == self.player_counts.key_order().len(),
                n == self.player_counts.values().len(),
                i <= n,
                r@.len() == i,
                forall|j: int| 0 <= j < i ==> (#[trigger] r@[j]).0@ == self.player_counts.key_order()[j]
                    && r@[j].1 == self.player_counts.values()[j],
            decreases n - i,
        {
            let k = self.player_counts.key_at(i).clone();
            let v = *self.player_counts.val_at(i);
            r.push((k, v));
            i = i + 1;
        }
        proof {
            self.player_counts.lemma_view();
            assert forall|a: int, b: int| 0 <= a < b < r@.len() implies r@[a].0@ != r@[b].0@ by {
                assert(r@[a].0@ == self.player_counts.key_order()[a]);
                assert(r@[b].0@ == self.player_counts.key_order()[b]);
            }
            assert forall|a: int| #![trigger r@[a]] 0 <= a < r@.len() implies self@.player_counts.contains_key(r@[a].0@)
                && self@.player_counts[r@[a].0@] == r@[a].1 by {
                assert(r@[a].0@ == self.player_counts.key_order()[a]);
                assert(self.player_counts@.contains_key(self.player_counts.key_order()[a]));
            }
        }
        r
    }
}

/// `s` with its whitespace runs collapsed: the words of `s`, in order, joined by single
/// spaces; `out` is what is written so far and `gap` whether a space is due before the
/// next word.
pub open spec fn collapse_ws_acc(s: Seq<char>, out: Seq<char>, gap: bool) -> Seq<char>
    decreases s.len(),
{
    if s.len() == 0 {
        out
    } else if is_ws(s[0]) {
        collapse_ws_acc(s.drop_first(), out, out.len() > 0)
    } else {
        collapse_ws_acc(
            s.drop_first(),
            if gap {
                out.push(' ').push(s[0])
            } else {
                out.push(s[0])
            },
            false,
        )
    }
}

/// The words of `s` joined by single spaces.
pub open spec fn collapse_ws(s: Seq<char>) -> Seq<char> {
    collapse_ws_acc(s, Seq::empty(), false)
}

/// A game name as rooms are compared: lower case, words joined by single spaces.
pub open spec fn normalized_game_name(name: Seq<char>) -> Seq<char> {
    collapse_ws(lowercase(name))
}

/// Lower-cases a game name and collapses its whitespace.
pub fn normalize_game_name(name: &str) -> (r: String)
    ensures
        r@ == normalized_game_name(name@),
{
    let lower = to_lowercase(name);
    let v = chars_of(lower.as_str());
    let mut out = String::new();
    let mut gap = false;
    let mut i: usize = 0;
    assert(v@.subrange(0, v@.len() as int) =~= v@);
    while i < v.len()
        invariant
            i <= v.len(),
            v@ == lowercase(name@),
            collapse_ws(v@) == collapse_ws_acc(v@.subrange(i as int, v@.len() as int), out@, gap),
        decreases v.len() - i,
    {
        let c = v[i];
        assert(v@.subrange(i as int, v@.len() as int).drop_first() =~= v@.subrange(i + 1, v@.len() as int));
        if is_whitespace(c) {
            gap = !out.as_str().is_empty();
        } else {
            if gap {
                push_char(&mut out, ' ');
            }
            push_char(&mut out, c);
            gap = false;
        }
        i = i + 1;
    }
    assert(v@.subrange(i as int, v@.len() as int) =~= Seq::<char>::empty());
    out
}

/// Lexicographic order of strings by code point, as `String`'s `<` orders them.
pub open spec fn seq_lt(a: Seq<char>, b: Seq<char>) -> bool
    decreases a.len(),
{
    if a.len() == 0 {
        b.len() > 0
    } else if b.len() == 0 {
        false
    } else if a[0] != b[0] {
        (a[0] as u32) < (b[0] as u32)
    } else {
        seq_lt(a.drop_first(), b.drop_first())
    }
}

/// Whether `a` sorts before `b` as a string.
pub fn str_lt(a: &str, b: &str) -> (r: bool)
    ensures
        r == seq_lt(a@, b@),
{
    let va = chars_of(a);
    let vb = chars_of(b);
    let mut i: usize = 0;
    assert(va@.subrange(0, va@.len() as int) =~= va@);
    assert(vb@.subrange(0, vb@.len() as int) =~= vb@);
    loop
        invariant
            i <= va.len(),
            i <= vb.len(),
            va@ == a@,
            vb@ == b@,
            seq_lt(a@, b@) == seq_lt(va@.subrange(i as int, va@.len() as int), vb@.subrange(i as int, vb@.len() as int)),
        decreases va.len() - i,
    {
        let ghost sa = va@.subrange(i as int, va@.len() as int);
        let ghost sb = vb@.subrange(i as int, vb@.len() as int);
        if i == va.len() {
            return i < vb.len();
        }
        if i == vb.len() {
            return false;
        }
        if va[i] != vb[i] {
            return (va[i] as u32) < (vb[i] as u32);
        }
        assert(sa.drop_first() =~= va@.subrange(i + 1, va@.len() as int));
        assert(sb.drop_first() =~= vb@.subrange(i + 1, vb@.len() as int));
        i = i + 1;
    }
}

/// The arrival order of a worker; unknown workers sort last.
pub open spec fn arrival(v: RegistryView, w: Seq<char>) -> u64 {
    if v.worker_order.contains_key(w) {
        v.worker_order[w]
    } else {
        u64::MAX
    }
}

/// Whether worker `a` comes before worker `b`: earlier arrival, then smaller id.
pub open spec fn comes_before(v: RegistryView, a: Seq<char>, b: Seq<char>) -> bool {
    arrival(v, a) < arrival(v, b) || (arrival(v, a) == arrival(v, b) && seq_lt(a, b))
}

/// Whether worker `w`'s room is listed when rooms are deduplicated by game: its game has a
/// name, and `w` comes before every other worker whose game has the same name.
pub open spec fn listed_room(v: RegistryView, w: Seq<char>) -> bool {
    &&& v.games.contains_key(w)
    &&& normalized_game_name(v.games[w]).len() > 0
    &&& forall|w2: Seq<char>|
        #![trigger v.games.contains_key(w2)]
        v.games.contains_key(w2) && w2 != w && normalized_game_name(v.games[w2])
            == normalized_game_name(v.games[w]) ==> comes_before(v, w, w2)
}

/// The rooms listed to browsers: every worker's game, or with deduplication one room per game.
pub open spec fn listed_games(v: RegistryView, dedupe: bool) -> Map<Seq<char>, JsonMemberView> {
    if dedupe {
        Map::new(|w: Seq<char>| listed_room(v, w), |w: Seq<char>| JsonMemberView::Str(v.games[w]))
    } else {
        v.games.map_values(|g: Seq<char>| JsonMemberView::Str(g))
    }
}

impl Registry {
    /// Records the game of a worker's room; refused when the name is missing or blank.
    pub fn set_worker_game(&mut self, worker_id: String, game_name: Option<String>) -> (updated: bool)
        requires
            old(self).wf(),
        ensures
            final(self).wf(),
            updated == (game_name.deep_view() matches Some(g) && normalized_game_name(g).len() > 0),
            updated ==> final(self)@ == (RegistryView {
                games: old(self)@.games.insert(worker_id@, game_name.deep_view()->0),
                ..old(self)@
            }),
            !updated ==> final(self)@ == old(self)@,
    {
        let game_name = match game_name {
            Some(g) => g,
            None => return false,
        };
        let normalized = normalize_game_name(game_name.as_str());
        if normalized.as_str().is_empty() {
            return false;
        }
        let ghost w = worker_id@;
        let ghost g = game_name@;
        self.game_rooms.insert(worker_id, game_name);
        assert(self@.games =~= old(self)@.games.insert(w, g));
        true
    }

    /// The JSON object of listed rooms, worker id to game name, sent to browsers.
    pub fn games_payload(&self, dedupe_rooms_by_game: bool) -> (payload: String)
        requires
            self.wf(),
        ensures
            payload@ == json_object_text(listed_games(self@, dedupe_rooms_by_game)),
    {
        proof {
            self.game_rooms.lemma_view();
        }
        let n = self.game_rooms.len();
        let mut norms: Vec<String> = Vec::new();
        let mut orders: Vec<u64> = Vec::new();
        let mut i: usize = 0;
        while i < n
            invariant
                self.wf(),
                n == self.game_rooms.key_order().len(),
                n == self.game_rooms.values().len(),
                i <= n,
                norms@.len() == i,
                orders@.len() == i,
                forall|j: int| 0 <= j < i ==> #[trigger] norms@[j]@ == normalized_game_name(
                    self.game_rooms.values()[j]@,
                ),
                forall|j: int| 0 <= j < i ==> #[trigger] orders@[j] == arrival(self@, self.game_rooms.key_order()[j]),
            decreases n - i,
        {
            norms.push(normalize_game_name(self.game_rooms.val_at(i).as_str()));
            let key = self.game_rooms.key_at(i);
            let order = match self.worker_order.get(key.as_str()) {
                Some(o) => *o,
                None => u64::MAX,
            };
            orders.push(order);
            i = i + 1;
        }
        let ghost members = listed_games(self@, dedupe_rooms_by_game);
        let mut fields: Vec<(String, JsonMember)> = Vec::new();
        let mut i: usize = 0;
        while i < n
            invariant
                self.wf(),
                n == self.game_rooms.key_order().len(),
                n == self.game_rooms.values().len(),
                i <= n,
                norms@.len() == n,
                orders@.len() == n,
                forall|j: int| 0 <= j < n ==> #[trigger] norms@[j]@ == normalized_game_name(
                    self.game_rooms.values()[j]@,
                ),
                forall|j: int| 0 <= j < n ==> #[trigger] orders@[j] == arrival(self@, self.game_rooms.key_order()[j]),
                members == listed_games(self@, dedupe_rooms_by_game),
                fields_map(fields_view(fields@)) == members.restrict(
                    self.game_rooms.key_order().subrange(0, i as int).to_set(),
                ),
            decreases n - i,
        {
            proof {
                self.game_rooms.lemma_view();
            }
            let key = self.game_rooms.key_at(i);
            let game = self.game_rooms.val_at(i);
            let ghost wi = key@;
            let mut listed = true;
            if dedupe_rooms_by_game {
                listed = !norms[i].as_str().is_empty();
                let mut j: usize = 0;
                while j < n
                    invariant
                        self.wf(),
                        n == self.game_rooms.key_order().len(),
                        n == self.game_rooms.values().len(),
                        i < n,
                        j <= n,
                        norms@.len() == n,
                        orders@.len() == n,
                        forall|t: int| 0 <= t < n ==> #[trigger] norms@[t]@ == normalized_game_name(
                            self.game_rooms.values()[t]@,
                        ),
                        forall|t: int| 0 <= t < n ==> #[trigger] orders@[t] == arrival(self@, self.game_rooms.key_order()[t]),
                        wi == self.game_rooms.key_order()[i as int],
                        key@ == wi,
                        listed == (normalized_game_name(self.game_rooms.values()[i as int]@).len() > 0
                            && forall|t: int| #![trigger self.game_rooms.key_order()[t]]
                                0 <= t < j && t != i && normalized_game_name(self.game_rooms.values()[t]@)
                                    == normalized_game_name(self.game_rooms.values()[i as int]@)
                                    ==> comes_before(self@, wi, self.game_rooms.key_order()[t])),
                    decreases n - j,
                {
                    let ghost kj = self.game_rooms.key_order()[j as int];
                    let ghost listed0 = listed;
                    let same = crate::text::str_eq(norms[j].as_str(), norms[i].as_str());
                    if j != i && same {
                        let other = self.game_rooms.key_at(j);
                        let before = orders[i] < orders[j] || (orders[i] == orders[j] && str_lt(key.as_str(), other.as_str()));
                        if !before {
                            listed = false;
                        }
                        proof {
                            assert(orders@[i as int] == arrival(self@, wi));
                            assert(orders@[j as int] == arrival(self@, kj));
                            assert(other@ == kj);
                            assert(key@ == wi);
                            assert(before == comes_before(self@, wi, kj));
                        }
                    }
                    proof {
                        assert(same == (normalized_game_name(self.game_rooms.values()[j as int]@)
                            == normalized_game_name(self.game_rooms.values()[i as int]@)));
                        assert(listed == (listed0 && ((j != i && same) ==> comes_before(self@, wi, kj))));
                    }
                    j = j + 1;
                }
                proof {
                    self.game_rooms.lemma_view();
                    assert(self@.games.contains_key(wi));
                    assert(self@.games[wi] == self.game_rooms.values()[i as int]@);
                    if listed {
                        assert forall|w2: Seq<char>|
                            #![trigger self@.games.contains_key(w2)]
                            self@.games.contains_key(w2) && w2 != wi && normalized_game_name(self@.games[w2])
                                == normalized_game_name(self@.games[wi]) implies comes_before(self@, wi, w2) by {
                            self.game_rooms.lemma_position(w2);
                            let t = self.game_rooms.key_order().index_of(w2);
                            assert(self.game_rooms.key_order()[t] == w2);
                        }
                        assert(listed_room(self@, wi));
                    } else {
                        if listed_room(self@, wi) {
                            let t = choose|t: int| 0 <= t < n && t != i && normalized_game_name(self.game_rooms.values()[t]@)
                                == normalized_game_name(self.game_rooms.values()[i as int]@)
                                && !comes_before(self@, wi, self.game_rooms.key_order()[t]);
                            let w2 = self.game_rooms.key_order()[t];
                            assert(self@.games.contains_key(w2));
                            assert(w2 != wi);
                        }
                    }
                }
            }
            let ghost pre = self.game_rooms.key_order().subrange(0, i as int).to_set();
            proof {
                lemma_prefix_set_push(self.game_rooms.key_order(), i as int);
            }
            if listed {
                let ghost before = fields_view(fields@);
                fields.push((key.clone(), JsonMember::Str(game.clone())));
                proof {
                    assert(fields_view(fields@) =~= before.push((wi, JsonMemberView::Str(game@))));
                    assert(fields_view(fields@).drop_last() =~= before);
                    assert(members.contains_key(wi));
                    assert(members[wi] == JsonMemberView::Str(game@));
                }
            } else {
                proof {
                    if !dedupe_rooms_by_game {
                        assert(false);
                    }
                    assert(!members.contains_key(wi));
                }
            }
            i = i + 1;
            proof {
                assert(fields_map(fields_view(fields@)) =~= members.restrict(
                    self.game_rooms.key_order().subrange(0, i as int).to_set(),
                ));
            }
        }
        proof {
            self.game_rooms.lemma_view();
            assert(self.game_rooms.key_order().subrange(0, n as int) =~= self.game_rooms.key_order());
            assert(members.dom().subset_of(self.game_rooms.key_order().to_set()));
            assert(members.restrict(self.game_rooms.key_order().to_set()) =~= members);
        }
        json_object_to_string(&fields)
    }
}

/// The player counts as JSON object members, each count as a number.
pub open spec fn counts_members(counts: Map<Seq<char>, usize>) -> Map<Seq<char>, JsonMemberView> {
    counts.map_values(|n: usize| JsonMemberView::Raw(decimal(n as nat)))
}

impl Registry {
    /// The player count of every room, as JSON object fields.
    pub fn player_counts_fields(&self) -> (f: Vec<(String, JsonMember)>)
        requires
            self.wf(),
        ensures
            fields_map(fields_view(f@)) == counts_members(self@.player_counts),
    {
        proof {
            self.player_counts.lemma_view();
        }
        let ghost target = counts_members(self@.player_counts);
        let n = self.player_counts.len();
        let mut fields: Vec<(String, JsonMember)> = Vec::new();
        let mut i: usize = 0;
        assert(fields_map(fields_view(fields@)) =~= target.restrict(self.player_counts.key_order().subrange(0, 0).to_set()));
        while i < n
            invariant
                self.wf(),
                n == self.player_counts.key_order().len(),
                i <= n,
                target == counts_members(self@.player_counts),
                fields_map(fields_view(fields@)) == target.restrict(self.player_counts.key_order().subrange(0, i as int).to_set()),
            decreases n - i,
        {
            proof {
                self.player_counts.lemma_view();
                lemma_prefix_set_push(self.player_counts.key_order(), i as int);
            }
            let key = self.player_counts.key_at(i);
            let count = *self.player_counts.val_at(i);
            let ghost before = fields_view(fields@);
            fields.push((key.clone(), JsonMember::Raw(u64_to_string(count as u64))));
            proof {
                assert(fields_view(fields@).drop_last() =~= before);
                assert(target.contains_key(key@));
                assert(target[key@] == JsonMemberView::Raw(decimal(count as nat)));
            }
            i = i + 1;
            assert(fields_map(fields_view(fields@)) =~= target.restrict(self.player_counts.key_order().subrange(0, i as int).to_set()));
        }
        proof {
            self.player_counts.lemma_view();
            assert(self.player_counts.key_order().subrange(0, n as int) =~= self.player_counts.key_order());
            assert(target.restrict(self.player_counts.key_order().to_set()) =~= target);
        }
        fields
    }
}

/// No string sorts before itself, and of two strings at most one sorts before the other.
proof fn lemma_seq_lt_asymmetric(a: Seq<char>, b: Seq<char>)
    ensures
        !(seq_lt(a, b) && seq_lt(b, a)),
    decreases a.len(),
{
    if a.len() > 0 && b.len() > 0 && a[0] == b[0] {
        lemma_seq_lt_asymmetric(a.drop_first(), b.drop_first());
    }
}

/// Once a worker has left, no browser is bound to it, and the browsers that were bound to
/// it are gone too.
pub proof fn law_worker_departure_unbinds(v: RegistryView, w: Seq<char>)
    ensures
        forall|c: Seq<char>|
            #![trigger spec_unregister_worker(v, w).bindings.contains_key(c)]
            spec_unregister_worker(v, w).bindings.contains_key(c) ==> spec_unregister_worker(v, w).bindings[c] != w,
        forall|c: Seq<char>|
            #![trigger bound_to(v.bindings, w).contains(c)]
            bound_to(v.bindings, w).contains(c) ==> !spec_unregister_worker(v, w).clients.contains(c),
        !spec_unregister_worker(v, w).workers.contains(w),
        !spec_unregister_worker(v, w).games.contains_key(w),
{
}

/// With rooms deduplicated by game, no two listed rooms play the same game.
pub proof fn law_listed_rooms_have_distinct_games(v: RegistryView, w1: Seq<char>, w2: Seq<char>)
    requires
        listed_room(v, w1),
        listed_room(v, w2),
        w1 != w2,
    ensures
        normalized_game_name(v.games[w1]) != normalized_game_name(v.games[w2]),
{
    if normalized_game_name(v.games[w1]) == normalized_game_name(v.games[w2]) {
        assert(v.games.contains_key(w2));
        assert(v.games.contains_key(w1));
        assert(comes_before(v, w1, w2));
        assert(comes_before(v, w2, w1));
        lemma_seq_lt_asymmetric(w1, w2);
    }
}

} // verus!
