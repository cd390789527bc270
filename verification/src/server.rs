//! The signal server's decisions: what each browser or worker message changes, and which
//! peers are sent what. The connections themselves are held by the caller, which delivers
//! the returned events.
use vstd::prelude::*;

use crate::controllers::{
    codes_are_join_codes, is_join_code, law_registration_hands_out_join_codes,
    ControllerCleanup,
    controllers_of, spec_cleanup, spec_join, spec_register_host, Controllers, ControllersView, RouteView,
    JOIN_CODE_TTL_SECS,
};
use crate::ids;
use crate::json::{fields_map, fields_view, json_object_text, json_object_to_string, JsonMember, JsonMemberView};
use crate::message::{clone_msg, msg, SignalMessage, SignalMessageView};
use crate::protocol::{
    client_event_id, controller_audio_message, controller_joined_message, controller_left_message,
    controller_ready_message, controller_rejected_message, forward_to_client_message, forward_to_worker_message,
    games_message, parse_browser_command, parse_worker_command, spec_browser_command, spec_worker_command,
    terminate_session_message, update_player_count_message, worker_event_id, BrowserCommand, BrowserCommandView,
    OutboundEvent, OutboundEventView, WorkerCommand, WorkerCommandView, WorkerEventKind,
};
use crate::registry::{counts_members, empty_registry, listed_games, normalized_game_name, spec_unregister_worker, bound_to, saturating_inc, Registry, RegistryView};
use crate::text::{decimal, hex, hex_chars, str_eq, string_from_chars, trim_seq, trim_str, u64_to_string};

verus! {

/// The peer an event is for.
pub enum Peer {
    Client(String),
    Worker(String),
}

/// The content of a [`Peer`].
pub enum PeerView {
    Client(Seq<char>),
    Worker(Seq<char>),
}

impl View for Peer {
    type V = PeerView;

    open spec fn view(&self) -> PeerView {
        match self {
            Peer::Client(c) => PeerView::Client(c@),
            Peer::Worker(w) => PeerView::Worker(w@),
        }
    }
}

/// An event for one peer's connection.
pub struct Delivery {
    pub to: Peer,
    pub event: OutboundEvent,
}

/// The content of a [`Delivery`].
pub struct DeliveryView {
    pub to: PeerView,
    pub event: OutboundEventView,
}

impl View for Delivery {
    type V = DeliveryView;

    open spec fn view(&self) -> DeliveryView {
        DeliveryView { to: self.to@, event: self.event@ }
    }
}

/// A list of deliveries seen through their views.
pub open spec fn dview(ds: Seq<Delivery>) -> Seq<DeliveryView> {
    ds.map_values(|d: Delivery| d@)
}

/// Message `m` for browser `c`, if it is connected.
pub open spec fn to_client(r: RegistryView, c: Seq<char>, m: SignalMessageView) -> Seq<DeliveryView> {
    if r.clients.contains(c) {
        seq![DeliveryView { to: PeerView::Client(c), event: OutboundEventView::Message(m) }]
    } else {
        Seq::empty()
    }
}

/// Message `m` for worker `w`, if it is connected.
pub open spec fn to_worker(r: RegistryView, w: Seq<char>, m: SignalMessageView) -> Seq<DeliveryView> {
    if r.workers.contains(w) {
        seq![DeliveryView { to: PeerView::Worker(w), event: OutboundEventView::Message(m) }]
    } else {
        Seq::empty()
    }
}

/// Message `m` for each connected browser of `ids`, in order.
pub open spec fn to_each_client(r: RegistryView, ids: Seq<Seq<char>>, m: SignalMessageView) -> Seq<DeliveryView>
    decreases ids.len(),
{
    if ids.len() == 0 {
        Seq::empty()
    } else {
        to_each_client(r, ids.drop_last(), m) + to_client(r, ids.last(), m)
    }
}

/// `ds` sends `m` to every connected browser, each once, in some order.
pub open spec fn is_broadcast(r: RegistryView, m: SignalMessageView, ds: Seq<DeliveryView>) -> bool {
    exists|ids: Seq<Seq<char>>|
        #![trigger to_each_client(r, ids, m)]
        ids.no_duplicates() && ids.to_set() == r.clients && ds == to_each_client(r, ids, m)
}

/// The end of the session of each controller of `ids`, for the worker its route leads to.
pub open spec fn to_each_route_worker(r: RegistryView, routes: Map<Seq<char>, RouteView>, ids: Seq<Seq<char>>) -> Seq<
    DeliveryView,
>
    decreases ids.len(),
{
    if ids.len() == 0 {
        Seq::empty()
    } else {
        to_each_route_worker(r, routes, ids.drop_last()) + to_worker(
            r,
            routes[ids.last()].worker,
            msg(ids::TERMINATE_SESSION@, None, Some(ids.last())),
        )
    }
}

/// Each connection in `ids` closed, in order.
pub open spec fn close_each(ids: Seq<Seq<char>>) -> Seq<DeliveryView> {
    ids.map_values(|c: Seq<char>| DeliveryView { to: PeerView::Client(c), event: OutboundEventView::Close })
}

/// The state of the signal server.
pub struct AppState {
    pub registry: Registry,
    pub controllers: Controllers,
    auth_token: Option<String>,
    allowed_origins: Option<Vec<String>>,
    dedupe_rooms_by_game: bool,
}

/// The mathematical content of an [`AppState`].
pub struct AppStateView {
    pub registry: RegistryView,
    pub controllers: ControllersView,
    pub auth_token: Option<Seq<char>>,
    pub allowed_origins: Option<Seq<Seq<char>>>,
    pub dedupe_rooms_by_game: bool,
}

impl View for AppState {
    type V = AppStateView;

    closed spec fn view(&self) -> AppStateView {
        AppStateView {
            registry: self.registry@,
            controllers: self.controllers@,
            auth_token: self.auth_token.deep_view(),
            allowed_origins: match &self.allowed_origins {
                Some(v) => Some(v.deep_view()),
                None => None,
            },
            dedupe_rooms_by_game: self.dedupe_rooms_by_game,
        }
    }
}

/// The games list message for registry `r`.
pub open spec fn games_msg(r: RegistryView, dedupe: bool) -> SignalMessageView {
    msg(ids::GAMES@, Some(json_object_text(listed_games(r, dedupe))), None)
}

/// The payload of the message telling a host its join code: the code, the worker and how
/// long the code lasts.
pub open spec fn ready_payload(code: Seq<char>, worker: Seq<char>) -> Seq<char> {
    json_object_text(
        Map::empty().insert("code"@, JsonMemberView::Str(code)).insert("workerID"@, JsonMemberView::Str(worker)).insert(
            "expiresInSeconds"@,
            JsonMemberView::Raw(decimal(JOIN_CODE_TTL_SECS as nat)),
        ),
    )
}

/// Whether browser `c` is bound to worker `w`.
pub open spec fn is_bound(r: RegistryView, c: Seq<char>, w: Seq<char>) -> bool {
    r.bindings.contains_key(c) && r.bindings[c] == w
}

/// Whether `c` is a controller paired with host `h`.
pub open spec fn is_paired(v: ControllersView, c: Seq<char>, h: Seq<char>) -> bool {
    v.routes.contains_key(c) && v.routes[c].host == h
}

/// The worker a browser's session end goes to: the named worker when the browser is bound
/// to it, the bound worker when none is named, nothing otherwise.
pub open spec fn terminate_target(r: RegistryView, c: Seq<char>, named: Option<Seq<char>>) -> Option<Seq<char>> {
    match named {
        Some(w) => if is_bound(r, c, w) {
            Some(w)
        } else {
            None
        },
        None => if r.bindings.contains_key(c) {
            Some(r.bindings[c])
        } else {
            None
        },
    }
}

/// What a browser command does: the new state and the events sent.
pub open spec fn browser_effect(s: AppStateView, c: Seq<char>, cmd: BrowserCommandView, now: u64, nanos: u64) -> (
    AppStateView,
    Seq<DeliveryView>,
) {
    let r = s.registry;
    match cmd {
        BrowserCommandView::RequestGames => (s, to_client(r, c, games_msg(r, s.dedupe_rooms_by_game))),
        BrowserCommandView::ForwardToWorker { worker_id, event, data, bind_client } => {
            let m = msg(worker_event_id(event), data, Some(c));
            if bind_client {
                if r.workers.contains(worker_id) {
                    let r2 = RegistryView { bindings: r.bindings.insert(c, worker_id), ..r };
                    (AppStateView { registry: r2, ..s }, to_worker(r2, worker_id, m))
                } else {
                    (s, Seq::empty())
                }
            } else if is_bound(r, c, worker_id) {
                (s, to_worker(r, worker_id, m))
            } else {
                (s, Seq::empty())
            }
        },
        BrowserCommandView::TerminateSession { worker_id } => match terminate_target(r, c, worker_id) {
            Some(w) => (
                AppStateView { registry: RegistryView { bindings: r.bindings.remove(c), ..r }, ..s },
                to_worker(r, w, msg(ids::TERMINATE_SESSION@, None, Some(c))),
            ),
            None => (s, Seq::empty()),
        },
        BrowserCommandView::ControllerHost { worker_id } => if is_bound(r, c, worker_id) {
            let (v2, code) = spec_register_host(s.controllers, c, worker_id, now, nanos);
            (
                AppStateView { controllers: v2, ..s },
                to_client(r, c, msg(ids::CONTROLLER_READY@, Some(ready_payload(code, worker_id)), None)),
            )
        } else {
            (s, Seq::empty())
        },
        BrowserCommandView::ControllerJoin { code } => {
            let (v2, res) = spec_join(s.controllers, c, code, now);
            (
                AppStateView { controllers: v2, ..s },
                match res {
                    Ok(t) => to_client(r, c, msg(ids::CONTROLLER_JOINED@, None, Some(t.host))) + to_client(
                        r,
                        t.host,
                        msg(ids::CONTROLLER_JOINED@, None, Some(c)),
                    ) + to_worker(r, t.worker, msg(ids::JOIN_ROOM@, None, Some(c))),
                    Err(e) => to_client(r, c, msg(ids::CONTROLLER_REJECTED@, Some(e), None)),
                },
            )
        },
        BrowserCommandView::ControllerInput { host_client_id, data } => if is_paired(
            s.controllers,
            c,
            host_client_id,
        ) {
            (s, to_worker(r, s.controllers.routes[c].worker, msg(ids::INPUT@, Some(data), Some(c))))
        } else {
            (s, Seq::empty())
        },
        BrowserCommandView::ControllerAudio { host_client_id, action } => if is_paired(
            s.controllers,
            c,
            host_client_id,
        ) {
            (s, to_client(r, host_client_id, msg(ids::CONTROLLER_AUDIO@, Some(action), Some(c))))
        } else {
            (s, Seq::empty())
        },
    }
}

/// What a worker command does to the state, and whether `ds` are the events it sends.
pub open spec fn worker_effect(
    s: AppStateView,
    w: Seq<char>,
    cmd: WorkerCommandView,
    s2: AppStateView,
    ds: Seq<DeliveryView>,
) -> bool {
    let r = s.registry;
    match cmd {
        WorkerCommandView::GameInfo { game_name } => if game_name matches Some(g) && normalized_game_name(g).len()
            > 0 {
            let r2 = RegistryView { games: r.games.insert(w, game_name->0), ..r };
            &&& s2 == AppStateView { registry: r2, ..s }
            &&& is_broadcast(r2, games_msg(r2, s.dedupe_rooms_by_game), ds)
        } else {
            s2 == s && ds == Seq::<DeliveryView>::empty()
        },
        WorkerCommandView::ForwardToClient { client_id, event, data } => {
            &&& s2 == s
            &&& ds == to_client(r, client_id, msg(client_event_id(event), data, Some(client_id)))
        },
        WorkerCommandView::UpdatePlayerCount { count } => {
            let r2 = RegistryView { player_counts: r.player_counts.insert(w, count), ..r };
            &&& s2 == AppStateView { registry: r2, ..s }
            &&& is_broadcast(r2, msg(ids::UPDATE_PLAYER_COUNT@, Some(decimal(count as nat)), Some(w)), ds)
        },
    }
}

/// The state after browser `c` disconnected.
pub open spec fn browser_gone(s: AppStateView, c: Seq<char>) -> AppStateView {
    AppStateView {
        registry: RegistryView {
            clients: s.registry.clients.remove(c),
            bindings: s.registry.bindings.remove(c),
            ..s.registry
        },
        controllers: spec_cleanup(s.controllers, c),
        ..s
    }
}

/// Whether `ds` are the events sent when browser `c` disconnects from state `s`: its
/// worker is told the session ended; a controller's host is told it left and its worker
/// that its session ended; a host's controllers are told it left, and their workers that
/// their sessions ended.
pub open spec fn browser_gone_events(s: AppStateView, c: Seq<char>, ds: Seq<DeliveryView>) -> bool {
    let r2 = browser_gone(s, c).registry;
    let routes = s.controllers.routes;
    let own = if s.registry.bindings.contains_key(c) {
        to_worker(r2, s.registry.bindings[c], msg(ids::TERMINATE_SESSION@, None, Some(c)))
    } else {
        Seq::empty()
    };
    if routes.contains_key(c) {
        ds == own + to_client(r2, routes[c].host, msg(ids::CONTROLLER_LEFT@, None, Some(c))) + to_worker(
            r2,
            routes[c].worker,
            msg(ids::TERMINATE_SESSION@, None, Some(c)),
        )
    } else {
        exists|ids: Seq<Seq<char>>|
            #![trigger to_each_route_worker(r2, routes, ids)]
            ids.no_duplicates() && ids.to_set() == controllers_of(routes, c) && ds == own + to_each_client(
                r2,
                ids,
                msg(ids::CONTROLLER_LEFT@, None, Some(c)),
            ) + to_each_route_worker(r2, routes, ids)
    }
}

/// Whether `ds` are the events sent when worker `w` disconnects from state `s`: the
/// browsers bound to it are closed, then every remaining browser gets the games list.
pub open spec fn worker_gone_events(s: AppStateView, w: Seq<char>, ds: Seq<DeliveryView>) -> bool {
    let r2 = spec_unregister_worker(s.registry, w);
    exists|closed: Seq<Seq<char>>, rest: Seq<DeliveryView>|
        #![trigger close_each(closed), is_broadcast(r2, games_msg(r2, s.dedupe_rooms_by_game), rest)]
        closed.no_duplicates() && closed.to_set() == bound_to(s.registry.bindings, w).intersect(s.registry.clients)
            && is_broadcast(r2, games_msg(r2, s.dedupe_rooms_by_game), rest) && ds == close_each(closed) + rest
}

/// Whether a connection presenting `candidate` is let in: always without a configured
/// token, else only with that token.
pub open spec fn token_ok(token: Option<Seq<char>>, candidate: Option<Seq<char>>) -> bool {
    match token {
        Some(t) => candidate == Some(t),
        None => true,
    }
}

/// Whether a browser connection from `origin` is let in: always without an allow list,
/// else only when its trimmed, non-empty origin is on the list.
pub open spec fn origin_ok(allowed: Option<Seq<Seq<char>>>, origin: Option<Seq<char>>) -> bool {
    match allowed {
        None => true,
        Some(list) => match origin {
            Some(o) => trim_seq(o).len() > 0 && list.contains(trim_seq(o)),
            None => false,
        },
    }
}

impl AppState {
    /// The registry and the pairing state are well formed.
    pub closed spec fn wf(&self) -> bool {
        self.registry.wf() && self.controllers.wf()
    }

    /// A server with no peers, the given access controls and room listing mode.
    pub fn new(auth_token: Option<String>, allowed_origins: Option<Vec<String>>, dedupe_rooms_by_game: bool) -> (s:
        Self)
        ensures
            s.wf(),
            s@.registry == empty_registry(),
            s@.controllers == (ControllersView { codes: Map::empty(), host_to_code: Map::empty(), routes: Map::empty() }),
            s@.auth_token == auth_token.deep_view(),
            s@.allowed_origins == (match allowed_origins {
                Some(v) => Some(v.deep_view()),
                None => None,
            }),
            s@.dedupe_rooms_by_game == dedupe_rooms_by_game,
    {
        AppState {
            registry: Registry::new(),
            controllers: Controllers::new(),
            auth_token,
            allowed_origins,
            dedupe_rooms_by_game,
        }
    }

    /// Records a browser that connected.
    pub fn register_browser(&mut self, client_id: String)
        requires
            old(self).wf(),
        ensures
            final(self).wf(),
            final(self)@ == (AppStateView {
                registry: RegistryView { clients: old(self)@.registry.clients.insert(client_id@), ..old(self)@.registry },
                ..old(self)@
            }),
    {
        self.registry.register_client(client_id);
    }

    /// Records a worker that connected, after the workers that came before it.
    pub fn register_worker(&mut self, worker_id: String)
        requires
            old(self).wf(),
        ensures
            final(self).wf(),
            final(self)@ == (AppStateView {
                registry: RegistryView {
                    workers: old(self)@.registry.workers.insert(worker_id@),
                    worker_order: old(self)@.registry.worker_order.insert(worker_id@, old(self)@.registry.next_worker_order),
                    next_worker_order: saturating_inc(old(self)@.registry.next_worker_order),
                    ..old(self)@.registry
                },
                ..old(self)@
            }),
    {
        self.registry.register_worker(worker_id);
    }

    /// Whether a connection presenting `candidate` as token is let in.
    pub fn is_token_valid(&self, candidate: Option<&str>) -> (b: bool)
        ensures
            b == token_ok(self@.auth_token, candidate.deep_view()),
    {
        match &self.auth_token {
            Some(expected) => match candidate {
                Some(c) => str_eq(c, expected.as_str()),
                None => false,
            },
            None => true,
        }
    }

    /// Whether a browser connection with this `Origin` header value is let in.
    pub fn is_origin_allowed(&self, origin: Option<&str>) -> (b: bool)
        ensures
            b == origin_ok(self@.allowed_origins, origin.deep_view()),
    {
        match &self.allowed_origins {
            None => true,
            Some(list) => match origin {
                None => false,
                Some(o) => {
                    let t = trim_str(o);
                    if t.as_str().is_empty() {
                        return false;
                    }
                    let mut i: usize = 0;
                    while i < list.len()
                        invariant
                            i <= list.len(),
                            t@ == trim_seq(o@),
                            t@.len() > 0,
                            self@.allowed_origins == Some(list.deep_view()),
                            origin.deep_view() == Some(o@),
                            forall|j: int| 0 <= j < i ==> list.deep_view()[j] != t@,
                        decreases list.len() - i,
                    {
                        if str_eq(list[i].as_str(), t.as_str()) {
                            assert(list.deep_view()[i as int] == t@);
                            assert(list.deep_view().contains(t@));
                            return true;
                        }
                        i = i + 1;
                    }
                    assert(!list.deep_view().contains(t@));
                    false
                },
            },
        }
    }
}

impl AppState {
    fn send_to_client(&self, client_id: &str, m: SignalMessage, out: &mut Vec<Delivery>)
        requires
            self.wf(),
        ensures
            dview(final(out)@) == dview(old(out)@) + to_client(self@.registry, client_id@, m@),
    {
        if self.registry.has_client(client_id) {
            out.push(Delivery { to: Peer::Client(client_id.to_owned()), event: OutboundEvent::Message(m) });
            assert(dview(out@) =~= dview(old(out)@) + to_client(self@.registry, client_id@, m@));
        } else {
            assert(dview(out@) =~= dview(old(out)@) + to_client(self@.registry, client_id@, m@));
        }
    }

    fn send_to_worker(&self, worker_id: &str, m: SignalMessage, out: &mut Vec<Delivery>)
        requires
            self.wf(),
        ensures
            dview(final(out)@) == dview(old(out)@) + to_worker(self@.registry, worker_id@, m@),
    {
        if self.registry.has_worker(worker_id) {
            out.push(Delivery { to: Peer::Worker(worker_id.to_owned()), event: OutboundEvent::Message(m) });
            assert(dview(out@) =~= dview(old(out)@) + to_worker(self@.registry, worker_id@, m@));
        } else {
            assert(dview(out@) =~= dview(old(out)@) + to_worker(self@.registry, worker_id@, m@));
        }
    }

    /// `m` for every connected browser.
    fn broadcast_to_clients(&self, m: &SignalMessage) -> (ds: Vec<Delivery>)
        requires
            self.wf(),
        ensures
            is_broadcast(self@.registry, m@, dview(ds@)),
    {
        let ids = self.registry.all_clients();
        let ghost ks = ids.deep_view();
        let mut out: Vec<Delivery> = Vec::new();
        let mut i: usize = 0;
        while i < ids.len()
            invariant
                self.wf(),
                i <= ids.len(),
                ks == ids.deep_view(),
                ks.to_set() == self@.registry.clients,
                dview(out@) == to_each_client(self@.registry, ks.subrange(0, i as int), m@),
            decreases ids.len() - i,
        {
            assert(ks.subrange(0, i + 1).drop_last() =~= ks.subrange(0, i as int));
            assert(ks[i as int] == ids@[i as int]@);
            self.send_to_client(ids[i].as_str(), clone_msg(m), &mut out);
            i = i + 1;
        }
        assert(ks.subrange(0, i as int) =~= ks);
        assert(ds_broadcast_witness(self@.registry, m@, dview(out@), ks));
        out
    }
}

impl AppState {
    /// Acts on a message from browser `client_id`, at time `now` (milliseconds) with the clock
    /// reading `nanos` for fresh join codes; returns what is to be sent to whom. A message
    /// that is not a valid browser command changes nothing.
    pub fn handle_browser_message(&mut self, client_id: &str, req: SignalMessage, now: u64, nanos: u64) -> (ds: Vec<
        Delivery,
    >)
        requires
            old(self).wf(),
        ensures
            final(self).wf(),
            match spec_browser_command(req@) {
                Ok(cmd) => (final(self)@, dview(ds@)) == browser_effect(old(self)@, client_id@, cmd, now, nanos),
                Err(_) => final(self)@ == old(self)@ && ds@.len() == 0,
            },
    {
        let mut out: Vec<Delivery> = Vec::new();
        let cmd = match parse_browser_command(req) {
            Ok(cmd) => cmd,
            Err(_) => return out,
        };
        assert(dview(out@) =~= Seq::<DeliveryView>::empty());
        match cmd {
            BrowserCommand::RequestGames => {
                let payload = self.registry.games_payload(self.dedupe_rooms_by_game);
                self.send_to_client(client_id, games_message(payload), &mut out);
            },
            BrowserCommand::ForwardToWorker { worker_id, event, data, bind_client } => {
                if bind_client {
                    if !self.registry.has_worker(worker_id.as_str()) {
                        return out;
                    }
                    self.registry.bind_client_to_worker(client_id, worker_id.as_str());
                } else if !self.registry.is_client_bound_to_worker(client_id, worker_id.as_str()) {
                    return out;
                }
                let m = forward_to_worker_message(event, client_id.to_owned(), data);
                self.send_to_worker(worker_id.as_str(), m, &mut out);
            },
            BrowserCommand::TerminateSession { worker_id } => {
                let bound = self.registry.worker_for_client(client_id);
                let target = match (worker_id, bound) {
                    (Some(w), Some(b)) => if str_eq(w.as_str(), b.as_str()) {
                        Some(b)
                    } else {
                        None
                    },
                    (Some(_), None) => None,
                    (None, b) => b,
                };
                if let Some(w) = target {
                    self.send_to_worker(w.as_str(), terminate_session_message(client_id), &mut out);
                    self.registry.unbind_client(client_id);
                }
            },
            BrowserCommand::ControllerHost { worker_id } => {
                if !self.registry.is_client_bound_to_worker(client_id, worker_id.as_str()) {
                    return out;
                }
                let code = self.controllers.register_host(client_id, worker_id.as_str(), now, nanos);
                let ghost code_v = code@;
                let mut fields: Vec<(String, JsonMember)> = Vec::new();
                fields.push(("code".to_owned(), JsonMember::Str(code)));
                fields.push(("workerID".to_owned(), JsonMember::Str(worker_id.clone())));
                fields.push(("expiresInSeconds".to_owned(), JsonMember::Raw(u64_to_string(JOIN_CODE_TTL_SECS))));
                proof {
                    let f = fields_view(fields@);
                    assert(f.len() == 3);
                    assert(f[0] == ("code"@, JsonMemberView::Str(code_v)));
                    assert(f[1] == ("workerID"@, JsonMemberView::Str(worker_id@)));
                    assert(f[2] == ("expiresInSeconds"@, JsonMemberView::Raw(decimal(JOIN_CODE_TTL_SECS as nat))));
                    assert(f.drop_last().drop_last().drop_last() =~= Seq::<(Seq<char>, JsonMemberView)>::empty());
                    reveal_with_fuel(fields_map, 4);
                    assert(fields_map(f) =~= Map::empty().insert("code"@, JsonMemberView::Str(code_v)).insert(
                        "workerID"@,
                        JsonMemberView::Str(worker_id@),
                    ).insert("expiresInSeconds"@, JsonMemberView::Raw(decimal(JOIN_CODE_TTL_SECS as nat))));
                }
                let payload = json_object_to_string(&fields);
                self.send_to_client(client_id, controller_ready_message(payload), &mut out);
            },
            BrowserCommand::ControllerJoin { code } => {
                match self.controllers.join(client_id, code.as_str(), now) {
                    Ok(target) => {
                        self.send_to_client(
                            client_id,
                            controller_joined_message(target.host_client_id.clone()),
                            &mut out,
                        );
                        self.send_to_client(
                            target.host_client_id.as_str(),
                            controller_joined_message(client_id.to_owned()),
                            &mut out,
                        );
                        let m = forward_to_worker_message(WorkerEventKind::JoinRoom, client_id.to_owned(), None);
                        self.send_to_worker(target.worker_id.as_str(), m, &mut out);
                    },
                    Err(reason) => {
                        self.send_to_client(client_id, controller_rejected_message(reason), &mut out);
                    },
                }
            },
            BrowserCommand::ControllerInput { host_client_id, data } => {
                match self.controllers.worker_for_input(client_id, host_client_id.as_str()) {
                    Some(w) => {
                        let m = forward_to_worker_message(WorkerEventKind::Input, client_id.to_owned(), Some(data));
                        self.send_to_worker(w.as_str(), m, &mut out);
                    },
                    None => {},
                }
            },
            BrowserCommand::ControllerAudio { host_client_id, action } => {
                match self.controllers.worker_for_input(client_id, host_client_id.as_str()) {
                    Some(_) => {
                        let m = controller_audio_message(client_id.to_owned(), action);
                        self.send_to_client(host_client_id.as_str(), m, &mut out);
                    },
                    None => {},
                }
            },
        }
        out
    }
}

impl AppState {
    /// Acts on a message from worker `worker_id`; returns what is to be sent to whom. A
    /// message that is not a valid worker command changes nothing.
    pub fn handle_worker_message(&mut self, worker_id: &str, req: SignalMessage) -> (ds: Vec<Delivery>)
        requires
            old(self).wf(),
        ensures
            final(self).wf(),
            match spec_worker_command(req@) {
                Ok(cmd) => worker_effect(old(self)@, worker_id@, cmd, final(self)@, dview(ds@)),
                Err(_) => final(self)@ == old(self)@ && ds@.len() == 0,
            },
    {
        let mut out: Vec<Delivery> = Vec::new();
        let cmd = match parse_worker_command(req) {
            Ok(cmd) => cmd,
            Err(_) => return out,
        };
        assert(dview(out@) =~= Seq::<DeliveryView>::empty());
        match cmd {
            WorkerCommand::GameInfo { game_name } => {
                let updated = self.registry.set_worker_game(worker_id.to_owned(), game_name);
                if updated {
                    let payload = self.registry.games_payload(self.dedupe_rooms_by_game);
                    out = self.broadcast_to_clients(&games_message(payload));
                }
            },
            WorkerCommand::ForwardToClient { client_id, event, data } => {
                let m = forward_to_client_message(event, client_id.clone(), data);
                self.send_to_client(client_id.as_str(), m, &mut out);
            },
            WorkerCommand::UpdatePlayerCount { count } => {
                self.registry.set_worker_player_count(worker_id.to_owned(), count);
                out = self.broadcast_to_clients(&update_player_count_message(worker_id.to_owned(), count));
            },
        }
        out
    }

    /// Forgets a disconnected browser as peer, binding, controller and host; returns the
    /// session ends and departure notices to send.
    pub fn cleanup_browser(&mut self, client_id: &str) -> (ds: Vec<Delivery>)
        requires
            old(self).wf(),
        ensures
            final(self).wf(),
            final(self)@ == browser_gone(old(self)@, client_id@),
            browser_gone_events(old(self)@, client_id@, dview(ds@)),
    {
        let ghost s0 = self@;
        let cleanup = self.controllers.cleanup_peer(client_id);
        let dropped = self.registry.unregister_client(client_id);
        let ghost r2 = self@.registry;
        assert(self@ == browser_gone(s0, client_id@));
        let mut out: Vec<Delivery> = Vec::new();
        if let Some(w) = dropped.worker_id {
            self.send_to_worker(w.as_str(), terminate_session_message(client_id), &mut out);
        }
        let ghost own = dview(out@);
        assert(own =~= (if s0.registry.bindings.contains_key(client_id@) {
            to_worker(r2, s0.registry.bindings[client_id@], msg(ids::TERMINATE_SESSION@, None, Some(client_id@)))
        } else {
            Seq::empty()
        }));
        let ControllerCleanup { notify_host, notify_controllers, worker_terminations } = cleanup;
        let ghost left = msg(ids::CONTROLLER_LEFT@, None, Some(client_id@));
        if let Some(host) = notify_host {
            self.send_to_client(host.as_str(), controller_left_message(client_id.to_owned()), &mut out);
        }
        let ghost own_host = dview(out@);
        let ghost ks = notify_controllers.deep_view();
        let mut i: usize = 0;
        while i < notify_controllers.len()
            invariant
                self.wf(),
                self@.registry == r2,
                i <= notify_controllers.len(),
                ks == notify_controllers.deep_view(),
                left == msg(ids::CONTROLLER_LEFT@, None, Some(client_id@)),
                dview(out@) == own_host + to_each_client(r2, ks.subrange(0, i as int), left),
            decreases notify_controllers.len() - i,
        {
            let ghost before = dview(out@);
            assert(ks.subrange(0, i + 1).drop_last() =~= ks.subrange(0, i as int));
            assert(ks.subrange(0, i + 1).last() == ks[i as int]);
            assert(ks[i as int] == notify_controllers@[i as int]@);
            self.send_to_client(
                notify_controllers[i].as_str(),
                controller_left_message(client_id.to_owned()),
                &mut out,
            );
            assert(dview(out@) == before + to_client(r2, ks[i as int], left));
            assert(to_each_client(r2, ks.subrange(0, i + 1), left) == to_each_client(r2, ks.subrange(0, i as int), left)
                + to_client(r2, ks[i as int], left));
            i = i + 1;
            assert(dview(out@) =~= own_host + to_each_client(r2, ks.subrange(0, i as int), left));
        }
        assert(ks.subrange(0, i as int) =~= ks);
        let ghost own_ctrl = dview(out@);
        let ghost ts = terminations_view(worker_terminations@);
        let mut j: usize = 0;
        while j < worker_terminations.len()
            invariant
                self.wf(),
                self@.registry == r2,
                j <= worker_terminations.len(),
                ts == terminations_view(worker_terminations@),
                dview(out@) == own_ctrl + to_each_termination(r2, ts.subrange(0, j as int)),
            decreases worker_terminations.len() - j,
        {
            assert(ts.subrange(0, j + 1).drop_last() =~= ts.subrange(0, j as int));
            let (w, sid) = (&worker_terminations[j].0, &worker_terminations[j].1);
            self.send_to_worker(w.as_str(), terminate_session_message(sid.as_str()), &mut out);
            j = j + 1;
            assert(dview(out@) =~= own_ctrl + to_each_termination(r2, ts.subrange(0, j as int)));
        }
        assert(ts.subrange(0, j as int) =~= ts);
        proof {
            let routes = s0.controllers.routes;
            let c = client_id@;
            if routes.contains_key(c) {
                assert(ks =~= Seq::<Seq<char>>::empty());
                assert(to_each_client(r2, ks, left) =~= Seq::<DeliveryView>::empty());
                assert(ts.len() == 1);
                assert(ts.drop_last() =~= Seq::<(Seq<char>, Seq<char>)>::empty());
                assert(to_each_termination(r2, ts.drop_last()) =~= Seq::<DeliveryView>::empty());
                assert(ts.last() == ts[0]);
                assert(ts[0] == (worker_terminations@[0].0@, worker_terminations@[0].1@));
                assert(ts[0] == (routes[c].worker, c));
                assert(to_each_termination(r2, ts) =~= to_worker(r2, routes[c].worker, msg(ids::TERMINATE_SESSION@, None, Some(c))));
                assert(dview(out@) =~= own + to_client(r2, routes[c].host, left) + to_worker(
                    r2,
                    routes[c].worker,
                    msg(ids::TERMINATE_SESSION@, None, Some(c)),
                ));
            } else {
                assert(own_host == own);
                lemma_terminations_of_routes(r2, routes, ks, ts);
                assert(dview(out@) == own + to_each_client(r2, ks, left) + to_each_route_worker(r2, routes, ks));
                assert(ks.to_set() == controllers_of(routes, c));
            }
        }
        out
    }

    /// Forgets a disconnected worker and its room; returns the closing of the browsers bound
    /// to it and the new games list for the others.
    pub fn cleanup_worker(&mut self, worker_id: &str) -> (ds: Vec<Delivery>)
        requires
            old(self).wf(),
        ensures
            final(self).wf(),
            final(self)@ == (AppStateView { registry: spec_unregister_worker(old(self)@.registry, worker_id@), ..old(self)@ }),
            worker_gone_events(old(self)@, worker_id@, dview(ds@)),
    {
        let ghost s0 = self@;
        let dropped = self.registry.unregister_worker(worker_id);
        let ghost ks = dropped.clients_to_close.deep_view();
        let mut out: Vec<Delivery> = Vec::new();
        let mut i: usize = 0;
        while i < dropped.clients_to_close.len()
            invariant
                i <= dropped.clients_to_close.len(),
                ks == dropped.clients_to_close.deep_view(),
                dview(out@) == close_each(ks.subrange(0, i as int)),
            decreases dropped.clients_to_close.len() - i,
        {
            assert(ks[i as int] == dropped.clients_to_close@[i as int]@);
            out.push(Delivery { to: Peer::Client(dropped.clients_to_close[i].clone()), event: OutboundEvent::Close });
            assert(close_each(ks.subrange(0, i + 1)) =~= close_each(ks.subrange(0, i as int)).push(
                DeliveryView { to: PeerView::Client(ks[i as int]), event: OutboundEventView::Close },
            ));
            i = i + 1;
            assert(dview(out@) =~= close_each(ks.subrange(0, i as int)));
        }
        assert(ks.subrange(0, i as int) =~= ks);
        let payload = self.registry.games_payload(self.dedupe_rooms_by_game);
        let mut rest = self.broadcast_to_clients(&games_message(payload));
        let ghost closed_part = dview(out@);
        let ghost rest_part = dview(rest@);
        out.append(&mut rest);
        proof {
            assert(dview(out@) =~= closed_part + rest_part);
            assert(worker_gone_witness(s0, worker_id@, dview(out@), ks, rest_part));
        }
        out
    }
}

impl AppState {
    /// What a browser is sent when it connects: the games list, then the player count of
    /// every room, each room once.
    pub fn browser_initial_state(&self) -> (ms: Vec<SignalMessage>)
        requires
            self.wf(),
        ensures
            ms@.len() == 1 + self@.registry.player_counts.len(),
            ms@[0]@ == games_msg(self@.registry, self@.dedupe_rooms_by_game),
            forall|i: int, j: int| 1 <= i < j < ms@.len() ==> ms@[i]@.session_id != ms@[j]@.session_id,
            forall|i: int|
                #![trigger ms@[i]]
                1 <= i < ms@.len() ==> {
                    &&& ms@[i]@.session_id matches Some(w)
                    &&& self@.registry.player_counts.contains_key(w)
                    &&& ms@[i]@ == msg(
                        ids::UPDATE_PLAYER_COUNT@,
                        Some(decimal(self@.registry.player_counts[w] as nat)),
                        Some(w),
                    )
                },
    {
        let mut ms: Vec<SignalMessage> = Vec::new();
        let payload = self.registry.games_payload(self.dedupe_rooms_by_game);
        ms.push(games_message(payload));
        let counts = self.registry.player_counts_snapshot();
        let mut i: usize = 0;
        while i < counts.len()
            invariant
                self.wf(),
                i <= counts.len(),
                counts@.len() == self@.registry.player_counts.len(),
                forall|a: int, b: int| 0 <= a < b < counts@.len() ==> counts@[a].0@ != counts@[b].0@,
                forall|a: int|
                    #![trigger counts@[a]]
                    0 <= a < counts@.len() ==> self@.registry.player_counts.contains_key(counts@[a].0@)
                        && self@.registry.player_counts[counts@[a].0@] == counts@[a].1,
                ms@.len() == 1 + i,
                ms@[0]@ == games_msg(self@.registry, self@.dedupe_rooms_by_game),
                forall|a: int|
                    #![trigger ms@[a]]
                    1 <= a < ms@.len() ==> ms@[a]@ == msg(
                        ids::UPDATE_PLAYER_COUNT@,
                        Some(decimal(counts@[a - 1].1 as nat)),
                        Some(counts@[a - 1].0@),
                    ),
            decreases counts.len() - i,
        {
            let (w, n) = (&counts[i].0, counts[i].1);
            ms.push(update_player_count_message(w.clone(), n));
            i = i + 1;
        }
        proof {
            assert forall|a: int, b: int| 1 <= a < b < ms@.len() implies ms@[a]@.session_id != ms@[b]@.session_id by {
                assert(ms@[a]@.session_id == Some(counts@[a - 1].0@));
                assert(ms@[b]@.session_id == Some(counts@[b - 1].0@));
            }
            assert forall|a: int|
                #![trigger ms@[a]]
                1 <= a < ms@.len() implies {
                    &&& ms@[a]@.session_id matches Some(w)
                    &&& self@.registry.player_counts.contains_key(w)
                    &&& ms@[a]@ == msg(
                        ids::UPDATE_PLAYER_COUNT@,
                        Some(decimal(self@.registry.player_counts[w] as nat)),
                        Some(w),
                    )
                } by {
                assert(counts@[a - 1] == counts@[a - 1]);
            }
        }
        ms
    }
}

/// The snapshot of the lobby a browser may fetch: the listed games and every room's player
/// count.
pub open spec fn snapshot_text(r: RegistryView, dedupe: bool) -> Seq<char> {
    json_object_text(
        Map::empty().insert("games"@, JsonMemberView::Raw(json_object_text(listed_games(r, dedupe)))).insert(
            "playerCountsByRoom"@,
            JsonMemberView::Raw(json_object_text(counts_members(r.player_counts))),
        ),
    )
}

impl AppState {
    /// The lobby snapshot as JSON: `games` and `playerCountsByRoom`.
    pub fn browser_snapshot_payload(&self) -> (p: String)
        requires
            self.wf(),
        ensures
            p@ == snapshot_text(self@.registry, self@.dedupe_rooms_by_game),
    {
        let games = self.registry.games_payload(self.dedupe_rooms_by_game);
        let counts = self.registry.player_counts_fields();
        let counts_text = json_object_to_string(&counts);
        let ghost g = games@;
        let ghost c = counts_text@;
        let mut fields: Vec<(String, JsonMember)> = Vec::new();
        fields.push(("games".to_owned(), JsonMember::Raw(games)));
        fields.push(("playerCountsByRoom".to_owned(), JsonMember::Raw(counts_text)));
        proof {
            let f = fields_view(fields@);
            assert(f.len() == 2);
            assert(f[0] == ("games"@, JsonMemberView::Raw(g)));
            assert(f[1] == ("playerCountsByRoom"@, JsonMemberView::Raw(c)));
            assert(f.drop_last().drop_last() =~= Seq::<(Seq<char>, JsonMemberView)>::empty());
            reveal_with_fuel(fields_map, 3);
            assert(fields_map(f) =~= Map::empty().insert("games"@, JsonMemberView::Raw(g)).insert(
                "playerCountsByRoom"@,
                JsonMemberView::Raw(c),
            ));
        }
        json_object_to_string(&fields)
    }
}

/// The two kinds of peer that connect to the signal server.
#[derive(Debug, Clone, Copy, PartialEq, Eq, Structural)]
pub enum PeerRole {
    Browser,
    Worker,
}

impl PeerRole {
    /// How the peer is named in the server's log.
    pub fn label(self) -> (r: &'static str)
        ensures
            r@ == (match self {
                PeerRole::Browser => "browser client"@,
                PeerRole::Worker => "worker client"@,
            }),
    {
        match self {
            PeerRole::Browser => "browser client",
            PeerRole::Worker => "worker client",
        }
    }
}

/// A peer's session id, from the clock reading `nanos` (nanoseconds since the epoch) and the
/// sequence number `seq`: both in lower-case hexadecimal, joined by a hyphen.
pub fn next_session_id(nanos: u128, seq: u64) -> (id: String)
    ensures
        id@ == hex(nanos as nat).push('-') + hex(seq as nat),
{
    let mut v = hex_chars(nanos);
    v.push('-');
    let tail = hex_chars(seq as u128);
    let ghost head = v@;
    let mut i: usize = 0;
    while i < tail.len()
        invariant
            i <= tail.len(),
            v@ == head + tail@.subrange(0, i as int),
        decreases tail.len() - i,
    {
        v.push(tail[i]);
        i = i + 1;
        assert(v@ =~= head + tail@.subrange(0, i as int));
    }
    assert(tail@.subrange(0, i as int) =~= tail@);
    string_from_chars(&v)
}

/// `closed` and `rest` witness the events of a worker's departure.
spec fn worker_gone_witness(
    s: AppStateView,
    w: Seq<char>,
    ds: Seq<DeliveryView>,
    closed: Seq<Seq<char>>,
    rest: Seq<DeliveryView>,
) -> bool {
    let r2 = spec_unregister_worker(s.registry, w);
    closed.no_duplicates() && closed.to_set() == bound_to(s.registry.bindings, w).intersect(s.registry.clients)
        && is_broadcast(r2, games_msg(r2, s.dedupe_rooms_by_game), rest) && ds == close_each(closed) + rest
}

/// `(worker, session)` pairs seen through the strings' contents.
pub open spec fn terminations_view(ts: Seq<(String, String)>) -> Seq<(Seq<char>, Seq<char>)> {
    ts.map_values(|p: (String, String)| (p.0@, p.1@))
}

/// The end of each `(worker, session)` pair's session, for its worker.
pub open spec fn to_each_termination(r: RegistryView, ts: Seq<(Seq<char>, Seq<char>)>) -> Seq<DeliveryView>
    decreases ts.len(),
{
    if ts.len() == 0 {
        Seq::empty()
    } else {
        to_each_termination(r, ts.drop_last()) + to_worker(
            r,
            ts.last().0,
            msg(ids::TERMINATE_SESSION@, None, Some(ts.last().1)),
        )
    }
}

/// Session ends listed as pairs are those of the controllers' routes.
proof fn lemma_terminations_of_routes(
    r: RegistryView,
    routes: Map<Seq<char>, RouteView>,
    ks: Seq<Seq<char>>,
    ts: Seq<(Seq<char>, Seq<char>)>,
)
    requires
        ts.len() == ks.len(),
        forall|i: int| 0 <= i < ts.len() ==> #[trigger] ts[i] == (routes[ks[i]].worker, ks[i]),
    ensures
        to_each_termination(r, ts) == to_each_route_worker(r, routes, ks),
    decreases ts.len(),
{
    if ts.len() > 0 {
        lemma_terminations_of_routes(r, routes, ks.drop_last(), ts.drop_last());
        assert(ts.last() == ts[ts.len() - 1]);
    }
}

/// `ids` witnesses that `ds` is a broadcast.
spec fn ds_broadcast_witness(r: RegistryView, m: SignalMessageView, ds: Seq<DeliveryView>, ids: Seq<Seq<char>>) -> bool {
    ids.no_duplicates() && ids.to_set() == r.clients && ds == to_each_client(r, ids, m)
}

/// A browser's relay to a worker reaches only the worker the browser is bound to once the
/// message is handled, and nothing else is sent.
pub proof fn law_relay_reaches_only_bound_worker(
    s: AppStateView,
    c: Seq<char>,
    w: Seq<char>,
    event: WorkerEventKind,
    data: Option<Seq<char>>,
    bind_client: bool,
    now: u64,
    nanos: u64,
)
    ensures
        ({
            let (s2, ds) = browser_effect(
                s,
                c,
                BrowserCommandView::ForwardToWorker { worker_id: w, event, data, bind_client },
                now,
                nanos,
            );
            &&& ds.len() <= 1
            &&& ds.len() == 1 ==> ds[0].to == PeerView::Worker(w) && is_bound(s2.registry, c, w)
                && s2.registry.workers.contains(w)
        }),
{
}

/// A browser that is not bound to a worker cannot relay to it: nothing is sent and nothing
/// changes.
pub proof fn law_unbound_relay_is_dropped(
    s: AppStateView,
    c: Seq<char>,
    w: Seq<char>,
    event: WorkerEventKind,
    data: Option<Seq<char>>,
    now: u64,
    nanos: u64,
)
    requires
        !is_bound(s.registry, c, w),
    ensures
        browser_effect(
            s,
            c,
            BrowserCommandView::ForwardToWorker { worker_id: w, event, data, bind_client: false },
            now,
            nanos,
        ) == (s, Seq::<DeliveryView>::empty()),
{
}

/// A bound browser's relay reaches its connected worker, tagged with the browser's id.
pub proof fn law_bound_relay_is_forwarded(
    s: AppStateView,
    c: Seq<char>,
    w: Seq<char>,
    event: WorkerEventKind,
    data: Option<Seq<char>>,
    now: u64,
    nanos: u64,
)
    requires
        is_bound(s.registry, c, w),
        s.registry.workers.contains(w),
    ensures
        browser_effect(
            s,
            c,
            BrowserCommandView::ForwardToWorker { worker_id: w, event, data, bind_client: false },
            now,
            nanos,
        ) == (s, seq![DeliveryView {
            to: PeerView::Worker(w),
            event: OutboundEventView::Message(msg(worker_event_id(event), data, Some(c))),
        }]),
{
}

/// A browser cannot bind itself to a worker that is not connected: nothing is sent and
/// nothing changes.
pub proof fn law_bind_to_unknown_worker_is_refused(
    s: AppStateView,
    c: Seq<char>,
    w: Seq<char>,
    event: WorkerEventKind,
    data: Option<Seq<char>>,
    now: u64,
    nanos: u64,
)
    requires
        !s.registry.workers.contains(w),
    ensures
        browser_effect(
            s,
            c,
            BrowserCommandView::ForwardToWorker { worker_id: w, event, data, bind_client: true },
            now,
            nanos,
        ) == (s, Seq::<DeliveryView>::empty()),
{
}

/// Only a browser bound to a worker can host controllers for it; otherwise nothing is
/// sent and nothing changes. A bound, connected browser is sent exactly its join code, a
/// join code of six digits.
pub proof fn law_controller_host_requires_binding(s: AppStateView, c: Seq<char>, w: Seq<char>, now: u64, nanos: u64)
    requires
        codes_are_join_codes(s.controllers),
    ensures
        !is_bound(s.registry, c, w) ==> browser_effect(s, c, BrowserCommandView::ControllerHost { worker_id: w }, now, nanos)
            == (s, Seq::<DeliveryView>::empty()),
        is_bound(s.registry, c, w) && s.registry.clients.contains(c) ==> ({
            let code = spec_register_host(s.controllers, c, w, now, nanos).1;
            &&& is_join_code(code)
            &&& browser_effect(s, c, BrowserCommandView::ControllerHost { worker_id: w }, now, nanos).1 == seq![
                DeliveryView {
                    to: PeerView::Client(c),
                    event: OutboundEventView::Message(
                        msg(ids::CONTROLLER_READY@, Some(ready_payload(code, w)), None),
                    ),
                },
            ]
        }),
{
    law_registration_hands_out_join_codes(s.controllers, c, w, now, nanos);
}

/// A browser bound to one worker cannot end a session on another: nothing is sent and the
/// binding stays.
pub proof fn law_mismatched_terminate_is_refused(s: AppStateView, c: Seq<char>, w: Seq<char>, now: u64, nanos: u64)
    requires
        s.registry.bindings.contains_key(c),
        s.registry.bindings[c] != w,
    ensures
        browser_effect(s, c, BrowserCommandView::TerminateSession { worker_id: Some(w) }, now, nanos) == (
            s,
            Seq::<DeliveryView>::empty(),
        ),
{
}

/// A browser that ends its session is unbound, and its worker is told.
pub proof fn law_terminate_unbinds(s: AppStateView, c: Seq<char>, now: u64, nanos: u64)
    requires
        s.registry.bindings.contains_key(c),
    ensures
        ({
            let w = s.registry.bindings[c];
            let (s2, ds) = browser_effect(s, c, BrowserCommandView::TerminateSession { worker_id: None }, now, nanos);
            &&& !s2.registry.bindings.contains_key(c)
            &&& ds == to_worker(s.registry, w, msg(ids::TERMINATE_SESSION@, None, Some(c)))
        }),
{
}

} // verus!
