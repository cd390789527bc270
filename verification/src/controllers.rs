//! Phone-as-controller pairing: a host browser gets a short join code, controller
//! browsers join with it, and their input is routed to the host's worker.
use vstd::prelude::*;

use crate::registry::lemma_prefix_set_push;
use crate::strmap::StrMap;
use crate::text::{all_digits, lemma_digits_trim, lemma_padded_shape, pow10, decimal_padded, is_all_digits, is_digit, str_eq, to_uppercase, trim_seq, trim_str, u64_to_padded_string, uppercase};

verus! {

/// How long a join code stays valid, in seconds.
pub const JOIN_CODE_TTL_SECS: u64 = 900;

/// How long a join code stays valid, in milliseconds.
pub const JOIN_CODE_TTL_MS: u64 = 900000;

/// Join codes are this many digits long.
pub const JOIN_CODE_DIGITS: usize = 6;

/// The highest join code handed out before falling back to a clock-derived one.
pub const MAX_SEQUENTIAL_CODE: u64 = 9999;

/// Where a join code leads: the host browser, its worker, and when the code expires.
pub struct HostRegistration {
    pub host_client_id: String,
    pub worker_id: String,
    pub expires_at: u64,
}

/// Where a controller's input goes: its host browser and the host's worker.
pub struct ControllerRoute {
    pub host_client_id: String,
    pub worker_id: String,
}

/// The host and worker a controller joined.
pub struct ControllerJoinTarget {
    pub host_client_id: String,
    pub worker_id: String,
}

/// What a departing browser leaves to be announced.
pub struct ControllerCleanup {
    /// The host to tell that its controller left.
    pub notify_host: Option<String>,
    /// The controllers to tell that their host left.
    pub notify_controllers: Vec<String>,
    /// `(worker, controller)` sessions to terminate.
    pub worker_terminations: Vec<(String, String)>,
}

/// The content of a [`HostRegistration`].
pub struct RegistrationView {
    pub host: Seq<char>,
    pub worker: Seq<char>,
    pub expires_at: u64,
}

/// The content of a [`ControllerRoute`].
pub struct RouteView {
    pub host: Seq<char>,
    pub worker: Seq<char>,
}

pub open spec fn reg_view(r: HostRegistration) -> RegistrationView {
    RegistrationView { host: r.host_client_id@, worker: r.worker_id@, expires_at: r.expires_at }
}

pub open spec fn route_view(r: ControllerRoute) -> RouteView {
    RouteView { host: r.host_client_id@, worker: r.worker_id@ }
}

/// The pairing state.
pub struct ControllerState {
    code_to_host: StrMap<HostRegistration>,
    host_to_code: StrMap<String>,
    controller_to_host: StrMap<ControllerRoute>,
}

/// The mathematical content of the pairing state.
pub struct ControllersView {
    /// Join code to its registration.
    pub codes: Map<Seq<char>, RegistrationView>,
    /// Host browser to its join code.
    pub host_to_code: Map<Seq<char>, Seq<char>>,
    /// Controller browser to its route.
    pub routes: Map<Seq<char>, RouteView>,
}

impl View for ControllerState {
    type V = ControllersView;

    closed spec fn view(&self) -> ControllersView {
        ControllersView {
            codes: self.code_to_host@.map_values(|r: HostRegistration| reg_view(r)),
            host_to_code: self.host_to_code@.map_values(|s: String| s@),
            routes: self.controller_to_host@.map_values(|r: ControllerRoute| route_view(r)),
        }
    }
}

/// `a + b`, or the largest `u64` when that does not fit.
pub open spec fn saturating_add(a: u64, b: u64) -> u64 {
    if a + b > u64::MAX {
        u64::MAX
    } else {
        (a + b) as u64
    }
}

/// Every route of `host` now leads to `worker`.
pub open spec fn spec_refresh(routes: Map<Seq<char>, RouteView>, host: Seq<char>, worker: Seq<char>) -> Map<
    Seq<char>,
    RouteView,
> {
    routes.map_values(
        |r: RouteView|
            if r.host == host {
                RouteView { host: r.host, worker }
            } else {
                r
            },
    )
}

/// The codes that have expired by `now`.
pub open spec fn expired(codes: Map<Seq<char>, RegistrationView>, now: u64) -> Set<Seq<char>> {
    Set::new(|c: Seq<char>| codes.contains_key(c) && codes[c].expires_at <= now)
}

/// The hosts whose current code is among `gone` and registered to them.
pub open spec fn hosts_of(v: ControllersView, gone: Set<Seq<char>>) -> Set<Seq<char>> {
    Set::new(
        |h: Seq<char>|
            v.host_to_code.contains_key(h) && gone.contains(v.host_to_code[h]) && v.codes[v.host_to_code[h]].host
                == h,
    )
}

/// The pairing state once the codes expired by `now` are dropped.
pub open spec fn spec_prune(v: ControllersView, now: u64) -> ControllersView {
    let gone = expired(v.codes, now);
    ControllersView {
        codes: v.codes.remove_keys(gone),
        host_to_code: v.host_to_code.remove_keys(hosts_of(v, gone)),
        routes: v.routes,
    }
}

/// The text of join code number `raw`: six digits.
pub open spec fn code_text(raw: nat) -> Seq<char> {
    decimal_padded(raw, JOIN_CODE_DIGITS as nat)
}

/// The smallest code number from `raw` up to the last sequential one that is not in use.
pub open spec fn first_free(codes: Map<Seq<char>, RegistrationView>, raw: nat) -> Option<nat>
    decreases MAX_SEQUENTIAL_CODE + 1 - raw,
{
    if raw > MAX_SEQUENTIAL_CODE {
        None
    } else if !codes.contains_key(code_text(raw)) {
        Some(raw)
    } else {
        first_free(codes, raw + 1)
    }
}

/// The code a new registration gets: the smallest free sequential code, else one derived
/// from the clock reading `nanos`.
pub open spec fn spec_next_code(codes: Map<Seq<char>, RegistrationView>, nanos: u64) -> Seq<char> {
    match first_free(codes, 1) {
        Some(r) => code_text(r),
        None => code_text((nanos % 1000000) as nat),
    }
}

/// Registering `host` on `worker` at time `now`: the new state and the host's code.
pub open spec fn spec_register_host(
    v: ControllersView,
    host: Seq<char>,
    worker: Seq<char>,
    now: u64,
    nanos: u64,
) -> (ControllersView, Seq<char>) {
    let p = spec_prune(v, now);
    let exp = saturating_add(now, JOIN_CODE_TTL_MS);
    if p.host_to_code.contains_key(host) && p.codes.contains_key(p.host_to_code[host]) {
        let c = p.host_to_code[host];
        (
            ControllersView {
                codes: p.codes.insert(c, RegistrationView { host: p.codes[c].host, worker, expires_at: exp }),
                host_to_code: p.host_to_code,
                routes: spec_refresh(p.routes, host, worker),
            },
            c,
        )
    } else {
        let c = spec_next_code(p.codes, nanos);
        (
            ControllersView {
                codes: p.codes.insert(c, RegistrationView { host, worker, expires_at: exp }),
                host_to_code: p.host_to_code.remove(host).insert(host, c),
                routes: spec_refresh(p.routes, host, worker),
            },
            c,
        )
    }
}

/// A join code as typed, made comparable: trimmed, and upper-cased unless it is all digits
/// (digits have no case).
pub open spec fn normalized_code(code: Seq<char>) -> Seq<char> {
    let t = trim_seq(code);
    if all_digits(t) {
        t
    } else {
        uppercase(t)
    }
}

/// Joining with `code` as `controller` at time `now`: the new state and the route, or why not.
pub open spec fn spec_join(v: ControllersView, controller: Seq<char>, code: Seq<char>, now: u64) -> (
    ControllersView,
    Result<RouteView, Seq<char>>,
) {
    let n = normalized_code(code);
    if n.len() == 0 {
        (v, Err("missing-code"@))
    } else {
        let p = spec_prune(v, now);
        if p.codes.contains_key(n) {
            let t = RouteView { host: p.codes[n].host, worker: p.codes[n].worker };
            (ControllersView { routes: p.routes.insert(controller, t), ..p }, Ok(t))
        } else {
            (p, Err("invalid-code"@))
        }
    }
}

/// The controllers of host `h`.
pub open spec fn controllers_of(routes: Map<Seq<char>, RouteView>, h: Seq<char>) -> Set<Seq<char>> {
    Set::new(|c: Seq<char>| routes.contains_key(c) && routes[c].host == h)
}

/// The pairing state after browser `client` left.
pub open spec fn spec_cleanup(v: ControllersView, client: Seq<char>) -> ControllersView {
    if v.routes.contains_key(client) {
        ControllersView { routes: v.routes.remove(client), ..v }
    } else {
        let codes = if v.host_to_code.contains_key(client) {
            v.codes.remove(v.host_to_code[client])
        } else {
            v.codes
        };
        ControllersView {
            codes,
            host_to_code: v.host_to_code.remove(client),
            routes: v.routes.remove_keys(controllers_of(v.routes, client)),
        }
    }
}

fn clone_reg(r: &HostRegistration) -> (c: HostRegistration)
    ensures
        reg_view(c) == reg_view(*r),
{
    HostRegistration {
        host_client_id: r.host_client_id.clone(),
        worker_id: r.worker_id.clone(),
        expires_at: r.expires_at,
    }
}

fn clone_route(r: &ControllerRoute) -> (c: ControllerRoute)
    ensures
        route_view(c) == route_view(*r),
{
    ControllerRoute { host_client_id: r.host_client_id.clone(), worker_id: r.worker_id.clone() }
}

impl ControllerState {
    /// The maps are well formed.
    pub closed spec fn wf(&self) -> bool {
        &&& self.code_to_host.wf()
        &&& self.host_to_code.wf()
        &&& self.controller_to_host.wf()
    }

    /// No codes, hosts or controllers.
    pub fn new() -> (s: Self)
        ensures
            s.wf(),
            s@ == (ControllersView { codes: Map::empty(), host_to_code: Map::empty(), routes: Map::empty() }),
    {
        let s = ControllerState {
            code_to_host: StrMap::new(),
            host_to_code: StrMap::new(),
            controller_to_host: StrMap::new(),
        };
        assert(s@.codes =~= Map::empty());
        assert(s@.host_to_code =~= Map::empty());
        assert(s@.routes =~= Map::empty());
        s
    }

    /// Points every controller of `host_client_id` at `worker_id`.
    pub fn refresh_controller_routes(&mut self, host_client_id: &str, worker_id: &str)
        requires
            old(self).wf(),
        ensures
            final(self).wf(),
            final(self)@ == (ControllersView {
                routes: spec_refresh(old(self)@.routes, host_client_id@, worker_id@),
                ..old(self)@
            }),
    {
        let ghost r0 = self.controller_to_host@;
        proof {
            self.controller_to_host.lemma_view();
        }
        let n = self.controller_to_host.len();
        let mut i: usize = 0;
        while i < n
            invariant
                self.wf(),
                old(self).wf(),
                n == self.controller_to_host.key_order().len(),
                i <= n,
                self.controller_to_host.key_order() == old(self).controller_to_host.key_order(),
                self.code_to_host == old(self).code_to_host,
                self.host_to_code == old(self).host_to_code,
                r0 == old(self).controller_to_host@,
                self.controller_to_host@.dom() == r0.dom(),
                forall|k: Seq<char>| #[trigger] self.controller_to_host@.contains_key(k) ==> {
                    let j = old(self).controller_to_host.key_order().index_of(k);
                    if j < i {
                        route_view(self.controller_to_host@[k]) == (if route_view(r0[k]).host
                            == host_client_id@ {
                            RouteView { host: route_view(r0[k]).host, worker: worker_id@ }
                        } else {
                            route_view(r0[k])
                        })
                    } else {
                        self.controller_to_host@[k] == r0[k]
                    }
                },
            decreases n - i,
        {
            proof {
                self.controller_to_host.lemma_view();
                old(self).controller_to_host.lemma_view();
            }
            let key = self.controller_to_host.key_at(i).clone();
            let route = clone_route(self.controller_to_host.val_at(i));
            let ghost ki = key@;
            proof {
                old(self).controller_to_host.lemma_position(ki);
                assert(old(self).controller_to_host.key_order()[i as int] == ki);
                crate::strmap::lemma_index_unique(old(self).controller_to_host.key_order(), i as int);
            }
            if str_eq(route.host_client_id.as_str(), host_client_id) {
                let updated = ControllerRoute {
                    host_client_id: route.host_client_id,
                    worker_id: worker_id.to_owned(),
                };
                self.controller_to_host.insert(key, updated);
            }
            i = i + 1;
        }
        proof {
            self.controller_to_host.lemma_view();
            old(self).controller_to_host.lemma_view();
            assert forall|k: Seq<char>| #[trigger] self@.routes.contains_key(k) implies self@.routes[k]
                == spec_refresh(old(self)@.routes, host_client_id@, worker_id@)[k] by {
                old(self).controller_to_host.lemma_position(k);
            }
            assert(self@.routes =~= spec_refresh(old(self)@.routes, host_client_id@, worker_id@));
            assert(self@.codes =~= old(self)@.codes);
            assert(self@.host_to_code =~= old(self)@.host_to_code);
        }
    }
}

impl ControllerState {
    /// Drops the codes expired by `now`, and the hosts' pointers to them.
    pub fn prune_expired(&mut self, now: u64)
        requires
            old(self).wf(),
        ensures
            final(self).wf(),
            final(self)@ == spec_prune(old(self)@, now),
    {
        let ghost v0 = self@;
        proof {
            self.code_to_host.lemma_view();
        }
        let n = self.code_to_host.len();
        let mut marks: Vec<bool> = Vec::new();
        let mut i: usize = 0;
        while i < n
            invariant
                self.wf(),
                n == self.code_to_host.key_order().len(),
                n == self.code_to_host.values().len(),
                i <= n,
                marks@.len() == i,
                forall|j: int| 0 <= j < i ==> marks@[j] == (self.code_to_host.values()[j].expires_at <= now),
            decreases n - i,
        {
            let expires_at = self.code_to_host.val_at(i).expires_at;
            marks.push(expires_at <= now);
            i = i + 1;
        }
        let expired_codes = self.code_to_host.keys_marked(&marks);
        let ghost gone = expired(v0.codes, now);
        proof {
            assert forall|k: Seq<char>| #[trigger] expired_codes.deep_view().contains(k) <==> gone.contains(k) by {
                if self.code_to_host@.contains_key(k) {
                    self.code_to_host.lemma_position(k);
                }
            }
        }
        let mut j: usize = 0;
        while j < expired_codes.len()
            invariant
                self.wf(),
                j <= expired_codes.len(),
                expired_codes.deep_view().no_duplicates(),
                forall|k: Seq<char>| #[trigger] expired_codes.deep_view().contains(k) <==> gone.contains(k),
                gone == expired(v0.codes, now),
                self@.codes == v0.codes.remove_keys(expired_codes.deep_view().subrange(0, j as int).to_set()),
                self@.host_to_code == v0.host_to_code.remove_keys(
                    hosts_of(v0, expired_codes.deep_view().subrange(0, j as int).to_set()),
                ),
                self@.routes == v0.routes,
            decreases expired_codes.len() - j,
        {
            let ghost pre = expired_codes.deep_view().subrange(0, j as int).to_set();
            let ghost c = expired_codes.deep_view()[j as int];
            proof {
                lemma_prefix_set_push(expired_codes.deep_view(), j as int);
                assert(expired_codes.deep_view().contains(c));
            }
            let code = &expired_codes[j];
            let ghost before_codes = self@.codes;
            let ghost before_raw = self.code_to_host@;
            proof {
                assert(!pre.contains(c));
                assert(gone.contains(c));
                assert(before_codes.contains_key(c));
                assert(before_codes[c] == reg_view(before_raw[c]));
            }
            let removed = self.code_to_host.remove(code.as_str());
            let ghost mid_h2c = self@.host_to_code;
            match removed {
                Some(registration) => {
                    let ghost h = registration.host_client_id@;
                    let current = self.host_to_code.get(registration.host_client_id.as_str());
                    let matches = match current {
                        Some(cur) => str_eq(cur.as_str(), code.as_str()),
                        None => false,
                    };
                    proof {
                        if matches {
                            assert(mid_h2c.contains_key(h));
                            assert(mid_h2c[h] == c);
                        }
                        if v0.host_to_code.contains_key(h) && v0.host_to_code[h] == c {
                            assert(!hosts_of(v0, pre).contains(h));
                            assert(mid_h2c.contains_key(h));
                            assert(mid_h2c[h] == c);
                            assert(self.host_to_code@.contains_key(h));
                            assert(self.host_to_code@[h]@ == mid_h2c[h]);
                        }
                    }
                    if matches {
                        let _ = self.host_to_code.remove(registration.host_client_id.as_str());
                    }
                    proof {
                        let pre1 = pre.insert(c);
                        assert(reg_view(registration) == v0.codes[c]);
                        assert(self@.codes =~= before_codes.remove(c));
                        let cond = v0.host_to_code.contains_key(h) && v0.host_to_code[h] == c;
                        assert(hosts_of(v0, pre1) =~= (if cond {
                            hosts_of(v0, pre).insert(h)
                        } else {
                            hosts_of(v0, pre)
                        }));
                        if cond {
                            assert(!hosts_of(v0, pre).contains(h));
                            assert(matches);
                            assert(self@.host_to_code =~= mid_h2c.remove(h));
                        } else {
                            if matches {
                                assert(false);
                            }
                            assert(self@.host_to_code =~= mid_h2c);
                        }
                        assert(self@.host_to_code =~= v0.host_to_code.remove_keys(hosts_of(v0, pre1)));
                        assert(self@.codes =~= v0.codes.remove_keys(pre1));
                    }
                },
                None => {
                    proof {
                        assert(false);
                    }
                },
            }
            j = j + 1;
        }
        proof {
            assert(expired_codes.deep_view().subrange(0, j as int) =~= expired_codes.deep_view());
            assert(expired_codes.deep_view().to_set() =~= gone);
            assert(self@.codes =~= spec_prune(v0, now).codes);
            assert(self@.host_to_code =~= spec_prune(v0, now).host_to_code);
        }
    }

    /// The code a new registration gets.
    pub fn next_available_code(&self, nanos: u64) -> (code: String)
        requires
            self.wf(),
        ensures
            code@ == spec_next_code(self@.codes, nanos),
    {
        let mut raw: u64 = 1;
        while raw <= MAX_SEQUENTIAL_CODE
            invariant
                self.wf(),
                1 <= raw <= MAX_SEQUENTIAL_CODE + 1,
                first_free(self@.codes, 1) == first_free(self@.codes, raw as nat),
            decreases MAX_SEQUENTIAL_CODE + 1 - raw,
        {
            let code = u64_to_padded_string(raw, JOIN_CODE_DIGITS);
            if !self.code_to_host.contains_key(code.as_str()) {
                return code;
            }
            raw = raw + 1;
        }
        u64_to_padded_string(nanos % 1000000, JOIN_CODE_DIGITS)
    }
}

/// The controller pairing service of the signal server.
pub struct Controllers {
    inner: ControllerState,
}

impl View for Controllers {
    type V = ControllersView;

    closed spec fn view(&self) -> ControllersView {
        self.inner@
    }
}

/// What the browser `client` leaving is to announce, given the pairing state before.
pub open spec fn cleanup_announces(v: ControllersView, client: Seq<char>, c: ControllerCleanup) -> bool {
    if v.routes.contains_key(client) {
        &&& c.notify_host.deep_view() == Some(v.routes[client].host)
        &&& c.notify_controllers@.len() == 0
        &&& c.worker_terminations@.len() == 1
        &&& c.worker_terminations@[0].0@ == v.routes[client].worker
        &&& c.worker_terminations@[0].1@ == client
    } else {
        &&& c.notify_host is None
        &&& c.notify_controllers.deep_view().no_duplicates()
        &&& c.notify_controllers.deep_view().to_set() == controllers_of(v.routes, client)
        &&& c.worker_terminations@.len() == c.notify_controllers@.len()
        &&& forall|i: int|
            #![trigger c.worker_terminations@[i]]
            0 <= i < c.worker_terminations@.len() ==> c.worker_terminations@[i].1@
                == c.notify_controllers@[i]@ && c.worker_terminations@[i].0@ == v.routes[c.notify_controllers@[i]@].worker
    }
}

impl Controllers {
    /// The pairing state is well formed.
    pub closed spec fn wf(&self) -> bool {
        self.inner.wf()
    }

    /// No codes and no controllers.
    pub fn new() -> (c: Self)
        ensures
            c.wf(),
            c@ == (ControllersView { codes: Map::empty(), host_to_code: Map::empty(), routes: Map::empty() }),
    {
        Controllers { inner: ControllerState::new() }
    }

    /// Gives the host browser a join code for its worker, keeping the code it already holds
    /// while that is valid; its controllers follow it to the worker.
    pub fn register_host(&mut self, host_client_id: &str, worker_id: &str, now: u64, nanos: u64) -> (code: String)
        requires
            old(self).wf(),
        ensures
            final(self).wf(),
            (final(self)@, code@) == spec_register_host(old(self)@, host_client_id@, worker_id@, now, nanos),
    {
        self.inner.prune_expired(now);
        let expires_at = now.saturating_add(JOIN_CODE_TTL_MS);
        let existing = match self.inner.host_to_code.get(host_client_id) {
            Some(c) => Some(c.clone()),
            None => None,
        };
        if let Some(existing_code) = existing {
            let current = match self.inner.code_to_host.get(existing_code.as_str()) {
                Some(r) => Some(clone_reg(r)),
                None => None,
            };
            if let Some(registration) = current {
                self.inner.code_to_host.insert(
                    existing_code.clone(),
                    HostRegistration {
                        host_client_id: registration.host_client_id,
                        worker_id: worker_id.to_owned(),
                        expires_at,
                    },
                );
                self.inner.refresh_controller_routes(host_client_id, worker_id);
                proof {
                    let p = spec_prune(old(self)@, now);
                    assert(self@.codes =~= spec_register_host(old(self)@, host_client_id@, worker_id@, now, nanos).0.codes);
                }
                return existing_code;
            }
            let _ = self.inner.host_to_code.remove(host_client_id);
        }
        let ghost p = self@;
        let code = self.inner.next_available_code(nanos);
        self.inner.code_to_host.insert(
            code.clone(),
            HostRegistration { host_client_id: host_client_id.to_owned(), worker_id: worker_id.to_owned(), expires_at },
        );
        self.inner.host_to_code.insert(host_client_id.to_owned(), code.clone());
        self.inner.refresh_controller_routes(host_client_id, worker_id);
        proof {
            let sp = spec_prune(old(self)@, now);
            assert(self@.codes =~= spec_register_host(old(self)@, host_client_id@, worker_id@, now, nanos).0.codes);
            assert(self@.host_to_code =~= spec_register_host(old(self)@, host_client_id@, worker_id@, now, nanos).0.host_to_code);
        }
        code
    }

    /// Pairs the controller browser with the host holding `code`.
    pub fn join(&mut self, controller_client_id: &str, code: &str, now: u64) -> (r: Result<ControllerJoinTarget, &'static str>)
        requires
            old(self).wf(),
        ensures
            final(self).wf(),
            final(self)@ == spec_join(old(self)@, controller_client_id@, code@, now).0,
            match r {
                Ok(t) => spec_join(old(self)@, controller_client_id@, code@, now).1 == Ok::<RouteView, Seq<char>>(
                    RouteView { host: t.host_client_id@, worker: t.worker_id@ },
                ),
                Err(e) => spec_join(old(self)@, controller_client_id@, code@, now).1 == Err::<RouteView, Seq<char>>(e@),
            },
    {
        let trimmed = trim_str(code);
        let normalized = if is_all_digits(trimmed.as_str()) {
            trimmed
        } else {
            to_uppercase(trimmed.as_str())
        };
        if normalized.as_str().is_empty() {
            return Err("missing-code");
        }
        self.inner.prune_expired(now);
        let target = match self.inner.code_to_host.get(normalized.as_str()) {
            Some(registration) => ControllerJoinTarget {
                host_client_id: registration.host_client_id.clone(),
                worker_id: registration.worker_id.clone(),
            },
            None => return Err("invalid-code"),
        };
        self.inner.controller_to_host.insert(
            controller_client_id.to_owned(),
            ControllerRoute {
                host_client_id: target.host_client_id.clone(),
                worker_id: target.worker_id.clone(),
            },
        );
        proof {
            assert(self@.routes =~= spec_join(old(self)@, controller_client_id@, code@, now).0.routes);
        }
        Ok(target)
    }

    /// The worker that input from the controller to the given host goes to, if the
    /// controller is paired with that host.
    pub fn worker_for_input(&self, controller_client_id: &str, host_client_id: &str) -> (r: Option<String>)
        requires
            self.wf(),
        ensures
            r.deep_view() == (if self@.routes.contains_key(controller_client_id@)
                && self@.routes[controller_client_id@].host == host_client_id@ {
                Some(self@.routes[controller_client_id@].worker)
            } else {
                None
            }),
    {
        match self.inner.controller_to_host.get(controller_client_id) {
            Some(route) => if str_eq(route.host_client_id.as_str(), host_client_id) {
                Some(route.worker_id.clone())
            } else {
                None
            },
            None => None,
        }
    }

    /// Forgets the browser as controller or as host, and says whom to tell.
    pub fn cleanup_peer(&mut self, client_id: &str) -> (c: ControllerCleanup)
        requires
            old(self).wf(),
        ensures
            final(self).wf(),
            final(self)@ == spec_cleanup(old(self)@, client_id@),
            cleanup_announces(old(self)@, client_id@, c),
    {
        let ghost v0 = self@;
        if let Some(route) = self.inner.controller_to_host.remove(client_id) {
            proof {
                assert(self@.routes =~= v0.routes.remove(client_id@));
            }
            let mut worker_terminations: Vec<(String, String)> = Vec::new();
            worker_terminations.push((route.worker_id, client_id.to_owned()));
            return ControllerCleanup {
                notify_host: Some(route.host_client_id),
                notify_controllers: Vec::new(),
                worker_terminations,
            };
        }
        if let Some(code) = self.inner.host_to_code.remove(client_id) {
            let _ = self.inner.code_to_host.remove(code.as_str());
        }
        proof {
            self.inner.controller_to_host.lemma_view();
        }
        let n = self.inner.controller_to_host.len();
        let mut marks: Vec<bool> = Vec::new();
        let mut i: usize = 0;
        while i < n
            invariant
                self.wf(),
                n == self.inner.controller_to_host.key_order().len(),
                n == self.inner.controller_to_host.values().len(),
                i <= n,
                marks@.len() == i,
                forall|j: int| 0 <= j < i ==> marks@[j] == (self.inner.controller_to_host.values()[j].host_client_id@ == client_id@),
            decreases n - i,
        {
            let host = str_eq(self.inner.controller_to_host.val_at(i).host_client_id.as_str(), client_id);
            marks.push(host);
            i = i + 1;
        }
        let controller_ids = self.inner.controller_to_host.keys_marked(&marks);
        let ghost r0 = self@.routes;
        let ghost ctrls = controllers_of(v0.routes, client_id@);
        proof {
            assert(r0 == v0.routes);
            assert forall|k: Seq<char>| #[trigger] controller_ids.deep_view().contains(k) <==> ctrls.contains(k) by {
                if self.inner.controller_to_host@.contains_key(k) {
                    self.inner.controller_to_host.lemma_position(k);
                }
            }
        }
        let mut worker_terminations: Vec<(String, String)> = Vec::new();
        let mut j: usize = 0;
        while j < controller_ids.len()
            invariant
                self.wf(),
                j <= controller_ids.len(),
                controller_ids.deep_view().no_duplicates(),
                forall|k: Seq<char>| #[trigger] controller_ids.deep_view().contains(k) <==> ctrls.contains(k),
                ctrls == controllers_of(r0, client_id@),
                self@.routes == r0.remove_keys(controller_ids.deep_view().subrange(0, j as int).to_set()),
                self@.codes == spec_cleanup(v0, client_id@).codes,
                self@.host_to_code == spec_cleanup(v0, client_id@).host_to_code,
                r0 == v0.routes,
                worker_terminations@.len() == j,
                forall|t: int| #![trigger worker_terminations@[t]] 0 <= t < j ==> worker_terminations@[t].1@
                    == controller_ids@[t]@ && worker_terminations@[t].0@ == r0[controller_ids@[t]@].worker,
            decreases controller_ids.len() - j,
        {
            let ghost c = controller_ids.deep_view()[j as int];
            let ghost pre = controller_ids.deep_view().subrange(0, j as int).to_set();
            proof {
                lemma_prefix_set_push(controller_ids.deep_view(), j as int);
                assert(controller_ids.deep_view().contains(c));
                assert(self@.routes.contains_key(c));
            }
            let ghost before = self@.routes;
            let controller_id = &controller_ids[j];
            match self.inner.controller_to_host.remove(controller_id.as_str()) {
                Some(route) => {
                    proof {
                        assert(route_view(route) == before[c]);
                        assert(self@.routes =~= before.remove(c));
                    }
                    worker_terminations.push((route.worker_id, controller_id.clone()));
                },
                None => {
                    proof {
                        assert(false);
                    }
                },
            }
            j = j + 1;
            proof {
                assert(self@.routes =~= r0.remove_keys(pre.insert(c)));
            }
        }
        proof {
            assert(controller_ids.deep_view().subrange(0, j as int) =~= controller_ids.deep_view());
            assert(controller_ids.deep_view().to_set() =~= ctrls);
            assert(self@.routes =~= spec_cleanup(v0, client_id@).routes);
        }
        ControllerCleanup { notify_host: None, notify_controllers: controller_ids, worker_terminations }
    }
}

/// Six ASCII digits: the shape of every join code.
pub open spec fn is_join_code(k: Seq<char>) -> bool {
    k.len() == JOIN_CODE_DIGITS && all_digits(k)
}

/// Every registered code is a join code.
pub open spec fn codes_are_join_codes(v: ControllersView) -> bool {
    forall|k: Seq<char>| #[trigger] v.codes.contains_key(k) ==> is_join_code(k)
}

proof fn lemma_code_text_is_join_code(raw: nat)
    requires
        raw < 1000000,
    ensures
        is_join_code(code_text(raw)),
{
    assert(pow10(6) == 1000000) by {
        reveal_with_fuel(pow10, 7);
    }
    lemma_padded_shape(raw, 6);
}

proof fn lemma_first_free_bounds(codes: Map<Seq<char>, RegistrationView>, raw: nat)
    ensures
        first_free(codes, raw) matches Some(r) ==> raw <= r <= MAX_SEQUENTIAL_CODE && !codes.contains_key(
            code_text(r),
        ),
    decreases MAX_SEQUENTIAL_CODE + 1 - raw,
{
    if raw <= MAX_SEQUENTIAL_CODE && codes.contains_key(code_text(raw)) {
        lemma_first_free_bounds(codes, raw + 1);
    }
}

/// A fresh code is a join code, and no registered code.
proof fn lemma_next_code_shape(codes: Map<Seq<char>, RegistrationView>, nanos: u64)
    ensures
        is_join_code(spec_next_code(codes, nanos)),
{
    lemma_first_free_bounds(codes, 1);
    match first_free(codes, 1) {
        Some(r) => lemma_code_text_is_join_code(r),
        None => lemma_code_text_is_join_code((nanos % 1000000) as nat),
    }
}

/// Registering a host hands out a join code, and keeps every registered code a join code.
pub proof fn law_registration_hands_out_join_codes(
    v: ControllersView,
    host: Seq<char>,
    worker: Seq<char>,
    now: u64,
    nanos: u64,
)
    requires
        codes_are_join_codes(v),
    ensures
        is_join_code(spec_register_host(v, host, worker, now, nanos).1),
        codes_are_join_codes(spec_register_host(v, host, worker, now, nanos).0),
{
    lemma_next_code_shape(spec_prune(v, now).codes, nanos);
}

/// Joining and leaving only ever drop codes, so every registered code stays a join code.
pub proof fn law_join_and_cleanup_keep_join_codes(v: ControllersView, client: Seq<char>, code: Seq<char>, now: u64)
    requires
        codes_are_join_codes(v),
    ensures
        codes_are_join_codes(spec_join(v, client, code, now).0),
        codes_are_join_codes(spec_cleanup(v, client)),
        codes_are_join_codes(spec_prune(v, now)),
{
}

/// A controller that joins with the code a host was handed, before the code expires, is
/// routed to the worker the host registered with.
pub proof fn law_join_reaches_registered_worker(
    v: ControllersView,
    host: Seq<char>,
    worker: Seq<char>,
    now: u64,
    nanos: u64,
    controller: Seq<char>,
    later: u64,
)
    requires
        codes_are_join_codes(v),
        now <= later,
        later < saturating_add(now, JOIN_CODE_TTL_MS),
    ensures
        ({
            let (v2, code) = spec_register_host(v, host, worker, now, nanos);
            let (v3, res) = spec_join(v2, controller, code, later);
            &&& res == Ok::<RouteView, Seq<char>>(RouteView { host: v2.codes[code].host, worker })
            &&& v3.routes.contains_key(controller)
            &&& v3.routes[controller].worker == worker
        }),
{
    law_registration_hands_out_join_codes(v, host, worker, now, nanos);
    let (v2, code) = spec_register_host(v, host, worker, now, nanos);
    lemma_digits_trim(code);
    assert(normalized_code(code) == code);
    assert(v2.codes.contains_key(code));
    assert(!expired(v2.codes, later).contains(code));
    assert(spec_prune(v2, later).codes.contains_key(code));
}

/// A host that registers again while its code is valid keeps that code, and every
/// controller paired with it follows it to the new worker.
pub proof fn law_reregistration_keeps_code(v: ControllersView, host: Seq<char>, worker: Seq<char>, now: u64, nanos: u64)
    requires
        spec_prune(v, now).host_to_code.contains_key(host),
        spec_prune(v, now).codes.contains_key(spec_prune(v, now).host_to_code[host]),
    ensures
        ({
            let (v2, code) = spec_register_host(v, host, worker, now, nanos);
            &&& code == v.host_to_code[host]
            &&& v2.codes[code].worker == worker
            &&& forall|c: Seq<char>|
                #![trigger v2.routes.contains_key(c)]
                v2.routes.contains_key(c) && v2.routes[c].host == host ==> v2.routes[c].worker == worker
            &&& forall|c: Seq<char>|
                #![trigger v2.routes.contains_key(c)]
                v2.routes.contains_key(c) && v2.routes[c].host != host ==> v2.routes[c] == v.routes[c]
        }),
{
}

/// After a browser leaves, it is nobody's controller; if it was not a controller itself,
/// nobody is its controller either.
pub proof fn law_departed_browser_has_no_routes(v: ControllersView, client: Seq<char>)
    ensures
        !spec_cleanup(v, client).routes.contains_key(client),
        !v.routes.contains_key(client) ==> forall|c: Seq<char>|
            #![trigger spec_cleanup(v, client).routes.contains_key(c)]
            spec_cleanup(v, client).routes.contains_key(c) ==> spec_cleanup(v, client).routes[c].host != client,
{
}

} // verus!
