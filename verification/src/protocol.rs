//! The signal server's reading of signaling messages: which command a browser or a
//! worker message carries, and the messages the server sends out.
use vstd::prelude::*;

use crate::ids;
use crate::message::{msg, SignalMessage, SignalMessageView};
use crate::json::{
    base64_decode, base64_decoded, base64_encode, b64_encode, fields_map, fields_view, json_object_text,
    json_object_to_string, json_text_document, parse_json_text, string_from_utf8, utf8_error_text, JsonDoc, JsonDocView,
    JsonMember, JsonMemberView, lemma_fields_map_absent, lemma_fields_map_has_key, lemma_fields_map_last_key,
    all_strings, law_base64_decodes_its_encoding,
};
use crate::text::{push_str, decimal, parse_usize, parses_as_usize, digits_value, str_eq, trim_seq, trim_str, u64_to_string, unsigned_digits,
    is_digit, lemma_decimal_reads_back, lemma_digits_trim};

use vstd::utf8::{decode_utf8, encode_utf8, valid_utf8};

verus! {

/// What the server hands a peer's connection: a message to send, or the request to close.
#[derive(Debug)]
pub enum OutboundEvent {
    Message(SignalMessage),
    Close,
}

/// The content of an [`OutboundEvent`].
pub enum OutboundEventView {
    Message(SignalMessageView),
    Close,
}

impl View for OutboundEvent {
    type V = OutboundEventView;

    open spec fn view(&self) -> OutboundEventView {
        match self {
            OutboundEvent::Message(m) => OutboundEventView::Message(m@),
            OutboundEvent::Close => OutboundEventView::Close,
        }
    }
}

/// Events a browser may relay to a worker.
#[derive(Debug, Clone, Copy, PartialEq, Eq, Structural)]
pub enum WorkerEventKind {
    InitWebrtc,
    Answer,
    Candidate,
    JoinRoom,
    Input,
}

/// The message id that carries a worker event.
pub open spec fn worker_event_id(k: WorkerEventKind) -> Seq<char> {
    match k {
        WorkerEventKind::InitWebrtc => ids::INIT_WEBRTC@,
        WorkerEventKind::Answer => ids::ANSWER@,
        WorkerEventKind::Candidate => ids::CANDIDATE@,
        WorkerEventKind::JoinRoom => ids::JOIN_ROOM@,
        WorkerEventKind::Input => ids::INPUT@,
    }
}

impl WorkerEventKind {
    /// The message id of this event.
    pub fn signal_id(self) -> (r: &'static str)
        ensures
            r@ == worker_event_id(self),
    {
        match self {
            WorkerEventKind::InitWebrtc => ids::INIT_WEBRTC,
            WorkerEventKind::Answer => ids::ANSWER,
            WorkerEventKind::Candidate => ids::CANDIDATE,
            WorkerEventKind::JoinRoom => ids::JOIN_ROOM,
            WorkerEventKind::Input => ids::INPUT,
        }
    }
}

/// Events a worker may relay to a browser.
#[derive(Debug, Clone, Copy, PartialEq, Eq, Structural)]
pub enum ClientEventKind {
    Offer,
    Candidate,
}

/// The message id that carries a client event.
pub open spec fn client_event_id(k: ClientEventKind) -> Seq<char> {
    match k {
        ClientEventKind::Offer => ids::OFFER@,
        ClientEventKind::Candidate => ids::CANDIDATE@,
    }
}

impl ClientEventKind {
    /// The message id of this event.
    pub fn signal_id(self) -> (r: &'static str)
        ensures
            r@ == client_event_id(self),
    {
        match self {
            ClientEventKind::Offer => ids::OFFER,
            ClientEventKind::Candidate => ids::CANDIDATE,
        }
    }
}

/// What a browser message asks the server to do.
#[derive(Debug)]
pub enum BrowserCommand {
    RequestGames,
    ForwardToWorker { worker_id: String, event: WorkerEventKind, data: Option<String>, bind_client: bool },
    TerminateSession { worker_id: Option<String> },
    ControllerHost { worker_id: String },
    ControllerJoin { code: String },
    ControllerInput { host_client_id: String, data: String },
    ControllerAudio { host_client_id: String, action: String },
}

/// The mathematical content of a [`BrowserCommand`].
pub enum BrowserCommandView {
    RequestGames,
    ForwardToWorker { worker_id: Seq<char>, event: WorkerEventKind, data: Option<Seq<char>>, bind_client: bool },
    TerminateSession { worker_id: Option<Seq<char>> },
    ControllerHost { worker_id: Seq<char> },
    ControllerJoin { code: Seq<char> },
    ControllerInput { host_client_id: Seq<char>, data: Seq<char> },
    ControllerAudio { host_client_id: Seq<char>, action: Seq<char> },
}

impl View for BrowserCommand {
    type V = BrowserCommandView;

    open spec fn view(&self) -> BrowserCommandView {
        match self {
            BrowserCommand::RequestGames => BrowserCommandView::RequestGames,
            BrowserCommand::ForwardToWorker { worker_id, event, data, bind_client } =>
                BrowserCommandView::ForwardToWorker {
                    worker_id: worker_id@,
                    event: *event,
                    data: data.deep_view(),
                    bind_client: *bind_client,
                },
            BrowserCommand::TerminateSession { worker_id } =>
                BrowserCommandView::TerminateSession { worker_id: worker_id.deep_view() },
            BrowserCommand::ControllerHost { worker_id } =>
                BrowserCommandView::ControllerHost { worker_id: worker_id@ },
            BrowserCommand::ControllerJoin { code } => BrowserCommandView::ControllerJoin { code: code@ },
            BrowserCommand::ControllerInput { host_client_id, data } =>
                BrowserCommandView::ControllerInput { host_client_id: host_client_id@, data: data@ },
            BrowserCommand::ControllerAudio { host_client_id, action } =>
                BrowserCommandView::ControllerAudio { host_client_id: host_client_id@, action: action@ },
        }
    }
}

/// What a worker message asks the server to do.
#[derive(Debug)]
pub enum WorkerCommand {
    GameInfo { game_name: Option<String> },
    ForwardToClient { client_id: String, event: ClientEventKind, data: Option<String> },
    UpdatePlayerCount { count: usize },
}

/// The mathematical content of a [`WorkerCommand`].
pub enum WorkerCommandView {
    GameInfo { game_name: Option<Seq<char>> },
    ForwardToClient { client_id: Seq<char>, event: ClientEventKind, data: Option<Seq<char>> },
    UpdatePlayerCount { count: usize },
}

impl View for WorkerCommand {
    type V = WorkerCommandView;

    open spec fn view(&self) -> WorkerCommandView {
        match self {
            WorkerCommand::GameInfo { game_name } =>
                WorkerCommandView::GameInfo { game_name: game_name.deep_view() },
            WorkerCommand::ForwardToClient { client_id, event, data } =>
                WorkerCommandView::ForwardToClient {
                    client_id: client_id@,
                    event: *event,
                    data: data.deep_view(),
                },
            WorkerCommand::UpdatePlayerCount { count } =>
                WorkerCommandView::UpdatePlayerCount { count: *count },
        }
    }
}

/// Why a signaling message was refused.
#[derive(Debug)]
pub enum ProtocolError {
    InvalidJson { reason: String },
    InvalidEnvelope,
    InvalidPayload { id: String, reason: String },
    UnknownBrowserMessage { id: String },
    UnknownWorkerMessage { id: String },
    MissingTarget { id: String },
    MissingPayload { id: String },
    InvalidPlayerCount { raw: Option<String> },
}

/// The mathematical content of a [`ProtocolError`].
pub enum ProtocolErrorView {
    InvalidJson { reason: Seq<char> },
    InvalidEnvelope,
    InvalidPayload { id: Seq<char>, reason: Seq<char> },
    UnknownBrowserMessage { id: Seq<char> },
    UnknownWorkerMessage { id: Seq<char> },
    MissingTarget { id: Seq<char> },
    MissingPayload { id: Seq<char> },
    InvalidPlayerCount { raw: Option<Seq<char>> },
}

impl View for ProtocolError {
    type V = ProtocolErrorView;

    open spec fn view(&self) -> ProtocolErrorView {
        match self {
            ProtocolError::InvalidJson { reason } => ProtocolErrorView::InvalidJson { reason: reason@ },
            ProtocolError::InvalidEnvelope => ProtocolErrorView::InvalidEnvelope,
            ProtocolError::InvalidPayload { id, reason } =>
                ProtocolErrorView::InvalidPayload { id: id@, reason: reason@ },
            ProtocolError::UnknownBrowserMessage { id } =>
                ProtocolErrorView::UnknownBrowserMessage { id: id@ },
            ProtocolError::UnknownWorkerMessage { id } =>
                ProtocolErrorView::UnknownWorkerMessage { id: id@ },
            ProtocolError::MissingTarget { id } => ProtocolErrorView::MissingTarget { id: id@ },
            ProtocolError::MissingPayload { id } => ProtocolErrorView::MissingPayload { id: id@ },
            ProtocolError::InvalidPlayerCount { raw } =>
                ProtocolErrorView::InvalidPlayerCount { raw: raw.deep_view() },
        }
    }
}

/// The text `{:?}` writes for an optional string (`Option<String>`'s `Debug`).
pub uninterp spec fn option_debug_text(raw: Option<Seq<char>>) -> Seq<char>;

/// Writes an optional string with `{:?}`, which depends on the value alone; what it writes
/// is left to the name.
#[verifier::external_body]
fn debug_text(raw: &Option<String>) -> (r: String)
    ensures
        r@ == option_debug_text(raw.deep_view()),
{
    format!("{:?}", raw)
}

/// The message that describes a refusal.
pub open spec fn protocol_error_text(e: ProtocolErrorView) -> Seq<char> {
    match e {
        ProtocolErrorView::InvalidJson { reason } => "invalid json payload: "@ + reason,
        ProtocolErrorView::InvalidEnvelope => "invalid signaling message envelope"@,
        ProtocolErrorView::InvalidPayload { id, reason } => "invalid payload for message '"@ + id + "': "@ + reason,
        ProtocolErrorView::UnknownBrowserMessage { id } => "unknown browser message id '"@ + id + "'"@,
        ProtocolErrorView::UnknownWorkerMessage { id } => "unknown worker message id '"@ + id + "'"@,
        ProtocolErrorView::MissingTarget { id } => "missing target for message '"@ + id + "'"@,
        ProtocolErrorView::MissingPayload { id } => "missing payload for message '"@ + id + "'"@,
        ProtocolErrorView::InvalidPlayerCount { raw } => "invalid player count payload '"@ + option_debug_text(raw)
            + "'"@,
    }
}

impl ProtocolError {
    /// The message that describes the refusal.
    pub fn message(&self) -> (m: String)
        ensures
            m@ == protocol_error_text(self@),
    {
        let (head, middle, tail): (&str, String, &str) = match self {
            ProtocolError::InvalidJson { reason } => ("invalid json payload: ", reason.clone(), ""),
            ProtocolError::InvalidEnvelope => ("invalid signaling message envelope", String::new(), ""),
            ProtocolError::InvalidPayload { id, reason } => {
                let mut m = id.clone();
                push_str(&mut m, "': ");
                push_str(&mut m, reason.as_str());
                ("invalid payload for message '", m, "")
            },
            ProtocolError::UnknownBrowserMessage { id } => ("unknown browser message id '", id.clone(), "'"),
            ProtocolError::UnknownWorkerMessage { id } => ("unknown worker message id '", id.clone(), "'"),
            ProtocolError::MissingTarget { id } => ("missing target for message '", id.clone(), "'"),
            ProtocolError::MissingPayload { id } => ("missing payload for message '", id.clone(), "'"),
            ProtocolError::InvalidPlayerCount { raw } => ("invalid player count payload '", debug_text(raw), "'"),
        };
        let mut m = head.to_owned();
        push_str(&mut m, middle.as_str());
        push_str(&mut m, tail);
        proof {
            reveal_strlit("");
        }
        m
    }
}

/// A result viewed through the views of its two sides.
pub open spec fn result_view<T: View, E: View>(r: Result<T, E>) -> Result<T::V, E::V> {
    match r {
        Ok(t) => Ok(t@),
        Err(e) => Err(e@),
    }
}

/// An optional value with surrounding whitespace removed, kept only when something remains.
pub open spec fn opt_trimmed(o: Option<Seq<char>>) -> Option<Seq<char>> {
    match o {
        Some(v) => if trim_seq(v).len() > 0 {
            Some(trim_seq(v))
        } else {
            None
        },
        None => None,
    }
}

/// The routing target of a message, trimmed; `None` when absent or blank.
pub fn optional_target(session_id: Option<String>) -> (r: Option<String>)
    ensures
        r.deep_view() == opt_trimmed(session_id.deep_view()),
{
    match session_id {
        Some(value) => {
            let trimmed = trim_str(value.as_str());
            if trimmed.as_str().is_empty() {
                None
            } else {
                Some(trimmed)
            }
        },
        None => None,
    }
}

/// The payload of a message, trimmed; `None` when absent or blank.
pub fn optional_payload(payload: Option<String>) -> (r: Option<String>)
    ensures
        r.deep_view() == opt_trimmed(payload.deep_view()),
{
    optional_target(payload)
}

/// The trimmed routing target, or `MissingTarget` for the message `id`.
pub fn required_target(id: &str, session_id: Option<String>) -> (r: Result<String, ProtocolError>)
    ensures
        result_view(r) == (match opt_trimmed(session_id.deep_view()) {
            Some(t) => Ok(t),
            None => Err(ProtocolErrorView::MissingTarget { id: id@ }),
        }),
{
    match optional_target(session_id) {
        Some(t) => Ok(t),
        None => Err(ProtocolError::MissingTarget { id: id.to_owned() }),
    }
}

/// The trimmed payload, or `MissingPayload` for the message `id`.
pub fn required_payload(id: &str, payload: Option<String>) -> (r: Result<String, ProtocolError>)
    ensures
        result_view(r) == (match opt_trimmed(payload.deep_view()) {
            Some(t) => Ok(t),
            None => Err(ProtocolErrorView::MissingPayload { id: id@ }),
        }),
{
    match optional_payload(payload) {
        Some(t) => Ok(t),
        None => Err(ProtocolError::MissingPayload { id: id.to_owned() }),
    }
}

/// A relay of `event` to the worker named by the message's target.
pub open spec fn spec_forward(m: SignalMessageView, event: WorkerEventKind, bind_client: bool) -> Result<
    BrowserCommandView,
    ProtocolErrorView,
> {
    match opt_trimmed(m.session_id) {
        Some(w) => Ok(
            BrowserCommandView::ForwardToWorker { worker_id: w, event, data: m.data, bind_client },
        ),
        None => Err(ProtocolErrorView::MissingTarget { id: m.id }),
    }
}

/// The command a browser message carries.
pub open spec fn spec_browser_command(m: SignalMessageView) -> Result<BrowserCommandView, ProtocolErrorView> {
    let target = opt_trimmed(m.session_id);
    let payload = opt_trimmed(m.data);
    if m.id == ids::GET_GAMES@ {
        Ok(BrowserCommandView::RequestGames)
    } else if m.id == ids::INIT_WEBRTC@ {
        spec_forward(m, WorkerEventKind::InitWebrtc, true)
    } else if m.id == ids::ANSWER@ {
        spec_forward(m, WorkerEventKind::Answer, false)
    } else if m.id == ids::CANDIDATE@ {
        spec_forward(m, WorkerEventKind::Candidate, false)
    } else if m.id == ids::JOIN_ROOM@ {
        spec_forward(m, WorkerEventKind::JoinRoom, true)
    } else if m.id == ids::INPUT@ {
        spec_forward(m, WorkerEventKind::Input, false)
    } else if m.id == ids::TERMINATE_SESSION@ {
        Ok(BrowserCommandView::TerminateSession { worker_id: target })
    } else if m.id == ids::CONTROLLER_HOST@ {
        match target {
            Some(w) => Ok(BrowserCommandView::ControllerHost { worker_id: w }),
            None => Err(ProtocolErrorView::MissingTarget { id: m.id }),
        }
    } else if m.id == ids::CONTROLLER_JOIN@ {
        match payload {
            Some(c) => Ok(BrowserCommandView::ControllerJoin { code: c }),
            None => Err(ProtocolErrorView::MissingPayload { id: m.id }),
        }
    } else if m.id == ids::CONTROLLER_INPUT@ {
        match (target, payload) {
            (None, _) => Err(ProtocolErrorView::MissingTarget { id: m.id }),
            (Some(_), None) => Err(ProtocolErrorView::MissingPayload { id: m.id }),
            (Some(h), Some(d)) => Ok(BrowserCommandView::ControllerInput { host_client_id: h, data: d }),
        }
    } else if m.id == ids::CONTROLLER_AUDIO@ {
        match (target, payload) {
            (None, _) => Err(ProtocolErrorView::MissingTarget { id: m.id }),
            (Some(_), None) => Err(ProtocolErrorView::MissingPayload { id: m.id }),
            (Some(h), Some(a)) => Ok(BrowserCommandView::ControllerAudio { host_client_id: h, action: a }),
        }
    } else {
        Err(ProtocolErrorView::UnknownBrowserMessage { id: m.id })
    }
}

fn forward(id: String, target: Option<String>, data: Option<String>, event: WorkerEventKind, bind_client: bool) -> (r: Result<BrowserCommand, ProtocolError>)
    ensures
        result_view(r) == spec_forward(msg(id@, data.deep_view(), target.deep_view()), event, bind_client),
{
    match required_target(id.as_str(), target) {
        Ok(worker_id) => Ok(BrowserCommand::ForwardToWorker { worker_id, event, data, bind_client }),
        Err(e) => Err(e),
    }
}

/// The message ids of the browser's and worker's signaling are told apart.
proof fn lemma_signal_ids_differ()
    ensures
        ids::GET_GAMES@ != ids::INIT_WEBRTC@,
        ids::GET_GAMES@ != ids::ANSWER@,
        ids::GET_GAMES@ != ids::CANDIDATE@,
        ids::GET_GAMES@ != ids::JOIN_ROOM@,
        ids::GET_GAMES@ != ids::INPUT@,
        ids::INIT_WEBRTC@ != ids::ANSWER@,
        ids::INIT_WEBRTC@ != ids::CANDIDATE@,
        ids::INIT_WEBRTC@ != ids::JOIN_ROOM@,
        ids::INIT_WEBRTC@ != ids::INPUT@,
        ids::ANSWER@ != ids::CANDIDATE@,
        ids::ANSWER@ != ids::JOIN_ROOM@,
        ids::ANSWER@ != ids::INPUT@,
        ids::CANDIDATE@ != ids::JOIN_ROOM@,
        ids::CANDIDATE@ != ids::INPUT@,
        ids::JOIN_ROOM@ != ids::INPUT@,
        ids::GAME_INFO@ != ids::OFFER@,
        ids::GAME_INFO@ != ids::CANDIDATE@,
        ids::OFFER@ != ids::CANDIDATE@,
{
    reveal_strlit("getGames");
    reveal_strlit("initwebrtc");
    reveal_strlit("answer");
    reveal_strlit("candidate");
    reveal_strlit("joinRoom");
    reveal_strlit("input");
    reveal_strlit("gameInfo");
    reveal_strlit("offer");
    assert(ids::GET_GAMES@.len() != ids::INIT_WEBRTC@.len());
    assert(ids::GET_GAMES@[0] != ids::JOIN_ROOM@[0]);
    assert(ids::ANSWER@.len() != ids::INIT_WEBRTC@.len());
    assert(ids::GAME_INFO@.len() != ids::OFFER@.len());
    assert(ids::CANDIDATE@.len() != ids::INPUT@.len());
}

/// A browser message is forwarded to a worker as the event its id names, to the worker its
/// target names, with its payload as it came, binding the browser to the worker only for a
/// session's start and a room join; and every such message with a target is forwarded. The
/// same holds of a worker message forwarded to a browser. The other browser commands come
/// from their own message id, and take their worker or host from the message's target and
/// their code, input or action from its payload.
pub proof fn law_forwards_keep_their_event(m: SignalMessageView)
    ensures
        spec_browser_command(m) matches Ok(BrowserCommandView::ForwardToWorker { worker_id, event, data, bind_client })
            ==> worker_event_id(event) == m.id && opt_trimmed(m.session_id) == Some(worker_id) && data == m.data
            && bind_client == (event == WorkerEventKind::InitWebrtc || event == WorkerEventKind::JoinRoom),
        spec_browser_command(m) matches Ok(BrowserCommandView::ControllerHost { worker_id }) ==> m.id
            == ids::CONTROLLER_HOST@ && opt_trimmed(m.session_id) == Some(worker_id),
        spec_browser_command(m) matches Ok(BrowserCommandView::ControllerJoin { code }) ==> m.id == ids::CONTROLLER_JOIN@
            && opt_trimmed(m.data) == Some(code),
        spec_browser_command(m) matches Ok(BrowserCommandView::ControllerInput { host_client_id, data }) ==> m.id
            == ids::CONTROLLER_INPUT@ && opt_trimmed(m.session_id) == Some(host_client_id) && opt_trimmed(m.data)
            == Some(data),
        spec_browser_command(m) matches Ok(BrowserCommandView::ControllerAudio { host_client_id, action }) ==> m.id
            == ids::CONTROLLER_AUDIO@ && opt_trimmed(m.session_id) == Some(host_client_id) && opt_trimmed(m.data)
            == Some(action),
        spec_browser_command(m) matches Ok(BrowserCommandView::TerminateSession { worker_id }) ==> m.id
            == ids::TERMINATE_SESSION@ && opt_trimmed(m.session_id) == worker_id,
        forall|k: WorkerEventKind|
            m.id == #[trigger] worker_event_id(k) && opt_trimmed(m.session_id) is Some ==> (spec_browser_command(m) matches
                Ok(BrowserCommandView::ForwardToWorker { event, .. }) && event == k),
        spec_worker_command(m) matches Ok(WorkerCommandView::ForwardToClient { client_id, event, data })
            ==> client_event_id(event) == m.id && opt_trimmed(m.session_id) == Some(client_id) && data == m.data,
        forall|k: ClientEventKind|
            m.id == #[trigger] client_event_id(k) && opt_trimmed(m.session_id) is Some ==> (spec_worker_command(m) matches
                Ok(WorkerCommandView::ForwardToClient { event, .. }) && event == k),
{
    lemma_signal_ids_differ();
}

/// Reads the command of a browser message.
pub fn parse_browser_command(req: SignalMessage) -> (r: Result<BrowserCommand, ProtocolError>)
    ensures
        result_view(r) == spec_browser_command(req@),
{
    let ghost m = req@;
    let SignalMessage { id, data, session_id: target_id } = req;
    if str_eq(id.as_str(), ids::GET_GAMES) {
        Ok(BrowserCommand::RequestGames)
    } else if str_eq(id.as_str(), ids::INIT_WEBRTC) {
        forward(id, target_id, data, WorkerEventKind::InitWebrtc, true)
    } else if str_eq(id.as_str(), ids::ANSWER) {
        forward(id, target_id, data, WorkerEventKind::Answer, false)
    } else if str_eq(id.as_str(), ids::CANDIDATE) {
        forward(id, target_id, data, WorkerEventKind::Candidate, false)
    } else if str_eq(id.as_str(), ids::JOIN_ROOM) {
        forward(id, target_id, data, WorkerEventKind::JoinRoom, true)
    } else if str_eq(id.as_str(), ids::INPUT) {
        forward(id, target_id, data, WorkerEventKind::Input, false)
    } else if str_eq(id.as_str(), ids::TERMINATE_SESSION) {
        Ok(BrowserCommand::TerminateSession { worker_id: optional_target(target_id) })
    } else if str_eq(id.as_str(), ids::CONTROLLER_HOST) {
        match required_target(id.as_str(), target_id) {
            Ok(worker_id) => Ok(BrowserCommand::ControllerHost { worker_id }),
            Err(e) => Err(e),
        }
    } else if str_eq(id.as_str(), ids::CONTROLLER_JOIN) {
        match required_payload(id.as_str(), data) {
            Ok(code) => Ok(BrowserCommand::ControllerJoin { code }),
            Err(e) => Err(e),
        }
    } else if str_eq(id.as_str(), ids::CONTROLLER_INPUT) {
        let host_client_id = match required_target(id.as_str(), target_id) {
            Ok(h) => h,
            Err(e) => return Err(e),
        };
        match required_payload(id.as_str(), data) {
            Ok(data) => Ok(BrowserCommand::ControllerInput { host_client_id, data }),
            Err(e) => Err(e),
        }
    } else if str_eq(id.as_str(), ids::CONTROLLER_AUDIO) {
        let host_client_id = match required_target(id.as_str(), target_id) {
            Ok(h) => h,
            Err(e) => return Err(e),
        };
        match required_payload(id.as_str(), data) {
            Ok(action) => Ok(BrowserCommand::ControllerAudio { host_client_id, action }),
            Err(e) => Err(e),
        }
    } else {
        Err(ProtocolError::UnknownBrowserMessage { id })
    }
}

/// A relay of `event` to the browser named by the message's target.
pub open spec fn spec_forward_client(m: SignalMessageView, event: ClientEventKind) -> Result<
    WorkerCommandView,
    ProtocolErrorView,
> {
    match opt_trimmed(m.session_id) {
        Some(c) => Ok(WorkerCommandView::ForwardToClient { client_id: c, event, data: m.data }),
        None => Err(ProtocolErrorView::MissingTarget { id: m.id }),
    }
}

/// The command a worker message carries.
pub open spec fn spec_worker_command(m: SignalMessageView) -> Result<WorkerCommandView, ProtocolErrorView> {
    if m.id == ids::GAME_INFO@ {
        Ok(WorkerCommandView::GameInfo { game_name: m.data })
    } else if m.id == ids::OFFER@ {
        spec_forward_client(m, ClientEventKind::Offer)
    } else if m.id == ids::CANDIDATE@ {
        spec_forward_client(m, ClientEventKind::Candidate)
    } else if m.id == ids::UPDATE_PLAYER_COUNT@ {
        match m.data {
            Some(d) => if parses_as_usize(trim_seq(d)) {
                Ok(
                    WorkerCommandView::UpdatePlayerCount {
                        count: digits_value(unsigned_digits(trim_seq(d))) as usize,
                    },
                )
            } else {
                Err(ProtocolErrorView::InvalidPlayerCount { raw: m.data })
            },
            None => Err(ProtocolErrorView::InvalidPlayerCount { raw: None }),
        }
    } else {
        Err(ProtocolErrorView::UnknownWorkerMessage { id: m.id })
    }
}

/// Reads the command of a worker message.
pub fn parse_worker_command(req: SignalMessage) -> (r: Result<WorkerCommand, ProtocolError>)
    ensures
        result_view(r) == spec_worker_command(req@),
{
    let SignalMessage { id, data, session_id: target_id } = req;
    if str_eq(id.as_str(), ids::GAME_INFO) {
        Ok(WorkerCommand::GameInfo { game_name: data })
    } else if str_eq(id.as_str(), ids::OFFER) || str_eq(id.as_str(), ids::CANDIDATE) {
        let event = if str_eq(id.as_str(), ids::OFFER) {
            ClientEventKind::Offer
        } else {
            ClientEventKind::Candidate
        };
        match required_target(id.as_str(), target_id) {
            Ok(client_id) => Ok(WorkerCommand::ForwardToClient { client_id, event, data }),
            Err(e) => Err(e),
        }
    } else if str_eq(id.as_str(), ids::UPDATE_PLAYER_COUNT) {
        match &data {
            Some(raw) => {
                let trimmed = trim_str(raw.as_str());
                match parse_usize(trimmed.as_str()) {
                    Some(count) => Ok(WorkerCommand::UpdatePlayerCount { count }),
                    None => Err(ProtocolError::InvalidPlayerCount { raw: data }),
                }
            },
            None => Err(ProtocolError::InvalidPlayerCount { raw: None }),
        }
    } else {
        Err(ProtocolError::UnknownWorkerMessage { id })
    }
}

/// The string member `key` of an object, trimmed; `None` when it is missing, not a string
/// or blank.
pub open spec fn str_member(m: Map<Seq<char>, JsonMemberView>, key: Seq<char>) -> Option<Seq<char>> {
    if m.contains_key(key) {
        match m[key] {
            JsonMemberView::Str(s) => opt_trimmed(Some(s)),
            JsonMemberView::Raw(_) => None,
        }
    } else {
        None
    }
}

/// The bytes of a payload: its base64 decoding, or its own UTF-8 bytes when it is not base64.
pub open spec fn payload_bytes(p: Seq<char>) -> Seq<u8> {
    match base64_decoded(p) {
        Some(b) => b,
        None => encode_utf8(p),
    }
}

/// The canonical form of a payload that is, or names, a JSON object: the object's compact
/// JSON text, base64-encoded.
pub open spec fn canonical_object(m: Map<Seq<char>, JsonMemberView>) -> Seq<char> {
    b64_encode(encode_utf8(json_object_text(m)))
}

/// Whether the JSON a payload holds is at most strings: an object whose members are all
/// strings, a string, or not JSON at all.
pub open spec fn payload_of_strings(p: Seq<char>) -> bool {
    match json_text_document(decode_utf8(payload_bytes(p))) {
        JsonDocView::Object(m) => all_strings(m),
        JsonDocView::Other(_) => false,
        _ => true,
    }
}

/// Whether the payload `data` of a message text, if it has one, holds at most strings.
pub open spec fn message_payload_of_strings(text: Seq<char>) -> bool {
    match json_text_document(text) {
        JsonDocView::Object(m) => match str_member(m, "data"@) {
            Some(p) => payload_of_strings(p),
            None => true,
        },
        _ => true,
    }
}

/// The canonical form of an object that reads back as itself holds that object's text.
proof fn lemma_canonical_object_reads_back(m: Map<Seq<char>, JsonMemberView>)
    requires
        json_text_document(json_object_text(m)) == JsonDocView::Object(m),
    ensures
        valid_utf8(payload_bytes(canonical_object(m))),
        json_text_document(decode_utf8(payload_bytes(canonical_object(m)))) == JsonDocView::Object(m),
{
    let t = json_object_text(m);
    law_base64_decodes_its_encoding(encode_utf8(t));
    vstd::utf8::encode_utf8_valid_utf8(t);
    vstd::utf8::encode_utf8_decode_utf8(t);
}

/// The canonical form of an `offer` or `answer` payload: a session description object
/// (given a `type` when it has none), built from a bare SDP string or SDP text otherwise.
pub open spec fn canonical_description(id: Seq<char>, p: Seq<char>) -> Result<Seq<char>, ProtocolErrorView> {
    let kind = if id == ids::OFFER@ {
        ids::OFFER@
    } else {
        ids::ANSWER@
    };
    let raw = payload_bytes(p);
    let bare = |sdp: Seq<char>|
        canonical_object(
            Map::empty().insert("type"@, JsonMemberView::Str(kind)).insert("sdp"@, JsonMemberView::Str(sdp)),
        );
    if !valid_utf8(raw) {
        Err(
            ProtocolErrorView::InvalidPayload {
                id,
                reason: "payload is neither base64 json nor utf8 sdp: "@ + utf8_error_text(raw),
            },
        )
    } else {
        match json_text_document(decode_utf8(raw)) {
            JsonDocView::Object(m) => Ok(
                canonical_object(
                    if m.contains_key("type"@) {
                        m
                    } else {
                        m.insert("type"@, JsonMemberView::Str(kind))
                    },
                ),
            ),
            JsonDocView::Str(sdp) => Ok(bare(sdp)),
            JsonDocView::Other(t) => Err(
                ProtocolErrorView::InvalidPayload {
                    id,
                    reason: "expected session description object or string, got "@ + t,
                },
            ),
            JsonDocView::Invalid(_) => Ok(bare(decode_utf8(raw))),
        }
    }
}

/// The canonical form of a `candidate` payload: a candidate object, built from a bare
/// candidate string or candidate text otherwise.
pub open spec fn canonical_candidate(id: Seq<char>, p: Seq<char>) -> Result<Seq<char>, ProtocolErrorView> {
    let raw = payload_bytes(p);
    let bare = |c: Seq<char>| canonical_object(Map::empty().insert("candidate"@, JsonMemberView::Str(c)));
    if !valid_utf8(raw) {
        Err(
            ProtocolErrorView::InvalidPayload {
                id,
                reason: "payload is neither base64 json nor utf8 candidate: "@ + utf8_error_text(raw),
            },
        )
    } else {
        match json_text_document(decode_utf8(raw)) {
            JsonDocView::Object(m) => Ok(canonical_object(m)),
            JsonDocView::Str(c) => Ok(bare(c)),
            JsonDocView::Other(t) => Err(
                ProtocolErrorView::InvalidPayload { id, reason: "expected candidate object or string, got "@ + t },
            ),
            JsonDocView::Invalid(_) => Ok(bare(decode_utf8(raw))),
        }
    }
}

/// A message's payload in canonical form: session descriptions and candidates as base64
/// JSON objects, anything else as it came.
pub open spec fn canonical_payload(id: Seq<char>, payload: Option<Seq<char>>) -> Result<
    Option<Seq<char>>,
    ProtocolErrorView,
> {
    match payload {
        None => Ok(None),
        Some(p) => if id == ids::OFFER@ || id == ids::ANSWER@ {
            match canonical_description(id, p) {
                Ok(c) => Ok(Some(c)),
                Err(e) => Err(e),
            }
        } else if id == ids::CANDIDATE@ {
            match canonical_candidate(id, p) {
                Ok(c) => Ok(Some(c)),
                Err(e) => Err(e),
            }
        } else {
            Ok(Some(p))
        },
    }
}

/// What a signaling message text reads as: a JSON object with a non-blank string `id`, its
/// payload `data` in canonical form, and its routing target from `sessionID`, or from the
/// older `session_id` when that is missing.
pub open spec fn spec_parse_message(text: Seq<char>) -> Result<SignalMessageView, ProtocolErrorView> {
    match json_text_document(text) {
        JsonDocView::Invalid(reason) => Err(ProtocolErrorView::InvalidJson { reason }),
        JsonDocView::Object(m) => match str_member(m, "id"@) {
            None => Err(ProtocolErrorView::InvalidEnvelope),
            Some(id) => match canonical_payload(id, str_member(m, "data"@)) {
                Err(e) => Err(e),
                Ok(data) => Ok(
                    msg(
                        id,
                        data,
                        match str_member(m, "sessionID"@) {
                            Some(t) => Some(t),
                            None => str_member(m, "session_id"@),
                        },
                    ),
                ),
            },
        },
        _ => Err(ProtocolErrorView::InvalidEnvelope),
    }
}

fn bytes_to_vec(b: &[u8]) -> (v: Vec<u8>)
    ensures
        v@ == b@,
{
    let mut v: Vec<u8> = Vec::new();
    let mut i: usize = 0;
    while i < b.len()
        invariant
            i <= b@.len(),
            v@ == b@.subrange(0, i as int),
        decreases b.len() - i,
    {
        v.push(b[i]);
        i = i + 1;
        assert(v@ =~= b@.subrange(0, i as int));
    }
    assert(b@.subrange(0, i as int) =~= b@);
    v
}

fn payload_bytes_of(p: &str) -> (v: Vec<u8>)
    ensures
        v@ == payload_bytes(p@),
{
    match base64_decode(p) {
        Some(v) => v,
        None => bytes_to_vec(p.as_bytes()),
    }
}

fn str_member_of(fields: &Vec<(String, JsonMember)>, key: &str) -> (r: Option<String>)
    ensures
        r.deep_view() == str_member(fields_map(fields_view(fields@)), key@),
{
    let mut i = fields.len();
    while i > 0
        invariant
            i <= fields@.len(),
            forall|j: int| i <= j < fields@.len() ==> fields_view(fields@)[j].0 != key@,
        decreases i,
    {
        assert(fields_view(fields@)[i - 1].0 == fields@[i - 1].0@);
        if str_eq(fields[i - 1].0.as_str(), key) {
            proof {
                lemma_fields_map_last_key(fields_view(fields@), (i - 1) as int);
                assert(fields_view(fields@)[i - 1].1 == fields@[i - 1].1@);
            }
            return match &fields[i - 1].1 {
                JsonMember::Str(s) => optional_target(Some(s.clone())),
                JsonMember::Raw(_) => None,
            };
        }
        i = i - 1;
    }
    proof {
        lemma_fields_map_absent(fields_view(fields@), key@);
    }
    None
}

/// Reads a signaling message text: the envelope, then the payload put in canonical form.
pub fn parse_message_text(text: &str) -> (r: Result<SignalMessage, ProtocolError>)
    ensures
        result_view(r) == spec_parse_message(text@),
        r matches Ok(m) ==> (message_payload_of_strings(text@) ==> canonical_payload(m@.id, m@.data)
            == Ok::<Option<Seq<char>>, ProtocolErrorView>(m@.data)),
{
    let fields = match parse_json_text(text) {
        JsonDoc::Invalid(reason) => return Err(ProtocolError::InvalidJson { reason }),
        JsonDoc::Object(fields) => fields,
        _ => return Err(ProtocolError::InvalidEnvelope),
    };
    let id = match str_member_of(&fields, "id") {
        Some(id) => id,
        None => return Err(ProtocolError::InvalidEnvelope),
    };
    let data = match canonicalize_payload(id.as_str(), str_member_of(&fields, "data")) {
        Ok(d) => d,
        Err(e) => return Err(e),
    };
    let session_id = match str_member_of(&fields, "sessionID") {
        Some(t) => Some(t),
        None => str_member_of(&fields, "session_id"),
    };
    Ok(SignalMessage { id, data, session_id })
}

/// Reads a message text from a browser. A payload it puts in canonical form, when it holds
/// at most strings, is already in canonical form: reading it again changes nothing.
pub fn parse_browser_message_text(text: &str) -> (r: Result<SignalMessage, ProtocolError>)
    ensures
        result_view(r) == spec_parse_message(text@),
        r matches Ok(m) ==> (message_payload_of_strings(text@) ==> canonical_payload(m@.id, m@.data)
            == Ok::<Option<Seq<char>>, ProtocolErrorView>(m@.data)),
{
    parse_message_text(text)
}

/// Reads a message text from a worker. As for a browser's, a payload put in canonical form
/// that holds at most strings reads again as itself.
pub fn parse_worker_message_text(text: &str) -> (r: Result<SignalMessage, ProtocolError>)
    ensures
        result_view(r) == spec_parse_message(text@),
        r matches Ok(m) ==> (message_payload_of_strings(text@) ==> canonical_payload(m@.id, m@.data)
            == Ok::<Option<Seq<char>>, ProtocolErrorView>(m@.data)),
{
    parse_message_text(text)
}

fn canonicalize_payload(id: &str, payload: Option<String>) -> (r: Result<Option<String>, ProtocolError>)
    ensures
        match r {
            Ok(d) => canonical_payload(id@, payload.deep_view()) == Ok::<Option<Seq<char>>, ProtocolErrorView>(
                d.deep_view(),
            ),
            Err(e) => canonical_payload(id@, payload.deep_view()) == Err::<Option<Seq<char>>, ProtocolErrorView>(e@),
        },
        r matches Ok(Some(d)) ==> (payload matches Some(p) && payload_of_strings(p@) ==> canonical_payload(
            id@,
            Some(d@),
        ) == Ok::<Option<Seq<char>>, ProtocolErrorView>(Some(d@))),
{
    let p = match payload {
        Some(p) => p,
        None => return Ok(None),
    };
    if str_eq(id, ids::OFFER) || str_eq(id, ids::ANSWER) {
        match canonicalize_session_description_payload(id, p.as_str()) {
            Ok(c) => Ok(Some(c)),
            Err(e) => Err(e),
        }
    } else if str_eq(id, ids::CANDIDATE) {
        match canonicalize_candidate_payload(id, p.as_str()) {
            Ok(c) => Ok(Some(c)),
            Err(e) => Err(e),
        }
    } else {
        Ok(Some(p))
    }
}

fn encode_object(fields: &Vec<(String, JsonMember)>) -> (r: String)
    ensures
        r@ == canonical_object(fields_map(fields_view(fields@))),
        all_strings(fields_map(fields_view(fields@))) ==> json_text_document(
            json_object_text(fields_map(fields_view(fields@))),
        ) == JsonDocView::Object(fields_map(fields_view(fields@))),
{
    let text = json_object_to_string(fields);
    base64_encode(text.as_str().as_bytes())
}

fn bare_object(key: &str, value: String) -> (r: String)
    ensures
        r@ == canonical_object(Map::empty().insert(key@, JsonMemberView::Str(value@))),
        json_text_document(json_object_text(Map::empty().insert(key@, JsonMemberView::Str(value@))))
            == JsonDocView::Object(Map::empty().insert(key@, JsonMemberView::Str(value@))),
{
    let mut fields: Vec<(String, JsonMember)> = Vec::new();
    let ghost v = value@;
    fields.push((key.to_owned(), JsonMember::Str(value)));
    proof {
        let f = fields_view(fields@);
        assert(f.len() == 1);
        assert(f[0] == (key@, JsonMemberView::Str(v)));
        assert(f.drop_last() =~= Seq::<(Seq<char>, JsonMemberView)>::empty());
        reveal_with_fuel(fields_map, 2);
        assert(fields_map(f) =~= Map::empty().insert(key@, JsonMemberView::Str(v)));
    }
    encode_object(&fields)
}

fn described_object(kind: &str, sdp: String) -> (r: String)
    ensures
        r@ == canonical_object(
            Map::empty().insert("type"@, JsonMemberView::Str(kind@)).insert("sdp"@, JsonMemberView::Str(sdp@)),
        ),
        json_text_document(
            json_object_text(
                Map::empty().insert("type"@, JsonMemberView::Str(kind@)).insert("sdp"@, JsonMemberView::Str(sdp@)),
            ),
        ) == JsonDocView::Object(
            Map::empty().insert("type"@, JsonMemberView::Str(kind@)).insert("sdp"@, JsonMemberView::Str(sdp@)),
        ),
{
    let mut fields: Vec<(String, JsonMember)> = Vec::new();
    let ghost v = sdp@;
    fields.push(("type".to_owned(), JsonMember::Str(kind.to_owned())));
    fields.push(("sdp".to_owned(), JsonMember::Str(sdp)));
    proof {
        let f = fields_view(fields@);
        assert(f.drop_last().drop_last() =~= Seq::<(Seq<char>, JsonMemberView)>::empty());
        reveal_with_fuel(fields_map, 3);
        assert(fields_map(f) =~= Map::empty().insert("type"@, JsonMemberView::Str(kind@)).insert(
            "sdp"@,
            JsonMemberView::Str(v),
        ));
    }
    encode_object(&fields)
}

fn canonicalize_session_description_payload(id: &str, payload: &str) -> (r: Result<String, ProtocolError>)
    requires
        id@ == ids::OFFER@ || id@ == ids::ANSWER@,
    ensures
        result_view(r) == canonical_description(id@, payload@),
        r matches Ok(c) ==> (payload_of_strings(payload@) ==> canonical_description(id@, c@)
            == Ok::<Seq<char>, ProtocolErrorView>(c@)),
{
    let kind = if str_eq(id, ids::OFFER) {
        ids::OFFER
    } else {
        ids::ANSWER
    };
    let raw = payload_bytes_of(payload);
    let ghost rawv = raw@;
    let text = match string_from_utf8(raw) {
        Ok(t) => t,
        Err(e) => {
            let mut reason = "payload is neither base64 json nor utf8 sdp: ".to_owned();
            push_str(&mut reason, e.as_str());
            return Err(ProtocolError::InvalidPayload { id: id.to_owned(), reason });
        },
    };
    match parse_json_text(text.as_str()) {
        JsonDoc::Object(fields) => {
            let has_type = str_member_present(&fields, "type");
            let mut fields = fields;
            let ghost m0 = fields_map(fields_view(fields@));
            if !has_type {
                let ghost before = fields_view(fields@);
                fields.push(("type".to_owned(), JsonMember::Str(kind.to_owned())));
                assert(fields_view(fields@).drop_last() =~= before);
            }
            let c = encode_object(&fields);
            proof {
                let m = fields_map(fields_view(fields@));
                assert(m.contains_key("type"@));
                if payload_of_strings(payload@) {
                    assert forall|k: Seq<char>| m.contains_key(k) implies (#[trigger] m[k]) is Str by {
                        if k != "type"@ {
                            assert(m0.contains_key(k) && m[k] == m0[k]);
                        }
                    }
                    lemma_canonical_object_reads_back(m);
                }
            }
            Ok(c)
        },
        JsonDoc::Str(sdp) => {
            let c = described_object(kind, sdp);
            proof {
                lemma_canonical_object_reads_back(
                    Map::empty().insert("type"@, JsonMemberView::Str(kind@)).insert("sdp"@, JsonMemberView::Str(sdp@)),
                );
            }
            Ok(c)
        },
        JsonDoc::Other(t) => {
            let mut reason = "expected session description object or string, got ".to_owned();
            push_str(&mut reason, t.as_str());
            Err(ProtocolError::InvalidPayload { id: id.to_owned(), reason })
        },
        JsonDoc::Invalid(_) => {
            let ghost t = text@;
            let c = described_object(kind, text);
            proof {
                lemma_canonical_object_reads_back(
                    Map::empty().insert("type"@, JsonMemberView::Str(kind@)).insert("sdp"@, JsonMemberView::Str(t)),
                );
            }
            Ok(c)
        },
    }
}

fn canonicalize_candidate_payload(id: &str, payload: &str) -> (r: Result<String, ProtocolError>)
    ensures
        result_view(r) == canonical_candidate(id@, payload@),
        r matches Ok(c) ==> (payload_of_strings(payload@) ==> canonical_candidate(id@, c@)
            == Ok::<Seq<char>, ProtocolErrorView>(c@)),
{
    let raw = payload_bytes_of(payload);
    let text = match string_from_utf8(raw) {
        Ok(t) => t,
        Err(e) => {
            let mut reason = "payload is neither base64 json nor utf8 candidate: ".to_owned();
            push_str(&mut reason, e.as_str());
            return Err(ProtocolError::InvalidPayload { id: id.to_owned(), reason });
        },
    };
    match parse_json_text(text.as_str()) {
        JsonDoc::Object(fields) => {
            let c = encode_object(&fields);
            proof {
                if payload_of_strings(payload@) {
                    lemma_canonical_object_reads_back(fields_map(fields_view(fields@)));
                }
            }
            Ok(c)
        },
        JsonDoc::Str(c) => {
            let ghost v = c@;
            let r = bare_object("candidate", c);
            proof {
                lemma_canonical_object_reads_back(Map::empty().insert("candidate"@, JsonMemberView::Str(v)));
            }
            Ok(r)
        },
        JsonDoc::Other(t) => {
            let mut reason = "expected candidate object or string, got ".to_owned();
            push_str(&mut reason, t.as_str());
            Err(ProtocolError::InvalidPayload { id: id.to_owned(), reason })
        },
        JsonDoc::Invalid(_) => {
            let ghost t = text@;
            let r = bare_object("candidate", text);
            proof {
                lemma_canonical_object_reads_back(Map::empty().insert("candidate"@, JsonMemberView::Str(t)));
            }
            Ok(r)
        },
    }
}

pub(crate) fn str_member_present(fields: &Vec<(String, JsonMember)>, key: &str) -> (b: bool)
    ensures
        b == fields_map(fields_view(fields@)).contains_key(key@),
{
    let mut i: usize = 0;
    while i < fields.len()
        invariant
            i <= fields@.len(),
            forall|j: int| 0 <= j < i ==> fields_view(fields@)[j].0 != key@,
        decreases fields.len() - i,
    {
        assert(fields_view(fields@)[i as int].0 == fields@[i as int].0@);
        if str_eq(fields[i].0.as_str(), key) {
            proof {
                lemma_fields_map_has_key(fields_view(fields@), i as int);
            }
            return true;
        }
        i = i + 1;
    }
    proof {
        lemma_fields_map_absent(fields_view(fields@), key@);
    }
    false
}

/// The list of games, sent to browsers.
pub fn games_message(payload: String) -> (m: SignalMessage)
    ensures
        m@ == msg(ids::GAMES@, Some(payload@), None),
{
    SignalMessage { id: ids::GAMES.to_owned(), data: Some(payload), session_id: None }
}

/// Tells a worker that the browser `client_id` ended its session.
pub fn terminate_session_message(client_id: &str) -> (m: SignalMessage)
    ensures
        m@ == msg(ids::TERMINATE_SESSION@, None, Some(client_id@)),
{
    SignalMessage {
        id: ids::TERMINATE_SESSION.to_owned(),
        data: None,
        session_id: Some(client_id.to_owned()),
    }
}

/// A browser event relayed to a worker, tagged with the browser's id.
pub fn forward_to_worker_message(event: WorkerEventKind, client_id: String, data: Option<String>) -> (m:
    SignalMessage)
    ensures
        m@ == msg(worker_event_id(event), data.deep_view(), Some(client_id@)),
{
    SignalMessage { id: event.signal_id().to_owned(), data, session_id: Some(client_id) }
}

/// A worker event relayed to the browser `client_id`.
pub fn forward_to_client_message(event: ClientEventKind, client_id: String, data: Option<String>) -> (m:
    SignalMessage)
    ensures
        m@ == msg(client_event_id(event), data.deep_view(), Some(client_id@)),
{
    SignalMessage { id: event.signal_id().to_owned(), data, session_id: Some(client_id) }
}

/// The number of players in the room of `worker_id`.
pub fn update_player_count_message(worker_id: String, count: usize) -> (m: SignalMessage)
    ensures
        m@ == msg(ids::UPDATE_PLAYER_COUNT@, Some(decimal(count as nat)), Some(worker_id@)),
{
    SignalMessage {
        id: ids::UPDATE_PLAYER_COUNT.to_owned(),
        data: Some(u64_to_string(count as u64)),
        session_id: Some(worker_id),
    }
}

/// A player count sent by [`update_player_count_message`] is read back by
/// [`parse_worker_command`] as that same count.
pub proof fn law_player_count_round_trip(worker_id: Seq<char>, count: usize)
    ensures
        spec_worker_command(msg(ids::UPDATE_PLAYER_COUNT@, Some(decimal(count as nat)), Some(worker_id)))
            == Ok::<WorkerCommandView, ProtocolErrorView>(WorkerCommandView::UpdatePlayerCount { count }),
{
    reveal_strlit("updatePlayerCount");
    reveal_strlit("gameInfo");
    reveal_strlit("offer");
    reveal_strlit("candidate");
    let d = decimal(count as nat);
    lemma_decimal_reads_back(count as nat);
    lemma_digits_trim(d);
    assert(is_digit(d[0]));
    assert(unsigned_digits(d) == d);
    assert(ids::UPDATE_PLAYER_COUNT@.len() != ids::GAME_INFO@.len());
    assert(ids::UPDATE_PLAYER_COUNT@.len() != ids::OFFER@.len());
}

/// Tells a host browser that its controller join code is ready.
pub fn controller_ready_message(payload: String) -> (m: SignalMessage)
    ensures
        m@ == msg(ids::CONTROLLER_READY@, Some(payload@), None),
{
    SignalMessage { id: ids::CONTROLLER_READY.to_owned(), data: Some(payload), session_id: None }
}

/// Tells a browser that `peer_client_id` joined as controller or host.
pub fn controller_joined_message(peer_client_id: String) -> (m: SignalMessage)
    ensures
        m@ == msg(ids::CONTROLLER_JOINED@, None, Some(peer_client_id@)),
{
    SignalMessage { id: ids::CONTROLLER_JOINED.to_owned(), data: None, session_id: Some(peer_client_id) }
}

/// Tells a browser that `peer_client_id` left.
pub fn controller_left_message(peer_client_id: String) -> (m: SignalMessage)
    ensures
        m@ == msg(ids::CONTROLLER_LEFT@, None, Some(peer_client_id@)),
{
    SignalMessage { id: ids::CONTROLLER_LEFT.to_owned(), data: None, session_id: Some(peer_client_id) }
}

/// Tells a browser that its controller join was refused, and why.
pub fn controller_rejected_message(reason: &str) -> (m: SignalMessage)
    ensures
        m@ == msg(ids::CONTROLLER_REJECTED@, Some(reason@), None),
{
    SignalMessage {
        id: ids::CONTROLLER_REJECTED.to_owned(),
        data: Some(reason.to_owned()),
        session_id: None,
    }
}

/// An audio action from the controller `controller_client_id`, for its host.
pub fn controller_audio_message(controller_client_id: String, action: String) -> (m: SignalMessage)
    ensures
        m@ == msg(ids::CONTROLLER_AUDIO@, Some(action@), Some(controller_client_id@)),
{
    SignalMessage {
        id: ids::CONTROLLER_AUDIO.to_owned(),
        data: Some(action),
        session_id: Some(controller_client_id),
    }
}

} // verus!
