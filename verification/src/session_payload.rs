//! The worker's side of the session payloads: a browser's SDP answer and ICE candidates
//! arrive as base64 text of JSON (or of bare text), and are turned into the JSON the WebRTC
//! stack reads; the worker's own offer and candidates leave as base64 of their JSON.
use vstd::prelude::*;

use crate::ids;
use crate::json::{
    b64_encode, base64_decode, base64_decoded, base64_encode, fields_map, fields_view, json_object_text,
    json_object_to_string, json_text_document, parse_json_text, string_from_utf8, utf8_error_text, JsonDoc,
    JsonDocView, JsonMember, JsonMemberView,
};
use crate::message::{msg, SignalMessage};
use crate::protocol::str_member_present;
use vstd::utf8::{decode_utf8, encode_utf8, valid_utf8};

verus! {

/// Why a session payload cannot be read.
#[derive(Debug)]
pub enum PayloadError {
    /// The payload is not base64.
    NotBase64,
    /// The decoded bytes are neither JSON nor UTF-8 text; the UTF-8 error's message.
    NotText { reason: String },
}

/// The content of a [`PayloadError`].
pub enum PayloadErrorView {
    NotBase64,
    NotText { reason: Seq<char> },
}

impl View for PayloadError {
    type V = PayloadErrorView;

    open spec fn view(&self) -> PayloadErrorView {
        match self {
            PayloadError::NotBase64 => PayloadErrorView::NotBase64,
            PayloadError::NotText { reason } => PayloadErrorView::NotText { reason: reason@ },
        }
    }
}

/// The content of the outcome of reading a payload.
pub open spec fn payload_result_view(r: Result<Option<String>, PayloadError>) -> Result<
    Option<Seq<char>>,
    PayloadErrorView,
> {
    match r {
        Ok(Some(s)) => Ok(Some(s@)),
        Ok(None) => Ok(None),
        Err(e) => Err(e@),
    }
}

/// The JSON text of an answer payload `p`: nothing for an empty payload; otherwise its base64
/// decoding read as JSON. An object is given `"type": "answer"` when it has no type, text
/// that is not JSON becomes the SDP of an answer, and other JSON passes as it is.
pub open spec fn answer_json(p: Seq<char>) -> Result<Option<Seq<char>>, PayloadErrorView> {
    if p.len() == 0 {
        Ok(None)
    } else {
        match base64_decoded(p) {
            None => Err(PayloadErrorView::NotBase64),
            Some(raw) => if !valid_utf8(raw) {
                Err(PayloadErrorView::NotText { reason: utf8_error_text(raw) })
            } else {
                let text = decode_utf8(raw);
                match json_text_document(text) {
                    JsonDocView::Object(m) => Ok(
                        Some(
                            json_object_text(
                                if m.contains_key("type"@) {
                                    m
                                } else {
                                    m.insert("type"@, JsonMemberView::Str(ids::ANSWER@))
                                },
                            ),
                        ),
                    ),
                    JsonDocView::Invalid(_) => Ok(
                        Some(
                            json_object_text(
                                Map::empty().insert("type"@, JsonMemberView::Str(ids::ANSWER@)).insert(
                                    "sdp"@,
                                    JsonMemberView::Str(text),
                                ),
                            ),
                        ),
                    ),
                    _ => Ok(Some(text)),
                }
            },
        }
    }
}

/// The JSON text of a candidate payload `p`: nothing for an empty payload; otherwise its
/// base64 decoding read as JSON. A JSON string, or text that is not JSON, becomes the
/// `candidate` of an object; other JSON passes as it is.
pub open spec fn candidate_json(p: Seq<char>) -> Result<Option<Seq<char>>, PayloadErrorView> {
    if p.len() == 0 {
        Ok(None)
    } else {
        match base64_decoded(p) {
            None => Err(PayloadErrorView::NotBase64),
            Some(raw) => if !valid_utf8(raw) {
                Err(PayloadErrorView::NotText { reason: utf8_error_text(raw) })
            } else {
                let text = decode_utf8(raw);
                match json_text_document(text) {
                    JsonDocView::Str(c) => Ok(
                        Some(json_object_text(Map::empty().insert("candidate"@, JsonMemberView::Str(c)))),
                    ),
                    JsonDocView::Invalid(_) => Ok(
                        Some(json_object_text(Map::empty().insert("candidate"@, JsonMemberView::Str(text)))),
                    ),
                    _ => Ok(Some(text)),
                }
            },
        }
    }
}

/// Reads the bytes of a non-empty payload as text.
fn payload_text(payload: &str) -> (r: Result<String, PayloadError>)
    ensures
        match base64_decoded(payload@) {
            None => r matches Err(e) && e@ == PayloadErrorView::NotBase64,
            Some(raw) => if valid_utf8(raw) {
                r matches Ok(t) && t@ == decode_utf8(raw)
            } else {
                r matches Err(e) && e@ == (PayloadErrorView::NotText { reason: utf8_error_text(raw) })
            },
        },
{
    let raw = match base64_decode(payload) {
        Some(raw) => raw,
        None => return Err(PayloadError::NotBase64),
    };
    match string_from_utf8(raw) {
        Ok(t) => Ok(t),
        Err(reason) => Err(PayloadError::NotText { reason }),
    }
}

/// The compact JSON text of the object `{key: value}`.
fn single_member_object(key: &str, value: String) -> (r: String)
    ensures
        r@ == json_object_text(Map::empty().insert(key@, JsonMemberView::Str(value@))),
{
    let mut fields: Vec<(String, JsonMember)> = Vec::new();
    let ghost v = value@;
    fields.push((key.to_owned(), JsonMember::Str(value)));
    proof {
        let f = fields_view(fields@);
        assert(f.drop_last() =~= Seq::<(Seq<char>, JsonMemberView)>::empty());
        reveal_with_fuel(fields_map, 2);
        assert(fields_map(f) =~= Map::empty().insert(key@, JsonMemberView::Str(v)));
    }
    json_object_to_string(&fields)
}

/// The compact JSON text of the answer `{"type": "answer", "sdp": sdp}`.
fn answer_object(sdp: String) -> (r: String)
    ensures
        r@ == json_object_text(
            Map::empty().insert("type"@, JsonMemberView::Str(ids::ANSWER@)).insert("sdp"@, JsonMemberView::Str(sdp@)),
        ),
{
    let mut fields: Vec<(String, JsonMember)> = Vec::new();
    let ghost v = sdp@;
    fields.push(("type".to_owned(), JsonMember::Str(ids::ANSWER.to_owned())));
    fields.push(("sdp".to_owned(), JsonMember::Str(sdp)));
    proof {
        let f = fields_view(fields@);
        assert(f.drop_last().drop_last() =~= Seq::<(Seq<char>, JsonMemberView)>::empty());
        reveal_with_fuel(fields_map, 3);
        assert(fields_map(f) =~= Map::empty().insert("type"@, JsonMemberView::Str(ids::ANSWER@)).insert(
            "sdp"@,
            JsonMemberView::Str(v),
        ));
    }
    json_object_to_string(&fields)
}

/// The session description JSON of a browser's answer payload, `None` for an empty payload.
pub fn answer_description_json(payload: &str) -> (r: Result<Option<String>, PayloadError>)
    ensures
        payload_result_view(r) == answer_json(payload@),
{
    if payload.is_empty() {
        return Ok(None);
    }
    let text = match payload_text(payload) {
        Ok(t) => t,
        Err(e) => return Err(e),
    };
    match parse_json_text(text.as_str()) {
        JsonDoc::Object(fields) => {
            let has_type = str_member_present(&fields, "type");
            let mut fields = fields;
            if !has_type {
                let ghost before = fields_view(fields@);
                fields.push(("type".to_owned(), JsonMember::Str(ids::ANSWER.to_owned())));
                assert(fields_view(fields@).drop_last() =~= before);
            }
            Ok(Some(json_object_to_string(&fields)))
        },
        JsonDoc::Invalid(_) => Ok(Some(answer_object(text))),
        _ => Ok(Some(text)),
    }
}

/// The ICE candidate JSON of a browser's candidate payload, `None` for an empty payload.
pub fn candidate_init_json(payload: &str) -> (r: Result<Option<String>, PayloadError>)
    ensures
        payload_result_view(r) == candidate_json(payload@),
{
    if payload.is_empty() {
        return Ok(None);
    }
    let text = match payload_text(payload) {
        Ok(t) => t,
        Err(e) => return Err(e),
    };
    match parse_json_text(text.as_str()) {
        JsonDoc::Str(c) => Ok(Some(single_member_object("candidate", c))),
        JsonDoc::Invalid(_) => Ok(Some(single_member_object("candidate", text))),
        _ => Ok(Some(text)),
    }
}

/// A message from the worker to a browser carrying a JSON text (its offer or an ICE
/// candidate) as base64.
pub fn json_payload_message(id: &str, session_id: String, json_text: &str) -> (m: SignalMessage)
    ensures
        m@ == msg(id@, Some(b64_encode(encode_utf8(json_text@))), Some(session_id@)),
{
    let data = base64_encode(json_text.as_bytes());
    SignalMessage { id: id.to_owned(), data: Some(data), session_id: Some(session_id) }
}

} // verus!
