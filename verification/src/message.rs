//! The signaling envelope exchanged between browsers, the signal server and workers,
//! and the message ids of the signaling contract.
use vstd::prelude::*;

verus! {

/// A signaling message: an id, an optional payload and an optional routing target.
///
/// The routing target travels as `sessionID` on the wire.
#[derive(Debug, Clone)]
pub struct SignalMessage {
    pub id: String,
    pub data: Option<String>,
    pub session_id: Option<String>,
}

/// The mathematical content of a [`SignalMessage`].
pub struct SignalMessageView {
    pub id: Seq<char>,
    pub data: Option<Seq<char>>,
    pub session_id: Option<Seq<char>>,
}

impl View for SignalMessage {
    type V = SignalMessageView;

    open spec fn view(&self) -> SignalMessageView {
        SignalMessageView {
            id: self.id@,
            data: self.data.deep_view(),
            session_id: self.session_id.deep_view(),
        }
    }
}

/// Builds the view of a message from its parts.
pub open spec fn msg(
    id: Seq<char>,
    data: Option<Seq<char>>,
    session_id: Option<Seq<char>>,
) -> SignalMessageView {
    SignalMessageView { id, data, session_id }
}

/// A copy of an optional string.
pub fn clone_opt(o: &Option<String>) -> (r: Option<String>)
    ensures
        r.deep_view() == o.deep_view(),
{
    match o {
        Some(s) => Some(s.clone()),
        None => None,
    }
}

/// A copy of a message.
pub fn clone_msg(m: &SignalMessage) -> (r: SignalMessage)
    ensures
        r@ == m@,
{
    SignalMessage { id: m.id.clone(), data: clone_opt(&m.data), session_id: clone_opt(&m.session_id) }
}

impl SignalMessage {
    /// The routing target of the message, if it has one.
    pub fn target_id(&self) -> (r: Option<&str>)
        ensures
            r.deep_view() == self.session_id.deep_view(),
    {
        match &self.session_id {
            Some(s) => Some(s.as_str()),
            None => None,
        }
    }

    /// A message with the given id, target and payload.
    pub fn with_payload(id: &str, session_id: Option<String>, data: Option<String>) -> (m: Self)
        ensures
            m@ == msg(id@, data.deep_view(), session_id.deep_view()),
    {
        SignalMessage { id: id.to_owned(), data, session_id }
    }

    /// A message with the given id, routing target and payload.
    pub fn with_target(id: &str, target_id: Option<String>, data: Option<String>) -> (m: Self)
        ensures
            m@ == msg(id@, data.deep_view(), target_id.deep_view()),
    {
        SignalMessage { id: id.to_owned(), data, session_id: target_id }
    }
}

} // verus!
