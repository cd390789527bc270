//! JSON objects and base64 as the signaling code reads and writes them; serde_json and
//! base64 do the parsing, rendering and coding.
use vstd::prelude::*;

use base64::Engine;
use serde_json::Value;

verus! {

/// A member of a JSON object: a string, or any other JSON value as its compact JSON text.
pub enum JsonMember {
    Str(String),
    Raw(String),
}

/// The content of a [`JsonMember`].
pub enum JsonMemberView {
    Str(Seq<char>),
    Raw(Seq<char>),
}

impl View for JsonMember {
    type V = JsonMemberView;

    open spec fn view(&self) -> JsonMemberView {
        match self {
            JsonMember::Str(s) => JsonMemberView::Str(s@),
            JsonMember::Raw(t) => JsonMemberView::Raw(t@),
        }
    }
}

/// The object that a list of fields builds when each field is inserted in turn, a later
/// field replacing an earlier one with the same key.
pub open spec fn fields_map(fields: Seq<(Seq<char>, JsonMemberView)>) -> Map<Seq<char>, JsonMemberView>
    decreases fields.len(),
{
    if fields.len() == 0 {
        Map::empty()
    } else {
        fields_map(fields.drop_last()).insert(fields.last().0, fields.last().1)
    }
}

/// The key of a field is in the object the fields build.
pub proof fn lemma_fields_map_has_key(f: Seq<(Seq<char>, JsonMemberView)>, i: int)
    requires
        0 <= i < f.len(),
    ensures
        fields_map(f).contains_key(f[i].0),
    decreases f.len(),
{
    if i < f.len() - 1 {
        lemma_fields_map_has_key(f.drop_last(), i);
    }
}

/// A key that no field has is not in the object the fields build.
pub proof fn lemma_fields_map_absent(f: Seq<(Seq<char>, JsonMemberView)>, k: Seq<char>)
    requires
        forall|j: int| 0 <= j < f.len() ==> f[j].0 != k,
    ensures
        !fields_map(f).contains_key(k),
    decreases f.len(),
{
    if f.len() > 0 {
        lemma_fields_map_absent(f.drop_last(), k);
    }
}

/// The last field with a key gives that key's member.
pub proof fn lemma_fields_map_last_key(f: Seq<(Seq<char>, JsonMemberView)>, i: int)
    requires
        0 <= i < f.len(),
        forall|j: int| i < j < f.len() ==> f[j].0 != f[i].0,
    ensures
        fields_map(f).contains_key(f[i].0),
        fields_map(f)[f[i].0] == f[i].1,
    decreases f.len(),
{
    if i < f.len() - 1 {
        lemma_fields_map_last_key(f.drop_last(), i);
    }
}

/// The fields of a list, seen through their views.
pub open spec fn fields_view(fields: Seq<(String, JsonMember)>) -> Seq<(Seq<char>, JsonMemberView)> {
    fields.map_values(|f: (String, JsonMember)| (f.0@, f.1@))
}

/// The compact JSON text serde_json writes for an object with these members.
pub uninterp spec fn json_object_text(members: Map<Seq<char>, JsonMemberView>) -> Seq<char>;

/// Whether every member of an object is a string.
pub open spec fn all_strings(m: Map<Seq<char>, JsonMemberView>) -> bool {
    forall|k: Seq<char>| m.contains_key(k) ==> (#[trigger] m[k]) is Str
}

/// Renders the fields as a JSON object with `serde_json`: each field is inserted into a
/// `serde_json::Map` (a later field replacing an earlier one with the same key), a raw
/// member as the value its text parses to (`null` when it is not JSON), and the object is
/// written compactly. Without serde_json's `preserve_order` feature the map is ordered by
/// key, so the text is a function of the members alone; what that text is, is left to the
/// name. The contract also claims that an object of strings reads back: serde_json writes
/// each key and string with the JSON escapes that its reader undoes, so `from_str` gives
/// the same keys and strings. Of raw members nothing of the kind is stated: a number can
/// come back with other digits.
#[verifier::external_body]
pub(crate) fn json_object_to_string(fields: &Vec<(String, JsonMember)>) -> (r: String)
    ensures
        r@ == json_object_text(fields_map(fields_view(fields@))),
        all_strings(fields_map(fields_view(fields@))) ==> json_text_document(r@) == JsonDocView::Object(
            fields_map(fields_view(fields@)),
        ),
{
    let mut map = serde_json::Map::new();
    for (key, member) in fields.iter() {
        let value = match member {
            JsonMember::Str(s) => Value::String(s.clone()),
            JsonMember::Raw(t) => serde_json::from_str(t).unwrap_or(Value::Null),
        };
        map.insert(key.clone(), value);
    }
    Value::Object(map).to_string()
}

/// A JSON document as the signaling code reads it: not JSON (with serde_json's reason), an
/// object with its members, a string, or another value as its compact text.
pub enum JsonDoc {
    Invalid(String),
    Object(Vec<(String, JsonMember)>),
    Str(String),
    Other(String),
}

/// The content of a [`JsonDoc`].
pub enum JsonDocView {
    Invalid(Seq<char>),
    Object(Map<Seq<char>, JsonMemberView>),
    Str(Seq<char>),
    Other(Seq<char>),
}

impl View for JsonDoc {
    type V = JsonDocView;

    open spec fn view(&self) -> JsonDocView {
        match self {
            JsonDoc::Invalid(r) => JsonDocView::Invalid(r@),
            JsonDoc::Object(fields) => JsonDocView::Object(fields_map(fields_view(fields@))),
            JsonDoc::Str(s) => JsonDocView::Str(s@),
            JsonDoc::Other(t) => JsonDocView::Other(t@),
        }
    }
}

/// What serde_json reads from a JSON text.
pub uninterp spec fn json_text_document(text: Seq<char>) -> JsonDocView;

/// Parses a JSON text with `serde_json::from_str` into a `Value`, and hands back the error
/// message, the members of an object (strings as strings, other values as their compact
/// text), a string, or another value's compact text. The outcome depends on the text
/// alone; what it is, is left to the name.
#[verifier::external_body]
pub(crate) fn parse_json_text(text: &str) -> (r: JsonDoc)
    ensures
        r@ == json_text_document(text@),
{
    match serde_json::from_str::<Value>(text) {
        Err(e) => JsonDoc::Invalid(e.to_string()),
        Ok(Value::Object(map)) => JsonDoc::Object(map.into_iter().map(|(k, v)| (k, match v {
            Value::String(s) => JsonMember::Str(s),
            other => JsonMember::Raw(other.to_string()),
        })).collect()),
        Ok(Value::String(s)) => JsonDoc::Str(s),
        Ok(other) => JsonDoc::Other(other.to_string()),
    }
}

/// The base64 digit of a six-bit value, in the standard alphabet.
pub open spec fn b64_digit(v: int) -> char {
    if v < 26 {
        ((65 + v) as u32) as char
    } else if v < 52 {
        ((71 + v) as u32) as char
    } else if v < 62 {
        ((v - 4) as u32) as char
    } else if v == 62 {
        '+'
    } else {
        '/'
    }
}

/// Standard base64 with padding: each three bytes become four digits; a last one or two
/// bytes become two or three digits and `=` padding.
pub open spec fn b64_encode(b: Seq<u8>) -> Seq<char>
    decreases b.len(),
{
    if b.len() == 0 {
        Seq::empty()
    } else {
        let b0 = b[0] as int;
        if b.len() == 1 {
            seq![b64_digit(b0 / 4), b64_digit((b0 % 4) * 16), '=', '=']
        } else {
            let b1 = b[1] as int;
            if b.len() == 2 {
                seq![b64_digit(b0 / 4), b64_digit((b0 % 4) * 16 + b1 / 16), b64_digit((b1 % 16) * 4), '=']
            } else {
                let b2 = b[2] as int;
                seq![
                    b64_digit(b0 / 4),
                    b64_digit((b0 % 4) * 16 + b1 / 16),
                    b64_digit((b1 % 16) * 4 + b2 / 64),
                    b64_digit(b2 % 64),
                ] + b64_encode(b.subrange(3, b.len() as int))
            }
        }
    }
}

/// Encodes bytes as standard, padded base64 (`base64::engine::general_purpose::STANDARD`).
#[verifier::external_body]
pub(crate) fn base64_encode(bytes: &[u8]) -> (r: String)
    ensures
        r@ == b64_encode(bytes@),
{
    base64::engine::general_purpose::STANDARD.encode(bytes)
}

/// What standard, padded base64 decoding makes of a text: the bytes whose encoding the text
/// is, or `None` when it is the encoding of no bytes. (Encoding is one to one, see
/// [`lemma_b64_encode_injective`].)
pub open spec fn base64_decoded(text: Seq<char>) -> Option<Seq<u8>> {
    if exists|b: Seq<u8>| #[trigger] b64_encode(b) == text {
        Some(choose|b: Seq<u8>| #[trigger] b64_encode(b) == text)
    } else {
        None
    }
}

/// Decodes standard, padded base64 (`base64::engine::general_purpose::STANDARD`, which
/// requires canonical padding and no trailing bits): it accepts exactly the texts that are
/// the standard encoding of some bytes, and gives back those bytes.
#[verifier::external_body]
fn standard_decode(text: &str) -> (r: Option<Vec<u8>>)
    ensures
        match r {
            Some(v) => b64_encode(v@) == text@,
            None => forall|b: Seq<u8>| #[trigger] b64_encode(b) != text@,
        },
{
    base64::engine::general_purpose::STANDARD.decode(text).ok()
}

/// Decodes standard, padded base64; `None` when the text is not valid base64.
pub(crate) fn base64_decode(text: &str) -> (r: Option<Vec<u8>>)
    ensures
        match r {
            Some(v) => base64_decoded(text@) == Some(v@),
            None => base64_decoded(text@) is None,
        },
{
    let r = standard_decode(text);
    match &r {
        Some(v) => {
            proof {
                let b = choose|b: Seq<u8>| #[trigger] b64_encode(b) == text@;
                lemma_b64_encode_injective(b, v@);
            }
        },
        None => {},
    }
    r
}

/// The code of a base64 digit.
pub open spec fn b64_code(v: int) -> int {
    if v < 26 {
        65 + v
    } else if v < 52 {
        71 + v
    } else if v < 62 {
        v - 4
    } else if v == 62 {
        43
    } else {
        47
    }
}

proof fn lemma_b64_digit_code(v: int)
    requires
        0 <= v < 64,
    ensures
        b64_digit(v) as u32 == b64_code(v),
        b64_digit(v) != '=',
{
}

proof fn lemma_b64_digit_injective(x: int, y: int)
    requires
        0 <= x < 64,
        0 <= y < 64,
        b64_digit(x) == b64_digit(y),
    ensures
        x == y,
{
    lemma_b64_digit_code(x);
    lemma_b64_digit_code(y);
}

proof fn lemma_b64_len(b: Seq<u8>)
    ensures
        b.len() == 0 ==> b64_encode(b).len() == 0,
        b.len() > 0 ==> b64_encode(b).len() >= 4,
        b.len() == 1 ==> b64_encode(b)[2] == '=' && b64_encode(b)[3] == '=',
        b.len() == 2 ==> b64_encode(b)[2] != '=' && b64_encode(b)[3] == '=',
        b.len() >= 3 ==> b64_encode(b)[2] != '=' && b64_encode(b)[3] != '=',
{
    if b.len() >= 2 {
        let b0 = b[0] as int;
        let b1 = b[1] as int;
        lemma_b64_digit_code((b1 % 16) * 4 + if b.len() >= 3 { b[2] as int / 64 } else { 0 });
        if b.len() >= 3 {
            lemma_b64_digit_code(b[2] as int % 64);
        }
    }
}

/// Base64 encoding is one to one: two byte strings with the same encoding are equal.
pub proof fn lemma_b64_encode_injective(a: Seq<u8>, b: Seq<u8>)
    requires
        b64_encode(a) == b64_encode(b),
    ensures
        a == b,
    decreases a.len(),
{
    lemma_b64_len(a);
    lemma_b64_len(b);
    let e = b64_encode(a);
    if a.len() == 0 {
        assert(a =~= b);
        return;
    }
    assert(b.len() > 0);
    assert(a.len() == 1 <==> b.len() == 1);
    assert(a.len() == 2 <==> b.len() == 2);
    let a0 = a[0] as int;
    let b0 = b[0] as int;
    assert(e[0] == b64_digit(a0 / 4));
    assert(b64_encode(b)[0] == b64_digit(b0 / 4));
    assert(e[1] == b64_digit((a0 % 4) * 16 + if a.len() >= 2 { a[1] as int / 16 } else { 0 }));
    assert(b64_encode(b)[1] == b64_digit((b0 % 4) * 16 + if b.len() >= 2 { b[1] as int / 16 } else { 0 }));
    lemma_b64_digit_injective(a0 / 4, b0 / 4);
    if a.len() == 1 {
        lemma_b64_digit_injective((a0 % 4) * 16, (b0 % 4) * 16);
        assert(a =~= b);
        return;
    }
    let a1 = a[1] as int;
    let b1 = b[1] as int;
    lemma_b64_digit_injective((a0 % 4) * 16 + a1 / 16, (b0 % 4) * 16 + b1 / 16);
    if a.len() == 2 {
        lemma_b64_digit_injective((a1 % 16) * 4, (b1 % 16) * 4);
        assert(a =~= b);
        return;
    }
    let a2 = a[2] as int;
    let b2 = b[2] as int;
    lemma_b64_digit_injective((a1 % 16) * 4 + a2 / 64, (b1 % 16) * 4 + b2 / 64);
    lemma_b64_digit_injective(a2 % 64, b2 % 64);
    let ra = a.subrange(3, a.len() as int);
    let rb = b.subrange(3, b.len() as int);
    assert(b64_encode(ra) =~= e.subrange(4, e.len() as int));
    assert(b64_encode(rb) =~= e.subrange(4, e.len() as int));
    lemma_b64_encode_injective(ra, rb);
    assert(a =~= seq![a[0], a[1], a[2]] + ra);
    assert(b =~= seq![b[0], b[1], b[2]] + rb);
}

/// Decoding gives back what was encoded: the standard base64 text of any bytes decodes to
/// exactly those bytes.
pub proof fn law_base64_decodes_its_encoding(b: Seq<u8>)
    ensures
        base64_decoded(b64_encode(b)) == Some(b),
{
    assert(b64_encode(b) == b64_encode(b));
    let c = choose|c: Seq<u8>| #[trigger] b64_encode(c) == b64_encode(b);
    lemma_b64_encode_injective(c, b);
}

/// The message of the error `String::from_utf8` gives for bytes that are not UTF-8.
pub uninterp spec fn utf8_error_text(bytes: Seq<u8>) -> Seq<char>;

/// Reads bytes as UTF-8 (`String::from_utf8`): the text when they are valid UTF-8, else the
/// error's message, which depends on the bytes alone and is left to the name.
#[verifier::external_body]
pub(crate) fn string_from_utf8(bytes: Vec<u8>) -> (r: Result<String, String>)
    ensures
        match r {
            Ok(s) => vstd::utf8::valid_utf8(bytes@) && s@ == vstd::utf8::decode_utf8(bytes@),
            Err(e) => !vstd::utf8::valid_utf8(bytes@) && e@ == utf8_error_text(bytes@),
        },
{
    String::from_utf8(bytes).map_err(|e| e.to_string())
}

} // verus!
