//! Query parameters of the signal server URL: adding the access token, and hiding it in logs.
use vstd::prelude::*;

use crate::text::{chars_of, push_char, push_str};
use vstd::string::StringSliceAdditionalSpecFns;

verus! {

/// Whether `t` occurs in `s` at position `i`.
pub open spec fn occurs_at<T>(s: Seq<T>, t: Seq<T>, i: int) -> bool {
    0 <= i && i + t.len() <= s.len() && s.subrange(i, i + t.len()) == t
}

/// Whether `t` occurs in `s`.
pub open spec fn contains_seq<T>(s: Seq<T>, t: Seq<T>) -> bool {
    exists|i: int| #[trigger] occurs_at(s, t, i)
}

/// Whether `t` occurs in `s` (`str::contains`).
pub fn contains_str(s: &str, t: &str) -> (r: bool)
    ensures
        r == contains_seq(s@, t@),
{
    let a = chars_of(s);
    let b = chars_of(t);
    if b.len() > a.len() {
        proof {
            assert forall|i: int| !occurs_at(s@, t@, i) by {}
        }
        return false;
    }
    let mut i: usize = 0;
    while i <= a.len() - b.len()
        invariant
            a@ == s@,
            b@ == t@,
            b.len() <= a.len(),
            i <= a.len() - b.len() + 1,
            forall|j: int| 0 <= j < i ==> !#[trigger] occurs_at(s@, t@, j),
        decreases a.len() - i,
    {
        let mut k: usize = 0;
        let mut same = true;
        while k < b.len()
            invariant
                a@ == s@,
                b@ == t@,
                i + b.len() <= a.len(),
                k <= b.len(),
                same == (forall|q: int| 0 <= q < k ==> a@[i + q] == b@[q]),
            decreases b.len() - k,
        {
            if a[i + k] != b[k] {
                same = false;
            }
            k = k + 1;
        }
        if same {
            assert(s@.subrange(i as int, i + t@.len()) =~= t@);
            assert(occurs_at(s@, t@, i as int));
            return true;
        }
        proof {
            if occurs_at(s@, t@, i as int) {
                assert forall|q: int| 0 <= q < b.len() implies a@[i + q] == b@[q] by {
                    assert(s@.subrange(i as int, i + t@.len())[q] == t@[q]);
                }
            }
        }
        i = i + 1;
    }
    proof {
        assert forall|j: int| !occurs_at(s@, t@, j) by {
            if 0 <= j && j + t@.len() <= s@.len() {
                assert(j < i);
            }
        }
    }
    false
}

/// Whether a byte is left as is in a query component: ASCII letters, digits and `-_.~`.
pub open spec fn is_unreserved(b: u8) -> bool {
    ||| (65 <= b && b <= 90)
    ||| (97 <= b && b <= 122)
    ||| (48 <= b && b <= 57)
    ||| b == 45
    ||| b == 95
    ||| b == 46
    ||| b == 126
}

/// The upper-case hexadecimal digit of `d`.
pub open spec fn hex_upper(d: nat) -> char {
    if d < 10 {
        ((d + 48) as u32) as char
    } else {
        ((d + 55) as u32) as char
    }
}

/// A byte of a query component as written: itself, or `%` and two upper-case hex digits.
pub open spec fn encode_byte(b: u8) -> Seq<char> {
    if is_unreserved(b) {
        seq![b as char]
    } else {
        seq!['%', hex_upper((b / 16) as nat), hex_upper((b % 16) as nat)]
    }
}

/// Bytes percent-encoded for a URL query component.
pub open spec fn url_encoded(bs: Seq<u8>) -> Seq<char>
    decreases bs.len(),
{
    if bs.len() == 0 {
        Seq::empty()
    } else {
        url_encoded(bs.drop_last()) + encode_byte(bs.last())
    }
}

fn hex_upper_digit(d: u8) -> (c: char)
    requires
        d < 16,
    ensures
        c == hex_upper(d as nat),
{
    let r: char = match d {
        0 => '0',
        1 => '1',
        2 => '2',
        3 => '3',
        4 => '4',
        5 => '5',
        6 => '6',
        7 => '7',
        8 => '8',
        9 => '9',
        10 => 'A',
        11 => 'B',
        12 => 'C',
        13 => 'D',
        14 => 'E',
        _ => 'F',
    };
    r
}

/// Percent-encodes the UTF-8 bytes of `value` for a query component.
pub fn url_encode_query_component(value: &str) -> (r: String)
    ensures
        r@ == url_encoded(value.spec_bytes()),
        percent_decoded(r@) == Some(value.spec_bytes()),
{
    proof {
        law_query_component_reads_back(value.spec_bytes());
    }
    let bytes = value.as_bytes();
    let mut out = String::new();
    let mut i: usize = 0;
    while i < bytes.len()
        invariant
            bytes@ == value.spec_bytes(),
            i <= bytes@.len(),
            out@ == url_encoded(bytes@.subrange(0, i as int)),
        decreases bytes.len() - i,
    {
        let b = bytes[i];
        assert(bytes@.subrange(0, i + 1).drop_last() =~= bytes@.subrange(0, i as int));
        if (65 <= b && b <= 90) || (97 <= b && b <= 122) || (48 <= b && b <= 57) || b == 45 || b == 95 || b == 46
            || b == 126 {
            push_char(&mut out, b as char);
        } else {
            push_char(&mut out, '%');
            push_char(&mut out, hex_upper_digit(b / 16));
            push_char(&mut out, hex_upper_digit(b % 16));
        }
        i = i + 1;
        assert(out@ =~= url_encoded(bytes@.subrange(0, i as int)));
    }
    assert(bytes@.subrange(0, i as int) =~= bytes@);
    out
}

/// Whether a character may stand as itself in a URL query component: RFC 3986's unreserved
/// characters, the ASCII letters and digits and `-`, `.`, `_`, `~`.
pub open spec fn rfc3986_unreserved(c: char) -> bool {
    ||| ('A' <= c && c <= 'Z')
    ||| ('a' <= c && c <= 'z')
    ||| ('0' <= c && c <= '9')
    ||| c == '-'
    ||| c == '.'
    ||| c == '_'
    ||| c == '~'
}

/// The value of an upper-case hexadecimal digit.
pub open spec fn upper_hex_value(c: char) -> Option<nat> {
    if '0' <= c && c <= '9' {
        Some((c as nat - 48) as nat)
    } else if 'A' <= c && c <= 'F' {
        Some((c as nat - 55) as nat)
    } else {
        None
    }
}

/// The bytes a query component stands for, when it is written the one way RFC 3986
/// recommends: every unreserved character stands for its own byte, every other byte is
/// written as `%` and two upper-case hex digits, and no unreserved byte is escaped.
/// `None` for any other text.
pub open spec fn percent_decoded(s: Seq<char>) -> Option<Seq<u8>>
    decreases s.len(),
{
    if s.len() == 0 {
        Some(Seq::empty())
    } else if s[0] == '%' {
        if s.len() >= 3 && upper_hex_value(s[1]) is Some && upper_hex_value(s[2]) is Some {
            let v = upper_hex_value(s[1])->0 * 16 + upper_hex_value(s[2])->0;
            if rfc3986_unreserved((v as u32) as char) {
                None
            } else {
                match percent_decoded(s.subrange(3, s.len() as int)) {
                    Some(rest) => Some(seq![v as u8] + rest),
                    None => None,
                }
            }
        } else {
            None
        }
    } else if rfc3986_unreserved(s[0]) {
        match percent_decoded(s.drop_first()) {
            Some(rest) => Some(seq![(s[0] as u32) as u8] + rest),
            None => None,
        }
    } else {
        None
    }
}

proof fn lemma_url_encoded_front(bs: Seq<u8>)
    requires
        bs.len() > 0,
    ensures
        url_encoded(bs) == encode_byte(bs[0]) + url_encoded(bs.drop_first()),
    decreases bs.len(),
{
    if bs.len() == 1 {
        assert(bs.drop_last() =~= Seq::<u8>::empty());
        assert(bs.drop_first() =~= Seq::<u8>::empty());
        assert(url_encoded(bs) =~= encode_byte(bs[0]) + url_encoded(bs.drop_first()));
    } else {
        let dl = bs.drop_last();
        lemma_url_encoded_front(dl);
        assert(dl[0] == bs[0]);
        assert(bs.drop_first().drop_last() =~= dl.drop_first());
        assert(bs.drop_first().last() == bs.last());
        assert(url_encoded(bs) =~= encode_byte(bs[0]) + url_encoded(bs.drop_first()));
    }
}

proof fn lemma_hex_upper_reads_back(d: nat)
    requires
        d < 16,
    ensures
        upper_hex_value(hex_upper(d)) == Some(d),
{
    if d < 10 {
        let u = (d + 48) as u32;
        assert((u as char) as u32 == u);
    } else {
        let u = (d + 55) as u32;
        assert((u as char) as u32 == u);
    }
}

proof fn lemma_unreserved_byte(b: u8)
    ensures
        rfc3986_unreserved((b as u32) as char) == is_unreserved(b),
        (((b as u32) as char) as u32) as u8 == b,
{
    let u = b as u32;
    assert((u as char) as u32 == u);
}

proof fn lemma_decode_one(b: u8, t: Seq<char>)
    ensures
        percent_decoded(encode_byte(b) + t) == (match percent_decoded(t) {
            Some(rest) => Some(seq![b] + rest),
            None => None::<Seq<u8>>,
        }),
{
    let s = encode_byte(b) + t;
    lemma_unreserved_byte(b);
    if is_unreserved(b) {
        assert(encode_byte(b) == seq![b as char]);
        assert(s[0] == b as char);
        assert((b as char) == ((b as u32) as char));
        assert(s.drop_first() =~= t);
    } else {
        let hi = (b / 16) as nat;
        let lo = (b % 16) as nat;
        lemma_hex_upper_reads_back(hi);
        lemma_hex_upper_reads_back(lo);
        assert(s[0] == '%');
        assert(s[1] == hex_upper(hi));
        assert(s[2] == hex_upper(lo));
        assert(hi * 16 + lo == b);
        assert(s.subrange(3, s.len() as int) =~= t);
    }
}

/// Percent-encoding a query component is undone by reading it back: the text stands for
/// exactly the value's bytes, with only unreserved characters left as they are and every
/// other byte, `+` and `%` included, escaped.
pub proof fn law_query_component_reads_back(bs: Seq<u8>)
    ensures
        percent_decoded(url_encoded(bs)) == Some(bs),
    decreases bs.len(),
{
    if bs.len() == 0 {
        assert(url_encoded(bs) =~= Seq::<char>::empty());
    } else {
        lemma_url_encoded_front(bs);
        law_query_component_reads_back(bs.drop_first());
        lemma_decode_one(bs[0], url_encoded(bs.drop_first()));
        assert(seq![bs[0]] + bs.drop_first() =~= bs);
    }
}

/// `url` with `key=value` added as a query parameter, unless there is no value or the URL
/// already carries that key.
pub open spec fn with_query_param(url: Seq<char>, key: Seq<char>, value: Option<Seq<u8>>) -> Seq<char> {
    match value {
        None => url,
        Some(v) => if contains_seq(url, seq!['?'] + key + seq!['=']) || contains_seq(url, seq!['&'] + key + seq!['=']) {
            url
        } else {
            url + seq![if contains_seq(url, seq!['?']) {
                '&'
            } else {
                '?'
            }] + key + seq!['='] + url_encoded(v)
        },
    }
}

/// Adds `key=value` to the URL's query, percent-encoding the value; the URL is left as is
/// when there is no value or the key is already there.
pub fn append_query_param(url: String, key: &str, value: Option<&str>) -> (r: String)
    ensures
        r@ == with_query_param(
            url@,
            key@,
            match value {
                Some(v) => Some(v.spec_bytes()),
                None => None,
            },
        ),
{
    let value = match value {
        Some(v) => v,
        None => return url,
    };
    let has_query = contains_str(url.as_str(), "?");
    let mut q = String::new();
    push_char(&mut q, '?');
    push_str(&mut q, key);
    push_char(&mut q, '=');
    let mut a = String::new();
    push_char(&mut a, '&');
    push_str(&mut a, key);
    push_char(&mut a, '=');
    proof {
        assert(q@ =~= seq!['?'] + key@ + seq!['=']);
        assert(a@ =~= seq!['&'] + key@ + seq!['=']);
        reveal_strlit("?");
        assert("?"@ =~= seq!['?']);
    }
    if contains_str(url.as_str(), q.as_str()) || contains_str(url.as_str(), a.as_str()) {
        return url;
    }
    let mut url = url;
    push_char(&mut url, if has_query { '&' } else { '?' });
    push_str(&mut url, key);
    push_char(&mut url, '=');
    let encoded = url_encode_query_component(value);
    push_str(&mut url, encoded.as_str());
    url
}

/// Whether the bytes after position `i` start with `key` followed by `=`.
pub open spec fn key_follows(b: Seq<u8>, key: Seq<u8>, i: int) -> bool {
    i + 1 + key.len() < b.len() && b.subrange(i + 1, i + 1 + key.len()) == key && b[i + 1 + key.len()] == 61
}

/// The first position from `j` on that holds `&` or `#`, or the end.
pub open spec fn value_end(b: Seq<u8>, j: int) -> int
    decreases b.len() - j,
{
    if j >= b.len() || b[j] == 38 || b[j] == 35 {
        j
    } else {
        value_end(b, j + 1)
    }
}

/// The log form of the bytes of a URL from position `i` on: each byte as the character
/// with its code, except that the value of every `key` query parameter reads `[REDACTED]`.
pub open spec fn redacted_from(b: Seq<u8>, key: Seq<u8>, key_text: Seq<char>, i: int) -> Seq<char>
    decreases b.len() - i,
{
    if i < 0 || i >= b.len() {
        Seq::empty()
    } else if (b[i] == 63 || b[i] == 38) && key_follows(b, key, i) {
        let j = i + 1 + key.len() + 1;
        proof {
            lemma_value_end_bounds(b, j);
        }
        seq![b[i] as char] + key_text + "=[REDACTED]"@ + redacted_from(b, key, key_text, value_end(b, j))
    } else {
        seq![b[i] as char] + redacted_from(b, key, key_text, i + 1)
    }
}

/// A parameter value ends at or after where it starts, and within the URL.
pub proof fn lemma_value_end_bounds(b: Seq<u8>, j: int)
    requires
        0 <= j <= b.len(),
    ensures
        j <= value_end(b, j) <= b.len(),
    decreases b.len() - j,
{
    if !(j >= b.len() || b[j] == 38 || b[j] == 35) {
        lemma_value_end_bounds(b, j + 1);
    }
}

/// The URL as it may be logged: the value of every `key` query parameter reads
/// `[REDACTED]`; an empty URL or key leaves the URL as is.
pub open spec fn redacted_for_log(url: &str, key: &str) -> Seq<char> {
    if url@.len() == 0 || key@.len() == 0 {
        url@
    } else {
        redacted_from(url.spec_bytes(), key.spec_bytes(), key@, 0)
    }
}

fn key_follows_at(b: &[u8], key: &[u8], i: usize) -> (r: bool)
    requires
        i < b@.len(),
    ensures
        r == key_follows(b@, key@, i as int),
{
    if key.len() >= b.len() - 1 - i {
        return false;
    }
    let mut k: usize = 0;
    while k < key.len()
        invariant
            i + 1 + key@.len() < b@.len(),
            i + 1 + key.len() < b.len(),
            k <= key@.len(),
            forall|q: int| 0 <= q < k ==> b@[i + 1 + q] == key@[q],
        decreases key.len() - k,
    {
        if b[i + 1 + k] != key[k] {
            proof {
                assert(b@.subrange(i + 1, i + 1 + key@.len())[k as int] != key@[k as int]);
            }
            return false;
        }
        k = k + 1;
    }
    assert(b@.subrange(i + 1, i + 1 + key@.len()) =~= key@);
    b[i + 1 + key.len()] == 61
}

/// Replaces the value of every `key` query parameter with `[REDACTED]`, for logging.
pub fn redact_url_query_param_for_log(url: &str, key: &str) -> (r: String)
    ensures
        r@ == redacted_for_log(url, key),
{
    if url.is_empty() || key.is_empty() {
        return url.to_owned();
    }
    let bytes = url.as_bytes();
    let kb = key.as_bytes();
    let mut out = String::new();
    let mut i: usize = 0;
    let ghost total = redacted_from(bytes@, kb@, key@, 0);
    assert(out@ + total =~= total);
    while i < bytes.len()
        invariant
            bytes@ == url.spec_bytes(),
            kb@ == key.spec_bytes(),
            i <= bytes@.len(),
            total == out@ + redacted_from(bytes@, kb@, key@, i as int),
        decreases bytes.len() - i,
    {
        let byte = bytes[i];
        let follows = (byte == 63 || byte == 38) && key_follows_at(bytes, kb, i);
        let ghost before = out@;
        if follows {
            push_char(&mut out, byte as char);
            push_str(&mut out, key);
            push_str(&mut out, "=[REDACTED]");
            let j = i + 1 + kb.len() + 1;
            let mut e = j;
            proof {
                lemma_value_end_bounds(bytes@, j as int);
            }
            while e < bytes.len() && bytes[e] != 38 && bytes[e] != 35
                invariant
                    j <= e <= bytes@.len(),
                    value_end(bytes@, j as int) == value_end(bytes@, e as int),
                decreases bytes.len() - e,
            {
                e = e + 1;
            }
            assert(out@ + redacted_from(bytes@, kb@, key@, e as int) =~= before + redacted_from(bytes@, kb@, key@, i as int));
            i = e;
        } else {
            push_char(&mut out, byte as char);
            assert(out@ + redacted_from(bytes@, kb@, key@, i + 1) =~= before + redacted_from(bytes@, kb@, key@, i as int));
            i = i + 1;
        }
    }
    assert(out@ =~= total);
    out
}

} // verus!
