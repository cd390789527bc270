//! The signal server's reading of its settings: the browser origins it admits and the
//! on/off flags.
use vstd::prelude::*;

use crate::game_config::{ascii_lower, to_ascii_lowercase};
use crate::libretro::find_char;
use crate::text::{chars_of, is_whitespace, is_ws, push_str, str_eq, string_from_chars, string_from_range, trim_seq, trim_str};

verus! {

/// Whether `c` separates the entries of an origin list: a comma or whitespace.
pub open spec fn is_origin_separator(c: char) -> bool {
    c == ',' || is_ws(c)
}

/// The entries of `s` from position `i` on, `cur` being the entry read so far: the maximal
/// runs of characters that are not separators, in order.
pub open spec fn entries_from(s: Seq<char>, i: int, cur: Seq<char>) -> Seq<Seq<char>>
    decreases s.len() - i,
{
    if i < 0 || i >= s.len() {
        if cur.len() > 0 {
            seq![cur]
        } else {
            Seq::empty()
        }
    } else if is_origin_separator(s[i]) {
        (if cur.len() > 0 {
            seq![cur]
        } else {
            Seq::empty()
        }) + entries_from(s, i + 1, Seq::empty())
    } else {
        entries_from(s, i + 1, cur.push(s[i]))
    }
}

/// The origins an allow list names: its comma- or whitespace-separated entries.
pub open spec fn origin_entries(s: Seq<char>) -> Set<Seq<char>> {
    entries_from(s, 0, Seq::empty()).to_set()
}

/// Reads the allow list of browser origins: `None` when it is unset or names no origin,
/// else each origin once.
pub fn parse_allowed_origins(raw: Option<String>) -> (r: Option<Vec<String>>)
    ensures
        match raw {
            None => r is None,
            Some(s) => if origin_entries(s@).len() == 0 {
                r is None
            } else {
                r matches Some(v) && v.deep_view().no_duplicates() && v.deep_view().to_set() == origin_entries(s@)
            },
        },
{
    let raw = match raw {
        Some(s) => s,
        None => return None,
    };
    let v = chars_of(raw.as_str());
    let ghost s = raw@;
    let mut out: Vec<String> = Vec::new();
    let mut cur: Vec<char> = Vec::new();
    let mut i: usize = 0;
    assert(out.deep_view().to_set() =~= Set::<Seq<char>>::empty());
    while i < v.len()
        invariant
            v@ == s,
            i <= v.len(),
            out.deep_view().no_duplicates(),
            out.deep_view().to_set().union(entries_from(s, i as int, cur@).to_set()) == entries_from(s, 0, Seq::empty()).to_set(),
            forall|k: int| 0 <= k < out.deep_view().len() ==> #[trigger] out.deep_view()[k].len() > 0,
        decreases v.len() - i,
    {
        let c = v[i];
        if c == ',' || is_whitespace(c) {
            if cur.len() > 0 {
                let t = string_from_chars(&cur);
                push_unique(&mut out, t);
            }
            proof {
                let pre = if cur@.len() > 0 { seq![cur@] } else { Seq::<Seq<char>>::empty() };
                assert(entries_from(s, i as int, cur@) == pre + entries_from(s, i + 1, Seq::empty()));
                lemma_to_set_concat(pre, entries_from(s, i + 1, Seq::empty()));
                lemma_small_to_set(cur@);
            }
            cur = Vec::new();
            assert(out.deep_view().to_set().union(entries_from(s, i + 1, cur@).to_set()) =~= entries_from(s, 0, Seq::empty()).to_set());
        } else {
            let ghost old_cur = cur@;
            cur.push(c);
            assert(entries_from(s, i as int, old_cur) == entries_from(s, i + 1, cur@));
        }
        i = i + 1;
    }
    if cur.len() > 0 {
        let t = string_from_chars(&cur);
        push_unique(&mut out, t);
    }
    proof {
        assert(entries_from(s, i as int, cur@) == (if cur@.len() > 0 { seq![cur@] } else { Seq::<Seq<char>>::empty() }));
        lemma_small_to_set(cur@);
        assert(out.deep_view().to_set() =~= entries_from(s, 0, Seq::empty()).to_set());
    }
    if out.len() == 0 {
        proof {
            assert(out.deep_view() =~= Seq::<Seq<char>>::empty());
            assert(origin_entries(s) =~= Set::<Seq<char>>::empty());
        }
        return None;
    }
    proof {
        assert(out.deep_view().contains(out.deep_view()[0]));
        assert(origin_entries(s).contains(out.deep_view()[0]));
        vstd::set_lib::lemma_set_empty_equivalency_len(origin_entries(s));
        assert(origin_entries(s).finite()) by {
            vstd::seq_lib::seq_to_set_is_finite(entries_from(s, 0, Seq::empty()));
        }
    }
    Some(out)
}

proof fn lemma_small_to_set(x: Seq<char>)
    ensures
        (if x.len() > 0 { seq![x] } else { Seq::<Seq<char>>::empty() }).to_set() == (if x.len() > 0 {
            set![x]
        } else {
            Set::<Seq<char>>::empty()
        }),
{
    let a = if x.len() > 0 { seq![x] } else { Seq::<Seq<char>>::empty() };
    let b = if x.len() > 0 { set![x] } else { Set::<Seq<char>>::empty() };
    assert forall|y: Seq<char>| a.to_set().contains(y) <==> b.contains(y) by {
        if x.len() > 0 && y == x {
            assert(a[0] == y);
        }
    }
    assert(a.to_set() =~= b);
}

proof fn lemma_to_set_concat(a: Seq<Seq<char>>, b: Seq<Seq<char>>)
    ensures
        (a + b).to_set() == a.to_set().union(b.to_set()),
{
    assert forall|x: Seq<char>| (a + b).to_set().contains(x) <==> a.to_set().union(b.to_set()).contains(x) by {
        if (a + b).contains(x) {
            let k = choose|k: int| 0 <= k < (a + b).len() && (a + b)[k] == x;
            if k < a.len() {
                assert(a[k] == x);
            } else {
                assert(b[k - a.len()] == x);
            }
        }
        if a.contains(x) {
            let k = choose|k: int| 0 <= k < a.len() && a[k] == x;
            assert((a + b)[k] == x);
        }
        if b.contains(x) {
            let k = choose|k: int| 0 <= k < b.len() && b[k] == x;
            assert((a + b)[k + a.len()] == x);
        }
    }
    assert((a + b).to_set() =~= a.to_set().union(b.to_set()));
}

fn push_unique(out: &mut Vec<String>, t: String)
    requires
        old(out).deep_view().no_duplicates(),
    ensures
        final(out).deep_view().no_duplicates(),
        final(out).deep_view().to_set() == old(out).deep_view().to_set().insert(t@),
        forall|k: int| 0 <= k < final(out).deep_view().len() ==> #[trigger] final(out).deep_view()[k] == t@ || old(out).deep_view().contains(final(out).deep_view()[k]),
{
    let mut i: usize = 0;
    while i < out.len()
        invariant
            i <= out.len(),
            out.deep_view() == old(out).deep_view(),
            old(out).deep_view().no_duplicates(),
            forall|k: int| 0 <= k < i ==> out.deep_view()[k] != t@,
        decreases out.len() - i,
    {
        if str_eq(out[i].as_str(), t.as_str()) {
            assert(out.deep_view()[i as int] == t@);
            assert(out.deep_view().to_set() =~= out.deep_view().to_set().insert(t@));
            return;
        }
        i = i + 1;
    }
    let ghost before = out.deep_view();
    let ghost tv = t@;
    out.push(t);
    assert(out.deep_view() =~= before.push(tv));
    assert(out.deep_view().to_set() =~= before.to_set().insert(tv)) by {
        assert forall|x: Seq<char>| out.deep_view().to_set().contains(x) <==> before.to_set().insert(tv).contains(x) by {
            if out.deep_view().contains(x) {
                let k = choose|k: int| 0 <= k < out.deep_view().len() && out.deep_view()[k] == x;
                if k < before.len() {
                    assert(before[k] == x);
                }
            }
            if before.contains(x) {
                let k = choose|k: int| 0 <= k < before.len() && before[k] == x;
                assert(out.deep_view()[k] == x);
            }
            if x == tv {
                assert(out.deep_view()[before.len() as int] == x);
            }
        }
    }
}

/// Whether a flag's value turns it on: after trimming, `1`, or `true`, `yes` or `on` in
/// any ASCII case.
pub open spec fn flag_on(value: Option<Seq<char>>) -> bool {
    match value {
        Some(v) => {
            let t = trim_seq(v);
            t.len() > 0 && (t == "1"@ || ascii_lower(t) == "true"@ || ascii_lower(t) == "yes"@ || ascii_lower(t)
                == "on"@)
        },
        None => false,
    }
}

/// Whether the value of an on/off setting turns it on.
pub fn parse_env_flag(value: Option<&str>) -> (on: bool)
    ensures
        on == flag_on(value.deep_view()),
{
    let v = match value {
        Some(v) => v,
        None => return false,
    };
    let t = trim_str(v);
    if t.as_str().is_empty() {
        return false;
    }
    let lower = to_ascii_lowercase(t.as_str());
    str_eq(t.as_str(), "1") || str_eq(lower.as_str(), "true") || str_eq(lower.as_str(), "yes") || str_eq(
        lower.as_str(),
        "on",
    )
}

/// Whether `s` begins with `p`.
pub open spec fn has_prefix(s: Seq<char>, p: Seq<char>) -> bool {
    p.len() <= s.len() && s.subrange(0, p.len() as int) == p
}

/// `s` with every leading copy of `p` removed (`str::trim_start_matches`).
pub open spec fn strip_prefixes(s: Seq<char>, p: Seq<char>) -> Seq<char>
    decreases s.len(),
{
    if p.len() > 0 && has_prefix(s, p) {
        strip_prefixes(s.subrange(p.len() as int, s.len() as int), p)
    } else {
        s
    }
}

/// The part of `s` before its first `/`.
pub open spec fn before_slash(s: Seq<char>) -> Seq<char> {
    s.subrange(0, find_char(s, '/', 0))
}

/// How to read a listen address setting: the default address, an address completed with
/// the host `0.0.0.0`, or the setting as it stands; with the text to warn about when the
/// address does not parse.
#[derive(Debug)]
pub enum ListenAddr {
    Default,
    WithHost { text: String, given: String },
    AsGiven { text: String, given: String },
}

/// The content of a [`ListenAddr`].
pub enum ListenAddrView {
    Default,
    WithHost { text: Seq<char>, given: Seq<char> },
    AsGiven { text: Seq<char>, given: Seq<char> },
}

impl View for ListenAddr {
    type V = ListenAddrView;

    open spec fn view(&self) -> ListenAddrView {
        match self {
            ListenAddr::Default => ListenAddrView::Default,
            ListenAddr::WithHost { text, given } => ListenAddrView::WithHost { text: text@, given: given@ },
            ListenAddr::AsGiven { text, given } => ListenAddrView::AsGiven { text: text@, given: given@ },
        }
    }
}

/// A listen address without a scheme: blank is the default; a bare `:port` or a value
/// without `:` gets the host `0.0.0.0`; anything else is read as it stands.
pub open spec fn plain_listen_addr(raw: Seq<char>) -> ListenAddrView {
    let t = trim_seq(raw);
    if t.len() == 0 {
        ListenAddrView::Default
    } else if t[0] == ':' {
        ListenAddrView::WithHost { text: "0.0.0.0"@ + t, given: t }
    } else if !t.contains(':') {
        ListenAddrView::WithHost { text: "0.0.0.0:"@ + t, given: t }
    } else {
        ListenAddrView::AsGiven { text: t, given: raw }
    }
}

/// A listen address setting: a URL (`http://` or `https://`) counts by its host and port,
/// the part before the first `/` once the leading schemes are removed; that part holds no
/// `/`, so it has no scheme of its own and is read as a plain address.
pub open spec fn listen_addr_of(raw: Seq<char>) -> ListenAddrView {
    let t = trim_seq(raw);
    if has_prefix(t, "http://"@) || has_prefix(t, "https://"@) {
        plain_listen_addr(before_slash(strip_prefixes(strip_prefixes(t, "https://"@), "http://"@)))
    } else {
        plain_listen_addr(raw)
    }
}

fn has_prefix_chars(v: &Vec<char>, from: usize, p: &str) -> (b: bool)
    requires
        from <= v@.len(),
    ensures
        b == has_prefix(v@.subrange(from as int, v@.len() as int), p@),
{
    let pv = chars_of(p);
    if pv.len() > v.len() - from {
        return false;
    }
    let mut i: usize = 0;
    while i < pv.len()
        invariant
            pv@ == p@,
            v@.len() <= usize::MAX,
            from + pv@.len() <= v@.len(),
            i <= pv@.len(),
            forall|j: int| 0 <= j < i ==> v@[from + j] == pv@[j],
        decreases pv.len() - i,
    {
        if v[from + i] != pv[i] {
            assert(v@.subrange(from as int, v@.len() as int).subrange(0, p@.len() as int)[i as int] != p@[i as int]);
            return false;
        }
        i = i + 1;
    }
    assert(v@.subrange(from as int, v@.len() as int).subrange(0, p@.len() as int) =~= p@);
    true
}

/// The position after the leading copies of `p` in `v[from..]`.
fn skip_prefixes(v: &Vec<char>, from: usize, p: &str) -> (r: usize)
    requires
        from <= v@.len(),
    ensures
        r <= v@.len(),
        v@.subrange(r as int, v@.len() as int) == strip_prefixes(v@.subrange(from as int, v@.len() as int), p@),
    decreases v@.len() - from,
{
    let pv = chars_of(p);
    if pv.len() == 0 || !has_prefix_chars(v, from, p) {
        return from;
    }
    assert(from + pv@.len() <= v.len());
    let next = from + pv.len();
    assert(v@.subrange(from as int, v@.len() as int).subrange(p@.len() as int, v@.len() - from) =~= v@.subrange(
        next as int,
        v@.len() as int,
    ));
    skip_prefixes(v, next, p)
}

fn plain_listen_addr_exec(raw: &str) -> (r: ListenAddr)
    ensures
        r@ == plain_listen_addr(raw@),
{
    let t = trim_str(raw);
    let tv = chars_of(t.as_str());
    if tv.len() == 0 {
        return ListenAddr::Default;
    }
    if tv[0] == ':' {
        let mut text = "0.0.0.0".to_owned();
        push_str(&mut text, t.as_str());
        return ListenAddr::WithHost { text, given: t };
    }
    let mut i: usize = 0;
    while i < tv.len()
        invariant
            tv@ == t@,
            t@ == trim_seq(raw@),
            tv@.len() > 0 && tv@[0] != ':',
            i <= tv@.len(),
            forall|j: int| 0 <= j < i ==> tv@[j] != ':',
        decreases tv.len() - i,
    {
        if tv[i] == ':' {
            assert(t@[i as int] == ':');
            assert(t@.contains(':'));
            return ListenAddr::AsGiven { text: t, given: raw.to_owned() };
        }
        i = i + 1;
    }
    let mut text = "0.0.0.0:".to_owned();
    push_str(&mut text, t.as_str());
    ListenAddr::WithHost { text, given: t }
}

/// How to read a listen address setting.
pub fn listen_addr(raw: &str) -> (r: ListenAddr)
    ensures
        r@ == listen_addr_of(raw@),
{
    let t = trim_str(raw);
    let tv = chars_of(t.as_str());
    assert(tv@.subrange(0, tv@.len() as int) =~= tv@);
    if has_prefix_chars(&tv, 0, "http://") || has_prefix_chars(&tv, 0, "https://") {
        let a = skip_prefixes(&tv, 0, "https://");
        let rest = string_from_range(&tv, a, tv.len());
        let rv = chars_of(rest.as_str());
        let b = skip_prefixes(&rv, 0, "http://");
        assert(rv@.subrange(0, rv@.len() as int) =~= rv@);
        let mut k = b;
        while k < rv.len() && rv[k] != '/'
            invariant
                b <= k <= rv@.len(),
                forall|j: int| b <= j < k ==> rv@[j] != '/',
            decreases rv.len() - k,
        {
            k = k + 1;
        }
        let host = string_from_range(&rv, b, k);
        proof {
            let s = rv@.subrange(b as int, rv@.len() as int);
            lemma_find_first_slash(s, k - b);
            assert(host@ =~= before_slash(s));
        }
        return plain_listen_addr_exec(host.as_str());
    }
    plain_listen_addr_exec(raw)
}

proof fn lemma_find_first_slash(s: Seq<char>, k: int)
    requires
        0 <= k <= s.len(),
        forall|j: int| 0 <= j < k ==> s[j] != '/',
        k < s.len() ==> s[k] == '/',
    ensures
        find_char(s, '/', 0) == k,
{
    lemma_find_from(s, 0, k);
}

proof fn lemma_find_from(s: Seq<char>, i: int, k: int)
    requires
        0 <= i <= k <= s.len(),
        forall|j: int| i <= j < k ==> s[j] != '/',
        k < s.len() ==> s[k] == '/',
    ensures
        find_char(s, '/', i) == k,
    decreases k - i,
{
    if i < k {
        lemma_find_from(s, i + 1, k);
    }
}

} // verus!
