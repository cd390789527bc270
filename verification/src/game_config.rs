//! Which game a worker runs and which libretro core plays it, and the worker's small
//! health endpoint.
use vstd::prelude::*;

use crate::text::{chars_of, digits_value, parse_usize, parses_as_usize, push_char, push_str, string_from_chars,
    string_from_range, unsigned_digits};

verus! {

/// The file extensions of game images the worker looks for.
pub const DEFAULT_GAME_EXTENSIONS: [&'static str; 12] = [
    "zip",
    "nes",
    "gba",
    "gbc",
    "gb",
    "smc",
    "fig",
    "bs",
    "cue",
    "v64",
    "n64",
    "z64",
];

/// The name a game gets when its file has none.
pub const FALLBACK_GAME_NAME: &'static str = "cloud-game";

/// The port of the health endpoint when the configured address has none.
pub const DEFAULT_HEALTH_PORT: u16 = 8081;

/// `c` with ASCII upper-case letters made lower case.
pub open spec fn ascii_lower_char(c: char) -> char {
    if 'A' <= c && c <= 'Z' {
        ((c as u8) + 32) as char
    } else {
        c
    }
}

/// `s` with ASCII upper-case letters made lower case (`str::to_ascii_lowercase`).
pub open spec fn ascii_lower(s: Seq<char>) -> Seq<char> {
    s.map_values(|c: char| ascii_lower_char(c))
}

/// `s` with ASCII letters made lower case.
pub fn to_ascii_lowercase(s: &str) -> (r: String)
    ensures
        r@ == ascii_lower(s@),
{
    let v = chars_of(s);
    let mut out = String::new();
    let mut i: usize = 0;
    while i < v.len()
        invariant
            v@ == s@,
            i <= v.len(),
            out@ == ascii_lower(s@.subrange(0, i as int)),
        decreases v.len() - i,
    {
        let c = v[i];
        let l = if 'A' <= c && c <= 'Z' {
            ((c as u8) + 32) as char
        } else {
            c
        };
        push_char(&mut out, l);
        i = i + 1;
        assert(out@ =~= ascii_lower(s@.subrange(0, i as int)));
    }
    assert(s@.subrange(0, i as int) =~= s@);
    out
}

/// `s` with every `_` made a space.
pub open spec fn underscores_to_spaces(s: Seq<char>) -> Seq<char> {
    s.map_values(|c: char| if c == '_' { ' ' } else { c })
}

/// The display name of a game from its file stem: underscores become spaces; without a
/// stem the game is called `cloud-game`.
pub open spec fn game_title(stem: Option<Seq<char>>) -> Seq<char> {
    match stem {
        Some(s) => underscores_to_spaces(s),
        None => FALLBACK_GAME_NAME@,
    }
}

/// The display name of a game from the stem of its file name.
pub fn game_name_from_stem(stem: Option<&str>) -> (r: String)
    ensures
        r@ == game_title(stem.deep_view()),
{
    let s = match stem {
        Some(s) => s,
        None => return FALLBACK_GAME_NAME.to_owned(),
    };
    let v = chars_of(s);
    let mut out: Vec<char> = Vec::new();
    let mut i: usize = 0;
    while i < v.len()
        invariant
            v@ == s@,
            i <= v.len(),
            out@ == underscores_to_spaces(s@.subrange(0, i as int)),
        decreases v.len() - i,
    {
        out.push(if v[i] == '_' { ' ' } else { v[i] });
        i = i + 1;
        assert(out@ =~= underscores_to_spaces(s@.subrange(0, i as int)));
    }
    assert(s@.subrange(0, i as int) =~= s@);
    string_from_chars(&out)
}

/// Whether a path reads the same on every platform: `/` is its only separator (it holds no
/// `\\` and no `:`, which some platforms read as a separator or a drive prefix), and it does
/// not start with `//`, which some platforms read as a network share.
pub open spec fn is_plain_path(s: Seq<char>) -> bool {
    &&& forall|i: int| 0 <= i < s.len() ==> s[i] != '\\' && s[i] != ':'
    &&& !(s.len() >= 2 && s[0] == '/' && s[1] == '/')
}

/// Where the last part of a path begins: just past its last `/`, or 0 when it has none.
pub open spec fn last_part_start(s: Seq<char>) -> int
    decreases s.len(),
{
    if s.len() == 0 {
        0
    } else if s.last() == '/' {
        s.len() as int
    } else {
        last_part_start(s.drop_last())
    }
}

/// The last part of a path begins within it, just past a `/` unless it is the whole path.
pub proof fn lemma_last_part_start(s: Seq<char>)
    ensures
        0 <= last_part_start(s) <= s.len(),
        last_part_start(s) > 0 ==> s[last_part_start(s) - 1] == '/',
        forall|j: int| last_part_start(s) <= j < s.len() ==> s[j] != '/',
    decreases s.len(),
{
    if s.len() > 0 && s.last() != '/' {
        lemma_last_part_start(s.drop_last());
        assert forall|j: int| last_part_start(s) <= j < s.len() implies s[j] != '/' by {
            if j < s.len() - 1 {
                assert(s[j] == s.drop_last()[j]);
            }
        }
    }
}

/// The file name of a path whose separator is `/`: its last part between `/`s that is not
/// empty or `.`; none when no such part is left or that part is `..`.
pub open spec fn path_file_name(s: Seq<char>) -> Option<Seq<char>>
    decreases s.len(),
{
    let k = last_part_start(s);
    let part = s.subrange(k, s.len() as int);
    if part.len() == 0 || part == "."@ {
        if k == 0 {
            None
        } else {
            proof {
                lemma_last_part_start(s);
            }
            path_file_name(s.subrange(0, k - 1))
        }
    } else if part == ".."@ {
        None
    } else {
        Some(part)
    }
}

/// The stem of the file name of a path whose separator is `/`.
pub open spec fn path_stem(s: Seq<char>) -> Option<Seq<char>> {
    match path_file_name(s) {
        Some(n) => stem_of_name(n),
        None => None,
    }
}

/// The extension of the file name of a path whose separator is `/`.
pub open spec fn path_extension(s: Seq<char>) -> Option<Seq<char>> {
    match path_file_name(s) {
        Some(n) => extension_of_name(n),
        None => None,
    }
}

/// Whether a name without separators is a file name: not empty, and not `.` or `..`.
pub open spec fn names_a_file(s: Seq<char>) -> bool {
    s.len() > 0 && s != "."@ && s != ".."@
}

/// The position of the last `.` of `s`, when it is not the first character.
pub open spec fn inner_dot(s: Seq<char>) -> Option<int> {
    if exists|i: int| 0 < i < s.len() && s[i] == '.' {
        Some(choose|i: int| 0 < i < s.len() && s[i] == '.' && forall|j: int| i < j < s.len() ==> s[j] != '.')
    } else {
        None
    }
}

/// The stem of a file name: the part before its last `.`, or all of it when there is no
/// `.` past the first character; none for an empty name, `.` or `..`.
pub open spec fn stem_of_name(s: Seq<char>) -> Option<Seq<char>> {
    if !names_a_file(s) {
        None
    } else {
        match inner_dot(s) {
            Some(i) => Some(s.subrange(0, i)),
            None => Some(s),
        }
    }
}

/// The extension of a file name: the part after its last `.`, when that `.` is not the
/// first character; none for an empty name, `.` or `..`.
pub open spec fn extension_of_name(s: Seq<char>) -> Option<Seq<char>> {
    if !names_a_file(s) {
        None
    } else {
        match inner_dot(s) {
            Some(i) => Some(s.subrange(i + 1, s.len() as int)),
            None => None,
        }
    }
}

/// The stem of the file name of a path (`Path::file_stem`, then `OsStr::to_str`). For a
/// path that reads the same on every platform this is what the documentation of
/// `Path::file_name` and `Path::file_stem` gives: the last component that is not empty or
/// `.`, none when it is `..` or there is none, and of that name the part before its last
/// `.` past the first character. Where the path holds `\\` or `:`, or starts with `//`, the
/// result depends on the platform's path syntax and nothing is stated.
#[verifier::external_body]
fn file_stem_of(path: &str) -> (r: Option<String>)
    ensures
        is_plain_path(path@) ==> r.deep_view() == path_stem(path@),
{
    match std::path::Path::new(path).file_stem() {
        Some(s) => s.to_str().map(|t| t.to_owned()),
        None => None,
    }
}

/// The extension of the file name of a path (`Path::extension`, then `OsStr::to_str`). For
/// a path that reads the same on every platform this is what the documentation of
/// `Path::file_name` and `Path::extension` gives: of the file name found as for
/// [`file_stem_of`], the part after its last `.` when that is not the first character.
/// Where the path holds `\\` or `:`, or starts with `//`, the result depends on the
/// platform's path syntax and nothing is stated.
#[verifier::external_body]
fn extension_of(path: &str) -> (r: Option<String>)
    ensures
        is_plain_path(path@) ==> r.deep_view() == path_extension(path@),
{
    match std::path::Path::new(path).extension() {
        Some(s) => s.to_str().map(|t| t.to_owned()),
        None => None,
    }
}

/// The display name of the game at `path`: its file stem with underscores as spaces.
pub fn resolve_game_name(path: &str) -> (r: String)
    ensures
        exists|stem: Option<Seq<char>>| r@ == game_title(stem),
        is_plain_path(path@) ==> r@ == game_title(path_stem(path@)),
{
    let stem = file_stem_of(path);
    let r = match &stem {
        Some(s) => game_name_from_stem(Some(s.as_str())),
        None => game_name_from_stem(None),
    };
    assert(r@ == game_title(stem.deep_view()));
    r
}

/// The libretro core for a game, and its options file if it has one, as paths relative to
/// the asset roots (the core without its library extension).
#[derive(Debug)]
pub struct EmulatorProfile {
    pub core: String,
    pub config: Option<String>,
}

pub const MGBA_CORE: &'static str = "assets/emulator/libretro/cores/mgba_libretro";
pub const PCSX_REARMED_CORE: &'static str = "assets/emulator/libretro/cores/pcsx_rearmed_libretro";
pub const FBNEO_CORE: &'static str = "assets/emulator/libretro/cores/fbneo_libretro";
pub const NESTOPIA_CORE: &'static str = "assets/emulator/libretro/cores/nestopia_libretro";
pub const MEDNAFEN_SNES_CORE: &'static str = "assets/emulator/libretro/cores/mednafen_snes_libretro";
pub const MUPEN64PLUS_CORE: &'static str = "assets/emulator/libretro/cores/mupen64plus_next_libretro";
pub const MUPEN64PLUS_CONFIG: &'static str = "assets/emulator/libretro/cores/mupen64plus_next_libretro.cfg";

/// The core and options file for a lower-case game file extension; mGBA for anything unknown.
pub open spec fn profile_of(ext: Seq<char>) -> (Seq<char>, Option<Seq<char>>) {
    if ext == "gba"@ || ext == "gbc"@ {
        (MGBA_CORE@, None)
    } else if ext == "cue"@ {
        (PCSX_REARMED_CORE@, None)
    } else if ext == "zip"@ {
        (FBNEO_CORE@, None)
    } else if ext == "nes"@ {
        (NESTOPIA_CORE@, None)
    } else if ext == "smc"@ || ext == "fig"@ || ext == "bs"@ {
        (MEDNAFEN_SNES_CORE@, None)
    } else if ext == "v64"@ || ext == "n64"@ || ext == "z64"@ {
        (MUPEN64PLUS_CORE@, Some(MUPEN64PLUS_CONFIG@))
    } else {
        (MGBA_CORE@, None)
    }
}

/// The consoles the worker plays, by lower-case game file extension: the core that runs
/// that console's games, and its options file if it has one.
pub open spec fn console_cores() -> Seq<(Seq<char>, Seq<char>, Option<Seq<char>>)> {
    seq![
        ("nes"@, NESTOPIA_CORE@, None),
        ("gba"@, MGBA_CORE@, None),
        ("gbc"@, MGBA_CORE@, None),
        ("cue"@, PCSX_REARMED_CORE@, None),
        ("zip"@, FBNEO_CORE@, None),
        ("smc"@, MEDNAFEN_SNES_CORE@, None),
        ("fig"@, MEDNAFEN_SNES_CORE@, None),
        ("bs"@, MEDNAFEN_SNES_CORE@, None),
        ("v64"@, MUPEN64PLUS_CORE@, Some(MUPEN64PLUS_CONFIG@)),
        ("n64"@, MUPEN64PLUS_CORE@, Some(MUPEN64PLUS_CONFIG@)),
        ("z64"@, MUPEN64PLUS_CORE@, Some(MUPEN64PLUS_CONFIG@)),
    ]
}

/// Each console's extension gets that console's core (and options file), in any ASCII
/// case; any other extension, or none, gets mGBA.
pub proof fn law_each_console_gets_its_core(ext: Seq<char>)
    ensures
        forall|i: int|
            0 <= i < console_cores().len() && ascii_lower(ext) == #[trigger] console_cores()[i].0 ==> profile_of(
                ascii_lower(ext),
            ) == (console_cores()[i].1, console_cores()[i].2),
        (forall|i: int| 0 <= i < console_cores().len() ==> ascii_lower(ext) != #[trigger] console_cores()[i].0)
            ==> profile_of(ascii_lower(ext)) == (MGBA_CORE@, None::<Seq<char>>),
        profile_of(Seq::empty()) == (MGBA_CORE@, None::<Seq<char>>),
{
    reveal_strlit("nes");
    reveal_strlit("gba");
    reveal_strlit("gbc");
    reveal_strlit("cue");
    reveal_strlit("zip");
    reveal_strlit("smc");
    reveal_strlit("fig");
    reveal_strlit("bs");
    reveal_strlit("v64");
    reveal_strlit("n64");
    reveal_strlit("z64");
    let t = console_cores();
    let e = ascii_lower(ext);
    assert(t[0].0 == "nes"@ && t[1].0 == "gba"@ && t[2].0 == "gbc"@ && t[3].0 == "cue"@ && t[4].0 == "zip"@);
    assert(t[5].0 == "smc"@ && t[6].0 == "fig"@ && t[7].0 == "bs"@ && t[8].0 == "v64"@ && t[9].0 == "n64"@
        && t[10].0 == "z64"@);
    assert(Seq::<char>::empty().len() == 0);
    assert("nes"@[0] == 'n' && "gba"@[0] == 'g' && "gbc"@[2] == 'c' && "gba"@[2] == 'a' && "cue"@[0] == 'c'
        && "zip"@[0] == 'z' && "smc"@[0] == 's' && "fig"@[0] == 'f' && "v64"@[0] == 'v' && "n64"@[0] == 'n'
        && "nes"@[1] == 'e' && "n64"@[1] == '6' && "z64"@[0] == 'z' && "zip"@[1] == 'i');
    assert forall|i: int|
        0 <= i < t.len() && e == #[trigger] t[i].0 implies profile_of(e) == (t[i].1, t[i].2) by {
        if i == 0 {
            assert(profile_of("nes"@) == (NESTOPIA_CORE@, None::<Seq<char>>));
        } else if i == 1 {
            assert(profile_of("gba"@) == (MGBA_CORE@, None::<Seq<char>>));
        } else if i == 2 {
            assert(profile_of("gbc"@) == (MGBA_CORE@, None::<Seq<char>>));
        } else if i == 3 {
            assert(profile_of("cue"@) == (PCSX_REARMED_CORE@, None::<Seq<char>>));
        } else if i == 4 {
            assert(profile_of("zip"@) == (FBNEO_CORE@, None::<Seq<char>>));
        } else if i == 5 {
            assert(profile_of("smc"@) == (MEDNAFEN_SNES_CORE@, None::<Seq<char>>));
        } else if i == 6 {
            assert(profile_of("fig"@) == (MEDNAFEN_SNES_CORE@, None::<Seq<char>>));
        } else if i == 7 {
            assert(profile_of("bs"@) == (MEDNAFEN_SNES_CORE@, None::<Seq<char>>));
        } else if i == 8 {
            assert(profile_of("v64"@) == (MUPEN64PLUS_CORE@, Some(MUPEN64PLUS_CONFIG@)));
        } else if i == 9 {
            assert(profile_of("n64"@) == (MUPEN64PLUS_CORE@, Some(MUPEN64PLUS_CONFIG@)));
        } else {
            assert(profile_of("z64"@) == (MUPEN64PLUS_CORE@, Some(MUPEN64PLUS_CONFIG@)));
        }
    }
}

fn ext_is(e: &str, lit: &str) -> (b: bool)
    ensures
        b == (e@ == lit@),
{
    crate::text::str_eq(e, lit)
}

/// The core and options file for a game file extension, compared without ASCII case.
pub fn profile_for_extension(ext: Option<&str>) -> (p: EmulatorProfile)
    ensures
        (p.core@, p.config.deep_view()) == profile_of(
            match ext {
                Some(e) => ascii_lower(e@),
                None => Seq::empty(),
            },
        ),
{
    let lower = match ext {
        Some(e) => to_ascii_lowercase(e),
        None => String::new(),
    };
    let e = lower.as_str();
    let (core, config): (&str, Option<&str>) = if ext_is(e, "gba") || ext_is(e, "gbc") {
        (MGBA_CORE, None)
    } else if ext_is(e, "cue") {
        (PCSX_REARMED_CORE, None)
    } else if ext_is(e, "zip") {
        (FBNEO_CORE, None)
    } else if ext_is(e, "nes") {
        (NESTOPIA_CORE, None)
    } else if ext_is(e, "smc") || ext_is(e, "fig") || ext_is(e, "bs") {
        (MEDNAFEN_SNES_CORE, None)
    } else if ext_is(e, "v64") || ext_is(e, "n64") || ext_is(e, "z64") {
        (MUPEN64PLUS_CORE, Some(MUPEN64PLUS_CONFIG))
    } else {
        (MGBA_CORE, None)
    };
    EmulatorProfile {
        core: core.to_owned(),
        config: match config {
            Some(c) => Some(c.to_owned()),
            None => None,
        },
    }
}

/// The core and options file for the game at `path`, chosen by its file extension.
pub fn profile_for_game(path: &str) -> (p: EmulatorProfile)
    ensures
        exists|ext: Seq<char>| (p.core@, p.config.deep_view()) == profile_of(ext),
        is_plain_path(path@) ==> (p.core@, p.config.deep_view()) == profile_of(
            match path_extension(path@) {
                Some(e) => ascii_lower(e),
                None => Seq::empty(),
            },
        ),
{
    let ext = extension_of(path);
    let p = match &ext {
        Some(e) => profile_for_extension(Some(e.as_str())),
        None => profile_for_extension(None),
    };
    assert((p.core@, p.config.deep_view()) == profile_of(
        match ext.deep_view() {
            Some(e) => ascii_lower(e),
            None => Seq::empty(),
        },
    ));
    p
}

/// Whether a file extension is one of a game image, without ASCII case.
pub open spec fn is_game_extension(ext: Seq<char>) -> bool {
    exists|i: int| 0 <= i < 12 && ascii_lower(ext) == #[trigger] DEFAULT_GAME_EXTENSIONS[i]@
}

/// Whether a file extension is one of a game image, compared without ASCII case.
pub fn is_allowed_game_extension(ext: &str) -> (b: bool)
    ensures
        b == is_game_extension(ext@),
{
    let lower = to_ascii_lowercase(ext);
    let mut i: usize = 0;
    while i < 12
        invariant
            i <= 12,
            lower@ == ascii_lower(ext@),
            forall|j: int| 0 <= j < i ==> ascii_lower(ext@) != #[trigger] DEFAULT_GAME_EXTENSIONS[j]@,
        decreases 12 - i,
    {
        if crate::text::str_eq(lower.as_str(), DEFAULT_GAME_EXTENSIONS[i]) {
            return true;
        }
        i = i + 1;
    }
    false
}

/// The file extensions a libretro core library may have, tried in this order.
pub const CORE_LIBRARY_EXTENSIONS: [&'static str; 4] = [".so", ".armv7-neon-hf.so", ".dylib", ".dll"];

/// The library file names to try for a core path given without its extension: the path
/// with each library extension in turn.
pub fn core_library_candidates(base: &str) -> (v: Vec<String>)
    ensures
        v@.len() == 4,
        forall|i: int| 0 <= i < 4 ==> #[trigger] v@[i]@ == base@ + CORE_LIBRARY_EXTENSIONS[i]@,
{
    let mut v: Vec<String> = Vec::new();
    let mut i: usize = 0;
    while i < 4
        invariant
            i <= 4,
            v@.len() == i,
            forall|j: int| 0 <= j < i ==> #[trigger] v@[j]@ == base@ + CORE_LIBRARY_EXTENSIONS[j]@,
        decreases 4 - i,
    {
        let mut name = base.to_owned();
        push_str(&mut name, CORE_LIBRARY_EXTENSIONS[i]);
        v.push(name);
        i = i + 1;
    }
    v
}

/// Whether a file is the Neo Geo BIOS archive, which is not a game, without ASCII case.
pub fn is_bios_archive(file_name: &str) -> (b: bool)
    ensures
        b == (ascii_lower(file_name@) == "neogeo.zip"@),
{
    let lower = to_ascii_lowercase(file_name);
    crate::text::str_eq(lower.as_str(), "neogeo.zip")
}

/// The last position in `s` holding `c`, if any.
pub open spec fn last_index_of(s: Seq<char>, c: char) -> Option<int> {
    if exists|i: int| 0 <= i < s.len() && s[i] == c {
        Some(choose|i: int| 0 <= i < s.len() && s[i] == c && forall|j: int| i < j < s.len() ==> s[j] != c)
    } else {
        None
    }
}

/// Whether `s` is a valid `u16` as `str::parse::<u16>` reads it.
pub open spec fn parses_as_u16(s: Seq<char>) -> bool {
    parses_as_usize(s) && digits_value(unsigned_digits(s)) <= 65535
}

/// The health port from an address: the number after its last `:`, or 8081 when there is
/// none or it is not a valid port number.
pub open spec fn port_of(addr: Seq<char>) -> u16 {
    match last_index_of(addr, ':') {
        Some(i) => {
            let tail = addr.subrange(i + 1, addr.len() as int);
            if parses_as_u16(tail) {
                digits_value(unsigned_digits(tail)) as u16
            } else {
                DEFAULT_HEALTH_PORT
            }
        },
        None => DEFAULT_HEALTH_PORT,
    }
}

/// The health endpoint's port from the worker's address.
pub fn parse_port(addr: &str) -> (port: u16)
    ensures
        port == port_of(addr@),
{
    let v = chars_of(addr);
    let mut i = v.len();
    while i > 0
        invariant
            v@ == addr@,
            i <= v.len(),
            forall|j: int| i <= j < v.len() ==> v@[j] != ':',
        decreases i,
    {
        if v[i - 1] == ':' {
            let ghost k = (i - 1) as int;
            assert(last_index_of(addr@, ':') == Some(k)) by {
                assert(0 <= k < addr@.len() && addr@[k] == ':');
                let c = choose|c: int| 0 <= c < addr@.len() && addr@[c] == ':' && forall|j: int| c < j < addr@.len() ==> addr@[j] != ':';
                if c < k {
                    assert(addr@[k] != ':');
                }
                if c > k {
                    assert(addr@[c] != ':');
                }
            }
            let tail = string_from_range(&v, i, v.len());
            return match parse_usize(tail.as_str()) {
                Some(n) => if n <= 65535 {
                    n as u16
                } else {
                    DEFAULT_HEALTH_PORT
                },
                None => DEFAULT_HEALTH_PORT,
            };
        }
        i = i - 1;
    }
    DEFAULT_HEALTH_PORT
}

/// The reply to a health probe.
pub const HEALTH_OK_RESPONSE: &'static str = "HTTP/1.1 200 OK\r\nContent-Type: application/json\r\nContent-Length: 15\r\n\r\n{\"status\":\"ok\"}";

/// The reply to any other request.
pub const HEALTH_NOT_FOUND_RESPONSE: &'static str = "HTTP/1.1 404 Not Found\r\nContent-Type: text/plain\r\nContent-Length: 9\r\n\r\nnot-found";

/// The request line prefix of a health probe, `GET /healthz`, as bytes.
pub open spec fn healthz_prefix() -> Seq<u8> {
    seq![71u8, 69u8, 84u8, 32u8, 47u8, 104u8, 101u8, 97u8, 108u8, 116u8, 104u8, 122u8]
}

/// The reply to a request to the health endpoint: OK for `GET /healthz`, else not found.
pub fn health_response(request: &[u8]) -> (r: &'static str)
    ensures
        r == (if request@.len() >= 12 && request@.subrange(0, 12) == healthz_prefix() {
            HEALTH_OK_RESPONSE
        } else {
            HEALTH_NOT_FOUND_RESPONSE
        }),
{
    let p: [u8; 12] = [71, 69, 84, 32, 47, 104, 101, 97, 108, 116, 104, 122];
    if request.len() < 12 {
        return HEALTH_NOT_FOUND_RESPONSE;
    }
    let mut i: usize = 0;
    while i < 12
        invariant
            i <= 12,
            request@.len() >= 12,
            p@ == healthz_prefix(),
            forall|j: int| 0 <= j < i ==> request@[j] == healthz_prefix()[j],
        decreases 12 - i,
    {
        if request[i] != p[i] {
            assert(request@.subrange(0, 12)[i as int] != healthz_prefix()[i as int]);
            return HEALTH_NOT_FOUND_RESPONSE;
        }
        i = i + 1;
    }
    assert(request@.subrange(0, 12) =~= healthz_prefix());
    HEALTH_OK_RESPONSE
}

} // verus!
