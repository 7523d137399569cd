//! The global hotkey that pins the sidebar: reading a shortcut such as
//! `Ctrl+Alt+W` into Win32 modifier flags and a virtual-key code.

use vstd::prelude::*;

use crate::arxiv::{parse_usize, parse_usize_spec};
use crate::common::{join2, owned};
use crate::text::{is_ascii_alnum, chars_equal, trimmed_non_empty,
    ascii_upper_seq, chars_of, contains_string, join_strings, join_with, string_of, string_of_range,
    texts, to_ascii_uppercase, trim, trim_ws,
};

verus! {

/// The shortcut used when none is configured or the configured one is invalid.
pub const DEFAULT_SIDEBAR_HOTKEY: &'static str = "Ctrl+Alt+W";

/// Win32 `MOD_ALT`.
pub const MOD_ALT: u32 = 0x0001;
/// Win32 `MOD_CONTROL`.
pub const MOD_CONTROL: u32 = 0x0002;
/// Win32 `MOD_SHIFT`.
pub const MOD_SHIFT: u32 = 0x0004;
/// Win32 `MOD_WIN`.
pub const MOD_WIN: u32 = 0x0008;
/// Win32 `MOD_NOREPEAT`.
pub const MOD_NOREPEAT: u32 = 0x4000;
/// Win32 `VK_SPACE`.
pub const VK_SPACE: u32 = 0x20;

/// A shortcut: its display text (`Ctrl+Alt+W`), modifier flags and key code.
#[derive(Debug)]
pub struct ParsedHotkey {
    pub display: String,
    pub modifiers: u32,
    pub key: u32,
}

/// The pieces of `s` between the separators `c` (`str::split(c)`).
pub open spec fn split_on(s: Seq<char>, c: char) -> Seq<Seq<char>>
    decreases s.len(),
{
    let i = index_of_char(s, c, 0);
    if i >= s.len() {
        seq![s]
    } else {
        proof {
            lemma_index_of_char(s, c, 0);
        }
        seq![s.subrange(0, i)] + split_on(s.subrange(i + 1, s.len() as int), c)
    }
}

/// The first index at or after `i` holding `c` (or the length of `s`).
pub open spec fn index_of_char(s: Seq<char>, c: char, i: int) -> int
    decreases s.len() - i,
{
    if 0 <= i < s.len() && s[i] != c {
        index_of_char(s, c, i + 1)
    } else {
        i
    }
}

pub proof fn lemma_index_of_char(s: Seq<char>, c: char, i: int)
    requires
        0 <= i <= s.len(),
    ensures
        i <= index_of_char(s, c, i) <= s.len(),
        forall|k: int| i <= k < index_of_char(s, c, i) ==> #[trigger] s[k] != c,
        index_of_char(s, c, i) < s.len() ==> s[index_of_char(s, c, i)] == c,
    decreases s.len() - i,
{
    if i < s.len() && s[i] != c {
        lemma_index_of_char(s, c, i + 1);
    }
}

/// The parts of a shortcut: pieces between `+`, trimmed, non-empty, in
/// ASCII uppercase.
pub open spec fn clean_parts(pieces: Seq<Seq<char>>) -> Seq<Seq<char>>
    decreases pieces.len(),
{
    if pieces.len() == 0 {
        Seq::empty()
    } else {
        let prev = clean_parts(pieces.drop_last());
        let t = trim_ws(pieces.last());
        if t.len() > 0 {
            prev.push(ascii_upper_seq(t))
        } else {
            prev
        }
    }
}

/// The parts of the shortcut text `raw`.
pub open spec fn hotkey_parts(raw: Seq<char>) -> Seq<Seq<char>> {
    clean_parts(split_on(raw, '+'))
}

/// The parts of the shortcut text (see `hotkey_parts`).
pub fn hotkey_parts_of(raw: &str) -> (r: Vec<String>)
    ensures
        texts(r@) == hotkey_parts(raw@),
{
    let v = chars_of(raw);
    let n = v.len();
    let mut r: Vec<String> = Vec::new();
    let mut start: usize = 0;
    let ghost mut done: Seq<Seq<char>> = Seq::empty();
    assert(v@.subrange(0, n as int) =~= v@);
    loop
        invariant
            n == v@.len(),
            v@ == raw@,
            start <= n,
            done + split_on(v@.subrange(start as int, n as int), '+') == split_on(v@, '+'),
            texts(r@) == clean_parts(done),
        decreases n - start,
    {
        let ghost rest = v@.subrange(start as int, n as int);
        let mut j = start;
        while j < n && v[j] != '+'
            invariant
                start <= j <= n,
                n == v@.len(),
                rest == v@.subrange(start as int, n as int),
                index_of_char(rest, '+', 0) == index_of_char(rest, '+', j - start),
            decreases n - j,
        {
            assert(rest[j - start] == v@[j as int]);
            j += 1;
        }
        proof {
            if j < n {
                assert(rest[j - start] == v@[j as int]);
            }
            lemma_index_of_char(rest, '+', 0);
        }
        let piece = string_of_range(&v, start, j);
        assert(piece@ =~= rest.subrange(0, j - start));
        let t = trim(piece.as_str());
        if !t.as_str().is_empty() {
            r.push(to_ascii_uppercase(t.as_str()));
        }
        proof {
            assert((done.push(piece@)).drop_last() =~= done);
            assert(texts(r@) =~= clean_parts(done.push(piece@)));
        }
        if j == n {
            proof {
                assert(split_on(rest, '+') == seq![rest]);
                assert(rest =~= piece@);
                assert(done.push(piece@) =~= done + seq![rest]);
            }
            return r;
        }
        proof {
            assert(rest.subrange(j - start + 1, rest.len() as int) =~= v@.subrange(j + 1, n as int));
            assert(split_on(rest, '+') == seq![piece@] + split_on(v@.subrange(j + 1, n as int), '+'));
            assert(done + split_on(rest, '+') =~= done.push(piece@) + split_on(v@.subrange(j + 1, n as int), '+'));
            done = done.push(piece@);
        }
        start = j + 1;
    }
}

/// What a modifier part means: its flag and display name.
pub open spec fn modifier_of(part: Seq<char>) -> Option<(u32, Seq<char>)> {
    if part == "CTRL"@ || part == "CONTROL"@ {
        Some((MOD_CONTROL, "Ctrl"@))
    } else if part == "ALT"@ || part == "OPTION"@ {
        Some((MOD_ALT, "Alt"@))
    } else if part == "SHIFT"@ {
        Some((MOD_SHIFT, "Shift"@))
    } else if part == "WIN"@ || part == "WINDOWS"@ || part == "META"@ || part == "CMD"@ || part == "COMMAND"@ {
        Some((MOD_WIN, "Win"@))
    } else {
        None
    }
}


/// `v` appended to `parts` unless it is already there.
pub open spec fn push_unique_spec(parts: Seq<Seq<char>>, v: Seq<char>) -> Seq<Seq<char>> {
    if parts.contains(v) {
        parts
    } else {
        parts.push(v)
    }
}

/// Appends `value` unless it is already there.
pub fn push_unique(parts: &mut Vec<String>, value: String)
    ensures
        texts(final(parts)@) == push_unique_spec(texts(old(parts)@), value@),
{
    if !contains_string(parts, &value) {
        let ghost before = texts(parts@);
        parts.push(value);
        assert(texts(parts@) =~= before.push(value@));
    }
}

/// The decimal text of a number below 100.
pub open spec fn small_decimal(i: u32) -> Seq<char> {
    if i < 10 {
        seq![('0' as u32 + i) as char]
    } else {
        seq![('0' as u32 + i / 10) as char, ('0' as u32 + i % 10) as char]
    }
}

/// What a key part means: a single ASCII letter or digit is that key (its
/// code is the character's); `SPACE` is the space bar; `F1` to `F24` are the
/// function keys (the number is read as `str::parse` reads it), codes 112 to 135.
pub open spec fn hotkey_key_spec(part: Seq<char>) -> Result<(Seq<char>, u32), Seq<char>> {
    if part.len() == 1 && is_ascii_alnum(part[0]) {
        Ok((seq![part[0]], part[0] as u32))
    } else if part == "SPACE"@ {
        Ok(("Space"@, VK_SPACE))
    } else if part.len() > 0 && part[0] == 'F' && (parse_usize_spec(part.drop_first()) matches Some(i) && 1 <= i <= 24) {
        let i = parse_usize_spec(part.drop_first()).unwrap() as u32;
        Ok(("F"@ + small_decimal(i), (111 + i) as u32))
    } else {
        Err("supported keys are A-Z, 0-9, F1-F24, and Space"@)
    }
}

/// The character with ASCII code `u`.
fn ascii_char(u: u32) -> (c: char)
    requires
        u < 0x80,
    ensures
        c == u as char,
{
    (u as u8) as char
}

/// Reads the key part of a shortcut (see `hotkey_key_spec`).
pub fn parse_hotkey_key(part: &str) -> (r: Result<(String, u32), String>)
    ensures
        match hotkey_key_spec(part@) {
            Ok((d, k)) => r matches Ok(x) && x.0@ == d && x.1 == k,
            Err(e) => r matches Err(x) && x@ == e,
        },
{
    let v = chars_of(part);
    if v.len() == 1 {
        let ch = v[0];
        if ('a' <= ch && ch <= 'z') || ('A' <= ch && ch <= 'Z') || ('0' <= ch && ch <= '9') {
            let one = vec![ch];
            return Ok((string_of(&one), ch as u32));
        }
    }
    if chars_equal(&v, &chars_of("SPACE")) {
        return Ok((owned("Space"), VK_SPACE));
    }
    if v.len() > 0 && v[0] == 'F' {
        let rest = string_of_range(&v, 1, v.len());
        assert(rest@ =~= part@.drop_first());
        if let Some(index) = parse_usize(rest.as_str()) {
            if 1 <= index && index <= 24 {
                let i = index as u32;
                let mut digits: Vec<char> = Vec::new();
                if i < 10 {
                    digits.push(ascii_char('0' as u32 + i));
                } else {
                    digits.push(ascii_char('0' as u32 + i / 10));
                    digits.push(ascii_char('0' as u32 + i % 10));
                }
                assert(digits@ =~= small_decimal(i));
                let number = string_of(&digits);
                return Ok((join2("F", number.as_str()), 111 + i));
            }
        }
    }
    Err(owned("supported keys are A-Z, 0-9, F1-F24, and Space"))
}

/// The state of reading a shortcut's parts: modifier flags, modifier names
/// (each once, in order) and the key, or the first error.
pub open spec fn hotkey_fold(parts: Seq<Seq<char>>) -> Result<(u32, Seq<Seq<char>>, Option<(Seq<char>, u32)>), Seq<char>>
    decreases parts.len(),
{
    if parts.len() == 0 {
        Ok((0u32, Seq::empty(), None))
    } else {
        match hotkey_fold(parts.drop_last()) {
            Err(e) => Err(e),
            Ok((m, d, k)) => match modifier_of(parts.last()) {
                Some((flag, name)) => Ok((m | flag, push_unique_spec(d, name), k)),
                None => if k is Some {
                    Err("only one non-modifier key is supported"@)
                } else {
                    match hotkey_key_spec(parts.last()) {
                        Ok(kv) => Ok((m, d, Some(kv))),
                        Err(e) => Err(e),
                    }
                },
            },
        }
    }
}

/// The reading of a shortcut: at least two parts; modifiers `Ctrl`/`Control`,
/// `Alt`/`Option`, `Shift`, `Win`/`Windows`/`Meta`/`Cmd`/`Command` (any ASCII
/// case); exactly one other part, the key; at least one modifier. The display
/// text lists the modifiers in order of first appearance, then the key.
pub open spec fn parse_hotkey_spec(raw: Seq<char>) -> Result<(Seq<char>, u32, u32), Seq<char>> {
    let parts = hotkey_parts(raw);
    if parts.len() < 2 {
        Err("use a modifier plus a key, for example Ctrl+Alt+W"@)
    } else {
        match hotkey_fold(parts) {
            Err(e) => Err(e),
            Ok((m, d, k)) => if m == 0 {
                Err("include at least one modifier such as Ctrl, Alt, Shift, or Win"@)
            } else {
                match k {
                    None => Err("missing final key"@),
                    Some((kd, kc)) => Ok((join_with(d.push(kd), "+"@), m, kc)),
                }
            },
        }
    }
}

/// Which modifier a part names (see `modifier_of`).
fn modifier_exec(part: &String) -> (r: Option<(u32, String)>)
    ensures
        match modifier_of(part@) {
            Some((f, n)) => r matches Some(x) && x.0 == f && x.1@ == n,
            None => r is None,
        },
{
    let v = chars_of(part.as_str());
    if chars_equal(&v, &chars_of("CTRL")) || chars_equal(&v, &chars_of("CONTROL")) {
        Some((MOD_CONTROL, owned("Ctrl")))
    } else if chars_equal(&v, &chars_of("ALT")) || chars_equal(&v, &chars_of("OPTION")) {
        Some((MOD_ALT, owned("Alt")))
    } else if chars_equal(&v, &chars_of("SHIFT")) {
        Some((MOD_SHIFT, owned("Shift")))
    } else if chars_equal(&v, &chars_of("WIN")) || chars_equal(&v, &chars_of("WINDOWS")) || chars_equal(
        &v,
        &chars_of("META"),
    ) || chars_equal(&v, &chars_of("CMD")) || chars_equal(&v, &chars_of("COMMAND")) {
        Some((MOD_WIN, owned("Win")))
    } else {
        None
    }
}

/// Reads a shortcut such as `Ctrl+Alt+W` (see `parse_hotkey_spec`).
pub fn parse_hotkey(raw: &str) -> (r: Result<ParsedHotkey, String>)
    ensures
        match parse_hotkey_spec(raw@) {
            Ok((d, m, k)) => r matches Ok(h) && h.display@ == d && h.modifiers == m && h.key == k,
            Err(e) => r matches Err(x) && x@ == e,
        },
{
    let parts = hotkey_parts_of(raw);
    if parts.len() < 2 {
        return Err(owned("use a modifier plus a key, for example Ctrl+Alt+W"));
    }
    let mut modifiers: u32 = 0;
    let mut display_modifiers: Vec<String> = Vec::new();
    let mut key: Option<(String, u32)> = None;
    let mut i: usize = 0;
    while i < parts.len()
        invariant
            i <= parts@.len(),
            parts@.len() >= 2,
            texts(parts@) == hotkey_parts(raw@),
            hotkey_fold(texts(parts@).subrange(0, i as int)) matches Ok(st) && st.0 == modifiers
                && st.1 == texts(display_modifiers@) && match st.2 {
                Some(kv) => key matches Some(x) && x.0@ == kv.0 && x.1 == kv.1,
                None => key is None,
            },
        decreases parts@.len() - i,
    {
        assert(texts(parts@).subrange(0, i + 1).drop_last() =~= texts(parts@).subrange(0, i as int));
        assert(texts(parts@).subrange(0, i + 1).last() == parts@[i as int]@);
        match modifier_exec(&parts[i]) {
            Some((flag, name)) => {
                modifiers = modifiers | flag;
                push_unique(&mut display_modifiers, name);
            },
            None => {
                if key.is_some() {
                    proof {
                        let pre = texts(parts@).subrange(0, i + 1);
                        assert(hotkey_fold(pre) == Err::<(u32, Seq<Seq<char>>, Option<(Seq<char>, u32)>), Seq<char>>("only one non-modifier key is supported"@));
                        lemma_fold_err_sticks(texts(parts@), i as int + 1);
                    }
                    return Err(owned("only one non-modifier key is supported"));
                }
                match parse_hotkey_key(parts[i].as_str()) {
                    Ok(kv) => {
                        key = Some(kv);
                    },
                    Err(e) => {
                        proof {
                            let pre = texts(parts@).subrange(0, i + 1);
                            assert(hotkey_fold(pre) == Err::<(u32, Seq<Seq<char>>, Option<(Seq<char>, u32)>), Seq<char>>(e@));
                            lemma_fold_err_sticks(texts(parts@), i as int + 1);
                        }
                        return Err(e);
                    },
                }
            },
        }
        i += 1;
    }
    assert(texts(parts@).subrange(0, parts@.len() as int) =~= texts(parts@));
    if modifiers == 0 {
        return Err(owned("include at least one modifier such as Ctrl, Alt, Shift, or Win"));
    }
    let (key_display, key_code) = match key {
        Some(k) => k,
        None => return Err(owned("missing final key")),
    };
    let ghost before = texts(display_modifiers@);
    display_modifiers.push(key_display);
    assert(texts(display_modifiers@) =~= before.push(key_display@));
    Ok(ParsedHotkey { display: join_strings(&display_modifiers, "+"), modifiers, key: key_code })
}

/// Once reading the parts fails, reading more parts fails the same way.
pub proof fn lemma_fold_err_sticks(parts: Seq<Seq<char>>, i: int)
    requires
        0 <= i <= parts.len(),
        hotkey_fold(parts.subrange(0, i)) is Err,
    ensures
        hotkey_fold(parts) == hotkey_fold(parts.subrange(0, i)),
    decreases parts.len() - i,
{
    if i < parts.len() {
        assert(parts.subrange(0, i + 1).drop_last() =~= parts.subrange(0, i));
        lemma_fold_err_sticks(parts, i + 1);
    } else {
        assert(parts.subrange(0, i) =~= parts);
    }
}

/// The shortcut text to use: the configured one, trimmed, unless it is
/// missing or blank; then the default.
pub open spec fn hotkey_text_spec(hotkey: Option<Seq<char>>) -> Seq<char> {
    match hotkey {
        Some(h) if trim_ws(h).len() > 0 => trim_ws(h),
        _ => DEFAULT_SIDEBAR_HOTKEY@,
    }
}

/// The shortcut to register for a configured text: the configured shortcut
/// when it reads, else the default one (`None` only if neither reads).
pub open spec fn sidebar_hotkey_spec(hotkey: Option<Seq<char>>) -> Option<(Seq<char>, u32, u32)> {
    match parse_hotkey_spec(hotkey_text_spec(hotkey)) {
        Ok(p) => Some(p),
        Err(_) => match parse_hotkey_spec(DEFAULT_SIDEBAR_HOTKEY@) {
            Ok(p) => Some(p),
            Err(_) => None,
        },
    }
}

/// The shortcut text to use for a configured one (see `hotkey_text_spec`).
pub fn hotkey_text(hotkey: &Option<String>) -> (r: String)
    ensures
        r@ == hotkey_text_spec(match hotkey { Some(h) => Some(h@), None => None }),
{
    match hotkey {
        Some(h) => match trimmed_non_empty(h.as_str()) {
            Some(t) => t,
            None => owned(DEFAULT_SIDEBAR_HOTKEY),
        },
        None => owned(DEFAULT_SIDEBAR_HOTKEY),
    }
}

/// Chooses the shortcut to register (see `sidebar_hotkey_spec`).
pub fn resolve_sidebar_hotkey(hotkey: &Option<String>) -> (r: Option<ParsedHotkey>)
    ensures
        match sidebar_hotkey_spec(match hotkey { Some(h) => Some(h@), None => None }) {
            Some((d, m, k)) => r matches Some(h) && h.display@ == d && h.modifiers == m && h.key == k,
            None => r is None,
        },
{
    let raw = hotkey_text(hotkey);
    match parse_hotkey(raw.as_str()) {
        Ok(parsed) => Some(parsed),
        Err(_) => match parse_hotkey(DEFAULT_SIDEBAR_HOTKEY) {
            Ok(parsed) => Some(parsed),
            Err(_) => None,
        },
    }
}

impl ParsedHotkey {
    /// The flags to register the shortcut with: its modifiers, and no
    /// auto-repeat.
    pub fn register_flags(&self) -> (r: u32)
        ensures
            r == self.modifiers | MOD_NOREPEAT,
    {
        self.modifiers | MOD_NOREPEAT
    }
}

} // verus!
