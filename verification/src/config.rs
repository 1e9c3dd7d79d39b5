//! The colour theme and its configuration file (`~/.inkrc`).
//!
//! The file holds `key = value` lines; `#` starts a comment line. A value
//! is a colour: `#RRGGBB` in hex, or an ANSI colour name in any case.
//! Reading and writing the file is left to the program: it hands the text
//! in, and gets the text to write back.

use vstd::prelude::*;
use vstd::utf8::{encode_utf8, encode_scalar};
use crate::path::{path_join, join_path};
use crate::text::{
    chars_of, string_of, string_range, trim_bounds, spec_trim, trim_start, trim_end, first_index,
    find_char, decimal, push_decimal, text_lines, split_lines, is_ws,
};

verus! {

/// A terminal colour.
#[derive(Clone, Copy, PartialEq, Eq, Debug, Structural)]
pub enum Color {
    /// The terminal's own default.
    Reset,
    Black,
    DarkGrey,
    Red,
    DarkRed,
    Green,
    DarkGreen,
    Yellow,
    DarkYellow,
    Blue,
    DarkBlue,
    Magenta,
    DarkMagenta,
    Cyan,
    DarkCyan,
    White,
    Grey,
    Rgb { r: u8, g: u8, b: u8 },
}

/// The colours of each part of the screen.
#[derive(Clone, Copy, PartialEq, Eq, Debug, Structural)]
pub struct Theme {
    pub text: Color,
    pub tilde: Color,
    pub buffer_bar_background: Color,
    pub buffer_active_background: Color,
    pub buffer_active_foreground: Color,
    pub buffer_inactive_foreground: Color,
    pub status_background: Color,
    pub status_foreground: Color,
    pub command_prefix: Color,
    pub command_text: Color,
    pub warning_background: Color,
    pub warning_foreground: Color,
}

/// The theme used when the file sets nothing: every part in the
/// terminal's default colour.
pub open spec fn default_theme() -> Theme {
    Theme {
        text: Color::Reset,
        tilde: Color::Reset,
        buffer_bar_background: Color::Reset,
        buffer_active_background: Color::Reset,
        buffer_active_foreground: Color::Reset,
        buffer_inactive_foreground: Color::Reset,
        status_background: Color::Reset,
        status_foreground: Color::Reset,
        command_prefix: Color::Reset,
        command_text: Color::Reset,
        warning_background: Color::Reset,
        warning_foreground: Color::Reset,
    }
}

impl Default for Theme {
    fn default() -> (r: Self)
        ensures
            r == default_theme(),
    {
        Theme {
            text: Color::Reset,
            tilde: Color::Reset,
            buffer_bar_background: Color::Reset,
            buffer_active_background: Color::Reset,
            buffer_active_foreground: Color::Reset,
            buffer_inactive_foreground: Color::Reset,
            status_background: Color::Reset,
            status_foreground: Color::Reset,
            command_prefix: Color::Reset,
            command_text: Color::Reset,
            warning_background: Color::Reset,
            warning_foreground: Color::Reset,
        }
    }
}

/// `s` with ASCII capitals made small, as `str::to_ascii_lowercase` does.
pub open spec fn ascii_lower(s: Seq<char>) -> Seq<char> {
    s.map_values(|c: char| if 'A' <= c && c <= 'Z' { ((c as u32) + 32) as char } else { c })
}

/// The colour a (lower-case) name denotes.
pub open spec fn named_color(n: Seq<char>) -> Option<Color> {
    if n == "black"@ { Some(Color::Black) }
    else if n == "darkgrey"@ || n == "darkgray"@ { Some(Color::DarkGrey) }
    else if n == "red"@ { Some(Color::Red) }
    else if n == "darkred"@ { Some(Color::DarkRed) }
    else if n == "green"@ { Some(Color::Green) }
    else if n == "darkgreen"@ { Some(Color::DarkGreen) }
    else if n == "yellow"@ { Some(Color::Yellow) }
    else if n == "darkyellow"@ { Some(Color::DarkYellow) }
    else if n == "blue"@ { Some(Color::Blue) }
    else if n == "darkblue"@ { Some(Color::DarkBlue) }
    else if n == "magenta"@ { Some(Color::Magenta) }
    else if n == "darkmagenta"@ { Some(Color::DarkMagenta) }
    else if n == "cyan"@ { Some(Color::Cyan) }
    else if n == "darkcyan"@ { Some(Color::DarkCyan) }
    else if n == "white"@ { Some(Color::White) }
    else if n == "grey"@ || n == "gray"@ { Some(Color::Grey) }
    else { None }
}

/// The value of a hex digit byte.
pub open spec fn hex_digit(b: u8) -> Option<u8> {
    if 48 <= b <= 57 {
        Some((b - 48) as u8)
    } else if 97 <= b <= 102 {
        Some((b - 87) as u8)
    } else if 65 <= b <= 70 {
        Some((b - 55) as u8)
    } else {
        None
    }
}

/// Two bytes read as `u8::from_str_radix(.., 16)` reads them: two hex
/// digits, or `+` and one hex digit.
pub open spec fn hex_pair(x: u8, y: u8) -> Option<u8> {
    if x == 43 {
        hex_digit(y)
    } else {
        match (hex_digit(x), hex_digit(y)) {
            (Some(a), Some(b)) => Some((a * 16 + b) as u8),
            _ => None,
        }
    }
}

/// The UTF-8 bytes after the leading `#`.
pub open spec fn hex_bytes(s: Seq<char>) -> Seq<u8> {
    encode_utf8(s.drop_first())
}

/// A colour value: `#` and six bytes of hex (two per channel), or a colour
/// name in any case.
pub open spec fn spec_parse_color(s: Seq<char>) -> Option<Color> {
    if s.len() > 0 && s[0] == '#' {
        let h = hex_bytes(s);
        if h.len() != 6 {
            None
        } else {
            match (hex_pair(h[0], h[1]), hex_pair(h[2], h[3]), hex_pair(h[4], h[5])) {
                (Some(r), Some(g), Some(b)) => Some(Color::Rgb { r, g, b }),
                _ => None,
            }
        }
    } else {
        named_color(ascii_lower(s))
    }
}

fn hex_digit_exec(b: u8) -> (r: Option<u8>)
    ensures
        r == hex_digit(b),
{
    if 48 <= b && b <= 57 {
        Some(b - 48)
    } else if 97 <= b && b <= 102 {
        Some(b - 87)
    } else if 65 <= b && b <= 70 {
        Some(b - 55)
    } else {
        None
    }
}

fn hex_pair_exec(x: u8, y: u8) -> (r: Option<u8>)
    ensures
        r == hex_pair(x, y),
{
    if x == 43 {
        return hex_digit_exec(y);
    }
    match (hex_digit_exec(x), hex_digit_exec(y)) {
        (Some(a), Some(b)) => Some(a * 16 + b),
        _ => None,
    }
}

proof fn lemma_hash_bytes(s: Seq<char>)
    requires
        s.len() > 0,
        s[0] == '#',
    ensures
        encode_utf8(s) == seq![35u8] + hex_bytes(s),
{
    assert((35u32 & 0x7Fu32) == 35u32) by (bit_vector);
    assert(('#' as u32) == 35);
}

/// `s` with ASCII capitals made small.
pub fn to_ascii_lower(s: &str) -> (r: String)
    ensures
        r@ == ascii_lower(s@),
{
    let cs = chars_of(s);
    let mut out: Vec<char> = Vec::new();
    let mut i: usize = 0;
    while i < cs.len()
        invariant
            i <= cs@.len(),
            cs@ == s@,
            out@ == ascii_lower(cs@.take(i as int)),
        decreases cs@.len() - i,
    {
        let c = cs[i];
        let l = if 'A' <= c && c <= 'Z' { ((c as u8) + 32) as char } else { c };
        proof {
            if 'A' <= c && c <= 'Z' {
                assert(l == ((c as u32) + 32) as char);
            }
        }
        out.push(l);
        i = i + 1;
        assert(out@ =~= ascii_lower(cs@.take(i as int)));
    }
    assert(cs@.take(cs@.len() as int) =~= cs@);
    string_of(out.as_slice())
}

fn named_color_exec(n: &String) -> (r: Option<Color>)
    ensures
        r == named_color(n@),
{
    if *n == String::from_str("black") { Some(Color::Black) }
    else if *n == String::from_str("darkgrey") || *n == String::from_str("darkgray") { Some(Color::DarkGrey) }
    else if *n == String::from_str("red") { Some(Color::Red) }
    else if *n == String::from_str("darkred") { Some(Color::DarkRed) }
    else if *n == String::from_str("green") { Some(Color::Green) }
    else if *n == String::from_str("darkgreen") { Some(Color::DarkGreen) }
    else if *n == String::from_str("yellow") { Some(Color::Yellow) }
    else if *n == String::from_str("darkyellow") { Some(Color::DarkYellow) }
    else if *n == String::from_str("blue") { Some(Color::Blue) }
    else if *n == String::from_str("darkblue") { Some(Color::DarkBlue) }
    else if *n == String::from_str("magenta") { Some(Color::Magenta) }
    else if *n == String::from_str("darkmagenta") { Some(Color::DarkMagenta) }
    else if *n == String::from_str("cyan") { Some(Color::Cyan) }
    else if *n == String::from_str("darkcyan") { Some(Color::DarkCyan) }
    else if *n == String::from_str("white") { Some(Color::White) }
    else if *n == String::from_str("grey") || *n == String::from_str("gray") { Some(Color::Grey) }
    else { None }
}

/// Read a colour value (see `spec_parse_color`).
pub fn parse_color(s: &str) -> (r: Option<Color>)
    ensures
        r == spec_parse_color(s@),
{
    let n = s.unicode_len();
    if n > 0 && s.get_char(0) == '#' {
        let bytes = s.as_bytes();
        proof {
            lemma_hash_bytes(s@);
        }
        if bytes.len() != 7 {
            return None;
        }
        let r = match hex_pair_exec(bytes[1], bytes[2]) {
            Some(v) => v,
            None => return None,
        };
        let g = match hex_pair_exec(bytes[3], bytes[4]) {
            Some(v) => v,
            None => return None,
        };
        let b = match hex_pair_exec(bytes[5], bytes[6]) {
            Some(v) => v,
            None => return None,
        };
        return Some(Color::Rgb { r, g, b });
    }
    let lower = to_ascii_lower(s);
    named_color_exec(&lower)
}


// ---------------------------------------------------------------------
// Settings
// ---------------------------------------------------------------------

/// The theme with the setting `key` set to `c`, or `None` for an unknown
/// key.
pub open spec fn with_setting(t: Theme, key: Seq<char>, c: Color) -> Option<Theme> {
    if key == "text"@ { Some(Theme { text: c, ..t }) }
    else if key == "tilde"@ { Some(Theme { tilde: c, ..t }) }
    else if key == "buffer_bar_background"@ { Some(Theme { buffer_bar_background: c, ..t }) }
    else if key == "buffer_active_background"@ { Some(Theme { buffer_active_background: c, ..t }) }
    else if key == "buffer_active_foreground"@ { Some(Theme { buffer_active_foreground: c, ..t }) }
    else if key == "buffer_inactive_foreground"@ { Some(Theme { buffer_inactive_foreground: c, ..t }) }
    else if key == "status_background"@ { Some(Theme { status_background: c, ..t }) }
    else if key == "status_foreground"@ { Some(Theme { status_foreground: c, ..t }) }
    else if key == "command_prefix"@ { Some(Theme { command_prefix: c, ..t }) }
    else if key == "command_text"@ { Some(Theme { command_text: c, ..t }) }
    else if key == "warning_background"@ { Some(Theme { warning_background: c, ..t }) }
    else if key == "warning_foreground"@ { Some(Theme { warning_foreground: c, ..t }) }
    else { None }
}

/// `line N: ` followed by `rest`.
pub open spec fn line_msg(n: nat, rest: Seq<char>) -> Seq<char> {
    "line "@ + decimal(n) + ": "@ + rest
}

pub open spec fn quoted(prefix: Seq<char>, x: Seq<char>) -> Seq<char> {
    prefix + "'"@ + x + "'"@
}

/// `line N: ` and `rest`, as a string.
fn line_message(n: usize, rest: &str) -> (r: String)
    ensures
        r@ == line_msg(n as nat, rest@),
{
    let mut m = String::from_str("line ");
    push_decimal(&mut m, n);
    m.append(": ");
    m.append(rest);
    m
}

/// `prefix`, then `x` in single quotes.
fn quote(prefix: &str, x: &str) -> (r: String)
    ensures
        r@ == quoted(prefix@, x@),
{
    let mut m = String::from_str(prefix);
    m.append("'");
    m.append(x);
    m.append("'");
    m
}

/// Set the theme's `key` to `color`; an unknown key adds an error for
/// line `line` instead.
pub fn apply(theme: &mut Theme, key: &str, color: Color, line: usize, errors: &mut Vec<String>)
    ensures
        match with_setting(*old(theme), key@, color) {
            Some(t) => *final(theme) == t && final(errors)@ == old(errors)@,
            None => *final(theme) == *old(theme) && final(errors)@.len() == old(errors)@.len() + 1
                && final(errors)@.drop_last() == old(errors)@
                && final(errors)@.last()@ == line_msg(line as nat, quoted("unknown setting "@, key@)),
        },
{
    let k = String::from_str(key);
    if k == String::from_str("text") { theme.text = color; }
    else if k == String::from_str("tilde") { theme.tilde = color; }
    else if k == String::from_str("buffer_bar_background") { theme.buffer_bar_background = color; }
    else if k == String::from_str("buffer_active_background") { theme.buffer_active_background = color; }
    else if k == String::from_str("buffer_active_foreground") { theme.buffer_active_foreground = color; }
    else if k == String::from_str("buffer_inactive_foreground") { theme.buffer_inactive_foreground = color; }
    else if k == String::from_str("status_background") { theme.status_background = color; }
    else if k == String::from_str("status_foreground") { theme.status_foreground = color; }
    else if k == String::from_str("command_prefix") { theme.command_prefix = color; }
    else if k == String::from_str("command_text") { theme.command_text = color; }
    else if k == String::from_str("warning_background") { theme.warning_background = color; }
    else if k == String::from_str("warning_foreground") { theme.warning_foreground = color; }
    else {
        let q = quote("unknown setting ", key);
        let m = line_message(line, q.as_str());
        errors.push(m);
        proof {
            assert(errors@.drop_last() =~= old(errors)@);
        }
    }
}

/// A trimmed line split at its first `=`, both sides trimmed.
pub open spec fn line_key_value(line: Seq<char>) -> Option<(Seq<char>, Seq<char>)> {
    match first_index(line, '=') {
        Some(k) => Some((spec_trim(line.take(k)), spec_trim(line.skip(k + 1)))),
        None => None,
    }
}

pub open spec fn errs_view(v: Seq<String>) -> Seq<Seq<char>> {
    v.map_values(|s: String| s@)
}

/// What one line of the file does to the theme and the errors so far;
/// `n` is its line number.
pub open spec fn theme_step(t: Theme, errs: Seq<Seq<char>>, raw: Seq<char>, n: nat) -> (Theme, Seq<Seq<char>>) {
    let line = spec_trim(raw);
    if line.len() == 0 || line[0] == '#' {
        (t, errs)
    } else {
        match line_key_value(line) {
            None => (t, errs.push(line_msg(n, "expected 'key = value'"@))),
            Some((key, value)) => match spec_parse_color(value) {
                Some(c) => match with_setting(t, key, c) {
                    Some(t2) => (t2, errs),
                    None => (t, errs.push(line_msg(n, quoted("unknown setting "@, key)))),
                },
                None => (t, errs.push(line_msg(n, quoted("unknown color "@, value)))),
            },
        }
    }
}

/// The theme and errors after the first `n` lines, starting from the
/// default theme.
pub open spec fn theme_fold(ls: Seq<Seq<char>>, n: nat) -> (Theme, Seq<Seq<char>>)
    decreases n,
{
    if n == 0 || n > ls.len() {
        (default_theme(), Seq::empty())
    } else {
        let (t, e) = theme_fold(ls, (n - 1) as nat);
        theme_step(t, e, ls[n - 1], n)
    }
}

/// The messages separated by `sep`.
pub open spec fn join_with(ms: Seq<Seq<char>>, sep: Seq<char>) -> Seq<char>
    decreases ms.len(),
{
    if ms.len() == 0 {
        Seq::empty()
    } else if ms.len() == 1 {
        ms[0]
    } else {
        join_with(ms.drop_last(), sep) + sep + ms.last()
    }
}

/// The theme a file's text sets, and the warning that lists the lines
/// that could not be used (none when all could).
pub open spec fn spec_parse_theme(content: Seq<char>) -> (Theme, Option<Seq<char>>) {
    let ls = text_lines(content);
    let (t, errs) = theme_fold(ls, ls.len());
    (t, if errs.len() == 0 { None } else { Some("~/.inkrc: "@ + join_with(errs, "; "@)) })
}

/// `s` trimmed, as a string.
fn trimmed(s: &str) -> (r: String)
    ensures
        r@ == spec_trim(s@),
{
    crate::text::trim(s)
}

/// Split a trimmed line at its first `=` (see `line_key_value`).
fn key_value(line: &String) -> (r: Option<(String, String)>)
    ensures
        match line_key_value(line@) {
            Some((k, v)) => r matches Some((a, b)) && a@ == k && b@ == v,
            None => r is None,
        },
{
    let cs = chars_of(line.as_str());
    match find_char(&cs, '=') {
        Some(k) => {
            let left = string_range(&cs, 0, k);
            let right = string_range(&cs, k + 1, cs.len());
            proof {
                assert(cs@.subrange(0, k as int) =~= cs@.take(k as int));
                assert(cs@.subrange(k + 1, cs@.len() as int) =~= cs@.skip(k + 1));
            }
            Some((trimmed(left.as_str()), trimmed(right.as_str())))
        },
        None => None,
    }
}

proof fn lemma_errs_push(v: Seq<String>, m: String)
    ensures
        errs_view(v.push(m)) == errs_view(v).push(m@),
{
    assert(errs_view(v.push(m)) =~= errs_view(v).push(m@));
}

/// Apply one line of the file (see `theme_step`).
fn theme_line(theme: &mut Theme, errors: &mut Vec<String>, raw: &str, n: usize)
    ensures
        (*final(theme), errs_view(final(errors)@)) == theme_step(*old(theme), errs_view(old(errors)@), raw@, n as nat),
{
    let line = trimmed(raw);
    let len = line.as_str().unicode_len();
    if len == 0 || line.as_str().get_char(0) == '#' {
        return;
    }
    match key_value(&line) {
        None => {
            let m = line_message(n, "expected 'key = value'");
            proof {
                lemma_errs_push(errors@, m);
            }
            errors.push(m);
        },
        Some((key, value)) => match parse_color(value.as_str()) {
            Some(c) => {
                let ghost e0 = errors@;
                apply(theme, key.as_str(), c, n, errors);
                proof {
                    if with_setting(*old(theme), key@, c) is None {
                        assert(errors@ =~= e0.push(errors@.last()));
                        lemma_errs_push(e0, errors@.last());
                    }
                }
            },
            None => {
                let q = quote("unknown color ", value.as_str());
                let m = line_message(n, q.as_str());
                proof {
                    lemma_errs_push(errors@, m);
                }
                errors.push(m);
            },
        },
    }
}

/// The messages joined by `sep`.
pub fn join_messages(ms: &Vec<String>, sep: &str) -> (r: String)
    ensures
        r@ == join_with(errs_view(ms@), sep@),
{
    let ghost mv = errs_view(ms@);
    let mut out = String::new();
    let mut i: usize = 0;
    while i < ms.len()
        invariant
            i <= ms@.len(),
            mv == errs_view(ms@),
            out@ == join_with(mv.take(i as int), sep@),
        decreases ms@.len() - i,
    {
        proof {
            assert(mv.take(i as int + 1).drop_last() =~= mv.take(i as int));
        }
        if i > 0 {
            out.append(sep);
        }
        out.append(ms[i].as_str());
        i = i + 1;
        proof {
            assert(out@ =~= join_with(mv.take(i as int), sep@));
        }
    }
    assert(mv.take(ms@.len() as int) =~= mv);
    out
}

/// The theme the file's text sets, and a warning listing the lines that
/// could not be used (see `spec_parse_theme`).
pub fn parse_theme(content: &str) -> (r: (Theme, Option<String>))
    ensures
        r.0 == spec_parse_theme(content@).0,
        match spec_parse_theme(content@).1 {
            Some(w) => r.1 matches Some(x) && x@ == w,
            None => r.1 is None,
        },
{
    let lines = split_lines(content);
    let ghost ls = text_lines(content@);
    let mut theme = Theme::default();
    let mut errors: Vec<String> = Vec::new();
    let mut i: usize = 0;
    proof {
        assert(errs_view(errors@) =~= Seq::<Seq<char>>::empty());
    }
    while i < lines.len()
        invariant
            i <= lines@.len(),
            ls == text_lines(content@),
            lines@.len() == ls.len(),
            forall|k: int| 0 <= k < ls.len() ==> (#[trigger] lines@[k])@ == ls[k],
            (theme, errs_view(errors@)) == theme_fold(ls, i as nat),
        decreases lines@.len() - i,
    {
        theme_line(&mut theme, &mut errors, lines[i].as_str(), i + 1);
        i = i + 1;
    }
    if errors.len() == 0 {
        (theme, None)
    } else {
        let mut w = String::from_str("~/.inkrc: ");
        let j = join_messages(&errors, "; ");
        w.append(j.as_str());
        (theme, Some(w))
    }
}

/// Whether `set_theme_value` accepts the setting: a known key and a
/// readable colour.
pub open spec fn setting_valid(key: Seq<char>, value: Seq<char>) -> bool {
    spec_parse_color(value) matches Some(c) && with_setting(default_theme(), key, c) is Some
}

/// Check a setting as the loader would read it (see `setting_valid`).
pub fn theme_setting_valid(key: &str, value: &str) -> (r: bool)
    ensures
        r == setting_valid(key@, value@),
{
    let mut probe = Theme::default();
    let mut errors: Vec<String> = Vec::new();
    let color = match parse_color(value) {
        Some(c) => c,
        None => return false,
    };
    apply(&mut probe, key, color, 0, &mut errors);
    errors.len() == 0
}

/// The line that sets `key` to `value`.
pub open spec fn setting_line(key: Seq<char>, value: Seq<char>) -> Seq<char> {
    key + " = "@ + value
}

/// Whether the file line sets `key` (a line that is not a comment, whose
/// text before the first `=` is `key` once trimmed).
#[verifier::opaque]
pub open spec fn sets_key(line: Seq<char>, key: Seq<char>) -> bool {
    let t = spec_trim(line);
    &&& !(t.len() > 0 && t[0] == '#')
    &&& line_key_value(t) matches Some((k, _)) && k == key
}

/// The first line that sets `key`.
#[verifier::opaque]
pub open spec fn first_setting(ls: Seq<Seq<char>>, key: Seq<char>) -> Option<int> {
    if exists|i: int| 0 <= i < ls.len() && sets_key(ls[i], key) {
        Some(choose|i: int| 0 <= i < ls.len() && sets_key(ls[i], key)
            && forall|j: int| 0 <= j < i ==> !sets_key(ls[j], key))
    } else {
        None
    }
}

/// The file's lines with the first line setting `key` replaced by
/// `key = value`, or that line added at the end when there is none.
pub open spec fn updated_lines(ls: Seq<Seq<char>>, key: Seq<char>, value: Seq<char>) -> Seq<Seq<char>> {
    match first_setting(ls, key) {
        Some(j) => ls.update(j, setting_line(key, value)),
        None => ls.push(setting_line(key, value)),
    }
}

/// The new text of the file: the updated lines, each ended by a newline.
pub open spec fn spec_update_config(existing: Seq<char>, key: Seq<char>, value: Seq<char>) -> Seq<char> {
    join_with(updated_lines(text_lines(existing), key, value), "\n"@) + "\n"@
}

/// Whether the line sets `key` (see `sets_key`).
fn line_sets_key(line: &str, key: &str) -> (r: bool)
    ensures
        r == sets_key(line@, key@),
{
    reveal(sets_key);
    let t = trimmed(line);
    let n = t.as_str().unicode_len();
    if n > 0 && t.as_str().get_char(0) == '#' {
        return false;
    }
    match key_value(&t) {
        Some((k, _)) => k == String::from_str(key),
        None => false,
    }
}

/// Position of the first line that sets `key` (see `first_setting`).
fn find_setting(lines: &Vec<String>, key: &str) -> (r: Option<usize>)
    ensures
        match r {
            Some(i) => i < lines@.len() && first_setting(errs_view(lines@), key@) == Some(i as int),
            None => first_setting(errs_view(lines@), key@) is None,
        },
{
    let ghost ls = errs_view(lines@);
    let mut i: usize = 0;
    while i < lines.len()
        invariant
            i <= lines@.len(),
            ls == errs_view(lines@),
            forall|j: int| 0 <= j < i ==> !sets_key(ls[j], key@),
        decreases lines@.len() - i,
    {
        if line_sets_key(lines[i].as_str(), key) {
            proof {
                reveal(first_setting);
                let w = choose|x: int| 0 <= x < ls.len() && sets_key(ls[x], key@)
                    && forall|j: int| 0 <= j < x ==> !sets_key(ls[j], key@);
                assert(0 <= i < ls.len() && sets_key(ls[i as int], key@)
                    && forall|j: int| 0 <= j < i ==> !sets_key(ls[j], key@));
                if w < i {
                } else if w > i {
                    assert(!sets_key(ls[i as int], key@));
                }
            }
            return Some(i);
        }
        i = i + 1;
    }
    proof {
        reveal(first_setting);
        assert forall|x: int| 0 <= x < ls.len() implies !sets_key(ls[x], key@) by {}
    }
    None
}

/// The new text of the configuration file once `key` is set to `value`
/// (see `spec_update_config`).
pub fn update_config_text(existing: &str, key: &str, value: &str) -> (r: String)
    ensures
        r@ == spec_update_config(existing@, key@, value@),
{
    let lines = split_lines(existing);
    let ghost ls = text_lines(existing@);
    assert(errs_view(lines@) == ls);
    let mut setting = String::from_str(key);
    setting.append(" = ");
    setting.append(value);
    let at = find_setting(&lines, key);
    let mut out: Vec<String> = Vec::new();
    let mut i: usize = 0;
    while i < lines.len()
        invariant
            i <= lines@.len(),
            ls == errs_view(lines@),
            out@.len() == i,
            forall|k: int| 0 <= k < i ==> (#[trigger] out@[k])@ == (if at == Some(k as usize) { setting@ } else { ls[k] }),
        decreases lines@.len() - i,
    {
        if at == Some(i) {
            out.push(setting.clone());
        } else {
            out.push(lines[i].clone());
        }
        i = i + 1;
    }
    if at.is_none() {
        out.push(setting.clone());
    }
    proof {
        assert(setting@ =~= setting_line(key@, value@));
        match at {
            Some(j) => {
                assert(errs_view(out@) =~= ls.update(j as int, setting@));
            },
            None => {
                assert(errs_view(out@) =~= ls.push(setting@));
            },
        }
        assert(errs_view(out@) == updated_lines(ls, key@, value@));
    }
    let mut text = join_messages(&out, "\n");
    text.append("\n");
    text
}

// ---------------------------------------------------------------------
// Where the file is
// ---------------------------------------------------------------------

/// The configuration file: `$INK_CONFIG` when set, else `.inkrc` in the
/// home directory (`$HOME`, or `$USERPROFILE` where `$HOME` is unset).
pub open spec fn spec_config_path(
    ink_config: Option<Seq<char>>,
    home: Option<Seq<char>>,
    userprofile: Option<Seq<char>>,
) -> Option<Seq<char>> {
    match ink_config {
        Some(c) => Some(c),
        None => match home {
            Some(h) => Some(path_join(h, ".inkrc"@)),
            None => match userprofile {
                Some(u) => Some(path_join(u, ".inkrc"@)),
                None => None,
            },
        },
    }
}

pub open spec fn opt_view(o: Option<String>) -> Option<Seq<char>> {
    match o {
        Some(s) => Some(s@),
        None => None,
    }
}

/// The configuration file's path, given the environment variables the
/// program read (`None` for one that is unset or not Unicode).
pub fn config_path(ink_config: Option<String>, home: Option<String>, userprofile: Option<String>) -> (r: Option<String>)
    ensures
        opt_view(r) == spec_config_path(opt_view(ink_config), opt_view(home), opt_view(userprofile)),
{
    if let Some(custom) = ink_config {
        return Some(custom);
    }
    let base = match home {
        Some(h) => h,
        None => match userprofile {
            Some(u) => u,
            None => return None,
        },
    };
    Some(join_path(base.as_str(), ".inkrc"))
}

/// The configuration file's path as a string, empty when it cannot be
/// resolved (handed to plugins).
pub fn config_path_string(ink_config: Option<String>, home: Option<String>, userprofile: Option<String>) -> (r: String)
    ensures
        r@ == match spec_config_path(opt_view(ink_config), opt_view(home), opt_view(userprofile)) {
            Some(p) => p,
            None => Seq::empty(),
        },
{
    match config_path(ink_config, home, userprofile) {
        Some(p) => p,
        None => String::new(),
    }
}

// ---------------------------------------------------------------------
// Laws of the configuration file
// ---------------------------------------------------------------------

/// A line that is reported changes nothing else: each line either leaves
/// the warnings as they were, or adds exactly one and leaves the theme.
pub proof fn lemma_bad_line_keeps_theme(t: Theme, errs: Seq<Seq<char>>, raw: Seq<char>, n: nat)
    ensures
        ({
            let (t2, e2) = theme_step(t, errs, raw, n);
            e2 == errs || (t2 == t && e2.len() == errs.len() + 1 && e2.drop_last() == errs)
        }),
{
    let (t2, e2) = theme_step(t, errs, raw, n);
    if e2 != errs {
        assert(e2.drop_last() =~= errs);
    }
}

/// A blank or comment line.
pub open spec fn inert_line(raw: Seq<char>) -> bool {
    let line = spec_trim(raw);
    line.len() == 0 || line[0] == '#'
}

proof fn lemma_inert_fold(ls: Seq<Seq<char>>, n: nat)
    requires
        n <= ls.len(),
        forall|i: int| 0 <= i < ls.len() ==> inert_line(#[trigger] ls[i]),
    ensures
        theme_fold(ls, n) == (default_theme(), Seq::<Seq<char>>::empty()),
    decreases n,
{
    if n > 0 {
        lemma_inert_fold(ls, (n - 1) as nat);
        assert(inert_line(ls[n - 1]));
    }
}

/// A file of blank and comment lines (an empty file among them) gives the
/// default theme and no warning.
pub proof fn lemma_empty_config_is_default(content: Seq<char>)
    requires
        forall|i: int| 0 <= i < text_lines(content).len() ==> inert_line(#[trigger] text_lines(content)[i]),
    ensures
        spec_parse_theme(content) == (default_theme(), None::<Seq<char>>),
{
    lemma_inert_fold(text_lines(content), text_lines(content).len());
}

/// A lower-case ASCII letter.
pub open spec fn lower_letter(c: char) -> bool {
    'a' <= c && c <= 'z'
}

/// The known setting names are non-empty, begin and end with a letter and
/// hold no `=`.
proof fn lemma_setting_key_shape(t: Theme, key: Seq<char>, c: Color)
    requires
        with_setting(t, key, c) is Some,
    ensures
        key.len() > 0,
        lower_letter(key[0]),
        lower_letter(key.last()),
        forall|i: int| 0 <= i < key.len() ==> key[i] != '=',
{
    reveal_strlit("text");
    reveal_strlit("tilde");
    reveal_strlit("buffer_bar_background");
    reveal_strlit("buffer_active_background");
    reveal_strlit("buffer_active_foreground");
    reveal_strlit("buffer_inactive_foreground");
    reveal_strlit("status_background");
    reveal_strlit("status_foreground");
    reveal_strlit("command_prefix");
    reveal_strlit("command_text");
    reveal_strlit("warning_background");
    reveal_strlit("warning_foreground");
    assert forall|i: int| 0 <= i < key.len() implies key[i] != '=' by {}
}

/// The colour names are non-empty and begin and end with a letter.
proof fn lemma_color_name_shape(n: Seq<char>)
    requires
        named_color(n) is Some,
    ensures
        n.len() > 0,
        lower_letter(n[0]),
        lower_letter(n.last()),
{
    reveal_strlit("black");
    reveal_strlit("darkgrey");
    reveal_strlit("darkgray");
    reveal_strlit("red");
    reveal_strlit("darkred");
    reveal_strlit("green");
    reveal_strlit("darkgreen");
    reveal_strlit("yellow");
    reveal_strlit("darkyellow");
    reveal_strlit("blue");
    reveal_strlit("darkblue");
    reveal_strlit("magenta");
    reveal_strlit("darkmagenta");
    reveal_strlit("cyan");
    reveal_strlit("darkcyan");
    reveal_strlit("white");
    reveal_strlit("grey");
    reveal_strlit("gray");
}

/// The last byte of a character sequence's UTF-8 encoding is the last byte
/// of its last character's encoding.
proof fn lemma_encode_last(t: Seq<char>)
    requires
        t.len() > 0,
    ensures
        encode_utf8(t).len() > 0,
        encode_utf8(t).last() == encode_scalar(t.last() as u32).last(),
    decreases t.len(),
{
    let e = encode_scalar(t[0] as u32);
    assert(e.len() > 0);
    if t.len() == 1 {
        assert(encode_utf8(t.drop_first()) =~= Seq::<u8>::empty());
        assert(encode_utf8(t) =~= e);
    } else {
        lemma_encode_last(t.drop_first());
        assert(t.drop_first().last() == t.last());
    }
}

/// An ASCII character is encoded as its own byte; the encoding of any other
/// ends in a byte of at least `0x80`.
proof fn lemma_scalar_last_byte(v: u32)
    ensures
        v <= 0x7F ==> encode_scalar(v).last() == v as u8,
        v > 0x7F ==> encode_scalar(v).last() >= 0x80,
{
    assert(v <= 0x7F ==> (v & 0x7F) as u8 == v as u8) by (bit_vector);
    assert((0x80u8 | (v & 0x3F) as u8) >= 0x80u8) by (bit_vector);
}

/// A colour value that reads as a colour neither begins nor ends with
/// whitespace.
proof fn lemma_color_value_shape(value: Seq<char>)
    requires
        spec_parse_color(value) is Some,
    ensures
        value.len() > 0,
        !is_ws(value[0]),
        !is_ws(value.last()),
{
    if value.len() > 0 && value[0] == '#' {
        let rest = value.drop_first();
        let h = hex_bytes(value);
        assert(h.len() == 6);
        if rest.len() == 0 {
            assert(encode_utf8(rest) =~= Seq::<u8>::empty());
        }
        lemma_encode_last(rest);
        assert(rest.last() == value.last());
        let c = value.last();
        lemma_scalar_last_byte(c as u32);
        assert(hex_digit(h[5]) is Some);
        assert(h[5] == h.last());
        if (c as u32) > 0x7F {
            assert(h[5] >= 0x80);
        } else {
            assert((c as u32) as u8 == h[5]);
            assert((c as u32) == h[5]);
        }
    } else {
        let low = ascii_lower(value);
        lemma_color_name_shape(low);
        assert(low[0] == if 'A' <= value[0] && value[0] <= 'Z' { ((value[0] as u32) + 32) as char } else { value[0] });
        assert(low.last() == low[low.len() - 1]);
        let c = value[value.len() - 1];
        assert(low.last() == if 'A' <= c && c <= 'Z' { ((c as u32) + 32) as char } else { c });
    }
}

/// The position of the first `c` in `s`, where it is known.
proof fn lemma_first_index_at(s: Seq<char>, c: char, k: int)
    requires
        0 <= k < s.len(),
        s[k] == c,
        forall|j: int| 0 <= j < k ==> s[j] != c,
    ensures
        first_index(s, c) == Some(k),
{
    let w = choose|i: int| 0 <= i < s.len() && s[i] == c && forall|j: int| 0 <= j < i ==> s[j] != c;
    assert(0 <= w < s.len() && s[w] == c && forall|j: int| 0 <= j < w ==> s[j] != c);
    if w < k {
        assert(s[w] != c);
    } else if w > k {
        assert(s[k] != c);
    }
}

/// A setting that `theme_setting_valid` accepts, written as the line
/// `key = value` (as `update_config_text` writes it), is read back by the
/// loader: the line sets `key` to the value's colour and adds no warning.
pub proof fn lemma_valid_setting_reads_back(
    t: Theme,
    errs: Seq<Seq<char>>,
    key: Seq<char>,
    value: Seq<char>,
    n: nat,
)
    requires
        setting_valid(key, value),
    ensures
        with_setting(t, key, spec_parse_color(value).unwrap()) is Some,
        theme_step(t, errs, setting_line(key, value), n)
            == (with_setting(t, key, spec_parse_color(value).unwrap()).unwrap(), errs),
{
    let c = spec_parse_color(value).unwrap();
    lemma_setting_key_shape(default_theme(), key, c);
    lemma_color_value_shape(value);
    reveal_strlit(" = ");
    let line = setting_line(key, value);
    let kl = key.len() as int;
    assert(line[0] == key[0]);
    assert(line.last() == value.last());
    assert(line[kl] == ' ');
    assert(line[kl + 1] == '=');
    assert(trim_start(line) == line);
    assert(trim_end(line) == line);
    assert forall|j: int| 0 <= j < kl + 1 implies line[j] != '=' by {
        if j < kl {
            assert(line[j] == key[j]);
        }
    }
    lemma_first_index_at(line, '=', kl + 1);
    let left = line.take(kl + 1);
    let right = line.skip(kl + 2);
    assert(left.drop_last() =~= key);
    assert(left.last() == ' ');
    assert(trim_start(left) == left);
    assert(trim_end(left) == trim_end(key));
    assert(trim_end(key) == key);
    assert(right.drop_first() =~= value);
    assert(right[0] == ' ');
    assert(trim_start(right) == trim_start(value));
    assert(trim_start(value) == value);
    assert(trim_end(value) == value);
    assert(line_key_value(line) == Some((key, value)));
    reveal_strlit("text");
    reveal_strlit("tilde");
    reveal_strlit("buffer_bar_background");
    reveal_strlit("buffer_active_background");
    reveal_strlit("buffer_active_foreground");
    reveal_strlit("buffer_inactive_foreground");
    reveal_strlit("status_background");
    reveal_strlit("status_foreground");
    reveal_strlit("command_prefix");
    reveal_strlit("command_text");
    reveal_strlit("warning_background");
    reveal_strlit("warning_foreground");
}

/// The colour a theme gives the part named `key` (`None` for a name that
/// is not a setting).
pub open spec fn setting_of(t: Theme, key: Seq<char>) -> Option<Color> {
    if key == "text"@ { Some(t.text) }
    else if key == "tilde"@ { Some(t.tilde) }
    else if key == "buffer_bar_background"@ { Some(t.buffer_bar_background) }
    else if key == "buffer_active_background"@ { Some(t.buffer_active_background) }
    else if key == "buffer_active_foreground"@ { Some(t.buffer_active_foreground) }
    else if key == "buffer_inactive_foreground"@ { Some(t.buffer_inactive_foreground) }
    else if key == "status_background"@ { Some(t.status_background) }
    else if key == "status_foreground"@ { Some(t.status_foreground) }
    else if key == "command_prefix"@ { Some(t.command_prefix) }
    else if key == "command_text"@ { Some(t.command_text) }
    else if key == "warning_background"@ { Some(t.warning_background) }
    else if key == "warning_foreground"@ { Some(t.warning_foreground) }
    else { None }
}

/// Each setting name sets the part of that name and nothing else: setting
/// `key` to `c` succeeds exactly for the names of the theme's parts, and
/// afterwards `key` reads `c` while every other name reads as before.
pub proof fn lemma_setting_sets_its_own_part(t: Theme, key: Seq<char>, c: Color)
    ensures
        with_setting(t, key, c) is Some <==> setting_of(t, key) is Some,
        with_setting(t, key, c) matches Some(t2) ==> {
            &&& setting_of(t2, key) == Some(c)
            &&& forall|k: Seq<char>| k != key ==> #[trigger] setting_of(t2, k) == setting_of(t, k)
        },
{
    reveal_strlit("text");
    reveal_strlit("tilde");
    reveal_strlit("buffer_bar_background");
    reveal_strlit("buffer_active_background");
    reveal_strlit("buffer_active_foreground");
    reveal_strlit("buffer_inactive_foreground");
    reveal_strlit("status_background");
    reveal_strlit("status_foreground");
    reveal_strlit("command_prefix");
    reveal_strlit("command_text");
    reveal_strlit("warning_background");
    reveal_strlit("warning_foreground");
}

} // verus!
