//! Clipboard support: the OSC 52 escape sequence that asks the terminal to
//! set the system clipboard (with its base64 encoding), and how the results
//! of the clipboard backends combine into what the user is told.
//!
//! Talking to the terminal and to the system clipboard is left to the
//! program; it hands the results in.

use vstd::prelude::*;
use vstd::utf8::encode_utf8;

verus! {

/// The base64 symbol for a 6-bit value.
pub open spec fn b64_symbol(v: int) -> char {
    if v < 26 {
        (65 + v) as char
    } else if v < 52 {
        (97 + (v - 26)) as char
    } else if v < 62 {
        (48 + (v - 52)) as char
    } else if v == 62 {
        '+'
    } else {
        '/'
    }
}

/// The four symbols for a group of one to three bytes, padded with `=`.
pub open spec fn b64_group(g: Seq<u8>) -> Seq<char> {
    let b0 = g[0] as int;
    let b1 = if g.len() > 1 { g[1] as int } else { 0 };
    let b2 = if g.len() > 2 { g[2] as int } else { 0 };
    seq![
        b64_symbol(b0 / 4),
        b64_symbol((b0 % 4) * 16 + b1 / 16),
        if g.len() > 1 { b64_symbol((b1 % 16) * 4 + b2 / 64) } else { '=' },
        if g.len() > 2 { b64_symbol(b2 % 64) } else { '=' },
    ]
}

/// Standard base64 (RFC 4648 alphabet, `=` padding) of `d`.
pub open spec fn base64(d: Seq<u8>) -> Seq<char>
    decreases d.len(),
{
    if d.len() == 0 {
        Seq::empty()
    } else if d.len() <= 3 {
        b64_group(d)
    } else {
        b64_group(d.take(3)) + base64(d.skip(3))
    }
}

fn symbol(v: u32) -> (c: char)
    requires
        v < 64,
    ensures
        c == b64_symbol(v as int),
{
    if v < 26 {
        ((65 + v) as u8) as char
    } else if v < 52 {
        ((97 + (v - 26)) as u8) as char
    } else if v < 62 {
        ((48 + (v - 52)) as u8) as char
    } else if v == 62 {
        '+'
    } else {
        '/'
    }
}

proof fn lemma_b64_bits(b0: u8, b1: u8, b2: u8)
    by (bit_vector)
    ensures
        (((((b0 as u32) << 16) | ((b1 as u32) << 8)) | (b2 as u32)) >> 18) & 0x3F == (b0 / 4) as u32,
        (((((b0 as u32) << 16) | ((b1 as u32) << 8)) | (b2 as u32)) >> 12) & 0x3F
            == ((b0 % 4) * 16 + b1 / 16) as u32,
        (((((b0 as u32) << 16) | ((b1 as u32) << 8)) | (b2 as u32)) >> 6) & 0x3F
            == ((b1 % 16) * 4 + b2 / 64) as u32,
        ((((b0 as u32) << 16) | ((b1 as u32) << 8)) | (b2 as u32)) & 0x3F == (b2 % 64) as u32,
{
}

/// The base64 encoding of `data` (OSC 52 carries the text this way).
pub fn base64_encode(data: &[u8]) -> (r: String)
    ensures
        r@ == base64(data@),
        r@.len() == 4 * ((data@.len() + 2) / 3),
{
    let mut out = String::new();
    let mut i: usize = 0;
    let n = data.len();
    assert(data@.skip(0) =~= data@);
    while i < n
        invariant
            n == data@.len(),
            i <= n,
            base64(data@) == out@ + base64(data@.skip(i as int)),
            out@.len() == 4 * ((i + 2) / 3),
            i % 3 == 0 || i == n,
        decreases n - i,
    {
        let left = n - i;
        let b0 = data[i];
        let b1 = if left > 1 { data[i + 1] } else { 0 };
        let b2 = if left > 2 { data[i + 2] } else { 0 };
        let v: u32 = ((b0 as u32) << 16) | ((b1 as u32) << 8) | (b2 as u32);
        proof {
            lemma_b64_bits(b0, b1, b2);
        }
        let ghost before = out@;
        out.push(symbol((v >> 18) & 0x3F));
        out.push(symbol((v >> 12) & 0x3F));
        if left > 1 {
            out.push(symbol((v >> 6) & 0x3F));
        } else {
            out.push('=');
        }
        if left > 2 {
            out.push(symbol(v & 0x3F));
        } else {
            out.push('=');
        }
        let step: usize = if left >= 3 { 3 } else { left };
        proof {
            let rest = data@.skip(i as int);
            let g = if rest.len() <= 3 { rest } else { rest.take(3) };
            assert(g[0] == b0);
            assert(g.len() > 1 ==> g[1] == b1);
            assert(g.len() > 2 ==> g[2] == b2);
            assert(out@ =~= before + b64_group(g));
            if rest.len() <= 3 {
                assert(data@.skip(i as int + step as int) =~= Seq::<u8>::empty());
            } else {
                assert(rest.skip(3) =~= data@.skip(i as int + 3));
            }
        }
        i = i + step;
    }
    proof {
        assert(data@.skip(n as int) =~= Seq::<u8>::empty());
    }
    out
}


/// The escape character.
pub open spec fn esc() -> char {
    '\u{1b}'
}

/// `s` with every escape character doubled (how tmux passes one through).
pub open spec fn double_esc(s: Seq<char>) -> Seq<char>
    decreases s.len(),
{
    if s.len() == 0 {
        Seq::empty()
    } else {
        (if s[0] == esc() { seq![esc(), esc()] } else { seq![s[0]] }) + double_esc(s.drop_first())
    }
}

/// The OSC 52 sequence that sets the clipboard to `text`: `ESC ] 52 ; c ;`,
/// the base64 of the text's UTF-8 bytes, `BEL`; inside tmux wrapped as
/// `ESC P tmux ;` ... `ESC \` with its escapes doubled.
pub open spec fn spec_osc52(text: Seq<char>, in_tmux: bool) -> Seq<char> {
    let plain = seq![esc()] + "]52;c;"@ + base64(encode_utf8(text)) + seq!['\u{7}'];
    if in_tmux {
        seq![esc()] + "Ptmux;"@ + double_esc(plain) + seq![esc(), '\u{5c}']
    } else {
        plain
    }
}

/// The OSC 52 sequence for `text` (see `spec_osc52`).
pub fn osc52_sequence(text: &str, in_tmux: bool) -> (r: String)
    ensures
        r@ == spec_osc52(text@, in_tmux),
{
    let encoded = base64_encode(text.as_bytes());
    let mut plain = String::new();
    plain.push('\u{1b}');
    plain.append("]52;c;");
    plain.append(encoded.as_str());
    plain.push('\u{7}');
    proof {
        assert(plain@ =~= seq![esc()] + "]52;c;"@ + base64(encode_utf8(text@)) + seq!['\u{7}']);
    }
    if !in_tmux {
        return plain;
    }
    let cs = crate::text::chars_of(plain.as_str());
    let mut out = String::new();
    out.push('\u{1b}');
    out.append("Ptmux;");
    let ghost head = out@;
    let mut i: usize = 0;
    assert(cs@.skip(0) =~= cs@);
    assert(head =~= seq![esc()] + "Ptmux;"@);
    while i < cs.len()
        invariant
            i <= cs@.len(),
            cs@ == plain@,
            head == seq![esc()] + "Ptmux;"@,
            out@ + double_esc(cs@.skip(i as int)) == head + double_esc(cs@),
        decreases cs@.len() - i,
    {
        let ghost before = out@;
        let c = cs[i];
        if c == '\u{1b}' {
            out.push('\u{1b}');
            out.push('\u{1b}');
        } else {
            out.push(c);
        }
        proof {
            let rest = cs@.skip(i as int);
            assert(rest[0] == c);
            assert(rest.drop_first() =~= cs@.skip(i as int + 1));
            assert(out@ + double_esc(cs@.skip(i as int + 1)) =~= before + double_esc(rest));
        }
        i = i + 1;
    }
    proof {
        assert(cs@.skip(0) =~= cs@);
        assert(cs@.skip(cs@.len() as int) =~= Seq::<char>::empty());
    }
    out.push('\u{1b}');
    out.push('\u{5c}');
    proof {
        assert(out@ =~= spec_osc52(text@, in_tmux));
    }
    out
}

/// What copying reports, given whether the OSC 52 sequence was written and
/// what the clipboard backend did (`None`: there is no backend). The copy
/// succeeds when either route worked.
pub fn copy_result(osc52_sent: bool, backend: Option<Result<(), String>>) -> (r: Result<(), String>)
    ensures
        match backend {
            None => if osc52_sent {
                r is Ok
            } else {
                r matches Err(m) && m@ == "no clipboard available (OSC 52 write failed and arboard has no backend)"@
            },
            Some(Ok(_)) => r is Ok,
            Some(Err(e)) => if osc52_sent {
                r is Ok
            } else {
                r matches Err(m) && m@ == "clipboard copy failed: "@ + e@
            },
        },
{
    match backend {
        None => if osc52_sent {
            Ok(())
        } else {
            Err(String::from_str("no clipboard available (OSC 52 write failed and arboard has no backend)"))
        },
        Some(Ok(())) => Ok(()),
        Some(Err(e)) => if osc52_sent {
            Ok(())
        } else {
            let mut m = String::from_str("clipboard copy failed: ");
            m.append(e.as_str());
            Err(m)
        },
    }
}

/// What reading the clipboard backend reports (`None`: there is no
/// backend); on an error the program may still try its fallback tools.
pub fn paste_result(backend: Option<Result<String, String>>) -> (r: Result<String, String>)
    ensures
        match backend {
            None => r matches Err(m) && m@ == "terminal has no clipboard. c/p is nop"@,
            Some(Ok(t)) => r matches Ok(x) && x@ == t@,
            Some(Err(e)) => r matches Err(m) && m@ == "clipboard paste failed: "@ + e@,
        },
{
    match backend {
        None => Err(String::from_str("terminal has no clipboard. c/p is nop")),
        Some(Ok(t)) => Ok(t),
        Some(Err(e)) => {
            let mut m = String::from_str("clipboard paste failed: ");
            m.append(e.as_str());
            Err(m)
        },
    }
}
} // verus!
