//! Copying a text: the ways that are tried, and the one that asks the terminal.
use crate::hash;
use crate::text;
use base64::Engine;
use vstd::prelude::*;
use vstd::string::*;
use vstd::utf8;

verus! {

/// The character of the standard alphabet for a number below 64.
pub open spec fn base64_digit(n: int) -> char {
    if n < 26 {
        (n + 0x41) as char
    } else if n < 52 {
        (n - 26 + 0x61) as char
    } else if n < 62 {
        (n - 52 + 0x30) as char
    } else if n == 62 {
        '+'
    } else {
        '/'
    }
}

/// `bytes` in Base64: each three bytes, as one number of 24 bits, give four
/// characters of six bits each, the high ones first. Where the last one or two bytes
/// are left, `=` stands for each character that would hold none of their bits.
pub open spec fn base64_of(bytes: Seq<u8>) -> Seq<char>
    decreases bytes.len(),
{
    if bytes.len() == 0 {
        seq![]
    } else {
        let second: int = if bytes.len() > 1 {
            bytes[1] as int
        } else {
            0
        };
        let third: int = if bytes.len() > 2 {
            bytes[2] as int
        } else {
            0
        };
        let n = bytes[0] * 0x10000 + second * 0x100 + third;
        seq![
            base64_digit(n / 0x40000),
            base64_digit(n / 0x1000 % 0x40),
            if bytes.len() > 1 {
                base64_digit(n / 0x40 % 0x40)
            } else {
                '='
            },
            if bytes.len() > 2 {
                base64_digit(n % 0x40)
            } else {
                '='
            },
        ] + (if bytes.len() > 3 {
            base64_of(bytes.skip(3))
        } else {
            seq![]
        })
    }
}

/// `base64::Engine::encode` of `base64::engine::general_purpose::STANDARD`: the
/// bytes in the standard alphabet with padding.
#[verifier::external_body]
fn base64_encode(bytes: &[u8]) -> (r: String)
    ensures
        r@ == base64_of(bytes@),
{
    base64::engine::general_purpose::STANDARD.encode(bytes)
}

/// A way to copy a text.
#[derive(Debug, Clone, Copy, PartialEq, Eq, Structural)]
pub enum Method {
    Wayland,
    Desktop,
    Terminal,
}

impl Method {
    /// The name of this way.
    pub open spec fn text(self) -> Seq<char> {
        match self {
            Method::Wayland => "wayland"@,
            Method::Desktop => "desktop"@,
            Method::Terminal => "osc52"@,
        }
    }

    /// The name of this way.
    pub fn name(&self) -> (r: &'static str)
        ensures
            r@ == self.text(),
    {
        match self {
            Method::Wayland => "wayland",
            Method::Desktop => "desktop",
            Method::Terminal => "osc52",
        }
    }
}

/// Whether the way through the terminal may be taken: unless a setting other than `1`
/// and `true` forbids it.
pub open spec fn terminal_wanted(setting: Option<Seq<char>>) -> bool {
    setting is Some ==> (setting->0 == "1"@ || text::lowered(setting->0) == "true"@)
}

/// Whether the way through the terminal may be taken.
pub fn osc52_enabled(setting: Option<&str>) -> (r: bool)
    ensures
        r == terminal_wanted(hash::opt_str(setting)),
{
    match setting {
        Some(v) => {
            let low = text::lower(v);
            text::same(v, "1") || text::same(low.as_str(), "true")
        },
        None => true,
    }
}

/// The ways to copy a text, in the order in which they are tried.
pub open spec fn methods_of(has_wayland: bool, terminal: bool) -> Seq<Method> {
    (if has_wayland {
        seq![Method::Wayland]
    } else {
        seq![]
    }) + seq![Method::Desktop] + (if terminal {
        seq![Method::Terminal]
    } else {
        seq![]
    })
}

/// The ways to copy a text, in the order in which they are tried: the desktop's
/// own, and the terminal last where it may be taken.
pub fn copy_methods(has_wayland: bool, terminal: bool) -> (out: Vec<Method>)
    ensures
        out@ == methods_of(has_wayland, terminal),
{
    let mut out: Vec<Method> = Vec::new();
    if has_wayland {
        out.push(Method::Wayland);
    }
    out.push(Method::Desktop);
    if terminal {
        out.push(Method::Terminal);
    }
    assert(out@ =~= methods_of(has_wayland, terminal));
    out
}

/// What stands between this program and the terminal.
#[derive(Debug, Clone, Copy, PartialEq, Eq, Structural)]
pub enum Passthrough {
    Direct,
    Tmux,
    Screen,
}

/// What stands between this program and the terminal, by the environment.
pub fn passthrough(in_tmux: bool, term: Option<&str>) -> (r: Passthrough)
    ensures
        r == (if in_tmux {
            Passthrough::Tmux
        } else if term is Some && text::occurs_at(term->0@, "screen"@, 0) {
            Passthrough::Screen
        } else {
            Passthrough::Direct
        }),
{
    if in_tmux {
        return Passthrough::Tmux;
    }
    match term {
        Some(t) => if text::starts_with(t, "screen") {
            Passthrough::Screen
        } else {
            Passthrough::Direct
        },
        None => Passthrough::Direct,
    }
}

/// `s` with each escape character doubled.
pub open spec fn doubled(s: Seq<char>) -> Seq<char>
    decreases s.len(),
{
    if s.len() == 0 {
        seq![]
    } else if s.last() == '\x1b' {
        doubled(s.drop_last()) + seq!['\x1b', '\x1b']
    } else {
        doubled(s.drop_last()).push(s.last())
    }
}

/// `s` with each escape character doubled.
fn double_escapes(s: &str) -> (out: String)
    ensures
        out@ == doubled(s@),
{
    let v = text::chars(s);
    let mut out = String::new();
    let mut i: usize = 0;
    assert(v@.take(0) =~= seq![]);
    while i < v.len()
        invariant
            i <= v.len(),
            out@ == doubled(v@.take(i as int)),
        decreases v.len() - i,
    {
        assert(v@.take(i + 1).drop_last() =~= v@.take(i as int));
        let ghost before = out@;
        if v[i] == '\x1b' {
            out.push('\x1b');
            out.push('\x1b');
            assert(out@ =~= before + seq!['\x1b', '\x1b']);
        } else {
            out.push(v[i]);
        }
        i += 1;
    }
    assert(v@.take(i as int) =~= v@);
    out
}

/// What tells a terminal to copy: the operating system command 52 with the text in
/// Base64.
pub open spec fn copy_command(payload: Seq<char>) -> Seq<char> {
    "\x1b]52;c;"@ + payload + "\x07"@
}

/// What is written so that the terminal behind something else is told.
pub open spec fn passed_through(p: Passthrough, command: Seq<char>) -> Seq<char> {
    match p {
        Passthrough::Direct => command,
        Passthrough::Tmux => "\x1bPtmux;"@ + doubled(command) + "\x1b\\"@,
        Passthrough::Screen => "\x1bP"@ + command + "\x1b\\"@,
    }
}

/// What is written so that the terminal copies `payload`, a text in Base64.
pub fn wrap_payload(p: Passthrough, payload: &str) -> (out: String)
    ensures
        out@ == passed_through(p, copy_command(payload@)),
{
    let mut command = String::new();
    command.append("\x1b]52;c;");
    command.append(payload);
    command.append("\x07");
    assert(command@ =~= copy_command(payload@));
    match p {
        Passthrough::Direct => command,
        Passthrough::Tmux => {
            let inner = double_escapes(command.as_str());
            let mut out = String::new();
            out.append("\x1bPtmux;");
            out.append(inner.as_str());
            out.append("\x1b\\");
            assert(out@ =~= "\x1bPtmux;"@ + doubled(command@) + "\x1b\\"@);
            out
        },
        Passthrough::Screen => {
            let mut out = String::new();
            out.append("\x1bP");
            out.append(command.as_str());
            out.append("\x1b\\");
            assert(out@ =~= "\x1bP"@ + command@ + "\x1b\\"@);
            out
        },
    }
}

/// What is written so that the terminal copies a text.
pub fn osc52_sequence(p: Passthrough, s: &str) -> (out: String)
    ensures
        out@ == passed_through(p, copy_command(base64_of(utf8::encode_utf8(s@)))),
{
    let payload = base64_encode(s.as_bytes());
    wrap_payload(p, payload.as_str())
}

} // verus!
