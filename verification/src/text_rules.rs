//! What trimming, cutting, wrapping and encoding a text is for.
use crate::clipboard;
use crate::clipboard::{Method, Passthrough};
use crate::text;
use crate::width;
use crate::width::WrapPos;
use vstd::prelude::*;

verus! {

/// The control characters from tab to carriage return and the blank are white space, and
/// nothing else of ASCII is.
pub proof fn law_visible_ascii_is_no_space(c: char)
    requires
        c as int <= 0x7f,
    ensures
        text::is_space(c) == (c == ' ' || c == '\t' || c == '\n' || c == '\r' || c as int == 0x0b
            || c as int == 0x0c),
{
}

/// Trimming a text at one end takes the white space there away, all of it and nothing else.
pub proof fn law_trimming_takes_one_end_away(s: Seq<char>)
    ensures
        ({
            let t = text::trimmed_start(s);
            &&& t.len() <= s.len()
            &&& t == s.skip(s.len() - t.len())
            &&& text::is_blank(s.take(s.len() - t.len()))
            &&& t.len() > 0 ==> !text::is_space(t[0])
        }),
        ({
            let t = text::trimmed_end(s);
            &&& t.len() <= s.len()
            &&& t == s.take(t.len() as int)
            &&& text::is_blank(s.skip(t.len() as int))
            &&& t.len() > 0 ==> !text::is_space(t.last())
        }),
    decreases s.len(),
{
    if s.len() > 0 && text::is_space(s[0]) {
        let rest = s.drop_first();
        law_trimming_takes_one_end_away(rest);
        let t = text::trimmed_start(s);
        let n = s.len() - t.len();
        assert(t =~= s.skip(n));
        assert forall|i: int| 0 <= i < n implies text::is_space(#[trigger] s.take(n)[i]) by {
            if i > 0 {
                assert(rest.take(n - 1)[i - 1] == s[i]);
            }
        }
    } else {
        assert(s.skip(0) =~= s);
    }
    if s.len() > 0 && text::is_space(s.last()) {
        let rest = s.drop_last();
        law_trimming_takes_one_end_away(rest);
        let t = text::trimmed_end(s);
        let n = t.len() as int;
        assert(t =~= s.take(n));
        assert forall|i: int| 0 <= i < s.len() - n implies text::is_space(
            #[trigger] s.skip(n)[i],
        ) by {
            if i < rest.len() - n {
                assert(rest.skip(n)[i] == s[n + i]);
            } else {
                assert(s[n + i] == s.last());
            }
        }
    } else {
        assert(s.take(s.len() as int) =~= s);
    }
}

/// Trimming a text takes the white space at both its ends away, all of it and nothing else.
pub proof fn law_trimming_takes_both_ends_away(s: Seq<char>)
    ensures
        ({
            let t = text::trimmed(s);
            &&& t.len() > 0 ==> !text::is_space(t[0]) && !text::is_space(t.last())
            &&& exists|a: Seq<char>, b: Seq<char>|
                text::is_blank(a) && text::is_blank(b) && s == #[trigger] (a + t + b)
        }),
{
    let u = text::trimmed_start(s);
    let t = text::trimmed(s);
    law_trimming_takes_one_end_away(s);
    law_trimming_takes_one_end_away(u);
    let a = s.take(s.len() - u.len());
    let b = u.skip(t.len() as int);
    assert(s =~= a + t + b);
    if t.len() > 0 {
        assert(t[0] == u[0]);
    }
}

/// A text is read line by line: what stands before the first line feed is the first line,
/// without a carriage return at its end, and the lines of what follows come next. A last
/// line needs no line feed.
pub proof fn law_lines_end_at_line_feeds(a: Seq<char>, b: Seq<char>)
    requires
        forall|i: int| 0 <= i < a.len() ==> a[i] != '\n',
    ensures
        text::lines_of(a + seq!['\n'] + b) == seq![
            if a.len() > 0 && a.last() == '\r' {
                a.drop_last()
            } else {
                a
            },
        ] + text::lines_of(b),
        a.len() > 0 ==> text::lines_of(a) == seq![a],
        text::lines_of(seq![]) == Seq::<Seq<char>>::empty(),
{
    let s = a + seq!['\n'] + b;
    text::lemma_is_first_index(s, '\n', a.len() as int);
    assert(s.take(a.len() as int) =~= a);
    assert(s.skip(a.len() as int + 1) =~= b);
    text::lemma_is_first_index(a, '\n', a.len() as int);
    assert(text::first_index(Seq::<char>::empty(), '\n') == 0);
}

/// A text is split at each separator and nowhere else: the parts hold none, and joined by
/// it they are the text.
pub proof fn law_split_is_at_each_separator(s: Seq<char>, c: char, i: int, j: int)
    requires
        0 <= i < text::split_of(s, c).len(),
        0 <= j < text::split_of(s, c)[i].len(),
    ensures
        text::split_of(s, c)[i][j] != c,
        text::joined(text::split_of(s, c), seq![c]) == s,
    decreases s.len(),
{
    text::lemma_split_joined(s, c);
    text::lemma_first_index(s, c);
    let n = text::first_index(s, c);
    if n < s.len() {
        let rest = text::split_of(s.skip(n + 1), c);
        assert(text::split_of(s, c) =~= seq![s.take(n)] + rest);
        if i > 0 {
            assert(text::split_of(s, c)[i] == rest[i - 1]);
            law_split_is_at_each_separator(s.skip(n + 1), c, i - 1, j);
        }
    }
}

/// A lowered text differs only where there was a capital letter of ASCII, has none itself,
/// and is not changed by lowering it again.
pub proof fn law_lowering_takes_capitals_away(s: Seq<char>)
    ensures
        text::lowered(text::lowered(s)) == text::lowered(s),
        text::lowered(s).len() == s.len(),
        forall|i: int|
            0 <= i < s.len() ==> !('A' <= #[trigger] text::lowered(s)[i] <= 'Z') && (if 'A' <= s[i]
                <= 'Z' {
                text::lowered(s)[i] as int - 'a' as int == s[i] as int - 'A' as int
            } else {
                text::lowered(s)[i] == s[i]
            }),
{
    assert(text::lowered(text::lowered(s)) =~= text::lowered(s));
}

/// As many characters as fit are taken: those are no wider than the room, the next one
/// would be, and what room they leave is told.
pub proof fn law_as_much_is_taken_as_fits(s: Seq<char>, room: nat)
    ensures
        ({
            let n = width::fitting(s, room) as int;
            &&& n <= s.len()
            &&& width::total_columns(s.take(n)) <= room
            &&& n < s.len() ==> width::total_columns(s.take(n + 1)) > room
            &&& width::room_behind(s, room) + width::total_columns(s.take(n)) == room
        }),
    decreases s.len(),
{
    let n = width::fitting(s, room) as int;
    if s.len() > 0 && width::columns_of(s[0]) <= room {
        let rest = s.drop_first();
        let left = (room - width::columns_of(s[0])) as nat;
        law_as_much_is_taken_as_fits(rest, left);
        assert(s.take(n).drop_first() =~= rest.take(n - 1));
        if n < s.len() {
            assert(s.take(n + 1).drop_first() =~= rest.take(n));
        }
    } else {
        assert(s.take(0).len() == 0);
        if s.len() > 0 {
            assert(s.take(1).drop_first() =~= seq![]);
            assert(s.take(1)[0] == s[0]);
        }
    }
}

/// The columns that the words and the white space between them take, each at its width.
pub open spec fn run_columns(s: Seq<char>) -> nat
    decreases s.len(),
    via run_columns_decreases
{
    if s.len() == 0 {
        0
    } else {
        let n = width::class_len(s, text::is_space(s[0])) as int;
        width::width_of(s.take(n)) + run_columns(s.skip(n))
    }
}

#[via_fn]
proof fn run_columns_decreases(s: Seq<char>) {
    if s.len() > 0 {
        width::lemma_class_len(s, text::is_space(s[0]));
    }
}

/// The columns of the lines up to a place.
pub open spec fn columns_before(p: WrapPos, width: nat) -> int {
    (p.line - 1) * width + p.col
}

proof fn lemma_wrap_step(p: WrapPos, w: nat, width: nat)
    requires
        width > 0,
        p.line > 0,
        p.col <= width,
    ensures
        ({
            let a = width::wrap_space(p, w, width);
            let b = width::wrap_word(p, w, width);
            &&& a.line >= p.line && a.col <= width
            &&& b.line >= p.line && b.col <= width
            &&& columns_before(a, width) == columns_before(p, width) + w
            &&& columns_before(b, width) >= columns_before(p, width) + w
            &&& p.col + w <= width ==> a.line == p.line && a.col == p.col + w
            &&& p.col + w <= width ==> b.line == p.line && b.col == p.col + w
        }),
{
    let d = width as int;
    if w > 0 {
        let last = p.col + w - 1;
        vstd::arithmetic::div_mod::lemma_fundamental_div_mod(last, d);
        vstd::arithmetic::div_mod::lemma_mod_bound(last, d);
        let q = last / d;
        assert(q >= 0) by {
            vstd::arithmetic::div_mod::lemma_div_pos_is_pos(last, d);
        }
        assert((p.line + q - 1) * d == (p.line - 1) * d + d * q) by (nonlinear_arith);
        if p.col + w <= width {
            vstd::arithmetic::div_mod::lemma_basic_div(last, d);
            vstd::arithmetic::div_mod::lemma_small_mod(last as nat, width);
        }
        vstd::arithmetic::div_mod::lemma_fundamental_div_mod(w as int, d);
        vstd::arithmetic::div_mod::lemma_mod_bound(w as int, d);
        let u = w as int / d;
        assert(u >= 0) by {
            vstd::arithmetic::div_mod::lemma_div_pos_is_pos(w as int, d);
        }
        assert((p.line + 1 + u - 1) * d == (p.line - 1) * d + d + d * u) by (nonlinear_arith);
        assert((p.line + u - 1) * d == (p.line - 1) * d + d * u) by (nonlinear_arith);
        assert((p.line + 1 - 1) * d == (p.line - 1) * d + d) by (nonlinear_arith);
    }
}

proof fn lemma_wrap(p: WrapPos, s: Seq<char>, width: nat)
    requires
        width > 0,
        p.line > 0,
        p.col <= width,
    ensures
        ({
            let q = width::wrap_text(p, s, width);
            &&& q.line >= p.line
            &&& q.col <= width
            &&& columns_before(q, width) >= columns_before(p, width) + run_columns(s)
            &&& p.col + run_columns(s) <= width ==> q.line == p.line
        }),
    decreases s.len(),
{
    if s.len() > 0 {
        let space = text::is_space(s[0]);
        width::lemma_class_len(s, space);
        let n = width::class_len(s, space) as int;
        let w = width::width_of(s.take(n));
        lemma_wrap_step(p, w, width);
        let q = if space {
            width::wrap_space(p, w, width)
        } else {
            width::wrap_word(p, w, width)
        };
        lemma_wrap(q, s.skip(n), width);
    }
}

/// A text that fits on one line takes one line, and a text takes as many lines at least as
/// there is room on them for its columns.
pub proof fn law_wrapped_text_has_room(s: Seq<char>, columns: u16)
    requires
        columns > 0,
    ensures
        width::wrapped_lines(s, columns) >= 1,
        run_columns(s) <= columns ==> width::wrapped_lines(s, columns) == 1,
        run_columns(s) <= width::wrapped_lines(s, columns) * columns,
{
    let p = WrapPos { line: 1, col: 0 };
    lemma_wrap(p, s, columns as nat);
    let q = width::wrap_text(p, s, columns as nat);
    let d = columns as int;
    assert((q.line - 1) * d + d == q.line * d) by (nonlinear_arith);
    assert((p.line - 1) * d == 0) by (nonlinear_arith)
        requires
            p.line == 1,
    ;
}

/// The number that a digit of the encoding stands for.
pub open spec fn digit_value(c: char) -> int {
    if 'A' <= c <= 'Z' {
        c as int - 'A' as int
    } else if 'a' <= c <= 'z' {
        c as int - 'a' as int + 26
    } else if '0' <= c <= '9' {
        c as int - '0' as int + 52
    } else if c == '+' {
        62
    } else {
        63
    }
}

/// The byte at `i` that the encoded text `out` stands for.
pub open spec fn decoded_at(out: Seq<char>, i: int) -> int {
    let at = i / 3 * 4;
    if i % 3 == 0 {
        digit_value(out[at]) * 4 + digit_value(out[at + 1]) / 16
    } else if i % 3 == 1 {
        digit_value(out[at + 1]) % 16 * 16 + digit_value(out[at + 2]) / 4
    } else {
        digit_value(out[at + 2]) % 4 * 64 + digit_value(out[at + 3])
    }
}

proof fn lemma_digit_value(n: int)
    requires
        0 <= n < 64,
    ensures
        digit_value(clipboard::base64_digit(n)) == n,
        clipboard::base64_digit(n) != '=',
{
}

proof fn lemma_group(first: int, second: int, third: int)
    requires
        0 <= first < 256,
        0 <= second < 256,
        0 <= third < 256,
    ensures
        ({
            let n = first * 0x10000 + second * 0x100 + third;
            &&& 0 <= n / 0x40000 < 64
            &&& n / 0x40000 * 4 + n / 0x1000 % 0x40 / 16 == first
            &&& n / 0x1000 % 0x40 % 16 * 16 + n / 0x40 % 0x40 / 4 == second
            &&& n / 0x40 % 0x40 % 4 * 64 + n % 0x40 == third
        }),
{
    let n = first * 0x10000 + second * 0x100 + third;
    assert(n / 0x40000 == first / 4);
    assert(n / 0x1000 == first * 16 + second / 16);
    assert(n / 0x40 == first * 1024 + second * 4 + third / 64);
    assert(n % 0x40 == third % 64);
    assert((first * 16 + second / 16) % 0x40 == first % 4 * 16 + second / 16);
    assert((first * 1024 + second * 4 + third / 64) % 0x40 == second % 16 * 4 + third / 64);
    assert((first % 4 * 16 + second / 16) / 16 == first % 4);
    assert((first % 4 * 16 + second / 16) % 16 == second / 16);
    assert((second % 16 * 4 + third / 64) / 4 == second % 16);
    assert((second % 16 * 4 + third / 64) % 4 == third / 64);
}

proof fn lemma_first_group(bytes: Seq<u8>)
    requires
        bytes.len() > 0,
    ensures
        ({
            let out = clipboard::base64_of(bytes);
            &&& out.len() == 4 + (if bytes.len() > 3 {
                clipboard::base64_of(bytes.skip(3)).len()
            } else {
                0
            })
            &&& decoded_at(out, 0) == bytes[0]
            &&& bytes.len() > 1 ==> decoded_at(out, 1) == bytes[1]
            &&& bytes.len() > 2 ==> decoded_at(out, 2) == bytes[2]
            &&& (out[2] == '=') == (bytes.len() < 2)
            &&& (out[3] == '=') == (bytes.len() < 3)
        }),
{
    let second: int = if bytes.len() > 1 {
        bytes[1] as int
    } else {
        0
    };
    let third: int = if bytes.len() > 2 {
        bytes[2] as int
    } else {
        0
    };
    let n: int = bytes[0] * 0x10000 + second * 0x100 + third;
    lemma_group(bytes[0] as int, second, third);
    lemma_digit_value(n / 0x40000);
    lemma_digit_value(n / 0x1000 % 0x40);
    lemma_digit_value(n / 0x40 % 0x40);
    lemma_digit_value(n % 0x40);
}

/// What is put on the clipboard by way of the terminal reads back: four digits stand for
/// three bytes, the end is filled up to a whole group, and each byte can be told.
pub proof fn law_encoded_bytes_read_back(bytes: Seq<u8>)
    ensures
        ({
            let out = clipboard::base64_of(bytes);
            &&& out.len() == (bytes.len() + 2) / 3 * 4
            &&& forall|i: int| 0 <= i < bytes.len() ==> decoded_at(out, i) == #[trigger] bytes[i]
            &&& bytes.len() > 0 ==> (out[out.len() - 2] == '=') == (bytes.len() % 3 == 1)
            &&& bytes.len() > 0 ==> (out.last() == '=') == (bytes.len() % 3 != 0)
        }),
    decreases bytes.len(),
{
    if bytes.len() > 0 {
        lemma_first_group(bytes);
        let out = clipboard::base64_of(bytes);
        if bytes.len() > 3 {
            let rest = bytes.skip(3);
            law_encoded_bytes_read_back(rest);
            let tail = clipboard::base64_of(rest);
            assert(out.skip(4) =~= tail);
            assert forall|i: int| 0 <= i < bytes.len() implies decoded_at(out, i)
                == #[trigger] bytes[i] by {
                if i >= 3 {
                    assert(rest[i - 3] == bytes[i]);
                    lemma_decoded_later(out, tail, i);
                } else if i == 0 {
                    assert(decoded_at(out, 0) == bytes[0]);
                } else if i == 1 {
                    assert(decoded_at(out, 1) == bytes[1]);
                } else {
                    assert(decoded_at(out, 2) == bytes[2]);
                }
            }
            assert(tail.len() >= 4);
            assert(out.last() == tail.last());
            assert(out[out.len() - 2] == tail[tail.len() - 2]);
        } else {
            assert forall|i: int| 0 <= i < bytes.len() implies decoded_at(out, i)
                == #[trigger] bytes[i] by {
                if i == 0 {
                    assert(decoded_at(out, 0) == bytes[0]);
                } else if i == 1 {
                    assert(decoded_at(out, 1) == bytes[1]);
                } else {
                    assert(decoded_at(out, 2) == bytes[2]);
                }
            }
        }
    }
}

proof fn lemma_decoded_later(out: Seq<char>, tail: Seq<char>, i: int)
    requires
        i >= 3,
        out.len() >= 4,
        tail == out.skip(4),
        i / 3 * 4 + 3 < out.len(),
    ensures
        decoded_at(out, i) == decoded_at(tail, i - 3),
{
    let at = (i - 3) / 3 * 4;
    assert(i / 3 * 4 == at + 4);
    assert((i - 3) % 3 == i % 3);
    assert(out[at + 4] == tail[at]);
    assert(out[at + 5] == tail[at + 1]);
    assert(out[at + 6] == tail[at + 2]);
    assert(out[at + 7] == tail[at + 3]);
}

/// A terminal that passes a command on is handed the escapes in it twice, and everything
/// else once and in its order.
pub proof fn law_escapes_are_doubled(a: Seq<char>, b: Seq<char>, c: char)
    ensures
        clipboard::doubled(a + b) == clipboard::doubled(a) + clipboard::doubled(b),
        clipboard::doubled(seq![c]) == (if c == '\x1b' {
            seq![c, c]
        } else {
            seq![c]
        }),
    decreases b.len(),
{
    assert(seq![c].drop_last() =~= seq![]);
    assert(clipboard::doubled(seq![]) =~= seq![]);
    reveal_with_fuel(clipboard::doubled, 2);
    assert(clipboard::doubled(seq![c]) =~= if c == '\x1b' {
        seq![c, c]
    } else {
        seq![c]
    });
    if b.len() == 0 {
        assert(a + b =~= a);
        assert(clipboard::doubled(a) + clipboard::doubled(b) =~= clipboard::doubled(a));
    } else {
        law_escapes_are_doubled(a, b.drop_last(), c);
        assert((a + b).drop_last() =~= a + b.drop_last());
        assert(clipboard::doubled(a + b) =~= clipboard::doubled(a) + clipboard::doubled(b));
    }
}

/// The desktop's clipboard is always tried; that of the Wayland compositor is tried before
/// it and the terminal's after it, just where they are there.
pub proof fn law_clipboards_are_tried_in_order(has_wayland: bool, terminal: bool)
    ensures
        ({
            let m = clipboard::methods_of(has_wayland, terminal);
            &&& m.contains(Method::Desktop)
            &&& m.contains(Method::Wayland) == has_wayland
            &&& m.contains(Method::Terminal) == terminal
            &&& has_wayland ==> m[0] is Wayland
            &&& terminal ==> m.last() is Terminal
            &&& m.no_duplicates()
        }),
{
    let m = clipboard::methods_of(has_wayland, terminal);
    let at: int = if has_wayland {
        1
    } else {
        0
    };
    assert(m[at] is Desktop);
    assert(has_wayland ==> m[0] is Wayland);
    assert(terminal ==> m[at + 1] is Terminal);
}

/// A command reaches the terminal as it is, or inside what a multiplexer passes on.
pub proof fn law_command_is_passed_on_whole(payload: Seq<char>)
    ensures
        ({
            let command = clipboard::copy_command(payload);
            &&& text::occurs(command, payload)
            &&& clipboard::passed_through(Passthrough::Direct, command) == command
            &&& text::occurs(clipboard::passed_through(Passthrough::Screen, command), command)
            &&& text::occurs(
                clipboard::passed_through(Passthrough::Tmux, command),
                clipboard::doubled(command),
            )
        }),
{
    let command = clipboard::copy_command(payload);
    lemma_between("\x1b]52;c;"@, payload, "\x07"@);
    lemma_between("\x1bP"@, command, "\x1b\\"@);
    lemma_between("\x1bPtmux;"@, clipboard::doubled(command), "\x1b\\"@);
}

proof fn lemma_between(a: Seq<char>, t: Seq<char>, b: Seq<char>)
    ensures
        text::occurs(a + t + b, t),
{
    assert((a + t + b).subrange(a.len() as int, (a.len() + t.len()) as int) =~= t);
    assert(text::occurs_at(a + t + b, t, a.len() as int));
}

/// The terminal's clipboard is used unless a setting says otherwise, and how the setting is
/// capitalised makes no difference.
pub proof fn law_terminal_is_used_unless_told_otherwise(setting: Seq<char>)
    ensures
        clipboard::terminal_wanted(None),
        clipboard::terminal_wanted(Some(text::lowered(setting))) == clipboard::terminal_wanted(
            Some(setting),
        ),
        clipboard::terminal_wanted(Some("1"@)),
        clipboard::terminal_wanted(Some("true"@)),
        !clipboard::terminal_wanted(Some("0"@)),
        !clipboard::terminal_wanted(Some("false"@)),
        !clipboard::terminal_wanted(Some(""@)),
{
    reveal_strlit("1");
    reveal_strlit("true");
    reveal_strlit("0");
    reveal_strlit("false");
    reveal_strlit("");
    law_lowering_takes_capitals_away(setting);
    if text::lowered(setting) == "1"@ {
        assert(text::lowered(setting)[0] == '1');
        assert(setting =~= "1"@);
    }
    if setting == "1"@ {
        assert(text::lowered(setting) =~= "1"@);
    }
    assert(text::lowered("true"@) =~= "true"@);
    assert(text::lowered("0"@)[0] == '0');
    assert(text::lowered("0"@).len() == 1);
    assert(text::lowered("false"@).len() == 5);
    assert(text::lowered(""@).len() == 0);
    assert("0"@[0] != "1"@[0]);
}

} // verus!
