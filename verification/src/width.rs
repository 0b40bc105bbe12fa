//! How wide texts are on a terminal, and how many lines they take when words
//! are wrapped.
use crate::text;
use vstd::prelude::*;

verus! {

/// How many columns a text takes.
pub uninterp spec fn width_of(s: Seq<char>) -> nat;

/// `unicode_width::UnicodeWidthStr::width`: the number of columns that a text
/// takes, which is a function of the text.
#[verifier::external_body]
pub(crate) fn display_width(s: &str) -> (n: usize)
    ensures
        n == width_of(s@),
{
    unicode_width::UnicodeWidthStr::width(s)
}

/// How many columns a character takes by itself; none is known of a control
/// character.
pub uninterp spec fn char_width_of(c: char) -> Option<usize>;

/// `unicode_width::UnicodeWidthChar::width`: the number of columns that a
/// character takes, or nothing for a control character; it is a function of
/// the character.
#[verifier::external_body]
fn char_width(c: char) -> (n: Option<usize>)
    ensures
        n == char_width_of(c),
{
    unicode_width::UnicodeWidthChar::width(c)
}

/// How many columns a character takes by itself; a control character takes none.
pub open spec fn columns_of(c: char) -> nat {
    match char_width_of(c) {
        Some(n) => n as nat,
        None => 0,
    }
}

/// How many columns a character takes by itself; a control character takes none.
pub fn columns(c: char) -> (n: usize)
    ensures
        n == columns_of(c),
{
    match char_width(c) {
        Some(n) => n,
        None => 0,
    }
}

/// How many columns the characters of a text take, each by itself.
pub open spec fn total_columns(s: Seq<char>) -> nat
    decreases s.len(),
{
    if s.len() == 0 {
        0
    } else {
        columns_of(s[0]) + total_columns(s.drop_first())
    }
}

/// How many characters at the start of `s` fit in `room` columns.
pub open spec fn fitting(s: Seq<char>, room: nat) -> nat
    decreases s.len(),
{
    if s.len() > 0 && columns_of(s[0]) <= room {
        1 + fitting(s.drop_first(), (room - columns_of(s[0])) as nat)
    } else {
        0
    }
}

/// The room that is left behind the characters that fit.
pub open spec fn room_behind(s: Seq<char>, room: nat) -> nat
    decreases s.len(),
{
    if s.len() > 0 && columns_of(s[0]) <= room {
        room_behind(s.drop_first(), (room - columns_of(s[0])) as nat)
    } else {
        room
    }
}

/// How many characters at the start of `v` fit in `room` columns, and the room
/// that is left behind them.
pub fn fit(v: &Vec<char>, room: usize) -> (r: (usize, usize))
    ensures
        r.0 == fitting(v@, room as nat),
        r.0 <= v.len(),
        r.1 == room_behind(v@, room as nat),
{
    let mut left: usize = room;
    let mut i: usize = 0;
    assert(v@.skip(0) =~= v@);
    while i < v.len() && columns(v[i]) <= left
        invariant
            i <= v.len(),
            fitting(v@, room as nat) == i + fitting(v@.skip(i as int), left as nat),
            room_behind(v@, room as nat) == room_behind(v@.skip(i as int), left as nat),
        decreases v.len() - i,
    {
        assert(v@.skip(i as int).drop_first() =~= v@.skip(i + 1));
        left = left - columns(v[i]);
        i += 1;
    }
    (i, left)
}

/// How many columns the characters of a text take, each by itself; at most as
/// many as can be counted.
pub fn sum_columns(s: &str) -> (n: usize)
    ensures
        n == capped(total_columns(s@)),
{
    let v = text::chars(s);
    let mut n: usize = 0;
    let mut i: usize = v.len();
    let ghost mut sum: nat = 0;
    assert(v@.skip(i as int) =~= Seq::empty());
    while i > 0
        invariant
            i <= v.len(),
            sum == total_columns(v@.skip(i as int)),
            n == capped(sum),
        decreases i,
    {
        i -= 1;
        assert(v@.skip(i as int).drop_first() =~= v@.skip(i + 1));
        let w: usize = columns(v[i]);
        n = n.saturating_add(w);
        proof {
            sum = sum + columns_of(v@[i as int]);
        }
    }
    assert(v@.skip(0) =~= v@);
    n
}

/// Where a text that is being wrapped has come to: the line, counted from one,
/// and the columns taken on it.
pub struct WrapPos {
    pub line: nat,
    pub col: nat,
}

/// Where it comes to with `w` columns of white space, which can be broken
/// anywhere.
pub open spec fn wrap_space(p: WrapPos, w: nat, width: nat) -> WrapPos {
    if w == 0 {
        p
    } else {
        let last = (p.col + w - 1) as nat;
        WrapPos { line: p.line + last / width, col: last % width + 1 }
    }
}

/// Where it comes to with a word of `w` columns: it stays on the line where it
/// fits, else it starts a new line, and is broken where no line can hold it.
pub open spec fn wrap_word(p: WrapPos, w: nat, width: nat) -> WrapPos {
    if w == 0 || p.col + w <= width {
        WrapPos { line: p.line, col: p.col + w }
    } else {
        let line = if p.col > 0 {
            p.line + 1
        } else {
            p.line
        };
        if w <= width {
            WrapPos { line, col: w }
        } else {
            WrapPos { line: line + w / width, col: w % width }
        }
    }
}

/// How many characters at the start of `s` are white space, or are not.
pub open spec fn class_len(s: Seq<char>, space: bool) -> nat
    decreases s.len(),
{
    if s.len() > 0 && text::is_space(s[0]) == space {
        1 + class_len(s.drop_first(), space)
    } else {
        0
    }
}

/// A run of one kind lies in the text, and is not empty where the text starts with it.
pub proof fn lemma_class_len(s: Seq<char>, space: bool)
    ensures
        class_len(s, space) <= s.len(),
        s.len() > 0 && text::is_space(s[0]) == space ==> class_len(s, space) > 0,
    decreases s.len(),
{
    if s.len() > 0 {
        lemma_class_len(s.drop_first(), space);
    }
}

/// Where it comes to with the text `s`.
pub open spec fn wrap_text(p: WrapPos, s: Seq<char>, width: nat) -> WrapPos
    decreases s.len(),
    via wrap_text_decreases
{
    if s.len() == 0 {
        p
    } else {
        let space = text::is_space(s[0]);
        let n = class_len(s, space) as int;
        let w = width_of(s.take(n));
        let q = if space {
            wrap_space(p, w, width)
        } else {
            wrap_word(p, w, width)
        };
        wrap_text(q, s.skip(n), width)
    }
}

#[via_fn]
proof fn wrap_text_decreases(p: WrapPos, s: Seq<char>, width: nat) {
    lemma_class_len(s, text::is_space(s[0]));
}

/// How many lines a text takes on a terminal of the given width.
pub open spec fn wrapped_lines(s: Seq<char>, width: u16) -> nat {
    let w: nat = if width == 0 {
        1
    } else {
        width as nat
    };
    wrap_text(WrapPos { line: 1, col: 0 }, s, w).line
}

/// The lesser of `n` and the greatest `usize`.
pub open spec fn capped(n: nat) -> nat {
    if n <= usize::MAX {
        n
    } else {
        usize::MAX as nat
    }
}

fn add_capped(a: usize, b: usize) -> (r: usize)
    ensures
        r == capped(a as nat + b as nat),
{
    if a > usize::MAX - b {
        usize::MAX
    } else {
        a + b
    }
}

fn class_of(v: &Vec<char>, from: usize, is_space: bool) -> (to: usize)
    requires
        from <= v.len(),
    ensures
        from <= to <= v.len(),
        to - from == class_len(v@.skip(from as int), is_space),
{
    let mut i: usize = from;
    while i < v.len() && text::space(v[i]) == is_space
        invariant
            from <= i <= v.len(),
            class_len(v@.skip(from as int), is_space) == (i - from) + class_len(
                v@.skip(i as int),
                is_space,
            ),
        decreases v.len() - i,
    {
        assert(v@.skip(i as int).drop_first() =~= v@.skip(i + 1));
        i += 1;
    }
    i
}

proof fn lemma_wrap_space(p: WrapPos, w: nat, width: nat)
    requires
        p.col <= width,
        width > 0,
    ensures
        wrap_space(p, w, width).col <= width,
{
    if w > 0 {
        let last = p.col + w - 1;
        assert(last % (width as int) < width) by (nonlinear_arith)
            requires
                width > 0,
                last >= 0,
        ;
    }
}

/// How many lines a text takes on a terminal of the given width: at most as
/// many as can be counted.
pub fn word_wrap_line_count(s: &str, width: u16) -> (n: usize)
    ensures
        n == capped(wrapped_lines(s@, width)),
{
    let columns: usize = if width == 0 {
        1
    } else {
        width as usize
    };
    let v = text::chars(s);
    let mut line: usize = 1;
    let mut col: usize = 0;
    let ghost mut p = WrapPos { line: 1, col: 0 };
    let mut i: usize = 0;
    assert(v@.skip(0) =~= v@);
    while i < v.len()
        invariant
            i <= v.len(),
            0 < columns <= 0xffff,
            columns == (if width == 0 {
                1nat
            } else {
                width as nat
            }),
            v@ == s@,
            line == capped(p.line),
            col == p.col,
            col <= columns,
            wrap_text(p, v@.skip(i as int), columns as nat).line == wrapped_lines(s@, width),
        decreases v.len() - i,
    {
        let is_space = text::space(v[i]);
        let ghost rest = v@.skip(i as int);
        let to: usize = class_of(&v, i, is_space);
        proof {
            lemma_class_len(rest, is_space);
        }
        let piece = text::string_of(&v, i, to);
        let w: usize = display_width(piece.as_str());
        proof {
            assert(piece@ =~= rest.take(to - i));
            assert(rest.skip(to - i) =~= v@.skip(to as int));
        }
        let ghost q = if is_space {
            wrap_space(p, w as nat, columns as nat)
        } else {
            wrap_word(p, w as nat, columns as nat)
        };
        if w == 0 {
        } else if is_space {
            let last: u128 = col as u128 + w as u128 - 1;
            proof {
                lemma_wrap_space(p, w as nat, columns as nat);
            }
            let lines: u128 = last / columns as u128;
            line = if lines > usize::MAX as u128 {
                usize::MAX
            } else {
                add_capped(line, lines as usize)
            };
            col = (last % columns as u128) as usize + 1;
        } else if col as u128 + w as u128 <= columns as u128 {
            col = col + w;
        } else {
            if col > 0 {
                line = add_capped(line, 1);
            }
            if w <= columns {
                col = w;
            } else {
                line = add_capped(line, w / columns);
                col = w % columns;
            }
        }
        proof {
            p = q;
        }
        i = to;
    }
    line
}

} // verus!
