//! What typing and moving in the editor of a comment does to the text.
use crate::note_buffer;
use crate::note_buffer::BufferView;
use crate::text;
use vstd::prelude::*;

verus! {

/// The text before the cursor.
pub open spec fn before(b: BufferView) -> Seq<char> {
    text::joined(b.lines.take(b.row).push(b.lines[b.row].take(b.col)), seq!['\n'])
}

/// The text behind the cursor.
pub open spec fn behind(b: BufferView) -> Seq<char> {
    text::joined(seq![b.lines[b.row].skip(b.col)] + b.lines.skip(b.row + 1), seq!['\n'])
}

/// Some lines and one more, as a text.
pub open spec fn with_last(lines: Seq<Seq<char>>, last: Seq<char>) -> Seq<char> {
    text::joined(lines.push(last), seq!['\n'])
}

/// One line and some more, as a text.
pub open spec fn with_first(first: Seq<char>, lines: Seq<Seq<char>>) -> Seq<char> {
    text::joined(seq![first] + lines, seq!['\n'])
}

proof fn lemma_with_last(lines: Seq<Seq<char>>, last: Seq<char>)
    ensures
        lines.len() == 0 ==> with_last(lines, last) == last,
        lines.len() > 0 ==> with_last(lines, last) == text::joined(lines, seq!['\n']) + seq!['\n']
            + last,
{
    let all = lines.push(last);
    assert(all.drop_last() =~= lines);
}

proof fn lemma_with_first(first: Seq<char>, lines: Seq<Seq<char>>)
    ensures
        lines.len() == 0 ==> with_first(first, lines) == first,
        lines.len() > 0 ==> with_first(first, lines) == first + seq!['\n'] + text::joined(
            lines,
            seq!['\n'],
        ),
{
    if lines.len() > 0 {
        text::lemma_joined_front(first, lines, seq!['\n']);
    } else {
        assert(seq![first] + lines =~= seq![first]);
    }
}

/// More at the end of the last line is more at the end of the text.
proof fn lemma_last_grows(lines: Seq<Seq<char>>, last: Seq<char>, more: Seq<char>)
    ensures
        with_last(lines, last + more) == with_last(lines, last) + more,
        with_last(lines.push(last), more) == with_last(lines, last) + seq!['\n'] + more,
{
    lemma_with_last(lines, last + more);
    lemma_with_last(lines, last);
    lemma_with_last(lines.push(last), more);
    assert(with_last(lines, last + more) =~= with_last(lines, last) + more);
}

/// More at the start of the first line is more at the start of the text.
proof fn lemma_first_grows(more: Seq<char>, first: Seq<char>, lines: Seq<Seq<char>>)
    ensures
        with_first(more + first, lines) == more + with_first(first, lines),
        with_first(more, seq![first] + lines) == more + seq!['\n'] + with_first(first, lines),
{
    lemma_with_first(more + first, lines);
    lemma_with_first(first, lines);
    lemma_with_first(more, seq![first] + lines);
    assert(with_first(more + first, lines) =~= more + with_first(first, lines));
}

/// Typing puts the letter, or the line feed, where the cursor is, and the cursor behind it.
pub proof fn law_typing_writes_at_the_cursor(b: BufferView, c: char)
    requires
        note_buffer::is_buffer(b),
    ensures
        ({
            let t = note_buffer::typed(b, c);
            let n = note_buffer::broken(b);
            &&& note_buffer::is_buffer(t) && note_buffer::is_buffer(n)
            &&& before(t) == before(b).push(c) && behind(t) == behind(b)
            &&& before(n) == before(b).push('\n') && behind(n) == behind(b)
        }),
{
    let line = b.lines[b.row];
    let upper = b.lines.take(b.row);
    let lower = b.lines.skip(b.row + 1);
    let t = note_buffer::typed(b, c);
    let n = note_buffer::broken(b);
    assert(t.lines.take(t.row) =~= upper);
    assert(t.lines.skip(t.row + 1) =~= lower);
    assert(t.lines[t.row].take(t.col) =~= line.take(b.col) + seq![c]);
    assert(t.lines[t.row].skip(t.col) =~= line.skip(b.col));
    lemma_last_grows(upper, line.take(b.col), seq![c]);
    assert(before(t) =~= before(b).push(c));
    assert(n.lines.take(n.row) =~= upper.push(line.take(b.col)));
    assert(n.lines.skip(n.row + 1) =~= lower);
    assert(n.lines[n.row].take(n.col) =~= seq![]);
    assert(n.lines[n.row].skip(n.col) =~= line.skip(b.col));
    lemma_last_grows(upper, line.take(b.col), seq![]);
    assert(before(n) =~= before(b).push('\n'));
}

/// The cursor parts the text: what stands before it and what stands behind it is the text.
pub proof fn law_cursor_parts_the_text(b: BufferView)
    requires
        note_buffer::is_buffer(b),
    ensures
        before(b) + behind(b) == text::joined(b.lines, seq!['\n']),
        (before(b).len() == 0) == (b.row == 0 && b.col == 0),
{
    let line = b.lines[b.row];
    let upper = b.lines.take(b.row);
    let lower = b.lines.skip(b.row + 1);
    lemma_with_last(upper, line.take(b.col));
    lemma_with_last(upper, line);
    lemma_with_first(line.skip(b.col), lower);
    assert(line =~= line.take(b.col) + line.skip(b.col));
    assert(b.lines =~= upper.push(line) + lower);
    lemma_joined_parts(upper.push(line), lower);
    assert(before(b) + behind(b) =~= text::joined(b.lines, seq!['\n']));
}

proof fn lemma_joined_parts(a: Seq<Seq<char>>, b: Seq<Seq<char>>)
    requires
        a.len() > 0,
    ensures
        b.len() == 0 ==> text::joined(a + b, seq!['\n']) == text::joined(a, seq!['\n']),
        b.len() > 0 ==> text::joined(a + b, seq!['\n']) == text::joined(a, seq!['\n']) + seq!['\n']
            + text::joined(b, seq!['\n']),
    decreases b.len(),
{
    if b.len() == 0 {
        assert(a + b =~= a);
    } else {
        let front = b.drop_last();
        lemma_joined_parts(a, front);
        assert((a + b).drop_last() =~= a + front);
        assert((a + b).last() == b.last());
        if front.len() == 0 {
            assert(b =~= seq![b.last()]);
        }
        assert(text::joined(a + b, seq!['\n']) =~= text::joined(a, seq!['\n']) + seq!['\n']
            + text::joined(b, seq!['\n']));
    }
}

/// Erasing takes away what stands right before the cursor, be it a letter or a line feed.
pub proof fn law_erasing_takes_what_stands_before(b: BufferView)
    requires
        note_buffer::is_buffer(b),
    ensures
        ({
            let e = note_buffer::erased(b);
            &&& note_buffer::is_buffer(e)
            &&& note_buffer::can_erase(b) == (before(b).len() > 0)
            &&& note_buffer::can_erase(b) ==> before(e) == before(b).drop_last() && behind(e)
                == behind(b)
            &&& !note_buffer::can_erase(b) ==> e == b
        }),
{
    law_cursor_parts_the_text(b);
    let line = b.lines[b.row];
    let upper = b.lines.take(b.row);
    let lower = b.lines.skip(b.row + 1);
    let e = note_buffer::erased(b);
    if b.col > 0 {
        let kept = line.take(b.col - 1);
        assert(e.lines.take(e.row) =~= upper);
        assert(e.lines.skip(e.row + 1) =~= lower);
        assert(e.lines[e.row].take(e.col) =~= kept);
        assert(e.lines[e.row].skip(e.col) =~= line.skip(b.col));
        assert(line.take(b.col) =~= kept + seq![line[b.col - 1]]);
        lemma_last_grows(upper, kept, seq![line[b.col - 1]]);
        assert(before(e) =~= before(b).drop_last());
    } else if b.row > 0 {
        let above = b.lines[b.row - 1];
        let higher = b.lines.take(b.row - 1);
        assert(e.lines.take(e.row) =~= higher);
        assert(e.lines.skip(e.row + 1) =~= lower);
        assert(e.lines[e.row].take(e.col) =~= above);
        assert(e.lines[e.row].skip(e.col) =~= line.skip(b.col));
        assert(upper =~= higher.push(above));
        assert(line.take(0) =~= seq![]);
        lemma_last_grows(higher, above, seq![]);
        assert(before(e) =~= before(b).drop_last());
    }
}

/// The cursor moves by one letter, or over one line feed, to the left, as far as there is
/// any text.
pub proof fn law_cursor_moves_left_by_one(b: BufferView)
    requires
        note_buffer::is_buffer(b),
    ensures
        ({
            let l = note_buffer::moved_left(b);
            &&& before(b).len() == 0 ==> l == b
            &&& before(b).len() > 0 ==> before(l) == before(b).drop_last() && behind(l) == seq![
                before(b).last(),
            ] + behind(b)
        }),
{
    law_cursor_parts_the_text(b);
    let line = b.lines[b.row];
    let upper = b.lines.take(b.row);
    let lower = b.lines.skip(b.row + 1);
    let l = note_buffer::moved_left(b);
    if b.col > 0 {
        let kept = line.take(b.col - 1);
        let c = line[b.col - 1];
        assert(line.take(b.col) =~= kept + seq![c]);
        lemma_last_grows(upper, kept, seq![c]);
        assert(before(l) =~= before(b).drop_last());
        assert(line.skip(b.col - 1) =~= seq![c] + line.skip(b.col));
        lemma_first_grows(seq![c], line.skip(b.col), lower);
    } else if b.row > 0 {
        let above = b.lines[b.row - 1];
        let higher = b.lines.take(b.row - 1);
        assert(upper =~= higher.push(above));
        assert(line.take(0) =~= seq![]);
        assert(line.skip(0) =~= line);
        assert(above.take(above.len() as int) =~= above);
        assert(above.skip(above.len() as int) =~= seq![]);
        lemma_last_grows(higher, above, seq![]);
        assert(before(l) =~= before(b).drop_last());
        assert(b.lines.skip(b.row) =~= seq![line] + lower);
        lemma_first_grows(seq![], line, lower);
        assert(behind(l) =~= seq!['\n'] + behind(b));
    }
}

/// The cursor moves by one letter, or over one line feed, to the right, as far as there is
/// any text.
pub proof fn law_cursor_moves_right_by_one(b: BufferView)
    requires
        note_buffer::is_buffer(b),
    ensures
        ({
            let r = note_buffer::moved_right(b);
            &&& behind(b).len() == 0 ==> r == b
            &&& behind(b).len() > 0 ==> before(r) == before(b).push(behind(b)[0]) && behind(r)
                == behind(b).drop_first()
        }),
{
    let line = b.lines[b.row];
    let lower = b.lines.skip(b.row + 1);
    let r = note_buffer::moved_right(b);
    lemma_with_first(line.skip(b.col), lower);
    if b.col < line.len() || lower.len() > 0 {
        note_buffer::law_right_and_left(b);
        note_buffer::law_moves_keep_the_text(b);
        law_cursor_parts_the_text(r);
        law_cursor_moves_left_by_one(r);
        assert(before(r) =~= before(b).push(behind(b)[0]));
        assert(behind(r) =~= behind(b).drop_first());
    }
}

/// The cursor moves by one line up or down, as far as there are lines, and stays in its
/// column where the line is long enough and at the end of the line elsewhere.
pub proof fn law_cursor_moves_by_one_line(b: BufferView)
    requires
        note_buffer::is_buffer(b),
    ensures
        ({
            let u = note_buffer::moved_up(b);
            let d = note_buffer::moved_down(b);
            &&& b.row > 0 ==> u.row == b.row - 1
            &&& b.row == 0 ==> u == b
            &&& b.row + 1 < b.lines.len() ==> d.row == b.row + 1
            &&& b.row + 1 == b.lines.len() ==> d == b
            &&& b.row > 0 ==> u.col <= b.col && u.col <= b.lines[u.row].len() && (u.col == b.col
                || u.col == b.lines[u.row].len())
            &&& b.row + 1 < b.lines.len() ==> d.col <= b.col && d.col <= b.lines[d.row].len() && (
            d.col == b.col || d.col == b.lines[d.row].len())
        }),
{
}

/// A text is edited without the line ends that it ends with, and with everything before
/// them.
pub proof fn law_only_line_ends_are_dropped(s: Seq<char>)
    ensures
        ({
            let t = note_buffer::without_line_ends(s);
            &&& t.len() <= s.len()
            &&& t == s.take(t.len() as int)
            &&& forall|i: int| t.len() <= i < s.len() ==> #[trigger] s[i] == '\r' || s[i] == '\n'
            &&& t.len() > 0 ==> t.last() != '\r' && t.last() != '\n'
        }),
    decreases s.len(),
{
    if s.len() > 0 && (s.last() == '\r' || s.last() == '\n') {
        let front = s.drop_last();
        law_only_line_ends_are_dropped(front);
        let t = note_buffer::without_line_ends(s);
        assert(t =~= s.take(t.len() as int));
        assert forall|i: int| t.len() <= i < s.len() implies #[trigger] s[i] == '\r' || s[i]
            == '\n' by {
            if i < front.len() {
                assert(front[i] == s[i]);
            }
        }
    } else {
        assert(s.take(s.len() as int) =~= s);
    }
}

} // verus!
