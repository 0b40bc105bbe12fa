//! Where the rows of the diff pane stand on the screen.
use crate::diff::{Kind, LineStatus};
use crate::rows;
use crate::rows::{RenderRow, RowView};
use crate::style;
use crate::text;
use crate::width;
use vstd::prelude::*;

verus! {

/// The greatest old line number of some rows, or 0.
pub open spec fn max_old(r: Seq<RowView>) -> u32
    decreases r.len(),
{
    if r.len() == 0 {
        0
    } else {
        greater(max_old(r.drop_last()), old_line_of(r.last()))
    }
}

/// The greatest new line number of some rows, or 0.
pub open spec fn max_new(r: Seq<RowView>) -> u32
    decreases r.len(),
{
    if r.len() == 0 {
        0
    } else {
        greater(max_new(r.drop_last()), new_line_of(r.last()))
    }
}

/// The greater of a number and one that may be missing.
pub open spec fn greater(n: u32, o: Option<u32>) -> u32 {
    match o {
        Some(m) => if m > n {
            m
        } else {
            n
        },
        None => n,
    }
}

/// The old line number of a row with a gutter.
pub open spec fn old_line_of(r: RowView) -> Option<u32> {
    match r {
        RowView::Unified { old_line, .. } => old_line,
        RowView::SideBySide { old_line, .. } => old_line,
        _ => None,
    }
}

/// The new line number of a row with a gutter.
pub open spec fn new_line_of(r: RowView) -> Option<u32> {
    match r {
        RowView::Unified { new_line, .. } => new_line,
        RowView::SideBySide { new_line, .. } => new_line,
        _ => None,
    }
}

/// How many columns the line numbers up to `n` take, at least four.
pub open spec fn gutter(n: u32) -> nat {
    let w = text::decimal(n as nat).len();
    if w > 4 {
        w
    } else {
        4
    }
}

/// `s`, behind as many spaces as it takes to make it `w` characters long.
pub open spec fn right_aligned(s: Seq<char>, w: nat) -> Seq<char> {
    if s.len() < w {
        text::repeated(' ', (w - s.len()) as nat) + s
    } else {
        s
    }
}

/// A line number in a gutter of `w` columns.
pub open spec fn gutter_number(n: Option<u32>, w: nat) -> Seq<char> {
    match n {
        Some(n) => right_aligned(text::decimal(n as nat), w),
        None => text::repeated(' ', w),
    }
}

/// What stands in front of a line in the unified view.
pub open spec fn unified_sign(kind: Kind) -> char {
    match kind {
        Kind::Add => '+',
        Kind::Remove => '-',
        _ => ' ',
    }
}

/// What stands in front of a line in the view of the whole file.
pub open spec fn status_sign(status: LineStatus) -> char {
    match status {
        LineStatus::Unchanged => ' ',
        LineStatus::Added => '+',
        LineStatus::Removed => '-',
        LineStatus::Modified => '~',
    }
}

/// The text of a hunk header as it is shown: set off, and filled up with
/// spaces to the width of the pane.
pub open spec fn section_text(t: Seq<char>, pane: u16) -> Seq<char> {
    let s = "┄┄ "@ + t + " ┄┄"@;
    let w = width::width_of(s);
    if w < pane {
        s + text::repeated(' ', (pane - w) as nat)
    } else {
        s
    }
}

/// The text of a row as it is wrapped: two columns for a marker, the line
/// numbers, and the code.
pub open spec fn row_text(r: RowView, pane: u16, old_w: nat, new_w: nat) -> Seq<char> {
    match r {
        RowView::FileHeader { path } => "    "@ + text::repeated(' ', old_w) + seq![' ']
            + text::repeated(' ', new_w) + " │ "@ + path,
        RowView::Section { text } => section_text(text, pane),
        RowView::SideBySide { .. } => seq![],
        RowView::Decorated { status, line_number, spans, .. } => "  "@ + gutter_number(
            if line_number > 0 {
                Some(line_number)
            } else {
                None
            },
            new_w,
        ) + seq![' ', status_sign(status)] + " │ "@ + style::plain_text(spans),
        RowView::Unified { kind, old_line, new_line, spans } => "  "@ + seq![
            unified_sign(kind),
            ' ',
        ] + gutter_number(old_line, old_w) + seq![' '] + gutter_number(new_line, new_w) + " │ "@
            + style::plain_text(spans),
    }
}

/// How many lines of the screen a row takes: one in the side-by-side view,
/// else as many as its text, but no more than fit in 16 bits.
pub open spec fn row_height(r: RowView, pane: u16, old_w: nat, new_w: nat) -> u16 {
    if r is SideBySide {
        1
    } else {
        let h = width::wrapped_lines(row_text(r, pane, old_w, new_w), pane);
        if h == 0 {
            1
        } else if h > u16::MAX {
            u16::MAX
        } else {
            h as u16
        }
    }
}

/// The sum of two numbers, or the greatest number where it is greater.
pub open spec fn sum_capped(a: u32, b: u16) -> u32 {
    if a + b > u32::MAX {
        u32::MAX
    } else {
        (a + b) as u32
    }
}

/// How many lines of the screen the rows of the given heights take.
pub open spec fn total_height(h: Seq<u16>) -> u32
    decreases h.len(),
{
    if h.len() == 0 {
        0
    } else {
        sum_capped(total_height(h.drop_last()), h.last())
    }
}

/// Where the rows of the diff pane stand on the screen.
#[derive(Debug)]
pub struct DiffMetrics {
    pub offsets: Vec<u32>,
    pub heights: Vec<u16>,
    pub total: u32,
}

/// Whether each row stands below those before it, and the total is that of all rows.
pub open spec fn are_stacked(offsets: Seq<u32>, heights: Seq<u16>, total: u32) -> bool {
    &&& offsets.len() == heights.len()
    &&& forall|i: int|
        0 <= i < offsets.len() ==> #[trigger] offsets[i] == total_height(heights.take(i))
    &&& total == total_height(heights)
}

/// The heights of some rows in a pane of the given width.
pub open spec fn heights_of(r: Seq<RowView>, pane: u16) -> Seq<u16> {
    let old_w = gutter(max_old(r));
    let new_w = gutter(max_new(r));
    r.map_values(|x: RowView| row_height(x, pane, old_w, new_w))
}

/// Writes `n` times the character `c`.
pub fn push_repeated(out: &mut String, c: char, n: usize)
    ensures
        final(out)@ == old(out)@ + text::repeated(c, n as nat),
{
    let ghost start = out@;
    let mut i: usize = 0;
    assert(start + text::repeated(c, 0) =~= start);
    while i < n
        invariant
            i <= n,
            out@ =~= start + text::repeated(c, i as nat),
        decreases n - i,
    {
        out.push(c);
        i += 1;
    }
}

/// Writes a line number in a gutter of `w` columns.
pub fn push_gutter(out: &mut String, n: Option<u32>, w: usize)
    ensures
        final(out)@ == old(out)@ + gutter_number(n, w as nat),
{
    match n {
        Some(n) => {
            let digits = text::decimal_string(n as u64);
            let v = text::chars(digits.as_str());
            let ghost start = out@;
            if v.len() < w {
                push_repeated(out, ' ', w - v.len());
            }
            out.append(digits.as_str());
            assert(out@ =~= start + right_aligned(digits@, w as nat));
        },
        None => {
            push_repeated(out, ' ', w);
        },
    }
}

proof fn lemma_decimal_short(n: nat)
    requires
        n <= u32::MAX,
    ensures
        text::decimal(n).len() <= 10,
{
    reveal_with_fuel(text::decimal, 11);
}

/// How many columns the line numbers up to `n` take, at least four.
pub fn gutter_width(n: u32) -> (w: usize)
    ensures
        w == gutter(n),
        4 <= w <= 10,
{
    proof {
        lemma_decimal_short(n as nat);
    }
    let digits = text::decimal_string(n as u64);
    let v = text::chars(digits.as_str());
    if v.len() > 4 {
        v.len()
    } else {
        4
    }
}

/// The line numbers of a row with a gutter.
fn lines_of(r: &RenderRow) -> (n: (Option<u32>, Option<u32>))
    ensures
        n.0 == old_line_of(r@),
        n.1 == new_line_of(r@),
{
    match r {
        RenderRow::Unified(r) => (r.old_line, r.new_line),
        RenderRow::SideBySide(r) => (r.old_line, r.new_line),
        _ => (None, None),
    }
}

fn greater_of(n: u32, o: Option<u32>) -> (r: u32)
    ensures
        r == greater(n, o),
{
    match o {
        Some(m) => if m > n {
            m
        } else {
            n
        },
        None => n,
    }
}

/// How many columns the old and the new line numbers of some rows take.
pub fn gutter_widths(all: &Vec<RenderRow>) -> (w: (usize, usize))
    ensures
        w.0 == gutter(max_old(rows::row_views(all@))),
        w.1 == gutter(max_new(rows::row_views(all@))),
        4 <= w.0 <= 10,
        4 <= w.1 <= 10,
{
    let ghost v = rows::row_views(all@);
    let mut old_max: u32 = 0;
    let mut new_max: u32 = 0;
    let mut i: usize = 0;
    assert(v.take(0) =~= Seq::empty());
    while i < all.len()
        invariant
            i <= all.len(),
            v == rows::row_views(all@),
            old_max == max_old(v.take(i as int)),
            new_max == max_new(v.take(i as int)),
        decreases all.len() - i,
    {
        assert(v.take(i + 1).drop_last() =~= v.take(i as int));
        assert(v.take(i + 1).last() == all@[i as int]@);
        let (o, n) = lines_of(&all[i]);
        old_max = greater_of(old_max, o);
        new_max = greater_of(new_max, n);
        i += 1;
    }
    assert(v.take(i as int) =~= v);
    (gutter_width(old_max), gutter_width(new_max))
}

/// The text of a hunk header as it is shown.
pub fn section_line(t: &str, pane: u16) -> (out: String)
    ensures
        out@ == section_text(t@, pane),
{
    let mut out = String::new();
    out.append("┄┄ ");
    out.append(t);
    out.append(" ┄┄");
    assert(out@ =~= "┄┄ "@ + t@ + " ┄┄"@);
    let w: usize = width::display_width(out.as_str());
    if w < pane as usize {
        push_repeated(&mut out, ' ', pane as usize - w);
    }
    out
}

/// The text of a row as it is wrapped.
fn row_line(r: &RenderRow, pane: u16, old_w: usize, new_w: usize) -> (out: String)
    ensures
        out@ == row_text(r@, pane, old_w as nat, new_w as nat),
{
    let mut out = String::new();
    match r {
        RenderRow::FileHeader { path } => {
            out.append("    ");
            push_repeated(&mut out, ' ', old_w);
            out.push(' ');
            push_repeated(&mut out, ' ', new_w);
            out.append(" │ ");
            out.append(path.as_str());
        },
        RenderRow::Section { text } => {
            return section_line(text.as_str(), pane);
        },
        RenderRow::SideBySide(_) => {},
        RenderRow::Decorated(d) => {
            out.append("  ");
            push_gutter(
                &mut out,
                if d.line_number > 0 {
                    Some(d.line_number)
                } else {
                    None
                },
                new_w,
            );
            out.push(' ');
            out.push(sign_of_status(d.status));
            out.append(" │ ");
            let code = style::text_of(&d.spans);
            out.append(code.as_str());
        },
        RenderRow::Unified(u) => {
            out.append("  ");
            out.push(sign_of_kind(u.kind));
            out.push(' ');
            push_gutter(&mut out, u.old_line, old_w);
            out.push(' ');
            push_gutter(&mut out, u.new_line, new_w);
            out.append(" │ ");
            let code = style::text_of(&u.spans);
            out.append(code.as_str());
        },
    }
    assert(out@ =~= row_text(r@, pane, old_w as nat, new_w as nat));
    out
}

/// What stands in front of a line in the unified view.
pub fn sign_of_kind(kind: Kind) -> (c: char)
    ensures
        c == unified_sign(kind),
{
    match kind {
        Kind::Add => '+',
        Kind::Remove => '-',
        _ => ' ',
    }
}

/// What stands in front of a line in the view of the whole file.
pub fn sign_of_status(status: LineStatus) -> (c: char)
    ensures
        c == status_sign(status),
{
    match status {
        LineStatus::Unchanged => ' ',
        LineStatus::Added => '+',
        LineStatus::Removed => '-',
        LineStatus::Modified => '~',
    }
}

fn height_of(r: &RenderRow, pane: u16, old_w: usize, new_w: usize) -> (h: u16)
    ensures
        h == row_height(r@, pane, old_w as nat, new_w as nat),
{
    match r {
        RenderRow::SideBySide(_) => 1,
        _ => {
            let line = row_line(r, pane, old_w, new_w);
            let h: usize = width::word_wrap_line_count(line.as_str(), pane);
            if h == 0 {
                1
            } else if h > 0xffff {
                0xffff
            } else {
                h as u16
            }
        },
    }
}

/// Where the given rows stand in a pane of the given width; a pane without any
/// width counts as one column wide.
pub fn recompute_diff_metrics(all: &Vec<RenderRow>, inner_width: u16) -> (m: DiffMetrics)
    ensures
        m.heights@ == heights_of(
            rows::row_views(all@),
            if inner_width == 0 {
                1
            } else {
                inner_width
            },
        ),
        are_stacked(m.offsets@, m.heights@, m.total),
{
    let pane: u16 = if inner_width == 0 {
        1
    } else {
        inner_width
    };
    let ghost v = rows::row_views(all@);
    let ghost want = heights_of(v, pane);
    let (old_w, new_w) = gutter_widths(all);
    let mut offsets: Vec<u32> = Vec::new();
    let mut heights: Vec<u16> = Vec::new();
    let mut offset: u32 = 0;
    let mut i: usize = 0;
    while i < all.len()
        invariant
            i <= all.len() == v.len(),
            v == rows::row_views(all@),
            want == heights_of(v, pane),
            old_w == gutter(max_old(v)),
            new_w == gutter(max_new(v)),
            heights@ =~= want.take(i as int),
            offsets@.len() == i,
            offset == total_height(heights@),
            forall|j: int|
                0 <= j < i ==> #[trigger] offsets@[j] == total_height(heights@.take(j)),
        decreases all.len() - i,
    {
        assert(v[i as int] == all@[i as int]@);
        let h: u16 = height_of(&all[i], pane, old_w, new_w);
        assert(h == want[i as int]);
        let ghost before = heights@;
        offsets.push(offset);
        heights.push(h);
        proof {
            assert(heights@.drop_last() =~= before);
            assert(heights@.take(i as int) =~= before);
            assert forall|j: int| 0 <= j < i implies #[trigger] offsets@[j] == total_height(
                heights@.take(j),
            ) by {
                assert(heights@.take(j) =~= before.take(j));
            }
        }
        offset = offset.saturating_add(h as u32);
        i += 1;
    }
    assert(want.take(i as int) =~= want);
    DiffMetrics { offsets, heights, total: offset }
}

/// Rows further down never stand higher up.
pub proof fn lemma_total_grows(h: Seq<u16>, i: int, j: int)
    requires
        0 <= i <= j <= h.len(),
    ensures
        total_height(h.take(i)) <= total_height(h.take(j)),
    decreases j,
{
    if i < j {
        lemma_total_grows(h, i, j - 1);
        assert(h.take(j).drop_last() =~= h.take(j - 1));
    }
}

/// The row that a line of the pane belongs to; the last row where the line is
/// below all rows.
pub fn diff_row_at_visual_line(m: &DiffMetrics, visual: u32) -> (row: usize)
    requires
        are_stacked(m.offsets@, m.heights@, m.total),
    ensures
        m.offsets@.len() == 0 ==> row == 0,
        m.offsets@.len() > 0 ==> row < m.offsets@.len(),
        visual >= m.total && m.offsets@.len() > 0 ==> row == m.offsets@.len() - 1,
        visual < m.total ==> {
            &&& m.offsets@[row as int] <= visual
            &&& forall|j: int| row < j < m.offsets@.len() ==> visual < #[trigger] m.offsets@[j]
            &&& visual < m.offsets@[row as int] + m.heights@[row as int]
        },
{
    let n: usize = m.offsets.len();
    if n == 0 {
        return 0;
    }
    if visual >= m.total {
        return n - 1;
    }
    let ghost h = m.heights@;
    assert(h.take(0) =~= Seq::empty());
    assert(m.offsets@[0] == 0);
    let mut lo: usize = 0;
    let mut hi: usize = n;
    while hi - lo > 1
        invariant
            lo < hi <= n == m.offsets@.len(),
            are_stacked(m.offsets@, m.heights@, m.total),
            h == m.heights@,
            m.offsets@[lo as int] <= visual,
            forall|j: int| hi <= j < n ==> visual < #[trigger] m.offsets@[j],
        decreases hi - lo,
    {
        let mid: usize = lo + (hi - lo) / 2;
        if m.offsets[mid] <= visual {
            lo = mid;
        } else {
            assert forall|j: int| mid <= j < n implies visual < #[trigger] m.offsets@[j] by {
                lemma_total_grows(h, mid as int, j);
            }
            hi = mid;
        }
    }
    proof {
        assert(h.take(lo + 1).drop_last() =~= h.take(lo as int));
        if hi < n {
            assert(visual < m.offsets@[hi as int]);
        } else {
            assert(h.take(n as int) =~= h);
        }
    }
    lo
}

} // verus!
