//! What the titles, the gutters, the columns and the pop-ups of the screen show.
use crate::diff::{Kind, LineStatus};
use crate::git::ViewKind;
use crate::hash;
use crate::keys::Area;
use crate::metrics;
use crate::panes;
use crate::review::{CommentState, ReviewView};
use crate::rows::RowView;
use crate::screen;
use crate::session::{CommentLocator, DiffViewMode, FileEntryView, Mode};
use crate::style;
use crate::style::{Color, SpanView};
use crate::text;
use crate::text_rules;
use crate::ui;
use crate::width;
use vstd::prelude::*;

verus! {

proof fn lemma_between(a: Seq<char>, t: Seq<char>, b: Seq<char>)
    ensures
        text::occurs(a + t + b, t),
{
    assert((a + t + b).subrange(a.len() as int, (a.len() + t.len()) as int) =~= t);
    assert(text::occurs_at(a + t + b, t, a.len() as int));
}

/// Each kind of line has a sign of its own in the gutter.
pub proof fn law_sign_tells_the_kind(kind: Kind, status: LineStatus, other: LineStatus)
    ensures
        (metrics::unified_sign(kind) == '+') == (kind is Add),
        (metrics::unified_sign(kind) == '-') == (kind is Remove),
        (metrics::status_sign(status) == metrics::status_sign(other)) == (status == other),
        (metrics::status_sign(status) == '+') == (status is Added),
        (metrics::status_sign(status) == '-') == (status is Removed),
        (metrics::status_sign(status) == ' ') == (status is Unchanged),
{
}

/// A number in the gutter fills its columns, stands at their right and reads back; a line
/// without one leaves them blank.
pub proof fn law_number_stands_at_the_right(n: u32, w: nat)
    requires
        text::decimal(n as nat).len() <= w,
    ensures
        ({
            let d = text::decimal(n as nat);
            let g = metrics::gutter_number(Some(n), w);
            &&& g.len() == w
            &&& d.is_suffix_of(g)
            &&& text::is_blank(g.take(w - d.len()))
            &&& text::number_of(d) == n
            &&& metrics::gutter_number(None, w).len() == w
            &&& text::is_blank(metrics::gutter_number(None, w))
        }),
{
    let d = text::decimal(n as nat);
    let g = metrics::gutter_number(Some(n), w);
    text::lemma_decimal_parses(n as nat);
    assert(g.subrange(g.len() - d.len(), g.len() as int) =~= d);
}

/// A row takes a line at least and, side by side, just one; a row that fits into the pane
/// takes one too, and one that does not has room on the lines that it takes.
pub proof fn law_row_has_room(r: RowView, pane: u16, old_w: nat, new_w: nat)
    requires
        pane > 0,
    ensures
        ({
            let h = metrics::row_height(r, pane, old_w, new_w);
            let columns = text_rules::run_columns(metrics::row_text(r, pane, old_w, new_w));
            &&& h >= 1
            &&& r is SideBySide ==> h == 1
            &&& columns <= pane ==> h == 1
            &&& !(r is SideBySide) && h < u16::MAX ==> columns <= h * pane
        }),
{
    let s = metrics::row_text(r, pane, old_w, new_w);
    text_rules::law_wrapped_text_has_room(s, pane);
    let lines = width::wrapped_lines(s, pane);
    let h = metrics::row_height(r, pane, old_w, new_w);
    if !(r is SideBySide) && h < u16::MAX {
        assert(lines == h);
    }
}

/// Each row has its height.
pub proof fn law_each_row_has_its_height(r: Seq<RowView>, pane: u16, i: int)
    requires
        0 <= i < r.len(),
    ensures
        metrics::heights_of(r, pane).len() == r.len(),
        metrics::heights_of(r, pane)[i] >= 1,
        metrics::heights_of(r, pane)[i] == metrics::row_height(
            r[i],
            pane,
            metrics::gutter(metrics::max_old(r)),
            metrics::gutter(metrics::max_new(r)),
        ),
{
    let old_w = metrics::gutter(metrics::max_old(r));
    let new_w = metrics::gutter(metrics::max_new(r));
    if !(r[i] is SideBySide) && pane > 0 {
        law_row_has_room(r[i], pane, old_w, new_w);
    }
}

/// The columns that some pieces take.
pub open spec fn columns_in(v: Seq<SpanView>) -> nat
    decreases v.len(),
{
    if v.len() == 0 {
        0
    } else {
        width::total_columns(v[0].content) + columns_in(v.drop_first())
    }
}

/// Pieces that are cut to a room take, with what is left, just the room.
pub proof fn law_cut_pieces_fill_the_room(v: Seq<SpanView>, room: nat)
    ensures
        columns_in(ui::cut(v, room)) + ui::cut_room(v, room) == room,
        columns_in(v) < room ==> ui::cut_room(v, room) == room - columns_in(v),
        columns_in(v) < room ==> style::plain_text(ui::cut(v, room)) == style::plain_text(v),
    decreases v.len(),
{
    if v.len() == 0 {
        assert(ui::cut(v, room) =~= v);
    } else if room == 0 {
    } else {
        let s = v[0].content;
        let n = width::fitting(s, room) as int;
        let behind = width::room_behind(s, room);
        let rest = v.drop_first();
        text_rules::law_as_much_is_taken_as_fits(s, room);
        law_cut_pieces_fill_the_room(rest, behind);
        let first = SpanView { content: s.take(n), ..v[0] };
        let later = ui::cut(rest, behind);
        let all = ui::cut(v, room);
        if n > 0 {
            assert(all =~= seq![first] + later);
            assert(all[0] == first);
            assert(all.drop_first() =~= later);
        } else {
            assert(s.take(0).len() == 0);
        }
        if columns_in(v) < room {
            if n < s.len() {
                lemma_columns_of_a_part(s, n + 1);
            }
            assert(n == s.len());
            assert(s.take(n) =~= s);
            assert(first == v[0]);
            lemma_text_of_first(v);
            if n > 0 {
                lemma_text_of_first(all);
            } else {
                assert(style::plain_text(v) =~= style::plain_text(rest));
            }
        }
    }
}

proof fn lemma_columns_of_a_part(s: Seq<char>, n: int)
    requires
        0 <= n <= s.len(),
    ensures
        width::total_columns(s.take(n)) <= width::total_columns(s),
    decreases s.len(),
{
    if n > 0 {
        lemma_columns_of_a_part(s.drop_first(), n - 1);
        assert(s.take(n).drop_first() =~= s.drop_first().take(n - 1));
    }
}

proof fn lemma_text_of_first(v: Seq<SpanView>)
    requires
        v.len() > 0,
    ensures
        style::plain_text(v) == v[0].content + style::plain_text(v.drop_first()),
{
    let one = seq![v[0]];
    assert(v =~= one + v.drop_first());
    style::lemma_plain_text_add(one, v.drop_first());
    assert(one.drop_last() =~= seq![]);
    assert(style::plain_text(one.drop_last()) =~= seq![]);
    assert(style::plain_text(one) =~= v[0].content);
}

/// One side of a row shows the code of that side, as much of it as there is room for, and
/// is filled up with as many blanks as there is room left.
pub proof fn law_side_is_filled_up(v: Seq<SpanView>, bg: Option<Color>, room: nat)
    ensures
        ({
            let code = match bg {
                Some(c) => ui::tinted(v, c),
                None => v,
            };
            let left = ui::cut_room(code, room);
            &&& style::plain_text(ui::side_view(v, bg, room)) == style::plain_text(
                ui::cut(code, room),
            ) + text::repeated(' ', left)
            &&& columns_in(v) < room ==> style::plain_text(ui::side_view(v, bg, room))
                == style::plain_text(v) + text::repeated(' ', (room - columns_in(v)) as nat)
        }),
{
    let code = match bg {
        Some(c) => ui::tinted(v, c),
        None => v,
    };
    let left = ui::cut_room(code, room);
    let side = ui::side_view(v, bg, room);
    let cut = ui::cut(code, room);
    if left > 0 {
        assert(side.drop_last() =~= cut);
    } else {
        assert(text::repeated(' ', left) =~= seq![]);
        assert(style::plain_text(cut) + text::repeated(' ', left) =~= style::plain_text(cut));
    }
    law_cut_pieces_fill_the_room(code, room);
    if bg is Some {
        lemma_tinted(v, bg->0);
    }
}

proof fn lemma_tinted(v: Seq<SpanView>, c: Color)
    ensures
        columns_in(ui::tinted(v, c)) == columns_in(v),
        style::plain_text(ui::tinted(v, c)) == style::plain_text(v),
    decreases v.len(),
{
    let t = ui::tinted(v, c);
    if v.len() > 0 {
        let rest = v.drop_first();
        lemma_tinted(rest, c);
        assert(t.drop_first() =~= ui::tinted(rest, c));
        assert(t[0].content == v[0].content);
        lemma_text_of_first(v);
        lemma_text_of_first(t);
    } else {
        assert(t =~= v);
    }
}

/// A file with an open comment stands out, one whose comments are resolved or that is
/// reviewed steps back, and the colour stays that of its change.
pub proof fn law_file_stands_out_while_a_comment_is_open(
    e: FileEntryView,
    state: CommentState,
    reviewed: bool,
)
    ensures
        ({
            let s = screen::file_style(e, state, reviewed);
            let bare = screen::file_style(e, CommentState::Empty, false);
            &&& state is HasUnresolved ==> s.bold && s.underlined
            &&& !(state is HasUnresolved) ==> s.bold == bare.bold && s.underlined == bare.underlined
            &&& !bare.underlined && !bare.dim
            &&& s.dim == (state is ResolvedOnly || reviewed)
            &&& s.fg == bare.fg && s.bg == bare.bg
        }),
{
}

/// The title of the diff names the file that is shown, and tells the three states of its
/// comments apart.
pub proof fn law_title_names_the_file(mode: Mode, path: Seq<char>, m: ReviewView, other: ReviewView)
    requires
        !(mode is EditComment),
    ensures
        text::occurs(screen::diff_title_text(mode, Some(path), m), path),
        (screen::diff_title_text(mode, Some(path), m) == screen::diff_title_text(
            mode,
            Some(path),
            other,
        )) == (screen::state_of(m, path) == screen::state_of(other, path)),
{
    reveal_strlit(" 💬");
    reveal_strlit(" ✓");
    let head = "Diff — "@ + path;
    let tail = |r: ReviewView|
        match screen::state_of(r, path) {
            CommentState::HasUnresolved => " 💬"@,
            CommentState::ResolvedOnly => " ✓"@,
            CommentState::Empty => seq![],
        };
    lemma_between("Diff — "@, path, tail(m));
    let a = screen::diff_title_text(mode, Some(path), m);
    let b = screen::diff_title_text(mode, Some(path), other);
    assert(a.skip(head.len() as int) =~= tail(m));
    assert(b.skip(head.len() as int) =~= tail(other));
    assert(" 💬"@[1] != " ✓"@[1]);
}

/// The footer tells the view, how the diff is shown and how many lines stand around a
/// change, and keeps to its width; a message is shown wherever it fits behind that.
pub proof fn law_footer_keeps_to_its_width(
    view: ViewKind,
    base: Option<Seq<char>>,
    diff: DiffViewMode,
    context: u32,
    status: Seq<char>,
    columns: int,
)
    requires
        columns >= 0,
    ensures
        ({
            let left = screen::footer_left(Mode::Browse, view, base, diff, context);
            let line = screen::footer_line(left, status, columns);
            &&& text::occurs(left, screen::view_label_text(view, base))
            &&& text::occurs(left, panes::mode_name(diff))
            &&& text::decimal(context as nat).is_suffix_of(left)
            &&& line.len() <= columns
            &&& left.len() <= columns ==> left.is_prefix_of(line)
            &&& status.len() > 0 && left.len() + "  |  "@.len() + status.len() <= columns
                ==> status.is_suffix_of(line)
        }),
{
    let left = screen::footer_left(Mode::Browse, view, base, diff, context);
    let line = screen::footer_line(left, status, columns);
    let label = screen::view_label_text(view, base);
    let name = panes::mode_name(diff);
    let number = text::decimal(context as nat);
    screen::law_shortened_fits(left, columns);
    lemma_between("view="@, label, " diff="@ + name + " ctx="@ + number);
    assert("view="@ + label + (" diff="@ + name + " ctx="@ + number) =~= left);
    lemma_between("view="@ + label + " diff="@, name, " ctx="@ + number);
    assert("view="@ + label + " diff="@ + name + (" ctx="@ + number) =~= left);
    assert(left.subrange(left.len() - number.len(), left.len() as int) =~= number);
    if left.len() <= columns {
        assert(line.subrange(0, left.len() as int) =~= left);
    }
    if status.len() > 0 && left.len() + "  |  "@.len() + status.len() <= columns {
        assert(line.subrange(line.len() - status.len(), line.len() as int) =~= status);
    }
}

/// The title of the editor names the place that the comment is on.
pub proof fn law_editor_names_its_place(path: Seq<char>, at: CommentLocator)
    ensures
        ({
            let t = screen::editor_title_text(path, at);
            match at {
                CommentLocator::File => text::occurs(t, path + " (file)"@),
                CommentLocator::Line { side, line } => text::occurs(
                    t,
                    path + ":"@ + text::decimal(line as nat) + " ("@ + hash::side_name(side)
                        + ")"@,
                ),
            }
        }),
{
    let t = screen::editor_title_text(path, at);
    let tail = "  (Shift+Enter/Ctrl+S accept)"@;
    match at {
        CommentLocator::File => {
            let part = path + " (file)"@;
            lemma_between("Comment "@, part, tail);
            assert("Comment "@ + part + tail =~= t);
        },
        CommentLocator::Line { side, line } => {
            let part = path + ":"@ + text::decimal(line as nat) + " ("@ + hash::side_name(side)
                + ")"@;
            lemma_between("Comment "@, part, tail);
            assert("Comment "@ + part + tail =~= t);
        },
    }
}

/// The editor of a comment stands inside the pane of the diff, below the line that the
/// comment is on, or above it where there is no room below; it covers the line only where
/// there is no room for it on either side.
pub proof fn law_editor_does_not_cover_its_line(diff: Area, cursor_visual: u32, scroll: u16)
    requires
        diff.width >= 24,
        diff.height >= 5,
        diff.x + diff.width <= u16::MAX,
        diff.y + diff.height <= u16::MAX,
        scroll <= cursor_visual < scroll + diff.height - 2,
    ensures
        ({
            let (x, y, w, h) = screen::editor_area(diff, cursor_visual, scroll);
            let at = diff.y + 1 + cursor_visual - scroll;
            let end = diff.y + diff.height - 1;
            &&& diff.x < x && x + w < diff.x + diff.width
            &&& diff.y < y && y + h <= end
            &&& w >= 20 && h >= 3
            &&& at + 1 + h <= end ==> y == at + 1
            &&& at + 1 + h > end && at - h > diff.y ==> y + h == at
        }),
{
}

} // verus!
