//! What the panes show, as styled lines.
use crate::diff::{Kind, LineStatus};
use crate::metrics;
use crate::note_buffer;
use crate::review;
use crate::review::{CommentState, LineSide, Review, ReviewView};
use crate::rows;
use crate::rows::{DecoratedRow, DiffRow, RenderRow, RowView, SideBySideRow};
use crate::session;
use crate::session::{CommentLocator, FileChangeKind, FileEntry};
use crate::style;
use crate::style::{Color, Span, SpanView, Style, StyledLine, StyledView};
use crate::text;
use crate::width;
use vstd::prelude::*;

verus! {

/// The mark of a comment in front of a row, two columns wide.
pub open spec fn marker_view(state: Option<CommentState>) -> SpanView {
    match state {
        Some(CommentState::HasUnresolved) => style::colored_view("💬"@, Color::Yellow),
        Some(CommentState::ResolvedOnly) => style::colored_view("✓ "@, Color::Green),
        _ => style::colored_view("  "@, Color::Reset),
    }
}

/// What the mark in front of a row with a comment at the given place says;
/// blank comments are not marked.
pub open spec fn marker_state(
    m: ReviewView,
    path: Option<Seq<char>>,
    at: Option<CommentLocator>,
) -> Option<CommentState> {
    match (path, at) {
        (Some(p), Some(l)) => match session::comment_at(m, p, l) {
            Some(c) => if text::is_blank(c.body) {
                None
            } else if c.resolved {
                Some(CommentState::ResolvedOnly)
            } else {
                Some(CommentState::HasUnresolved)
            },
            None => None,
        },
        _ => None,
    }
}

/// A look with the background `c`.
pub open spec fn with_bg(s: Style, c: Color) -> Style {
    Style { bg: Some(c), ..s }
}

/// A look, reversed where the cursor stands.
pub open spec fn at_cursor(s: Style, selected: bool) -> Style {
    Style { reversed: s.reversed || selected, ..s }
}

/// The line for the heading of a file.
pub open spec fn header_line(
    path: Seq<char>,
    marker: SpanView,
    old_w: nat,
    new_w: nat,
    selected: bool,
) -> StyledView {
    StyledView {
        spans: seq![
            marker,
            style::raw_view(seq![' ']),
            style::raw_view(seq![' ']),
            style::colored_view(text::repeated(' ', old_w), Color::DarkGray),
            style::raw_view(seq![' ']),
            style::colored_view(text::repeated(' ', new_w), Color::DarkGray),
            style::colored_view(" │ "@, Color::DarkGray),
            SpanView { content: path, style: Style { bold: true, ..style::colored(Color::Cyan) } },
        ],
        style: at_cursor(with_bg(style::plain(), Color::Rgb(25, 25, 25)), selected),
    }
}

/// The text of a hunk header: set off, and filled up to as many characters as
/// the pane is wide.
pub open spec fn section_deco(t: Seq<char>, pane: u16) -> Seq<char> {
    let s = "┄┄ "@ + t + " ┄┄"@;
    let w: nat = if pane == 0 {
        1
    } else {
        pane as nat
    };
    if s.len() < w {
        s + text::repeated(' ', (w - s.len()) as nat)
    } else {
        s
    }
}

/// The line for a hunk header.
pub open spec fn section_line(t: Seq<char>, pane: u16, selected: bool) -> StyledView {
    StyledView {
        spans: seq![
            SpanView {
                content: section_deco(t, pane),
                style: at_cursor(
                    Style {
                        bold: true,
                        ..with_bg(style::colored(Color::Cyan), Color::Rgb(30, 30, 30))
                    },
                    selected,
                ),
            },
        ],
        style: style::plain(),
    }
}

/// The colour of the sign in front of a line.
pub open spec fn sign_color(kind: Kind) -> Color {
    match kind {
        Kind::Add => Color::Green,
        Kind::Remove => Color::Red,
        _ => Color::DarkGray,
    }
}

/// The background of a line of the unified view: none in a file that is new or
/// deleted as a whole.
pub open spec fn unified_style(kind: Kind, new_file: bool, deleted_file: bool) -> Style {
    match kind {
        Kind::Add => if new_file {
            style::plain()
        } else {
            with_bg(style::plain(), Color::Rgb(0, 50, 0))
        },
        Kind::Remove => if deleted_file {
            style::plain()
        } else {
            with_bg(style::plain(), Color::Rgb(60, 0, 0))
        },
        _ => style::plain(),
    }
}

/// The colour of the sign in front of a line of a whole file.
pub open spec fn status_color(status: LineStatus) -> Color {
    match status {
        LineStatus::Unchanged => Color::DarkGray,
        LineStatus::Added => Color::Green,
        LineStatus::Removed => Color::Red,
        LineStatus::Modified => Color::Yellow,
    }
}

/// Pieces of text on the background `c`.
pub open spec fn tinted(v: Seq<SpanView>, c: Color) -> Seq<SpanView> {
    v.map_values(|s: SpanView| SpanView { style: with_bg(s.style, c), ..s })
}

/// As much of some pieces of text as fits in `room` columns.
pub open spec fn cut(v: Seq<SpanView>, room: nat) -> Seq<SpanView>
    decreases v.len(),
{
    if v.len() == 0 || room == 0 {
        seq![]
    } else {
        let n = width::fitting(v[0].content, room) as int;
        let rest = cut(v.drop_first(), width::room_behind(v[0].content, room));
        if n > 0 {
            seq![SpanView { content: v[0].content.take(n), ..v[0] }] + rest
        } else {
            rest
        }
    }
}

/// The room that is left behind what fits.
pub open spec fn cut_room(v: Seq<SpanView>, room: nat) -> nat
    decreases v.len(),
{
    if v.len() == 0 || room == 0 {
        room
    } else {
        cut_room(v.drop_first(), width::room_behind(v[0].content, room))
    }
}

/// One side of a row, cut or filled up to `room` columns.
pub open spec fn side_view(v: Seq<SpanView>, bg: Option<Color>, room: nat) -> Seq<SpanView> {
    let code = match bg {
        Some(c) => tinted(v, c),
        None => v,
    };
    let left = cut_room(code, room);
    if left > 0 {
        cut(code, room).push(
            SpanView {
                content: text::repeated(' ', left),
                style: Style { bg, ..style::plain() },
            },
        )
    } else {
        cut(code, room)
    }
}

/// How many columns are left for the code of the two sides.
pub open spec fn side_room(marker: Seq<char>, old_w: nat, new_w: nat, total: nat) -> nat {
    let fixed = width::total_columns(marker) + 1 + old_w + 1 + 1 + 1 + 3 + new_w + 1 + 1 + 1;
    if total > fixed {
        (total - fixed) as nat
    } else {
        0
    }
}

/// The line for a row of the side-by-side view: the mark, then for each side
/// its line number, its sign and its code, in columns of fixed width.
pub open spec fn side_by_side_line(
    r: RowView,
    marker: SpanView,
    old_w: nat,
    new_w: nat,
    new_file: bool,
    deleted_file: bool,
    total: nat,
    selected: bool,
) -> StyledView
    recommends
        r is SideBySide,
{
    let avail = side_room(marker.content, old_w, new_w, total);
    let left_room = avail / 2;
    let right_room = (avail - avail / 2) as nat;
    let removed = r->left_kind == Some(Kind::Remove);
    let added = r->right_kind == Some(Kind::Add);
    let left_bg = if !deleted_file && removed {
        Some(Color::Rgb(60, 0, 0))
    } else {
        None
    };
    let right_bg = if !new_file && added {
        Some(Color::Rgb(0, 50, 0))
    } else {
        None
    };
    StyledView {
        spans: seq![
            marker,
            style::raw_view(seq![' ']),
            style::colored_view(
                metrics::gutter_number(r->SideBySide_old_line, old_w),
                Color::DarkGray,
            ),
            style::raw_view(seq![' ']),
            if removed {
                style::colored_view(seq!['-'], Color::Red)
            } else {
                style::colored_view(seq![' '], Color::DarkGray)
            },
            style::raw_view(seq![' ']),
        ] + side_view(r->left, left_bg, left_room) + seq![
            style::colored_view(" │ "@, Color::DarkGray),
            style::colored_view(
                metrics::gutter_number(r->SideBySide_new_line, new_w),
                Color::DarkGray,
            ),
            style::raw_view(seq![' ']),
            if added {
                style::colored_view(seq!['+'], Color::Green)
            } else {
                style::colored_view(seq![' '], Color::DarkGray)
            },
            style::raw_view(seq![' ']),
        ] + side_view(r->right, right_bg, right_room),
        style: at_cursor(style::plain(), selected),
    }
}

/// What the lines of the diff pane go by.
pub struct PaneView {
    pub path: Option<Seq<char>>,
    pub new_file: bool,
    pub deleted_file: bool,
    pub old_w: nat,
    pub new_w: nat,
    pub width: u16,
}

/// The line of the diff pane for a row.
pub open spec fn row_line(r: RowView, m: ReviewView, p: PaneView, selected: bool) -> StyledView {
    let marker = marker_view(marker_state(m, p.path, session::row_locator(r)));
    match r {
        RowView::FileHeader { path } => header_line(path, marker, p.old_w, p.new_w, selected),
        RowView::Section { text } => section_line(text, p.width, selected),
        RowView::Unified { kind, old_line, new_line, spans } => StyledView {
            spans: seq![
                marker,
                style::colored_view(seq![metrics::unified_sign(kind)], sign_color(kind)),
                style::raw_view(seq![' ']),
                style::colored_view(metrics::gutter_number(old_line, p.old_w), Color::DarkGray),
                style::raw_view(seq![' ']),
                style::colored_view(metrics::gutter_number(new_line, p.new_w), Color::DarkGray),
                style::colored_view(" │ "@, Color::DarkGray),
            ] + spans,
            style: at_cursor(unified_style(kind, p.new_file, p.deleted_file), selected),
        },
        RowView::SideBySide { .. } => side_by_side_line(
            r,
            marker,
            p.old_w,
            p.new_w,
            p.new_file,
            p.deleted_file,
            p.width as nat,
            selected,
        ),
        RowView::Decorated { status, line_number, spans, .. } => StyledView {
            spans: seq![
                marker,
                style::colored_view(
                    metrics::gutter_number(
                        if line_number > 0 {
                            Some(line_number)
                        } else {
                            None
                        },
                        p.new_w,
                    ),
                    Color::DarkGray,
                ),
                style::raw_view(seq![' ']),
                style::colored_view(seq![metrics::status_sign(status)], status_color(status)),
                style::colored_view(" │ "@, Color::DarkGray),
            ] + spans,
            style: at_cursor(style::plain(), selected),
        },
    }
}

/// A row without a comment reads as the text that it is wrapped by.
pub proof fn law_row_reads_as_measured(r: RowView, m: ReviewView, p: PaneView, selected: bool)
    requires
        r is FileHeader || r is Unified || r is Decorated,
        marker_state(m, p.path, session::row_locator(r)) is None,
    ensures
        style::plain_text(row_line(r, m, p, selected).spans) == metrics::row_text(
            r,
            p.width,
            p.old_w,
            p.new_w,
        ),
{
    let spans = row_line(r, m, p, selected).spans;
    match r {
        RowView::FileHeader { path } => {
            reveal_strlit("  ");
            reveal_strlit("    ");
            lemma_text_of_8(spans);
            assert("  "@ + seq![' '] + seq![' '] =~= "    "@);
        },
        RowView::Unified { kind, old_line, new_line, spans: code } => {
            let front = spans.take(7);
            assert(spans =~= front + code);
            style::lemma_plain_text_add(front, code);
            lemma_text_of_7(front);
            let sign = metrics::unified_sign(kind);
            assert("  "@ + seq![sign] + seq![' '] =~= "  "@ + seq![sign, ' ']);
        },
        RowView::Decorated { status, line_number, spans: code, .. } => {
            let front = spans.take(5);
            assert(spans =~= front + code);
            style::lemma_plain_text_add(front, code);
            lemma_text_of_5(front);
            let sign = metrics::status_sign(status);
            let head = front[0].content + front[1].content;
            assert(head + seq![' '] + seq![sign] =~= head + seq![' ', sign]);
        },
        _ => {},
    }
}

proof fn lemma_text_of_5(v: Seq<SpanView>)
    requires
        v.len() == 5,
    ensures
        style::plain_text(v) == v[0].content + v[1].content + v[2].content + v[3].content
            + v[4].content,
{
    reveal_with_fuel(style::plain_text, 6);
    let a = v.drop_last();
    let b = a.drop_last();
    let c = b.drop_last();
    let d = c.drop_last();
    assert(d.drop_last() =~= Seq::empty());
    assert(style::plain_text(d) =~= v[0].content);
}

proof fn lemma_text_of_7(v: Seq<SpanView>)
    requires
        v.len() == 7,
    ensures
        style::plain_text(v) == v[0].content + v[1].content + v[2].content + v[3].content
            + v[4].content + v[5].content + v[6].content,
{
    let a = v.drop_last();
    let b = a.drop_last();
    lemma_text_of_5(b);
    assert(style::plain_text(a) == style::plain_text(b) + v[5].content);
}

proof fn lemma_text_of_8(v: Seq<SpanView>)
    requires
        v.len() == 8,
    ensures
        style::plain_text(v) == v[0].content + v[1].content + v[2].content + v[3].content
            + v[4].content + v[5].content + v[6].content + v[7].content,
{
    lemma_text_of_7(v.drop_last());
}

/// The mark of a comment in front of a row.
fn marker_span(state: Option<CommentState>) -> (s: Span)
    ensures
        s@ == marker_view(state),
{
    match state {
        Some(CommentState::HasUnresolved) => Span {
            content: "💬".to_owned(),
            style: Style::of(Color::Yellow),
        },
        Some(CommentState::ResolvedOnly) => Span {
            content: "✓ ".to_owned(),
            style: Style::of(Color::Green),
        },
        _ => Span { content: "  ".to_owned(), style: Style::of(Color::Reset) },
    }
}

/// What the mark in front of a row says.
fn state_at(r: &Review, path: Option<&str>, at: Option<CommentLocator>) -> (s: Option<CommentState>)
    ensures
        s == marker_state(
            r@,
            match path {
                Some(p) => Some(p@),
                None => None,
            },
            at,
        ),
{
    let c = match (path, at) {
        (Some(p), Some(CommentLocator::File)) => r.file_comment(p),
        (Some(p), Some(CommentLocator::Line { side, line })) => r.line_comment(p, side, line),
        _ => {
            return None;
        },
    };
    match c {
        Some(c) => if text::blank(c.body.as_str()) {
            None
        } else if c.resolved {
            Some(CommentState::ResolvedOnly)
        } else {
            Some(CommentState::HasUnresolved)
        },
        None => None,
    }
}

fn one_char(c: char) -> (s: String)
    ensures
        s@ == seq![c],
{
    let mut s = String::new();
    s.push(c);
    assert(s@ =~= seq![c]);
    s
}

fn spaces(n: usize) -> (s: String)
    ensures
        s@ == text::repeated(' ', n as nat),
{
    let mut s = String::new();
    metrics::push_repeated(&mut s, ' ', n);
    assert(s@ =~= text::repeated(' ', n as nat));
    s
}

fn number_text(n: Option<u32>, w: usize) -> (s: String)
    ensures
        s@ == metrics::gutter_number(n, w as nat),
{
    let mut s = String::new();
    metrics::push_gutter(&mut s, n, w);
    assert(s@ =~= metrics::gutter_number(n, w as nat));
    s
}

fn styled(spans: Vec<Span>, style: Style, selected: bool) -> (l: StyledLine)
    ensures
        l@ == (StyledView { spans: style::views(spans@), style: at_cursor(style, selected) }),
{
    let mut style = style;
    if selected {
        style.reversed = true;
    }
    StyledLine { spans, style }
}

fn header_of(path: &String, marker: Span, old_w: usize, new_w: usize, selected: bool) -> (l:
    StyledLine)
    ensures
        l@ == header_line(path@, marker@, old_w as nat, new_w as nat, selected),
{
    let mut v = style::one(marker);
    style::push(&mut v, one_char(' '), Style::new());
    style::push(&mut v, one_char(' '), Style::new());
    style::push(&mut v, spaces(old_w), Style::of(Color::DarkGray));
    style::push(&mut v, one_char(' '), Style::new());
    style::push(&mut v, spaces(new_w), Style::of(Color::DarkGray));
    style::push(&mut v, " │ ".to_owned(), Style::of(Color::DarkGray));
    let mut bold = Style::of(Color::Cyan);
    bold.bold = true;
    style::push(&mut v, path.clone(), bold);
    let mut look = Style::new();
    look.bg = Some(Color::Rgb(25, 25, 25));
    let l = styled(v, look, selected);
    assert(l@.spans =~= header_line(
        path@,
        marker@,
        old_w as nat,
        new_w as nat,
        selected,
    ).spans);
    l
}

fn section_of(t: &str, pane: u16, selected: bool) -> (l: StyledLine)
    ensures
        l@ == section_line(t@, pane, selected),
{
    let mut deco = String::new();
    deco.append("┄┄ ");
    deco.append(t);
    deco.append(" ┄┄");
    assert(deco@ =~= "┄┄ "@ + t@ + " ┄┄"@);
    let w: usize = if pane == 0 {
        1
    } else {
        pane as usize
    };
    let n: usize = note_buffer::char_count(deco.as_str());
    if n < w {
        metrics::push_repeated(&mut deco, ' ', w - n);
    }
    let mut look = Style::of(Color::Cyan);
    look.bg = Some(Color::Rgb(30, 30, 30));
    look.bold = true;
    look.reversed = selected;
    StyledLine { spans: style::one(Span { content: deco, style: look }), style: Style::new() }
}

fn color_of_sign(kind: Kind) -> (c: Color)
    ensures
        c == sign_color(kind),
{
    match kind {
        Kind::Add => Color::Green,
        Kind::Remove => Color::Red,
        _ => Color::DarkGray,
    }
}

fn look_of_unified(kind: Kind, new_file: bool, deleted_file: bool) -> (s: Style)
    ensures
        s == unified_style(kind, new_file, deleted_file),
{
    let mut s = Style::new();
    match kind {
        Kind::Add => {
            if !new_file {
                s.bg = Some(Color::Rgb(0, 50, 0));
            }
        },
        Kind::Remove => {
            if !deleted_file {
                s.bg = Some(Color::Rgb(60, 0, 0));
            }
        },
        _ => {},
    }
    s
}

fn unified_of(
    u: &DiffRow,
    marker: Span,
    old_w: usize,
    new_w: usize,
    new_file: bool,
    deleted_file: bool,
    selected: bool,
) -> (l: StyledLine)
    ensures
        l@.spans == seq![
            marker@,
            style::colored_view(seq![metrics::unified_sign(u.kind)], sign_color(u.kind)),
            style::raw_view(seq![' ']),
            style::colored_view(
                metrics::gutter_number(u.old_line, old_w as nat),
                Color::DarkGray,
            ),
            style::raw_view(seq![' ']),
            style::colored_view(
                metrics::gutter_number(u.new_line, new_w as nat),
                Color::DarkGray,
            ),
            style::colored_view(" │ "@, Color::DarkGray),
        ] + style::views(u.spans@),
        l@.style == at_cursor(unified_style(u.kind, new_file, deleted_file), selected),
{
    let mut v = style::one(marker);
    style::push(
        &mut v,
        one_char(metrics::sign_of_kind(u.kind)),
        Style::of(color_of_sign(u.kind)),
    );
    style::push(&mut v, one_char(' '), Style::new());
    style::push(&mut v, number_text(u.old_line, old_w), Style::of(Color::DarkGray));
    style::push(&mut v, one_char(' '), Style::new());
    style::push(&mut v, number_text(u.new_line, new_w), Style::of(Color::DarkGray));
    style::push(&mut v, " │ ".to_owned(), Style::of(Color::DarkGray));
    assert(style::views(v@) =~= seq![
        marker@,
        style::colored_view(seq![metrics::unified_sign(u.kind)], sign_color(u.kind)),
        style::raw_view(seq![' ']),
        style::colored_view(metrics::gutter_number(u.old_line, old_w as nat), Color::DarkGray),
        style::raw_view(seq![' ']),
        style::colored_view(metrics::gutter_number(u.new_line, new_w as nat), Color::DarkGray),
        style::colored_view(" │ "@, Color::DarkGray),
    ]);
    style::extend(&mut v, &u.spans);
    styled(v, look_of_unified(u.kind, new_file, deleted_file), selected)
}

fn decorated_of(d: &DecoratedRow, marker: Span, new_w: usize, selected: bool) -> (l: StyledLine)
    ensures
        l@.spans == seq![
            marker@,
            style::colored_view(
                metrics::gutter_number(
                    if d.line_number > 0 {
                        Some(d.line_number)
                    } else {
                        None
                    },
                    new_w as nat,
                ),
                Color::DarkGray,
            ),
            style::raw_view(seq![' ']),
            style::colored_view(seq![metrics::status_sign(d.status)], status_color(d.status)),
            style::colored_view(" │ "@, Color::DarkGray),
        ] + style::views(d.spans@),
        l@.style == at_cursor(style::plain(), selected),
{
    let number = if d.line_number > 0 {
        Some(d.line_number)
    } else {
        None
    };
    let color = match d.status {
        LineStatus::Unchanged => Color::DarkGray,
        LineStatus::Added => Color::Green,
        LineStatus::Removed => Color::Red,
        LineStatus::Modified => Color::Yellow,
    };
    let mut v = style::one(marker);
    style::push(&mut v, number_text(number, new_w), Style::of(Color::DarkGray));
    style::push(&mut v, one_char(' '), Style::new());
    style::push(&mut v, one_char(metrics::sign_of_status(d.status)), Style::of(color));
    style::push(&mut v, " │ ".to_owned(), Style::of(Color::DarkGray));
    assert(style::views(v@) =~= seq![
        marker@,
        style::colored_view(metrics::gutter_number(number, new_w as nat), Color::DarkGray),
        style::raw_view(seq![' ']),
        style::colored_view(seq![metrics::status_sign(d.status)], status_color(d.status)),
        style::colored_view(" │ "@, Color::DarkGray),
    ]);
    style::extend(&mut v, &d.spans);
    styled(v, Style::new(), selected)
}

/// Pieces of text on the background `bg`, where there is one.
fn tint(spans: &Vec<Span>, bg: Option<Color>) -> (out: Vec<Span>)
    ensures
        style::views(out@) == (match bg {
            Some(c) => tinted(style::views(spans@), c),
            None => style::views(spans@),
        }),
{
    let c = match bg {
        Some(c) => c,
        None => {
            return style::copy_spans(spans);
        },
    };
    let ghost v = style::views(spans@);
    let ghost want = tinted(v, c);
    let mut out: Vec<Span> = Vec::new();
    let mut i: usize = 0;
    while i < spans.len()
        invariant
            i <= spans.len() == want.len(),
            v == style::views(spans@),
            want == tinted(v, c),
            style::views(out@) =~= want.take(i as int),
        decreases spans.len() - i,
    {
        let mut look = spans[i].style;
        look.bg = Some(c);
        style::push(&mut out, spans[i].content.clone(), look);
        assert(want.take(i + 1) =~= want.take(i as int).push(want[i as int]));
        i += 1;
    }
    assert(want.take(i as int) =~= want);
    out
}

/// One side of a row, cut or filled up to `room` columns.
fn side_of(spans: &Vec<Span>, bg: Option<Color>, room: usize) -> (out: Vec<Span>)
    ensures
        style::views(out@) == side_view(style::views(spans@), bg, room as nat),
{
    let code = tint(spans, bg);
    let ghost v = style::views(code@);
    let mut out: Vec<Span> = Vec::new();
    let mut left: usize = room;
    let mut i: usize = 0;
    assert(v.skip(0) =~= v);
    assert(style::views(out@) + cut(v, room as nat) =~= cut(v, room as nat));
    while i < code.len() && left > 0
        invariant
            i <= code.len() == v.len(),
            v == style::views(code@),
            style::views(out@) + cut(v.skip(i as int), left as nat) == cut(v, room as nat),
            cut_room(v.skip(i as int), left as nat) == cut_room(v, room as nat),
        decreases code.len() - i,
    {
        let ghost rest = v.skip(i as int);
        let ghost before = style::views(out@);
        assert(rest[0] == code@[i as int]@);
        assert(rest.drop_first() =~= v.skip(i + 1));
        let chars = text::chars(code[i].content.as_str());
        let (n, behind) = width::fit(&chars, left);
        if n > 0 {
            let piece = text::string_of(&chars, 0, n);
            assert(piece@ =~= rest[0].content.take(n as int));
            style::push(&mut out, piece, code[i].style);
            proof {
                let p = SpanView { content: rest[0].content.take(n as int), ..rest[0] };
                assert(style::views(out@) =~= before + seq![p]);
                assert(before + (seq![p] + cut(v.skip(i + 1), behind as nat)) =~= style::views(
                    out@,
                ) + cut(v.skip(i + 1), behind as nat));
            }
        }
        left = behind;
        i += 1;
    }
    proof {
        assert(cut(v.skip(i as int), left as nat) =~= Seq::empty());
        assert(style::views(out@) + Seq::<SpanView>::empty() =~= style::views(out@));
        assert(cut_room(v.skip(i as int), left as nat) == left);
    }
    if left > 0 {
        let mut look = Style::new();
        look.bg = bg;
        style::push(&mut out, spaces(left), look);
    }
    out
}

/// The line for a row of the side-by-side view, `total_width` columns wide.
pub fn render_side_by_side_line(
    row: &SideBySideRow,
    selected: bool,
    state: Option<CommentState>,
    old_w: usize,
    new_w: usize,
    is_new_file: bool,
    is_deleted_file: bool,
    total_width: usize,
) -> (l: StyledLine)
    ensures
        l@ == side_by_side_line(
            (RowView::SideBySide {
                left_kind: row.left_kind,
                right_kind: row.right_kind,
                old_line: row.old_line,
                new_line: row.new_line,
                left: style::views(row.left_spans@),
                right: style::views(row.right_spans@),
            }),
            marker_view(state),
            old_w as nat,
            new_w as nat,
            is_new_file,
            is_deleted_file,
            total_width as nat,
            selected,
        ),
{
    let ghost r = RowView::SideBySide {
        left_kind: row.left_kind,
        right_kind: row.right_kind,
        old_line: row.old_line,
        new_line: row.new_line,
        left: style::views(row.left_spans@),
        right: style::views(row.right_spans@),
    };
    let marker = marker_span(state);
    let removed = match row.left_kind {
        Some(Kind::Remove) => true,
        _ => false,
    };
    let added = match row.right_kind {
        Some(Kind::Add) => true,
        _ => false,
    };
    let left_bg = if !is_deleted_file && removed {
        Some(Color::Rgb(60, 0, 0))
    } else {
        None
    };
    let right_bg = if !is_new_file && added {
        Some(Color::Rgb(0, 50, 0))
    } else {
        None
    };
    let marker_w: usize = width::sum_columns(marker.content.as_str());
    let fixed: usize = marker_w.saturating_add(old_w).saturating_add(new_w).saturating_add(10);
    let avail: usize = total_width.saturating_sub(fixed);
    assert(avail == side_room(marker@.content, old_w as nat, new_w as nat, total_width as nat));
    let left_room: usize = avail / 2;
    let right_room: usize = avail - left_room;
    let mut v = style::one(marker);
    style::push(&mut v, one_char(' '), Style::new());
    style::push(&mut v, number_text(row.old_line, old_w), Style::of(Color::DarkGray));
    style::push(&mut v, one_char(' '), Style::new());
    if removed {
        style::push(&mut v, one_char('-'), Style::of(Color::Red));
    } else {
        style::push(&mut v, one_char(' '), Style::of(Color::DarkGray));
    }
    style::push(&mut v, one_char(' '), Style::new());
    let ghost first = seq![
        marker@,
        style::raw_view(seq![' ']),
        style::colored_view(
            metrics::gutter_number(row.old_line, old_w as nat),
            Color::DarkGray,
        ),
        style::raw_view(seq![' ']),
        if removed {
            style::colored_view(seq!['-'], Color::Red)
        } else {
            style::colored_view(seq![' '], Color::DarkGray)
        },
        style::raw_view(seq![' ']),
    ];
    assert(style::views(v@) =~= first);
    let left = side_of(&row.left_spans, left_bg, left_room);
    style::extend(&mut v, &left);
    let mut w: Vec<Span> = Vec::new();
    style::push(&mut w, " │ ".to_owned(), Style::of(Color::DarkGray));
    style::push(&mut w, number_text(row.new_line, new_w), Style::of(Color::DarkGray));
    style::push(&mut w, one_char(' '), Style::new());
    if added {
        style::push(&mut w, one_char('+'), Style::of(Color::Green));
    } else {
        style::push(&mut w, one_char(' '), Style::of(Color::DarkGray));
    }
    style::push(&mut w, one_char(' '), Style::new());
    let ghost second = seq![
        style::colored_view(" │ "@, Color::DarkGray),
        style::colored_view(
            metrics::gutter_number(row.new_line, new_w as nat),
            Color::DarkGray,
        ),
        style::raw_view(seq![' ']),
        if added {
            style::colored_view(seq!['+'], Color::Green)
        } else {
            style::colored_view(seq![' '], Color::DarkGray)
        },
        style::raw_view(seq![' ']),
    ];
    assert(style::views(w@) =~= second);
    style::extend(&mut v, &w);
    let right = side_of(&row.right_spans, right_bg, right_room);
    style::extend(&mut v, &right);
    styled(v, Style::new(), selected)
}

/// The file in the diff pane, if there is one.
pub open spec fn selected_path(files: Seq<FileEntry>, i: int) -> Option<Seq<char>> {
    if 0 <= i < files.len() {
        Some(files[i].path@)
    } else {
        None
    }
}

/// Whether the file in the diff pane was changed in the given way.
pub open spec fn selected_change(files: Seq<FileEntry>, i: int, change: FileChangeKind) -> bool {
    0 <= i < files.len() && files[i].change == change
}

/// The lines of the diff pane, `pane` columns wide: one for each row, with the
/// one at the cursor reversed.
pub fn draw_diff(
    review: &Review,
    files: &Vec<FileEntry>,
    file_selected: usize,
    diff_rows: &Vec<RenderRow>,
    diff_cursor: usize,
    pane: u16,
) -> (out: Vec<StyledLine>)
    ensures
        ({
            let v = rows::row_views(diff_rows@);
            let p = PaneView {
                path: selected_path(files@, file_selected as int),
                new_file: selected_change(files@, file_selected as int, FileChangeKind::Added),
                deleted_file: selected_change(
                    files@,
                    file_selected as int,
                    FileChangeKind::Deleted,
                ),
                old_w: metrics::gutter(metrics::max_old(v)),
                new_w: metrics::gutter(metrics::max_new(v)),
                width: pane,
            };
            style::styled_views(out@) == Seq::new(
                v.len(),
                |i: int| row_line(v[i], review@, p, i == diff_cursor),
            )
        }),
{
    let ghost v = rows::row_views(diff_rows@);
    let (old_w, new_w) = metrics::gutter_widths(diff_rows);
    let (path, new_file, deleted_file): (Option<&str>, bool, bool) = if file_selected
        < files.len() {
        (
            Some(files[file_selected].path.as_str()),
            files[file_selected].change == FileChangeKind::Added,
            files[file_selected].change == FileChangeKind::Deleted,
        )
    } else {
        (None, false, false)
    };
    let ghost p = PaneView {
        path: selected_path(files@, file_selected as int),
        new_file,
        deleted_file,
        old_w: old_w as nat,
        new_w: new_w as nat,
        width: pane,
    };
    let ghost want = Seq::new(v.len(), |i: int| row_line(v[i], review@, p, i == diff_cursor));
    let mut out: Vec<StyledLine> = Vec::new();
    let mut i: usize = 0;
    while i < diff_rows.len()
        invariant
            i <= diff_rows.len() == v.len(),
            v == rows::row_views(diff_rows@),
            p == (PaneView {
                path: match path {
                    Some(s) => Some(s@),
                    None => None,
                },
                new_file,
                deleted_file,
                old_w: old_w as nat,
                new_w: new_w as nat,
                width: pane,
            }),
            want == Seq::new(v.len(), |i: int| row_line(v[i], review@, p, i == diff_cursor)),
            style::styled_views(out@) =~= want.take(i as int),
        decreases diff_rows.len() - i,
    {
        let ghost before = style::styled_views(out@);
        let row = &diff_rows[i];
        assert(v[i as int] == row@);
        let selected = i == diff_cursor;
        let state = state_at(review, path, session::locate_row(row));
        let l = match row {
            RenderRow::FileHeader { path } => header_of(
                path,
                marker_span(state),
                old_w,
                new_w,
                selected,
            ),
            RenderRow::Section { text } => section_of(text.as_str(), pane, selected),
            RenderRow::Unified(u) => unified_of(
                u,
                marker_span(state),
                old_w,
                new_w,
                new_file,
                deleted_file,
                selected,
            ),
            RenderRow::SideBySide(s) => render_side_by_side_line(
                s,
                selected,
                state,
                old_w,
                new_w,
                new_file,
                deleted_file,
                pane as usize,
            ),
            RenderRow::Decorated(d) => decorated_of(d, marker_span(state), new_w, selected),
        };
        assert(l@ == row_line(v[i as int], review@, p, i == diff_cursor));
        out.push(l);
        assert(style::styled_views(out@) =~= before.push(l@));
        assert(want.take(i + 1) =~= want.take(i as int).push(want[i as int]));
        i += 1;
    }
    assert(want.take(i as int) =~= want);
    out
}

} // verus!
