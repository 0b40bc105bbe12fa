//! The file list, the titles, the footer and the editor: what they say, and where
//! they stand.
use crate::file_tree::{FileTreeRow, TreeRowView};
use crate::git::ViewKind;
use crate::hash;
use crate::keys::Area;
use crate::ordmap::OrdMap;
use crate::panes;
use crate::review;
use crate::review::{CommentState, Review, ReviewView};
use crate::session;
use crate::session::{CommentLocator, CommentTarget, DiffViewMode, FileEntry, FileEntryView, Mode};
use crate::style;
use crate::style::{Color, SpanView, Style, StyledLine, StyledView};
use crate::text;
use vstd::prelude::*;

verus! {

/// The title of the file list.
pub open spec fn files_title_text(view: ViewKind, has_base: bool) -> Seq<char> {
    match view {
        ViewKind::All => "Files (all)"@,
        ViewKind::Unstaged => "Files (unstaged)"@,
        ViewKind::Staged => "Files (staged)"@,
        ViewKind::Base => if has_base {
            "Files (base)"@
        } else {
            "Files (base: unset)"@
        },
    }
}

/// The title of the file list.
pub fn files_title(view: ViewKind, has_base: bool) -> (r: &'static str)
    ensures
        r@ == files_title_text(view, has_base),
{
    match view {
        ViewKind::All => "Files (all)",
        ViewKind::Unstaged => "Files (unstaged)",
        ViewKind::Staged => "Files (staged)",
        ViewKind::Base => if has_base {
            "Files (base)"
        } else {
            "Files (base: unset)"
        },
    }
}

/// The look of a file by its two status letters.
pub open spec fn status_style(x: char, y: char) -> Style {
    if x == '-' && y == '-' {
        style::colored(Color::DarkGray)
    } else if y == 'N' {
        style::colored(Color::Magenta)
    } else if y == 'I' {
        style::colored(Color::DarkGray)
    } else if x == 'A' || y == 'A' {
        style::colored(Color::Green)
    } else if x == 'D' || y == 'D' {
        style::colored(Color::Red)
    } else if x == 'R' || y == 'R' || x == 'C' || y == 'C' {
        style::colored(Color::Cyan)
    } else if x == 'T' || y == 'T' {
        style::colored(Color::Blue)
    } else if x == 'U' || y == 'U' {
        Style { bold: true, ..style::colored(Color::Yellow) }
    } else {
        style::colored(Color::Yellow)
    }
}

/// The look of a file by its two status letters.
pub fn git_status_style(x: char, y: char) -> (r: Style)
    ensures
        r == status_style(x, y),
{
    if x == '-' && y == '-' {
        return Style::of(Color::DarkGray);
    }
    if y == 'N' {
        return Style::of(Color::Magenta);
    }
    if y == 'I' {
        return Style::of(Color::DarkGray);
    }
    if x == 'A' || y == 'A' {
        return Style::of(Color::Green);
    }
    if x == 'D' || y == 'D' {
        return Style::of(Color::Red);
    }
    if x == 'R' || y == 'R' || x == 'C' || y == 'C' {
        return Style::of(Color::Cyan);
    }
    if x == 'T' || y == 'T' {
        return Style::of(Color::Blue);
    }
    let mut s = Style::of(Color::Yellow);
    if x == 'U' || y == 'U' {
        s.bold = true;
    }
    s
}

/// The last index up to `n` at which `t` stands in `s`, or -1.
pub open spec fn last_occurrence(s: Seq<char>, t: Seq<char>, n: int) -> int
    decreases n + 1,
{
    if n < 0 {
        -1
    } else if text::occurs_at(s, t, n) {
        n
    } else {
        last_occurrence(s, t, n - 1)
    }
}

/// The label of a file that was marked as reviewed: a check mark stands behind the
/// line that leads to its name, or in front of the name where none does.
pub open spec fn marked_label(label: Seq<char>) -> Seq<char> {
    let n = last_occurrence(label, "─ "@, label.len() as int);
    if n >= 0 {
        label.take(n) + "─✓"@ + label.skip(n + "─ "@.len())
    } else {
        "✓ "@ + label
    }
}

/// The label of a file that was marked as reviewed.
pub fn mark_reviewed_label(label: &str) -> (out: String)
    ensures
        out@ == marked_label(label@),
{
    let v = text::chars(label);
    let t = text::chars("─ ");
    let ghost want = last_occurrence(label@, "─ "@, label@.len() as int);
    let mut n: usize = v.len();
    let mut found = text::stands_at(&v, &t, n);
    while n > 0 && !found
        invariant
            n <= v.len(),
            v@ == label@,
            t@ == "─ "@,
            found == text::occurs_at(v@, t@, n as int),
            want == last_occurrence(v@, t@, n as int),
        decreases n,
    {
        n -= 1;
        found = text::stands_at(&v, &t, n);
    }
    if found {
        let mut out = text::string_of(&v, 0, n);
        assert(out@ =~= label@.take(n as int));
        out.append("─✓");
        let rest = text::string_of(&v, n + t.len(), v.len());
        assert(rest@ =~= label@.skip(n + t@.len()));
        out.append(rest.as_str());
        assert(out@ =~= marked_label(label@));
        out
    } else {
        assert(want == last_occurrence(v@, t@, -1));
        let mut out = "✓ ".to_string();
        out.append(label);
        assert(out@ =~= marked_label(label@));
        out
    }
}

/// What the comments on a file amount to.
pub open spec fn state_of(m: ReviewView, path: Seq<char>) -> CommentState {
    let f = review::file_or_blank(m, path);
    if f.has_unresolved() {
        CommentState::HasUnresolved
    } else if f.has_comment() {
        CommentState::ResolvedOnly
    } else {
        CommentState::Empty
    }
}

/// The look of a file: by its letters, bold and underlined where it has a comment
/// that is not resolved, dim where all are or it was marked as reviewed.
pub open spec fn file_style(e: FileEntryView, state: CommentState, reviewed: bool) -> Style {
    let s = status_style(e.git_xy[0], e.git_xy[1]);
    Style {
        bold: s.bold || state == CommentState::HasUnresolved,
        underlined: s.underlined || state == CommentState::HasUnresolved,
        dim: s.dim || state == CommentState::ResolvedOnly || reviewed,
        ..s
    }
}

/// A row of the file list, nothing where there is no such file.
pub open spec fn tree_line(
    r: TreeRowView,
    files: Seq<FileEntryView>,
    m: ReviewView,
    reviewed: Map<Seq<char>, Seq<char>>,
) -> Seq<StyledView> {
    if r.is_dir {
        seq![
            StyledView {
                spans: seq![
                    SpanView {
                        content: r.label,
                        style: Style { bold: true, ..style::colored(Color::Cyan) },
                    },
                ],
                style: style::plain(),
            },
        ]
    } else {
        match r.file_index {
            Some(i) => if i < files.len() {
                let e = files[i as int];
                let is_reviewed = reviewed.contains_key(e.path);
                seq![
                    StyledView {
                        spans: seq![
                            SpanView {
                                content: if is_reviewed {
                                    marked_label(r.label)
                                } else {
                                    r.label
                                },
                                style: file_style(e, state_of(m, e.path), is_reviewed),
                            },
                        ],
                        style: style::plain(),
                    },
                ]
            } else {
                seq![]
            },
            None => seq![],
        }
    }
}

/// The rows of the file list.
pub open spec fn tree_lines(
    r: Seq<TreeRowView>,
    files: Seq<FileEntryView>,
    m: ReviewView,
    reviewed: Map<Seq<char>, Seq<char>>,
) -> Seq<StyledView>
    decreases r.len(),
{
    if r.len() == 0 {
        seq![]
    } else {
        tree_lines(r.drop_last(), files, m, reviewed) + tree_line(r.last(), files, m, reviewed)
    }
}

/// The rows that are shown in a pane of some lines, from a scroll position on.
pub open spec fn window<A>(s: Seq<A>, scroll: int, height: int) -> Seq<A> {
    let h = if height == 0 {
        1
    } else {
        height
    };
    if scroll >= s.len() {
        seq![]
    } else if scroll + h <= s.len() {
        s.subrange(scroll, scroll + h)
    } else {
        s.skip(scroll)
    }
}

/// A line of one piece of text.
fn one_piece(content: String, looks: Style) -> (l: StyledLine)
    ensures
        l@ == (StyledView {
            spans: seq![SpanView { content: content@, style: looks }],
            style: style::plain(),
        }),
{
    let spans = style::one(style::Span { content, style: looks });
    let l = StyledLine { spans, style: Style::new() };
    assert(l@.spans =~= seq![SpanView { content: content@, style: looks }]);
    l
}

/// A row of the file list, nothing where there is no such file.
fn draw_tree_row(
    r: &FileTreeRow,
    files: &Vec<FileEntry>,
    all: &Review,
    reviewed: &OrdMap<String, String>,
) -> (out: Option<StyledLine>)
    ensures
        match out {
            Some(l) => tree_line(r@, session::entry_views(files@), all@, reviewed@) == seq![l@],
            None => tree_line(r@, session::entry_views(files@), all@, reviewed@).len() == 0,
        },
{
    if r.is_dir {
        let mut s = Style::of(Color::Cyan);
        s.bold = true;
        return Some(one_piece(r.label.clone(), s));
    }
    let i: usize = match r.file_index {
        Some(i) => i,
        None => {
            return None;
        },
    };
    if i >= files.len() {
        return None;
    }
    let e = &files[i];
    assert(session::entry_views(files@)[i as int] == e@);
    assert(e@.git_xy[0] == e.git_xy@[0] && e@.git_xy[1] == e.git_xy@[1]);
    let mut s = git_status_style(e.git_xy[0], e.git_xy[1]);
    match all.comment_state(e.path.as_str()) {
        CommentState::HasUnresolved => {
            s.bold = true;
            s.underlined = true;
        },
        CommentState::ResolvedOnly => {
            s.dim = true;
        },
        CommentState::Empty => {},
    }
    let is_reviewed = reviewed.contains_key(&e.path);
    if is_reviewed {
        s.dim = true;
        Some(one_piece(mark_reviewed_label(r.label.as_str()), s))
    } else {
        Some(one_piece(r.label.clone(), s))
    }
}

/// The rows of the file list that are shown, from a scroll position on.
pub fn draw_files(
    rows: &Vec<FileTreeRow>,
    files: &Vec<FileEntry>,
    all: &Review,
    reviewed: &OrdMap<String, String>,
    scroll: usize,
    height: u16,
) -> (out: Vec<StyledLine>)
    ensures
        style::styled_views(out@) == tree_lines(
            window(crate::file_tree::tree_views(rows@), scroll as int, height as int),
            session::entry_views(files@),
            all@,
            reviewed@,
        ),
{
    let h: usize = if height == 0 {
        1
    } else {
        height as usize
    };
    let ghost v = crate::file_tree::tree_views(rows@);
    let ghost w = window(v, scroll as int, height as int);
    let ghost fs = session::entry_views(files@);
    let mut out: Vec<StyledLine> = Vec::new();
    if scroll >= rows.len() {
        assert(style::styled_views(out@) =~= seq![]);
        return out;
    }
    let end: usize = if h <= rows.len() - scroll {
        scroll + h
    } else {
        rows.len()
    };
    assert(w =~= v.subrange(scroll as int, end as int));
    let mut i: usize = scroll;
    while i < end
        invariant
            scroll <= i <= end <= rows.len() == v.len(),
            v == crate::file_tree::tree_views(rows@),
            fs == session::entry_views(files@),
            w == v.subrange(scroll as int, end as int),
            style::styled_views(out@) =~= tree_lines(w.take(i - scroll), fs, all@, reviewed@),
        decreases end - i,
    {
        proof {
            assert(w.take(i + 1 - scroll).drop_last() =~= w.take(i - scroll));
            assert(w.take(i + 1 - scroll).last() == rows@[i as int]@);
        }
        let ghost before = style::styled_views(out@);
        match draw_tree_row(&rows[i], files, all, reviewed) {
            Some(l) => {
                out.push(l);
                assert(style::styled_views(out@) =~= before + seq![l@]);
            },
            None => {
                assert(style::styled_views(out@) =~= before + Seq::<StyledView>::empty());
            },
        }
        i += 1;
    }
    assert(w.take(i - scroll) =~= w);
    out
}

/// The shown row that is selected, where it is shown.
pub fn visible_selection(selected_row: Option<usize>, scroll: usize, height: u16) -> (r: Option<
    usize,
>)
    ensures
        r == (match selected_row {
            Some(row) => {
                let at = if row >= scroll {
                    row - scroll
                } else {
                    0
                };
                let h = if height == 0 {
                    1
                } else {
                    height as int
                };
                if at < h {
                    Some(at as usize)
                } else {
                    None
                }
            },
            None => None,
        }),
{
    match selected_row {
        Some(row) => {
            let at: usize = row.saturating_sub(scroll);
            let h: usize = if height == 0 {
                1
            } else {
                height as usize
            };
            if at < h {
                Some(at)
            } else {
                None
            }
        },
        None => None,
    }
}

/// The title of the diff.
pub open spec fn diff_title_text(mode: Mode, path: Option<Seq<char>>, m: ReviewView) -> Seq<char> {
    if mode == Mode::EditComment {
        "Diff (locked while editing)"@
    } else {
        match path {
            Some(p) => "Diff — "@ + p + (match state_of(m, p) {
                CommentState::HasUnresolved => " 💬"@,
                CommentState::ResolvedOnly => " ✓"@,
                CommentState::Empty => seq![],
            }),
            None => "Diff"@,
        }
    }
}

/// The title of the diff: that of the selected file, with what its comments amount to.
pub fn diff_title(mode: Mode, path: Option<&str>, all: &Review) -> (out: String)
    ensures
        out@ == diff_title_text(mode, hash::opt_str(path), all@),
{
    if mode == Mode::EditComment {
        return "Diff (locked while editing)".to_string();
    }
    match path {
        Some(p) => {
            let mut out = "Diff — ".to_string();
            out.append(p);
            match all.comment_state(p) {
                CommentState::HasUnresolved => {
                    out.append(" 💬");
                },
                CommentState::ResolvedOnly => {
                    out.append(" ✓");
                },
                CommentState::Empty => {},
            }
            assert(out@ =~= diff_title_text(mode, Some(p@), all@));
            out
        },
        None => "Diff".to_string(),
    }
}

/// `s` in at most `width` characters, with an ellipsis where it is cut.
pub open spec fn shortened(s: Seq<char>, width: int) -> Seq<char> {
    if width <= 0 {
        seq![]
    } else if s.len() <= width {
        s
    } else {
        s.take(width - 1).push('…')
    }
}

/// `s` in at most `width` characters, with an ellipsis where it is cut.
pub fn fit_with_ellipsis(s: &str, width: usize) -> (out: String)
    ensures
        out@ == shortened(s@, width as int),
{
    let v = text::chars(s);
    if width == 0 {
        return String::new();
    }
    if v.len() <= width {
        return s.to_string();
    }
    let mut out = text::string_of(&v, 0, width - 1);
    assert(out@ =~= s@.take(width - 1));
    out.push('…');
    out
}

/// A shortened text is never longer than it may be.
pub proof fn law_shortened_fits(s: Seq<char>, width: int)
    requires
        width >= 0,
    ensures
        shortened(s, width).len() <= width,
        s.len() <= width ==> shortened(s, width) == s,
{
    if width == 0 && s.len() == 0 {
        assert(s =~= seq![]);
    }
}

/// The name of a view in the footer.
pub open spec fn view_label_text(view: ViewKind, base: Option<Seq<char>>) -> Seq<char> {
    match view {
        ViewKind::All => "all"@,
        ViewKind::Unstaged => "unstaged"@,
        ViewKind::Staged => "staged"@,
        ViewKind::Base => match base {
            Some(b) => "base("@ + b + ")"@,
            None => "base(unset)"@,
        },
    }
}

/// The name of a view in the footer.
pub fn view_label(view: ViewKind, base: Option<&str>) -> (out: String)
    ensures
        out@ == view_label_text(view, hash::opt_str(base)),
{
    match view {
        ViewKind::All => "all".to_string(),
        ViewKind::Unstaged => "unstaged".to_string(),
        ViewKind::Staged => "staged".to_string(),
        ViewKind::Base => match base {
            Some(b) => {
                let mut out = "base(".to_string();
                out.append(b);
                out.append(")");
                assert(out@ =~= "base("@ + b@ + ")"@);
                out
            },
            None => "base(unset)".to_string(),
        },
    }
}

/// What the footer says first.
pub open spec fn footer_left(
    mode: Mode,
    view: ViewKind,
    base: Option<Seq<char>>,
    diff: DiffViewMode,
    context: u32,
) -> Seq<char> {
    match mode {
        Mode::Browse => "view="@ + view_label_text(view, base) + " diff="@ + panes::mode_name(diff)
            + " ctx="@ + text::decimal(context as nat),
        Mode::EditComment => "comment editor  (Shift+Enter/Ctrl+S accept)  (Esc cancel)"@,
        Mode::EditPrompt => "prompt editor  (Shift+Enter/Ctrl+S copy)  (Esc close)"@,
        Mode::CommentList => "comments  (Enter mark, R resolve, Del discard)  (Esc close)"@,
    }
}

/// The footer: what is shown and how, then the status where there is room for it.
pub open spec fn footer_line(left: Seq<char>, status: Seq<char>, width: int) -> Seq<char> {
    let short = shortened(left, width);
    let suffix = "  |  "@ + status;
    if status.len() > 0 && short.len() + suffix.len() <= width {
        short + suffix
    } else {
        short
    }
}

/// What the footer is made of.
pub struct FooterState<'a> {
    pub mode: Mode,
    pub view: ViewKind,
    pub base: Option<&'a str>,
    pub diff: DiffViewMode,
    pub context: u32,
    pub status: &'a str,
}

/// The footer: what is shown and how, then the status where there is room for it.
pub fn footer_text(s: &FooterState<'_>, width: u16) -> (out: String)
    ensures
        out@ == footer_line(
            footer_left(s.mode, s.view, hash::opt_str(s.base), s.diff, s.context),
            s.status@,
            width as int,
        ),
{
    let left = match s.mode {
        Mode::Browse => {
            let mut left = "view=".to_string();
            let label = view_label(s.view, s.base);
            left.append(label.as_str());
            left.append(" diff=");
            left.append(panes::diff_view_name(s.diff));
            left.append(" ctx=");
            text::push_decimal(&mut left, s.context as u64);
            assert(left@ =~= footer_left(
                s.mode,
                s.view,
                hash::opt_str(s.base),
                s.diff,
                s.context,
            ));
            left
        },
        Mode::EditComment => "comment editor  (Shift+Enter/Ctrl+S accept)  (Esc cancel)".to_string(),
        Mode::EditPrompt => "prompt editor  (Shift+Enter/Ctrl+S copy)  (Esc close)".to_string(),
        Mode::CommentList => {
            "comments  (Enter mark, R resolve, Del discard)  (Esc close)".to_string()
        },
    };
    let mut out = fit_with_ellipsis(left.as_str(), width as usize);
    let mut suffix = "  |  ".to_string();
    suffix.append(s.status);
    let status_len: usize = text::chars(s.status).len();
    let short_len: usize = text::chars(out.as_str()).len();
    let suffix_len: usize = text::chars(suffix.as_str()).len();
    if status_len > 0 && short_len <= width as usize && suffix_len <= width as usize - short_len {
        out.append(suffix.as_str());
    }
    out
}

/// The title of the prompt.
pub fn prompt_title(mode: Mode) -> (r: &'static str)
    ensures
        r@ == (if mode == Mode::EditPrompt {
            "LLM Prompt (editable)  (Shift+Enter/Ctrl+S copy, Esc close)"@
        } else {
            "LLM Prompt Preview (collated)"@
        }),
{
    match mode {
        Mode::EditPrompt => "LLM Prompt (editable)  (Shift+Enter/Ctrl+S copy, Esc close)",
        _ => "LLM Prompt Preview (collated)",
    }
}

/// The title of the editor of a comment.
pub open spec fn editor_title_text(path: Seq<char>, at: CommentLocator) -> Seq<char> {
    "Comment "@ + path + (match at {
        CommentLocator::File => " (file)"@,
        CommentLocator::Line { side, line } => ":"@ + text::decimal(line as nat) + " ("@
            + hash::side_name(side) + ")"@,
    }) + "  (Shift+Enter/Ctrl+S accept)"@
}

/// The title of the editor of a comment.
pub fn editor_title(target: &CommentTarget) -> (out: String)
    ensures
        out@ == editor_title_text(target.path@, target.locator),
{
    let mut out = "Comment ".to_string();
    out.append(target.path.as_str());
    match target.locator {
        CommentLocator::File => {
            out.append(" (file)");
        },
        CommentLocator::Line { side, line } => {
            out.append(":");
            text::push_decimal(&mut out, line as u64);
            out.append(" (");
            out.append(hash::side_label(side));
            out.append(")");
        },
    }
    out.append("  (Shift+Enter/Ctrl+S accept)");
    assert(out@ =~= editor_title_text(target.path@, target.locator));
    out
}

/// `n`, at least `low` and at most `high`.
pub open spec fn between(n: int, low: int, high: int) -> int {
    if n < low {
        low
    } else if n > high {
        high
    } else {
        n
    }
}

/// `a` less `b`, and 0 where `b` is more.
pub open spec fn less(a: int, b: int) -> int {
    if a >= b {
        a - b
    } else {
        0
    }
}

/// What lies inside the border of an area; nothing where it is too small for one.
pub open spec fn inside(a: Area) -> (int, int, int, int) {
    if a.width < 2 || a.height < 2 {
        (0, 0, 0, 0)
    } else {
        (between(a.x + 1, 0, u16::MAX as int), between(a.y + 1, 0, u16::MAX as int), a.width - 2, a.height
            - 2)
    }
}

/// Where the editor of a comment stands: below the line of the cursor, above it
/// where there is no room below, and never above the pane.
pub open spec fn editor_area(diff: Area, cursor_visual: u32, scroll: u16) -> (int, int, int, int) {
    let (ix, iy, iw, ih) = inside(diff);
    let h = between(less(diff.height as int, 2), 3, 6);
    let w = between(less(diff.width as int, 4), 20, 90);
    let at = between(
        iy + between(less(cursor_visual as int, scroll as int), 0, u16::MAX as int),
        0,
        u16::MAX as int,
    );
    let below = between(at + 1, 0, u16::MAX as int);
    let y = if below + h > iy + ih {
        less(at, h)
    } else {
        below
    };
    (
        between(ix + less(iw, w) / 2, 0, u16::MAX as int),
        if y < iy {
            iy
        } else {
            y
        },
        w,
        h,
    )
}

/// Where the editor of a comment stands.
pub fn editor_popup(diff: Area, cursor_visual: u32, scroll: u16) -> (r: Area)
    ensures
        editor_area(diff, cursor_visual, scroll) == (
            r.x as int,
            r.y as int,
            r.width as int,
            r.height as int,
        ),
{
    let (ix, iy, iw, ih): (u16, u16, u16, u16) = if diff.width < 2 || diff.height < 2 {
        (0, 0, 0, 0)
    } else {
        (diff.x.saturating_add(1), diff.y.saturating_add(1), diff.width - 2, diff.height - 2)
    };
    let room: u16 = diff.height.saturating_sub(2);
    let h: u16 = if room < 3 {
        3
    } else if room > 6 {
        6
    } else {
        room
    };
    let wide: u16 = diff.width.saturating_sub(4);
    let w: u16 = if wide < 20 {
        20
    } else if wide > 90 {
        90
    } else {
        wide
    };
    let down: u32 = cursor_visual.saturating_sub(scroll as u32);
    let down: u16 = if down > u16::MAX as u32 {
        u16::MAX
    } else {
        down as u16
    };
    let at: u16 = iy.saturating_add(down);
    let below: u16 = at.saturating_add(1);
    let mut y: u16 = if below as u32 + h as u32 > iy as u32 + ih as u32 {
        at.saturating_sub(h)
    } else {
        below
    };
    if y < iy {
        y = iy;
    }
    let gap: u16 = iw.saturating_sub(w) / 2;
    let x: u16 = ix.saturating_add(gap);
    Area { x, y, width: w, height: h }
}

/// Where the text cursor stands in an area, by its row and column; nothing where it
/// lies outside.
pub fn text_cursor(area: Area, row: usize, column: usize) -> (r: Option<(u16, u16)>)
    ensures
        r == (if row < area.height && column < area.width && area.x + column <= u16::MAX
            && area.y + row <= u16::MAX {
            Some(((area.x + column) as u16, (area.y + row) as u16))
        } else {
            None
        }),
{
    if row < area.height as usize && column < area.width as usize {
        let x: u32 = area.x as u32 + column as u32;
        let y: u32 = area.y as u32 + row as u32;
        if x <= u16::MAX as u32 && y <= u16::MAX as u32 {
            return Some((x as u16, y as u16));
        }
    }
    None
}

} // verus!
