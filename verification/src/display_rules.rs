//! What the screen is for: that what is selected is seen, that rows carry their own
//! numbers and marks, and that moving about leads to the nearest place.
use crate::diff::Kind;
use crate::file_tree;
use crate::file_tree::TreeRowView;
use crate::metrics;
use crate::panes;
use crate::review;
use crate::review::{CommentState, CommentView, LineKey, ReviewView};
use crate::rows::RowView;
use crate::screen;
use crate::session;
use crate::session::{CommentLocator, FileEntry, FileEntryView};
use crate::style;
use crate::text;
use crate::ui;
use crate::ui::PaneView;
use vstd::prelude::*;

verus! {

/// Going on from a place leads to the nearest one that is looked for: it is one, and none
/// lies between; where it leads out, there is none on that side.
pub proof fn law_found_is_the_nearest(ok: Seq<bool>, i: int, forward: bool)
    requires
        -1 <= i <= ok.len(),
    ensures
        ({
            let n = panes::found_from(ok, i, forward);
            &&& -1 <= n <= ok.len()
            &&& forward && i >= 0 ==> i <= n && (n < ok.len() ==> ok[n]) && forall|j: int|
                i <= j < n ==> !#[trigger] ok[j]
            &&& !forward && i < ok.len() ==> n <= i && (n >= 0 ==> ok[n]) && forall|j: int|
                n < j <= i ==> !#[trigger] ok[j]
        }),
    decreases
            (if forward {
                ok.len() - i
            } else {
                i + 1
            }),
{
    if 0 <= i < ok.len() && !ok[i] {
        if forward {
            law_found_is_the_nearest(ok, i + 1, forward);
        } else {
            law_found_is_the_nearest(ok, i - 1, forward);
        }
    }
}

/// The next file to review is the first behind the selected one, or the last before it,
/// that is not marked as reviewed.
pub proof fn law_next_file_is_the_nearest_unreviewed(
    files: Seq<FileEntry>,
    reviewed: Map<Seq<char>, Seq<char>>,
    selected: int,
    forward: bool,
)
    requires
        0 <= selected < files.len(),
    ensures
        ({
            let n = panes::found_from(
                panes::not_reviewed(files, reviewed),
                if forward {
                    selected + 1
                } else {
                    selected - 1
                },
                forward,
            );
            &&& 0 <= n < files.len() ==> !reviewed.contains_key(files[n].path@) && (if forward {
                n > selected
            } else {
                n < selected
            })
            &&& forall|j: int|
                0 <= j < files.len() && (if forward {
                    selected < j < n
                } else {
                    n < j < selected
                }) ==> reviewed.contains_key((#[trigger] files[j]).path@)
        }),
{
    let ok = panes::not_reviewed(files, reviewed);
    let start = if forward {
        selected + 1
    } else {
        selected - 1
    };
    law_found_is_the_nearest(ok, start, forward);
    assert forall|j: int|
        0 <= j < files.len() && (if forward {
            selected < j < panes::found_from(ok, start, forward)
        } else {
            panes::found_from(ok, start, forward) < j < selected
        }) implies reviewed.contains_key((#[trigger] files[j]).path@) by {
        assert(!ok[j]);
    }
}

/// A file is found by its path, at the first place where it stands.
pub proof fn law_file_is_found_by_its_path(files: Seq<FileEntry>, path: Seq<char>)
    ensures
        match panes::position_of(files, path) {
            Some(n) => 0 <= n < files.len() && files[n].path@ == path && forall|j: int|
                0 <= j < n ==> (#[trigger] files[j]).path@ != path,
            None => forall|j: int| 0 <= j < files.len() ==> (#[trigger] files[j]).path@ != path,
        },
    decreases files.len(),
{
    if files.len() > 0 && files[0].path@ != path {
        let rest = files.drop_first();
        law_file_is_found_by_its_path(rest, path);
        assert forall|j: int| 0 < j < files.len() implies #[trigger] files[j] == rest[j - 1] by {}
        match panes::position_of(rest, path) {
            Some(n) => {
                assert(files[n + 1] == rest[n]);
            },
            None => {},
        }
    }
}

/// Moving by some places stays in the list, and goes that far where the list does.
pub proof fn law_steps_stay_in_the_list(n: int, len: int)
    requires
        len >= 0,
    ensures
        len > 0 ==> 0 <= panes::within(n, len) < len,
        0 <= n < len ==> panes::within(n, len) == n,
        n < 0 ==> panes::within(n, len) == 0,
        len > 0 && n >= len ==> panes::within(n, len) == len - 1,
{
}

/// After scrolling, the row of the selected file is seen, and the list moves only where it
/// was not.
pub proof fn law_selected_file_is_seen(row: int, scroll: int, height: u16)
    requires
        0 <= row,
        0 <= scroll,
        height > 0,
    ensures
        ({
            let s = panes::file_scroll_for(row, scroll, height);
            &&& s <= row < s + height
            &&& scroll <= row < scroll + height ==> s == scroll
        }),
{
}

/// What is seen of a list is the part that starts where it is scrolled to, as long as the
/// window is high.
pub proof fn law_window_shows_a_part<A>(s: Seq<A>, scroll: int, height: int, i: int)
    requires
        0 <= scroll,
        0 < height,
        0 <= i < screen::window(s, scroll, height).len(),
    ensures
        screen::window(s, scroll, height).len() <= height,
        screen::window(s, scroll, height)[i] == s[scroll + i],
        screen::window(s, scroll, height).len() < height ==> scroll + screen::window(
            s,
            scroll,
            height,
        ).len() == s.len(),
{
}

/// The heights of some rows, as long as they can be counted.
spec fn sum(h: Seq<u16>) -> int
    decreases h.len(),
{
    if h.len() == 0 {
        0
    } else {
        sum(h.drop_last()) + h.last()
    }
}

proof fn lemma_total_is_sum(h: Seq<u16>)
    ensures
        sum(h) >= 0,
        metrics::total_height(h) == (if sum(h) <= u32::MAX {
            sum(h)
        } else {
            u32::MAX as int
        }),
    decreases h.len(),
{
    if h.len() > 0 {
        lemma_total_is_sum(h.drop_last());
    }
}

/// The rows are stacked without gaps: the first starts at the top, each next one where the
/// one before ends, and the whole is as high as where the last ends.
pub proof fn law_rows_are_stacked(offsets: Seq<u32>, heights: Seq<u16>, total: u32, i: int)
    requires
        metrics::are_stacked(offsets, heights, total),
        total < u32::MAX,
        0 <= i < offsets.len(),
    ensures
        offsets[0] == 0,
        i + 1 < offsets.len() ==> offsets[i + 1] == offsets[i] + heights[i],
        i + 1 == offsets.len() ==> total == offsets[i] + heights[i],
{
    let n = offsets.len() as int;
    assert(heights.take(0) =~= seq![]);
    lemma_total_is_sum(heights);
    lemma_total_is_sum(heights.take(i));
    lemma_total_is_sum(heights.take(i + 1));
    assert(heights.take(i + 1).drop_last() =~= heights.take(i));
    assert(heights.take(n) =~= heights);
    metrics::lemma_total_grows(heights, i + 1, n);
    metrics::lemma_total_grows(heights, i, n);
    if i + 1 < n {
        assert(offsets[i + 1] == metrics::total_height(heights.take(i + 1)));
    }
}

/// The comment that stands at the place of a row.
pub open spec fn comment_on_row(
    m: ReviewView,
    path: Option<Seq<char>>,
    r: RowView,
) -> Option<CommentView> {
    match (path, session::row_locator(r)) {
        (Some(p), Some(at)) => session::comment_at(m, p, at),
        _ => None,
    }
}

/// A row starts with the mark of the comment at its place: one for what is open, another
/// for what is resolved, and none where there is no comment or a blank one. The row of the
/// cursor is reversed, and no other is.
pub proof fn law_row_is_marked_by_its_comment(
    r: RowView,
    m: ReviewView,
    p: PaneView,
    selected: bool,
)
    ensures
        ({
            let l = ui::row_line(r, m, p, selected);
            let c = comment_on_row(m, p.path, r);
            &&& !(r is Section) ==> l.style.reversed == selected
            &&& r is Section ==> l.spans.len() == 1 && l.spans[0].style.reversed == selected
            &&& !(r is Section) ==> l.spans.len() > 0 && l.spans[0].content == (if c is None
                || text::is_blank(c->0.body) {
                "  "@
            } else if c->0.resolved {
                "✓ "@
            } else {
                "💬"@
            })
        }),
{
}

/// Whether a text is a number with blanks before it, or blanks alone where there is none.
pub open spec fn is_number(s: Seq<char>, n: Option<u32>) -> bool {
    match n {
        Some(n) => exists|b: nat| s == #[trigger] text::repeated(' ', b) + text::decimal(n as nat),
        None => forall|i: int| 0 <= i < s.len() ==> #[trigger] s[i] == ' ',
    }
}

proof fn lemma_gutter_number(n: Option<u32>, w: nat)
    ensures
        is_number(metrics::gutter_number(n, w), n),
        metrics::gutter_number(n, w).len() >= w,
{
    match n {
        Some(n) => {
            let d = text::decimal(n as nat);
            if d.len() < w {
                assert(metrics::right_aligned(d, w) == text::repeated(' ', (w - d.len()) as nat)
                    + d);
            } else {
                assert(text::repeated(' ', 0) + d =~= d);
            }
        },
        None => {},
    }
}

/// A row shows its own numbers, those of the old version before those of the new one, and
/// the sign of what became of its line; then its code.
pub proof fn law_row_shows_its_numbers(r: RowView, m: ReviewView, p: PaneView, selected: bool)
    ensures
        ({
            let l = ui::row_line(r, m, p, selected).spans;
            match r {
                RowView::Unified { kind, old_line, new_line, spans } => {
                    &&& l.len() == 7 + spans.len()
                    &&& l[1].content == seq![
                        if kind is Add {
                            '+'
                        } else if kind is Remove {
                            '-'
                        } else {
                            ' '
                        },
                    ]
                    &&& is_number(l[3].content, old_line)
                    &&& is_number(l[5].content, new_line)
                    &&& l.skip(7) == spans
                },
                RowView::Decorated { line_number, spans, .. } => {
                    &&& l.len() == 5 + spans.len()
                    &&& is_number(
                        l[1].content,
                        if line_number > 0 {
                            Some(line_number)
                        } else {
                            None
                        },
                    )
                    &&& l.skip(5) == spans
                },
                RowView::SideBySide { left_kind, right_kind, old_line, new_line, .. } => {
                    &&& is_number(l[2].content, old_line)
                    &&& l[4].content == seq![
                        if left_kind == Some(Kind::Remove) {
                            '-'
                        } else {
                            ' '
                        },
                    ]
                    &&& exists|i: int|
                        6 <= i < l.len() - 3 && is_number((#[trigger] l[i]).content, new_line) && l[i
                            + 2].content == seq![
                            if right_kind == Some(Kind::Add) {
                                '+'
                            } else {
                                ' '
                            },
                        ]
                },
                _ => true,
            }
        }),
{
    let l = ui::row_line(r, m, p, selected).spans;
    match r {
        RowView::Unified { kind, old_line, new_line, spans } => {
            lemma_gutter_number(old_line, p.old_w);
            lemma_gutter_number(new_line, p.new_w);
            assert(l.skip(7) =~= spans);
        },
        RowView::Decorated { line_number, spans, .. } => {
            let n = if line_number > 0 {
                Some(line_number)
            } else {
                None
            };
            lemma_gutter_number(n, p.new_w);
            assert(l.skip(5) =~= spans);
        },
        RowView::SideBySide { old_line, new_line, left, right, .. } => {
            lemma_gutter_number(old_line, p.old_w);
            lemma_gutter_number(new_line, p.new_w);
            let marker = ui::marker_view(ui::marker_state(m, p.path, session::row_locator(r)));
            let avail = ui::side_room(marker.content, p.old_w, p.new_w, p.width as nat);
            let bg = if !p.deleted_file && r->left_kind == Some(Kind::Remove) {
                Some(style::Color::Rgb(60, 0, 0))
            } else {
                None
            };
            let i = 7 + ui::side_view(left, bg, avail / 2).len() as int;
            assert(l[i].content == metrics::gutter_number(new_line, p.new_w));
            assert(is_number(l[i].content, new_line));
        },
        _ => {},
    }
}

/// The greatest number of some rows is at least that of each.
pub proof fn law_widest_number_fits(r: Seq<RowView>, i: int)
    requires
        0 <= i < r.len(),
    ensures
        metrics::old_line_of(r[i]) matches Some(n) ==> n <= metrics::max_old(r),
        metrics::new_line_of(r[i]) matches Some(n) ==> n <= metrics::max_new(r),
    decreases r.len(),
{
    if i < r.len() - 1 {
        assert(r.drop_last()[i] == r[i]);
        law_widest_number_fits(r.drop_last(), i);
    }
}

/// A file counts as open where a comment at some place of it is not resolved, as settled
/// where it has comments and all are, and as silent where it has none.
pub proof fn law_state_tells_whether_anything_is_open(m: ReviewView, path: Seq<char>)
    ensures
        screen::state_of(m, path) == CommentState::HasUnresolved <==> exists|at: CommentLocator|
            (#[trigger] session::comment_at(m, path, at)) is Some && !session::comment_at(
                m,
                path,
                at,
            )->0.resolved,
        screen::state_of(m, path) == CommentState::Empty <==> forall|at: CommentLocator|
            (#[trigger] session::comment_at(m, path, at)) is None,
{
    let f = review::file_or_blank(m, path);
    assert(session::comment_at(m, path, CommentLocator::File) == f.file_comment);
    assert forall|k: LineKey| #[trigger] f.comments.contains_key(k) implies session::comment_at(
        m,
        path,
        CommentLocator::Line { side: k.side, line: k.line },
    ) == Some(f.comments[k]) by {
        assert(LineKey { side: k.side, line: k.line } == k);
    }
    if f.has_unresolved() && !(f.file_comment is Some && !f.file_comment->0.resolved) {
        let k = choose|k: LineKey| #[trigger] f.comments.contains_key(k) && !f.comments[k].resolved;
        assert(session::comment_at(
            m,
            path,
            CommentLocator::Line { side: k.side, line: k.line },
        ) is Some);
    }
    if exists|at: CommentLocator|
        (#[trigger] session::comment_at(m, path, at)) is Some && !session::comment_at(
            m,
            path,
            at,
        )->0.resolved {
        let at = choose|at: CommentLocator|
            (#[trigger] session::comment_at(m, path, at)) is Some && !session::comment_at(
                m,
                path,
                at,
            )->0.resolved;
        match at {
            CommentLocator::File => {},
            CommentLocator::Line { side, line } => {
                assert(f.comments.contains_key(LineKey { side, line }));
            },
        }
    }
    if forall|at: CommentLocator| (#[trigger] session::comment_at(m, path, at)) is None {
        assert(f.comments =~= Map::<LineKey, CommentView>::empty()) by {
            assert forall|k: LineKey| !f.comments.contains_key(k) by {
                if f.comments.contains_key(k) {
                    assert(session::comment_at(
                        m,
                        path,
                        CommentLocator::Line { side: k.side, line: k.line },
                    ) is Some);
                }
            }
        }
    }
}

/// Each row of the tree of files has one line, in the same order; that of a file has a
/// mark just where the file is reviewed, stands out where something is open, and is dimmed
/// where it is reviewed or all is settled.
pub proof fn law_each_row_of_the_tree_has_its_line(
    rows: Seq<TreeRowView>,
    files: Seq<FileEntryView>,
    m: ReviewView,
    reviewed: Map<Seq<char>, Seq<char>>,
    i: int,
)
    requires
        forall|r: int|
            0 <= r < rows.len() ==> ((#[trigger] rows[r]).is_dir || (rows[r].file_index is Some
                && rows[r].file_index->0 < files.len())),
        0 <= i < rows.len(),
    ensures
        ({
            let l = screen::tree_lines(rows, files, m, reviewed);
            &&& l.len() == rows.len()
            &&& l[i].spans.len() == 1
            &&& rows[i].is_dir ==> l[i].spans[0].content == rows[i].label
            &&& !rows[i].is_dir ==> {
                let path = files[rows[i].file_index->0 as int].path;
                let state = screen::state_of(m, path);
                &&& !reviewed.contains_key(path) ==> l[i].spans[0].content == rows[i].label
                &&& reviewed.contains_key(path) ==> l[i].spans[0].content
                    == screen::marked_label(rows[i].label)
                &&& state == CommentState::HasUnresolved ==> l[i].spans[0].style.bold
                    && l[i].spans[0].style.underlined
                &&& state != CommentState::HasUnresolved ==> !l[i].spans[0].style.underlined
                &&& l[i].spans[0].style.dim == (reviewed.contains_key(path) || state
                    == CommentState::ResolvedOnly)
            }
        }),
    decreases rows.len(),
{
    let front = rows.drop_last();
    assert forall|r: int| 0 <= r < front.len() implies ((#[trigger] front[r]).is_dir || (
    front[r].file_index is Some && front[r].file_index->0 < files.len())) by {
        assert(front[r] == rows[r]);
    }
    assert(rows[rows.len() - 1] == rows.last());
    let l = screen::tree_lines(rows, files, m, reviewed);
    let g = screen::tree_lines(front, files, m, reviewed);
    let last = screen::tree_line(rows.last(), files, m, reviewed);
    assert(last.len() == 1);
    if front.len() > 0 {
        if i < front.len() {
            assert(front[i] == rows[i]);
            law_each_row_of_the_tree_has_its_line(front, files, m, reviewed, i);
            assert(l[i] == g[i]);
        } else {
            law_each_row_of_the_tree_has_its_line(front, files, m, reviewed, 0);
        }
    }
    if i == rows.len() - 1 {
        assert(l[i] == last[0]);
    }
}

/// The lines of the tree: in front of a name stands one column of three characters for each
/// directory above it, which is blank where nothing follows in that directory and has a
/// line down it where something does, and then a branch that ends at the last name of a
/// directory and goes on elsewhere.
pub proof fn law_branches_lead_to_the_name(stack: Seq<bool>, is_last: bool, i: int)
    requires
        0 <= i < stack.len(),
    ensures
        ({
            let p = file_tree::tree_prefix_text(stack, is_last);
            &&& p.len() == 3 * stack.len() + 3
            &&& p[3 * i] == (if stack[i] {
                ' '
            } else {
                '│'
            })
            &&& p[3 * i + 1] == ' ' && p[3 * i + 2] == ' '
            &&& p[3 * stack.len() as int] == (if is_last {
                '└'
            } else {
                '├'
            })
        }),
{
    reveal_strlit("└─ ");
    reveal_strlit("├─ ");
    lemma_tree_columns(stack, i);
    let p = file_tree::tree_prefix_text(stack, is_last);
    let c = file_tree::columns_text(stack);
    assert(p[3 * i] == c[3 * i]);
    assert(p[3 * i + 1] == c[3 * i + 1]);
    assert(p[3 * i + 2] == c[3 * i + 2]);
}

proof fn lemma_tree_columns(stack: Seq<bool>, i: int)
    requires
        0 <= i < stack.len(),
    ensures
        ({
            let c = file_tree::columns_text(stack);
            &&& c.len() == 3 * stack.len()
            &&& c[3 * i] == (if stack[i] {
                ' '
            } else {
                '│'
            })
            &&& c[3 * i + 1] == ' ' && c[3 * i + 2] == ' '
        }),
    decreases stack.len(),
{
    reveal_strlit("   ");
    reveal_strlit("│  ");
    let front = stack.drop_last();
    if front.len() == 0 {
        assert(file_tree::columns_text(front) =~= seq![]);
    } else if i < front.len() {
        lemma_tree_columns(front, i);
    } else {
        lemma_tree_columns(front, 0);
    }
}

} // verus!
