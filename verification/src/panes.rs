//! The two panes: what is selected in them, and which part of them is shown.
use crate::diff::Kind;
use crate::file_tree::FileTreeView;
use crate::metrics::DiffMetrics;
use crate::ordmap::OrdMap;
use crate::review::{LineKey, LineSide};
use crate::rows;
use crate::rows::{RenderRow, RowView};
use crate::session;
use crate::session::{DiffViewMode, FileChangeKind, FileEntry};
use crate::text;
use vstd::prelude::*;

verus! {

/// `n`, kept between the first and the last of `len` places.
pub open spec fn within(n: int, len: int) -> int {
    if len == 0 || n < 0 {
        0
    } else if n >= len {
        len - 1
    } else {
        n
    }
}

/// The place `delta` places on from `cur` among `len` places, or the first or the
/// last where it lies outside.
pub fn step(cur: usize, delta: i32, len: usize) -> (r: usize)
    ensures
        r == within(cur + delta, len as int),
{
    if len == 0 {
        return 0;
    }
    let wanted: usize = if delta < 0 {
        let back: u32 = if delta == i32::MIN {
            0x8000_0000
        } else {
            (-delta) as u32
        };
        let back: usize = back as usize;
        if back <= cur {
            cur - back
        } else {
            0
        }
    } else {
        let on: usize = delta as usize;
        if cur <= usize::MAX - on {
            cur + on
        } else {
            usize::MAX
        }
    };
    if wanted >= len {
        len - 1
    } else {
        wanted
    }
}

/// How far a page key moves in a pane of the given height.
pub open spec fn page_of(height: u16) -> i32 {
    if height <= 2 {
        1
    } else {
        (height - 1) as i32
    }
}

/// How far a page key moves in a pane of the given height.
pub fn page(height: u16) -> (r: i32)
    ensures
        r == page_of(height),
{
    if height <= 2 {
        1
    } else {
        (height - 1) as i32
    }
}

/// The diff mode in which a file is shown: the whole file in any case, and of the
/// two others side by side only for a file that has two versions.
pub open spec fn mode_for(mode: DiffViewMode, change: Option<FileChangeKind>) -> DiffViewMode {
    if mode == DiffViewMode::Decorated {
        DiffViewMode::Decorated
    } else if change == Some(FileChangeKind::Added) || change == Some(FileChangeKind::Deleted) {
        DiffViewMode::Unified
    } else {
        mode
    }
}

/// What became of the selected file.
pub open spec fn change_at(files: Seq<FileEntry>, selected: int) -> Option<FileChangeKind> {
    if 0 <= selected < files.len() {
        Some(files[selected].change)
    } else {
        None
    }
}

/// The diff mode in which the selected file is shown.
pub fn effective_diff_view_mode(
    mode: DiffViewMode,
    files: &Vec<FileEntry>,
    file_selected: usize,
) -> (r: DiffViewMode)
    ensures
        r == mode_for(mode, change_at(files@, file_selected as int)),
{
    if mode == DiffViewMode::Decorated || file_selected >= files.len() {
        return mode;
    }
    match files[file_selected].change {
        FileChangeKind::Added => DiffViewMode::Unified,
        FileChangeKind::Deleted => DiffViewMode::Unified,
        FileChangeKind::Modified => mode,
    }
}

/// The diff mode that comes next: unified and side by side take turns, and the view
/// of the whole file, which may only be started in, is left for side by side.
pub open spec fn mode_after(mode: DiffViewMode) -> DiffViewMode {
    match mode {
        DiffViewMode::SideBySide => DiffViewMode::Unified,
        _ => DiffViewMode::SideBySide,
    }
}

/// The diff mode that comes next.
pub fn next_diff_view_mode(mode: DiffViewMode) -> (r: DiffViewMode)
    ensures
        r == mode_after(mode),
{
    match mode {
        DiffViewMode::SideBySide => DiffViewMode::Unified,
        _ => DiffViewMode::SideBySide,
    }
}

/// A toggle goes between unified and side by side, so that a second one undoes it. The
/// view of the whole file is left by the first.
pub proof fn law_second_toggle_leads_back(mode: DiffViewMode)
    ensures
        mode_after(DiffViewMode::Unified) == DiffViewMode::SideBySide,
        mode_after(DiffViewMode::SideBySide) == DiffViewMode::Unified,
        mode_after(mode) != mode,
        mode_after(mode) != DiffViewMode::Decorated,
        mode != DiffViewMode::Decorated ==> mode_after(mode_after(mode)) == mode,
{
}

/// The name of a diff mode in the configuration.
pub open spec fn mode_name(mode: DiffViewMode) -> Seq<char> {
    match mode {
        DiffViewMode::Decorated => "decorated"@,
        DiffViewMode::Unified => "unified"@,
        DiffViewMode::SideBySide => "side-by-side"@,
    }
}

/// The name of a diff mode in the configuration.
pub fn diff_view_name(mode: DiffViewMode) -> (r: &'static str)
    ensures
        r@ == mode_name(mode),
{
    match mode {
        DiffViewMode::Decorated => "decorated",
        DiffViewMode::Unified => "unified",
        DiffViewMode::SideBySide => "side-by-side",
    }
}

/// The configuration key of the diff mode.
pub fn diff_view_key() -> (r: &'static str)
    ensures
        r@ == "remark.diffView"@,
{
    "remark.diffView"
}

/// The diff mode to start with: the configured one, else the whole file.
pub open spec fn configured_mode(raw: Option<Seq<char>>) -> DiffViewMode {
    if raw is Some && text::trimmed(raw->0) == "side-by-side"@ {
        DiffViewMode::SideBySide
    } else if raw is Some && text::trimmed(raw->0) == "unified"@ {
        DiffViewMode::Unified
    } else {
        DiffViewMode::Decorated
    }
}

/// The diff mode to start with: the configured one, else the whole file.
pub fn start_diff_view(raw: Option<&str>) -> (r: DiffViewMode)
    ensures
        r == configured_mode(crate::hash::opt_str(raw)),
{
    match raw {
        Some(v) => {
            let name = text::trim(v);
            if text::same(name.as_str(), "side-by-side") {
                DiffViewMode::SideBySide
            } else if text::same(name.as_str(), "unified") {
                DiffViewMode::Unified
            } else {
                DiffViewMode::Decorated
            }
        },
        None => DiffViewMode::Decorated,
    }
}

/// A mode that was saved in the configuration is started with again.
pub proof fn law_mode_reads_back(mode: DiffViewMode)
    ensures
        configured_mode(Some(mode_name(mode))) == mode,
{
    reveal_strlit("decorated");
    reveal_strlit("unified");
    reveal_strlit("side-by-side");
    let s = mode_name(mode);
    assert(!text::is_space(s[0]) && !text::is_space(s.last()));
    reveal_with_fuel(text::trimmed_start, 2);
    reveal_with_fuel(text::trimmed_end, 2);
    assert(text::trimmed(s) == s);
    assert("side-by-side"@.len() == 12 && "unified"@.len() == 7 && "decorated"@.len() == 9);
}

/// The configuration key of the number of equal lines around what changed.
pub fn diff_context_key() -> (r: &'static str)
    ensures
        r@ == "remark.diffContext"@,
{
    "remark.diffContext"
}

/// The most equal lines around what changed.
pub const MAX_DIFF_CONTEXT: u32 = 20;

/// The equal lines around what changed, where nothing is configured.
pub const DEFAULT_DIFF_CONTEXT: u32 = 3;

/// `n` equal lines, or the most there can be.
pub open spec fn capped_context(n: nat) -> u32 {
    if n > MAX_DIFF_CONTEXT {
        MAX_DIFF_CONTEXT
    } else {
        n as u32
    }
}

/// The configured number of equal lines.
pub open spec fn parsed_context(raw: Seq<char>) -> Option<u32> {
    match text::parsed_u32(text::trimmed(raw)) {
        Some(n) => Some(capped_context(n)),
        None => None,
    }
}

/// The configured number of equal lines, at most as many as there can be; nothing
/// where it is no number.
pub fn parse_diff_context(raw: &str) -> (r: Option<u32>)
    ensures
        r == parsed_context(raw@),
{
    let t = text::trim(raw);
    match text::parse_u32(t.as_str()) {
        Some(n) => Some(
            if n > MAX_DIFF_CONTEXT {
                MAX_DIFF_CONTEXT
            } else {
                n
            },
        ),
        None => None,
    }
}

/// The number of equal lines to start with: the configured one where it can be
/// read.
pub fn start_diff_context(raw: Option<&str>) -> (r: u32)
    ensures
        r == (match raw {
            Some(v) => match parsed_context(v@) {
                Some(n) => n,
                None => DEFAULT_DIFF_CONTEXT,
            },
            None => DEFAULT_DIFF_CONTEXT,
        }),
{
    match raw {
        Some(v) => match parse_diff_context(v) {
            Some(n) => n,
            None => DEFAULT_DIFF_CONTEXT,
        },
        None => DEFAULT_DIFF_CONTEXT,
    }
}

/// The number of equal lines, `delta` more than `cur`, between none and the most
/// there can be.
pub fn adjust_diff_context(cur: u32, delta: i32) -> (r: u32)
    ensures
        r == within(cur + delta, MAX_DIFF_CONTEXT + 1),
{
    let next: i64 = cur as i64 + delta as i64;
    if next < 0 {
        0
    } else if next > MAX_DIFF_CONTEXT as i64 {
        MAX_DIFF_CONTEXT
    } else {
        next as u32
    }
}

/// The first index from `i` on, in steps forward or back, at which `ok` holds; the
/// length or -1 where there is none.
pub open spec fn found_from(ok: Seq<bool>, i: int, forward: bool) -> int
    decreases
            (if forward {
                ok.len() - i
            } else {
                i + 1
            }),
{
    if i < 0 || i >= ok.len() || ok[i] {
        i
    } else if forward {
        found_from(ok, i + 1, forward)
    } else {
        found_from(ok, i - 1, forward)
    }
}

/// Which files are not marked as reviewed.
pub open spec fn not_reviewed(files: Seq<FileEntry>, reviewed: Map<Seq<char>, Seq<char>>) -> Seq<
    bool,
> {
    Seq::new(files.len(), |i: int| !reviewed.contains_key(files[i].path@))
}

/// The next file, forward or back, that is not marked as reviewed; nothing where
/// there is none.
pub fn select_next_unreviewed(
    files: &Vec<FileEntry>,
    reviewed: &OrdMap<String, String>,
    file_selected: usize,
    forward: bool,
) -> (r: Option<usize>)
    requires
        files.len() > 0 ==> file_selected < files.len(),
    ensures
        ({
            let ok = not_reviewed(files@, reviewed@);
            let start = if forward {
                file_selected + 1
            } else {
                file_selected - 1
            };
            let n = found_from(ok, start, forward);
            r == (if 0 <= n < files@.len() {
                Some(n as usize)
            } else {
                None
            })
        }),
{
    let ghost ok = not_reviewed(files@, reviewed@);
    if files.len() == 0 {
        return None;
    }
    if forward {
        let ghost n = found_from(ok, file_selected + 1, true);
        let mut i: usize = file_selected + 1;
        while i < files.len()
            invariant
                file_selected < i <= files.len() == ok.len(),
                ok == not_reviewed(files@, reviewed@),
                n == found_from(ok, i as int, true),
                n == found_from(ok, file_selected + 1, true),
                forward,
            decreases files.len() - i,
        {
            if !reviewed.contains_key(&files[i].path) {
                return Some(i);
            }
            i += 1;
        }
        None
    } else {
        let ghost n = found_from(ok, file_selected - 1, false);
        let mut i: usize = file_selected;
        while i > 0
            invariant
                0 <= i < files.len() == ok.len(),
                ok == not_reviewed(files@, reviewed@),
                n == found_from(ok, i - 1, false),
                n == found_from(ok, file_selected - 1, false),
                !forward,
            decreases i,
        {
            i -= 1;
            if !reviewed.contains_key(&files[i].path) {
                return Some(i);
            }
        }
        None
    }
}

/// The position of the file of a path in the list.
pub open spec fn position_of(files: Seq<FileEntry>, path: Seq<char>) -> Option<int>
    decreases files.len(),
{
    if files.len() == 0 {
        None
    } else if files[0].path@ == path {
        Some(0)
    } else {
        match position_of(files.drop_first(), path) {
            Some(n) => Some(n + 1),
            None => None,
        }
    }
}

proof fn lemma_position_is(files: Seq<FileEntry>, path: Seq<char>, n: int)
    requires
        0 <= n <= files.len(),
        forall|i: int| 0 <= i < n ==> (#[trigger] files[i]).path@ != path,
        n < files.len() ==> files[n].path@ == path,
    ensures
        position_of(files, path) == (if n < files.len() {
            Some(n)
        } else {
            None
        }),
    decreases n,
{
    if n > 0 {
        assert(files[0].path@ != path);
        let rest = files.drop_first();
        assert forall|i: int| 0 <= i < n - 1 implies (#[trigger] rest[i]).path@ != path by {
            assert(rest[i] == files[i + 1]);
        }
        lemma_position_is(rest, path, n - 1);
    }
}

/// The position of the file of a path in the list.
pub fn file_position(files: &Vec<FileEntry>, path: &str) -> (r: Option<usize>)
    ensures
        match r {
            Some(n) => position_of(files@, path@) == Some(n as int) && n < files.len(),
            None => position_of(files@, path@) is None,
        },
{
    let mut i: usize = 0;
    while i < files.len()
        invariant
            i <= files.len(),
            forall|j: int| 0 <= j < i ==> (#[trigger] files@[j]).path@ != path@,
        decreases files.len() - i,
    {
        if text::same(files[i].path.as_str(), path) {
            proof {
                lemma_position_is(files@, path@, i as int);
            }
            return Some(i);
        }
        i += 1;
    }
    proof {
        lemma_position_is(files@, path@, i as int);
    }
    None
}

/// The selection after the list was read again: the same file where it is still
/// there, else the same place or the last.
pub fn keep_selection(files: &Vec<FileEntry>, keep_path: Option<&str>, file_selected: usize) -> (r:
    usize)
    ensures
        r == (match keep_path {
            Some(p) => match position_of(files@, p@) {
                Some(n) => n,
                None => within(file_selected as int, files@.len() as int),
            },
            None => within(file_selected as int, files@.len() as int),
        }),
{
    match keep_path {
        Some(p) => match file_position(files, p) {
            Some(n) => n,
            None => step(file_selected, 0, files.len()),
        },
        None => step(file_selected, 0, files.len()),
    }
}

/// The first row of the tree that is shown, so that the selected row is among
/// those shown: as it was where that row is shown, else as near as it can be.
pub open spec fn file_scroll_for(row: int, scroll: int, height: u16) -> int {
    let h: int = if height == 0 {
        1
    } else {
        height as int
    };
    if row < scroll {
        row
    } else if row >= scroll + h {
        row + 1 - h
    } else {
        scroll
    }
}

/// The row of the selected file, the first where it has none.
pub open spec fn selected_row_of(tree: FileTreeView, file_selected: int) -> int {
    if 0 <= file_selected < tree.file_to_row@.len() {
        tree.file_to_row@[file_selected] as int
    } else {
        0
    }
}

/// The first row of the tree that is shown, so that the selected row is shown.
pub fn ensure_file_visible(
    tree: &FileTreeView,
    files_empty: bool,
    file_selected: usize,
    file_scroll: u16,
    height: u16,
) -> (r: u16)
    requires
        selected_row_of(*tree, file_selected as int) < usize::MAX - u16::MAX,
    ensures
        files_empty ==> r == 0,
        !files_empty ==> r == file_scroll_for(
            selected_row_of(*tree, file_selected as int),
            file_scroll as int,
            height,
        ) as u16,
{
    if files_empty {
        return 0;
    }
    let h: usize = if height == 0 {
        1
    } else {
        height as usize
    };
    let row: usize = match tree.selected_row(file_selected) {
        Some(r) => r,
        None => 0,
    };
    let scroll: usize = file_scroll as usize;
    if row < scroll {
        #[verifier::truncate]
        (row as u16)
    } else if row >= scroll + h {
        #[verifier::truncate]
        ((row + 1 - h) as u16)
    } else {
        file_scroll
    }
}

/// The last line from which a pane can be shown, at most as far as a scroll
/// position reaches.
pub open spec fn max_scroll(total: u32, height: u16) -> int {
    let h: int = if height == 0 {
        1
    } else {
        height as int
    };
    let m = if total >= h {
        total - h
    } else {
        0
    };
    if m > u16::MAX {
        u16::MAX as int
    } else {
        m
    }
}

/// A scroll position, at most the last from which the pane can be shown.
pub fn clamp_scroll(scroll: u16, total: u32, height: u16) -> (r: u16)
    ensures
        r == (if scroll > max_scroll(total, height) {
            max_scroll(total, height)
        } else {
            scroll as int
        }),
{
    let h: u32 = if height == 0 {
        1
    } else {
        height as u32
    };
    let m: u32 = if total >= h {
        total - h
    } else {
        0
    };
    if scroll as u32 > m {
        m as u16
    } else {
        scroll
    }
}

/// Where the row of the cursor starts on the screen.
pub open spec fn cursor_top(m: DiffMetrics, cursor: int) -> int {
    if 0 <= cursor < m.offsets@.len() {
        m.offsets@[cursor] as int
    } else {
        0
    }
}

/// Where the row of the cursor ends on the screen.
pub open spec fn cursor_bottom(m: DiffMetrics, cursor: int) -> int {
    let h = if 0 <= cursor < m.heights@.len() && m.heights@[cursor] > 0 {
        m.heights@[cursor] as int
    } else {
        1
    };
    let b = cursor_top(m, cursor) + h - 1;
    if b > u32::MAX {
        u32::MAX as int
    } else {
        b
    }
}

/// The first line of the diff that is shown, so that the row of the cursor is
/// shown: as it was where that row is shown, else as near as it can be, and never
/// beyond the last line from which the pane can be shown.
pub open spec fn diff_scroll_for(m: DiffMetrics, cursor: int, scroll: int, height: u16) -> int {
    let h: int = if height == 0 {
        1
    } else {
        height as int
    };
    let top = cursor_top(m, cursor);
    let bottom = cursor_bottom(m, cursor);
    let wanted = if top < scroll {
        top
    } else if bottom >= scroll + h {
        let end = if bottom < u32::MAX {
            bottom + 1
        } else {
            u32::MAX as int
        };
        if end >= h {
            end - h
        } else {
            0
        }
    } else {
        scroll
    };
    if wanted > max_scroll(m.total, height) {
        max_scroll(m.total, height)
    } else {
        wanted
    }
}

/// The first line of the diff that is shown, so that the row of the cursor is shown.
pub fn ensure_diff_visible(
    m: &DiffMetrics,
    rows_empty: bool,
    diff_cursor: usize,
    diff_scroll: u16,
    height: u16,
) -> (r: u16)
    ensures
        r == (if rows_empty {
            0
        } else {
            diff_scroll_for(*m, diff_cursor as int, diff_scroll as int, height)
        }),
{
    if rows_empty {
        return 0;
    }
    let h: u32 = if height == 0 {
        1
    } else {
        height as u32
    };
    let top: u32 = if diff_cursor < m.offsets.len() {
        m.offsets[diff_cursor]
    } else {
        0
    };
    let row_height: u16 = if diff_cursor < m.heights.len() && m.heights[diff_cursor] > 0 {
        m.heights[diff_cursor]
    } else {
        1
    };
    let bottom: u32 = top.saturating_add(row_height as u32 - 1);
    let scroll: u32 = diff_scroll as u32;
    let wanted: u32 = if top < scroll {
        top
    } else if bottom >= scroll + h {
        bottom.saturating_add(1).saturating_sub(h)
    } else {
        scroll
    };
    let most: u32 = if m.total >= h {
        m.total - h
    } else {
        0
    };
    let most: u32 = if most > u16::MAX as u32 {
        u16::MAX as u32
    } else {
        most
    };
    if wanted > most {
        most as u16
    } else {
        wanted as u16
    }
}

/// Where the row of the cursor is on the screen and fits there, it is shown in
/// full. Lines beyond what a scroll position reaches cannot be.
pub proof fn law_cursor_is_shown(m: DiffMetrics, cursor: int, scroll: int, height: u16)
    requires
        0 <= scroll <= u16::MAX,
        height > 0,
        0 <= cursor < m.offsets@.len() == m.heights@.len(),
        m.offsets@[cursor] + m.heights@[cursor] <= m.total <= u16::MAX,
        0 < m.heights@[cursor] <= height,
    ensures
        ({
            let s = diff_scroll_for(m, cursor, scroll, height);
            s <= cursor_top(m, cursor) && cursor_bottom(m, cursor) < s + height
        }),
{
}

/// A line of a diff, by its number in the old or the new version.
#[derive(Debug, Clone, Copy, PartialEq, Eq, Structural)]
pub enum KeepLine {
    Old(u32),
    New(u32),
}

/// The line with that number, where there is one.
pub open spec fn new_kept(n: Option<u32>) -> Option<KeepLine> {
    match n {
        Some(n) => Some(KeepLine::New(n)),
        None => None,
    }
}

/// The line with that number, where there is one.
pub open spec fn old_kept(n: Option<u32>) -> Option<KeepLine> {
    match n {
        Some(n) => Some(KeepLine::Old(n)),
        None => None,
    }
}

/// The line of a diff that a row shows, by which the row is found again: the new one
/// where the row has one, else the old one. A row of the view of the whole file is no
/// row of a diff, and keeps none.
pub open spec fn kept_line(r: RowView) -> Option<KeepLine> {
    match r {
        RowView::Unified { kind, old_line, new_line, .. } => match kind {
            Kind::Remove => old_kept(old_line),
            Kind::Add => new_kept(new_line),
            Kind::Context => new_kept(new_line),
            _ => None,
        },
        RowView::SideBySide { left_kind, right_kind, old_line, new_line, .. } => if right_kind
            == Some(Kind::Add) || right_kind == Some(Kind::Context) {
            new_kept(new_line)
        } else if left_kind == Some(Kind::Remove) {
            old_kept(old_line)
        } else {
            None
        },
        _ => None,
    }
}

/// The line with that number, where there is one.
fn keep_new(n: Option<u32>) -> (r: Option<KeepLine>)
    ensures
        r == new_kept(n),
{
    match n {
        Some(n) => Some(KeepLine::New(n)),
        None => None,
    }
}

/// The line with that number, where there is one.
fn keep_old(n: Option<u32>) -> (r: Option<KeepLine>)
    ensures
        r == old_kept(n),
{
    match n {
        Some(n) => Some(KeepLine::Old(n)),
        None => None,
    }
}

/// The line that the row of the cursor shows.
pub fn keep_cursor_line(diff_rows: &Vec<RenderRow>, diff_cursor: usize) -> (r: Option<KeepLine>)
    ensures
        r == (if diff_cursor < diff_rows@.len() {
            kept_line(diff_rows@[diff_cursor as int]@)
        } else {
            None
        }),
{
    if diff_cursor >= diff_rows.len() {
        return None;
    }
    match &diff_rows[diff_cursor] {
        RenderRow::Unified(r) => match r.kind {
            Kind::Remove => keep_old(r.old_line),
            Kind::Add => keep_new(r.new_line),
            Kind::Context => keep_new(r.new_line),
            _ => None,
        },
        RenderRow::SideBySide(r) => {
            let right = match r.right_kind {
                Some(Kind::Add) => true,
                Some(Kind::Context) => true,
                _ => false,
            };
            let left = match r.left_kind {
                Some(Kind::Remove) => true,
                _ => false,
            };
            if right {
                keep_new(r.new_line)
            } else if left {
                keep_old(r.old_line)
            } else {
                None
            }
        },
        _ => None,
    }
}

/// Whether a row shows a line. In the view of the whole file a line that the new
/// version lacks has the number zero.
pub open spec fn row_shows(r: RowView, k: KeepLine) -> bool {
    match (k, r) {
        (KeepLine::New(n), RowView::Unified { new_line, .. }) => new_line == Some(n),
        (KeepLine::Old(n), RowView::Unified { old_line, .. }) => old_line == Some(n),
        (KeepLine::New(n), RowView::SideBySide { new_line, .. }) => new_line == Some(n),
        (KeepLine::Old(n), RowView::SideBySide { old_line, .. }) => old_line == Some(n),
        (KeepLine::New(n), RowView::Decorated { line_number, .. }) => line_number == n && n > 0,
        (KeepLine::Old(n), RowView::Decorated { old_line_number, .. }) => old_line_number == Some(
            n,
        ),
        _ => false,
    }
}

/// A row shows the line by which it is found again.
pub proof fn law_kept_line_is_shown(r: RowView)
    ensures
        kept_line(r) is Some ==> row_shows(r, kept_line(r)->0),
{
}

/// Whether a number is the one that is looked for.
fn is_line(n: Option<u32>, m: u32) -> (r: bool)
    ensures
        r == (n == Some(m)),
{
    match n {
        Some(n) => n == m,
        None => false,
    }
}

/// Whether a row shows a line.
fn shows_line(row: &RenderRow, k: KeepLine) -> (r: bool)
    ensures
        r == row_shows(row@, k),
{
    match row {
        RenderRow::Unified(r) => match k {
            KeepLine::New(n) => is_line(r.new_line, n),
            KeepLine::Old(n) => is_line(r.old_line, n),
        },
        RenderRow::SideBySide(r) => match k {
            KeepLine::New(n) => is_line(r.new_line, n),
            KeepLine::Old(n) => is_line(r.old_line, n),
        },
        RenderRow::Decorated(r) => match k {
            KeepLine::New(n) => r.line_number == n && n > 0,
            KeepLine::Old(n) => is_line(r.old_line_number, n),
        },
        _ => false,
    }
}

/// The first row that shows a line.
pub fn find_row_for_keep_line(diff_rows: &Vec<RenderRow>, k: KeepLine) -> (r: Option<usize>)
    ensures
        match r {
            Some(n) => n < diff_rows@.len() && row_shows(diff_rows@[n as int]@, k) && forall|i: int|
                0 <= i < n ==> !row_shows((#[trigger] diff_rows@[i])@, k),
            None => forall|i: int|
                0 <= i < diff_rows@.len() ==> !row_shows((#[trigger] diff_rows@[i])@, k),
        },
{
    let mut i: usize = 0;
    while i < diff_rows.len()
        invariant
            i <= diff_rows.len(),
            forall|j: int| 0 <= j < i ==> !row_shows((#[trigger] diff_rows@[j])@, k),
        decreases diff_rows.len() - i,
    {
        if shows_line(&diff_rows[i], k) {
            return Some(i);
        }
        i += 1;
    }
    None
}

/// The line that a place of a comment stands for.
pub open spec fn line_of_key(key: LineKey) -> KeepLine {
    match key.side {
        LineSide::Old => KeepLine::Old(key.line),
        LineSide::New => KeepLine::New(key.line),
    }
}

/// The line that a place of a comment stands for.
pub fn keep_line_at(key: LineKey) -> (r: KeepLine)
    ensures
        r == line_of_key(key),
{
    match key.side {
        LineSide::Old => KeepLine::Old(key.line),
        LineSide::New => KeepLine::New(key.line),
    }
}

/// The number of the line of the new version that a row shows.
pub open spec fn row_number(r: RowView) -> Option<u32> {
    match r {
        RowView::Unified { new_line, .. } => new_line,
        RowView::SideBySide { new_line, .. } => new_line,
        RowView::Decorated { line_number, .. } => Some(line_number),
        _ => None,
    }
}

/// The number of the line of the new version that a row shows.
fn number_of_row(row: &RenderRow) -> (r: Option<u32>)
    ensures
        r == row_number(row@),
{
    match row {
        RenderRow::Unified(r) => r.new_line,
        RenderRow::SideBySide(r) => r.new_line,
        RenderRow::Decorated(r) => Some(r.line_number),
        _ => None,
    }
}

/// The number of the line of the new version that the row of the cursor shows.
pub fn keep_new_line(diff_rows: &Vec<RenderRow>, diff_cursor: usize) -> (r: Option<u32>)
    ensures
        r == (if diff_cursor < diff_rows@.len() {
            row_number(diff_rows@[diff_cursor as int]@)
        } else {
            None
        }),
{
    if diff_cursor < diff_rows.len() {
        number_of_row(&diff_rows[diff_cursor])
    } else {
        None
    }
}

/// The first row that shows the line of the new version with the number `n`.
pub fn find_row_for_new_line(diff_rows: &Vec<RenderRow>, n: u32) -> (r: Option<usize>)
    ensures
        match r {
            Some(k) => k < diff_rows@.len() && row_number(diff_rows@[k as int]@) == Some(n)
                && forall|i: int|
                0 <= i < k ==> row_number((#[trigger] diff_rows@[i])@) != Some(n),
            None => forall|i: int|
                0 <= i < diff_rows@.len() ==> row_number((#[trigger] diff_rows@[i])@) != Some(n),
        },
{
    let mut i: usize = 0;
    while i < diff_rows.len()
        invariant
            i <= diff_rows.len(),
            forall|j: int| 0 <= j < i ==> row_number((#[trigger] diff_rows@[j])@) != Some(n),
        decreases diff_rows.len() - i,
    {
        if is_line(number_of_row(&diff_rows[i]), n) {
            return Some(i);
        }
        i += 1;
    }
    None
}

/// The number of the line that the row of the cursor shows of the whole file, 0
/// for other rows.
pub fn get_current_line_number(diff_rows: &Vec<RenderRow>, diff_cursor: usize) -> (r: u32)
    ensures
        r == (if diff_cursor < diff_rows@.len() {
            match diff_rows@[diff_cursor as int]@ {
                RowView::Decorated { line_number, .. } => line_number,
                _ => 0,
            }
        } else {
            0
        }),
{
    if diff_cursor < diff_rows.len() {
        match &diff_rows[diff_cursor] {
            RenderRow::Decorated(r) => r.line_number,
            _ => 0,
        }
    } else {
        0
    }
}

/// Which rows start a hunk.
pub open spec fn hunk_starts(r: Seq<RowView>) -> Seq<bool> {
    Seq::new(r.len(), |i: int| r[i] is Section)
}

/// The cursor on the start of the next hunk, or where it was if there is none.
pub fn jump_next_hunk(diff_rows: &Vec<RenderRow>, diff_cursor: usize) -> (r: usize)
    ensures
        ({
            let n = found_from(hunk_starts(rows::row_views(diff_rows@)), diff_cursor + 1, true);
            r == (if n < diff_rows@.len() {
                n
            } else {
                diff_cursor as int
            })
        }),
{
    let ghost ok = hunk_starts(rows::row_views(diff_rows@));
    if diff_cursor >= diff_rows.len() {
        return diff_cursor;
    }
    let ghost n = found_from(ok, diff_cursor + 1, true);
    let mut i: usize = diff_cursor + 1;
    while i < diff_rows.len()
        invariant
            diff_cursor < i <= diff_rows.len() == ok.len(),
            ok == hunk_starts(rows::row_views(diff_rows@)),
            n == found_from(ok, i as int, true),
            n == found_from(ok, diff_cursor + 1, true),
        decreases diff_rows.len() - i,
    {
        let starts = match &diff_rows[i] {
            RenderRow::Section { .. } => true,
            _ => false,
        };
        if starts {
            return i;
        }
        i += 1;
    }
    diff_cursor
}

/// Which rows show code.
pub open spec fn code_rows(r: Seq<RowView>) -> Seq<bool> {
    Seq::new(r.len(), |i: int| r[i] is Unified || r[i] is SideBySide || r[i] is Decorated)
}

/// The first row that shows code, else the first row.
pub open spec fn start_row(r: Seq<RowView>) -> int {
    let n = found_from(code_rows(r), 0, true);
    if n < r.len() {
        n
    } else {
        0
    }
}

/// The first row that shows code, else the first row.
pub fn first_code_row(diff_rows: &Vec<RenderRow>) -> (r: usize)
    ensures
        r == start_row(rows::row_views(diff_rows@)),
{
    let ghost ok = code_rows(rows::row_views(diff_rows@));
    let ghost n = found_from(ok, 0, true);
    let mut i: usize = 0;
    while i < diff_rows.len()
        invariant
            i <= diff_rows.len() == ok.len(),
            ok == code_rows(rows::row_views(diff_rows@)),
            n == found_from(ok, i as int, true),
            n == found_from(ok, 0, true),
        decreases diff_rows.len() - i,
    {
        let code = match &diff_rows[i] {
            RenderRow::Unified(_) => true,
            RenderRow::SideBySide(_) => true,
            RenderRow::Decorated(_) => true,
            _ => false,
        };
        if code {
            return i;
        }
        i += 1;
    }
    0
}

/// Where the user interface is to start: a file, and a line of it where one was
/// named.
#[derive(Debug)]
pub struct JumpTarget {
    pub path: String,
    pub line: Option<LineKey>,
}

/// What is wrong with the place to start at.
#[derive(Debug, Clone, Copy, PartialEq, Eq, Structural)]
pub enum JumpError {
    LineWithoutFile,
    SideWithoutLine,
    EmptyFile,
}

impl JumpError {
    /// The error in words.
    pub open spec fn text(self) -> Seq<char> {
        match self {
            JumpError::LineWithoutFile => "--line/--side requires --file <path>"@,
            JumpError::SideWithoutLine => "--side requires --line <n>"@,
            JumpError::EmptyFile => "--file <path> must not be empty"@,
        }
    }

    /// The error in words.
    pub fn message(&self) -> (r: &'static str)
        ensures
            r@ == self.text(),
    {
        match self {
            JumpError::LineWithoutFile => "--line/--side requires --file <path>",
            JumpError::SideWithoutLine => "--side requires --line <n>",
            JumpError::EmptyFile => "--file <path> must not be empty",
        }
    }
}

/// The place to start at: a line needs a file, a side needs a line, and the path is
/// not empty. A line is one of the new version where no side was named.
pub fn build_jump_target(path: Option<String>, line: Option<u32>, side: Option<LineSide>) -> (r:
    Result<Option<JumpTarget>, JumpError>)
    ensures
        match r {
            Err(JumpError::LineWithoutFile) => (line is Some || side is Some) && path is None,
            Err(JumpError::SideWithoutLine) => path is Some && line is None && side is Some,
            Err(JumpError::EmptyFile) => path is Some && (side is Some ==> line is Some)
                && path->0@.len() == 0,
            Ok(None) => path is None && line is None && side is None,
            Ok(Some(t)) => {
                &&& path is Some
                &&& side is Some ==> line is Some
                &&& t.path@ == path->0@
                &&& t.path@.len() > 0
                &&& t.line == (match line {
                    Some(n) => Some(
                        LineKey {
                            side: match side {
                                Some(s) => s,
                                None => LineSide::New,
                            },
                            line: n,
                        },
                    ),
                    None => None::<LineKey>,
                })
            },
        },
{
    let path = match path {
        Some(p) => p,
        None => {
            if line.is_some() || side.is_some() {
                return Err(JumpError::LineWithoutFile);
            }
            return Ok(None);
        },
    };
    if line.is_none() && side.is_some() {
        return Err(JumpError::SideWithoutLine);
    }
    if text::chars(path.as_str()).len() == 0 {
        return Err(JumpError::EmptyFile);
    }
    let key = match line {
        Some(n) => Some(
            LineKey {
                side: match side {
                    Some(s) => s,
                    None => LineSide::New,
                },
                line: n,
            },
        ),
        None => None,
    };
    Ok(Some(JumpTarget { path, line: key }))
}

} // verus!
