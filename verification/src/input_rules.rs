//! What keys and the mouse are for, whatever is shown.
use crate::git::ViewKind;
use crate::keys;
use crate::keys::{
    BrowseCommand, Flags, KeyCode, KeyPress, ListCommand, MouseCommand, MouseInput, Panes,
};
use crate::panes;
use crate::review::{LineKey, LineSide};
use crate::rows::RowView;
use crate::session::{DiffViewMode, FileChangeKind, Focus};
use crate::text;
use vstd::prelude::*;

verus! {

/// The key `code` with no modifier.
pub open spec fn plain_key(code: KeyCode) -> KeyPress {
    KeyPress { code, ctrl: false, alt: false, shift: false, other: false }
}

/// The letter `c` with the control key.
pub open spec fn control_key(c: char) -> KeyPress {
    KeyPress { code: KeyCode::Char(c), ctrl: true, alt: false, shift: false, other: false }
}

/// The letters under the fingers do what the arrows do.
pub proof fn law_letters_do_what_arrows_do(f: Flags, files_height: u16, diff_height: u16)
    ensures
        ({
            let on = |code: KeyCode| keys::browse_key(f, plain_key(code), files_height, diff_height);
            &&& on(KeyCode::Char('j')) == on(KeyCode::Down)
            &&& on(KeyCode::Char('k')) == on(KeyCode::Up)
            &&& on(KeyCode::Char('h')) == on(KeyCode::Left)
            &&& on(KeyCode::Char('l')) == on(KeyCode::Right)
        }),
        keys::browse_key(f, control_key('d'), files_height, diff_height) == keys::browse_key(
            f,
            plain_key(KeyCode::PageDown),
            files_height,
            diff_height,
        ),
        keys::browse_key(f, control_key('u'), files_height, diff_height) == keys::browse_key(
            f,
            plain_key(KeyCode::PageUp),
            files_height,
            diff_height,
        ),
{
}

/// How far a command steps forward in the list of files, or in the diff.
pub open spec fn steps(c: BrowseCommand) -> int {
    match c {
        BrowseCommand::SelectFile(n) => n as int,
        BrowseCommand::MoveCursor(n) => n as int,
        _ => 0,
    }
}

/// In the list of files keys step through files, in the diff through its rows: down is
/// forward by one, a page is forward by no more than is shown, and up takes each step back.
pub proof fn law_down_is_forward_and_up_is_back(f: Flags, files_height: u16, diff_height: u16)
    requires
        !f.show_help,
    ensures
        ({
            let on = |code: KeyCode|
                keys::browse_key(f, plain_key(code), files_height, diff_height).1;
            let height = match f.focus {
                Focus::Files => files_height,
                Focus::Diff => diff_height,
            };
            &&& steps(on(KeyCode::Down)) == 1
            &&& steps(on(KeyCode::Up)) == -1
            &&& steps(on(KeyCode::PageDown)) >= 1
            &&& steps(on(KeyCode::PageUp)) == -steps(on(KeyCode::PageDown))
            &&& height > 1 ==> steps(on(KeyCode::PageDown)) < height
            &&& height > 2 ==> steps(on(KeyCode::PageDown)) == height - 1
            &&& f.focus is Files ==> on(KeyCode::Down) is SelectFile && on(KeyCode::Up)
                is SelectFile && on(KeyCode::PageDown) is SelectFile && on(KeyCode::PageUp)
                is SelectFile
            &&& f.focus is Diff ==> on(KeyCode::Down) is MoveCursor && on(KeyCode::Up)
                is MoveCursor && on(KeyCode::PageDown) is MoveCursor && on(KeyCode::PageUp)
                is MoveCursor
        }),
{
}

/// A key acts on the pane that it goes to: the list of files never moves in the diff or
/// writes on a line of it, and the diff never selects a file by steps or writes on a file.
pub proof fn law_key_acts_on_its_pane(
    f: Flags,
    key: KeyPress,
    files_height: u16,
    diff_height: u16,
)
    ensures
        ({
            let c = keys::browse_key(f, key, files_height, diff_height).1;
            &&& f.focus is Files ==> !(c is MoveCursor || c is NextHunk || c is BeginComment || c
                is DeleteComment || c is ToggleResolved || c is TogglePopup || c is AdjustContext
                || c is NextUnreviewed)
            &&& f.focus is Diff ==> !(c is SelectFile || c is BeginFileComment)
        }),
{
}

/// Keys move the focus as the panes stand: left is the list of files, right the diff, and a
/// chosen file is shown in the diff. Nothing else moves it.
pub proof fn law_focus_goes_where_the_key_points(
    f: Flags,
    key: KeyPress,
    files_height: u16,
    diff_height: u16,
)
    requires
        !f.show_help,
    ensures
        ({
            let to = keys::browse_key(f, key, files_height, diff_height).0.focus;
            let bare_char = |c: char| key == plain_key(KeyCode::Char(c));
            let left = (key.code is Left && key.is_direct()) || bare_char('h');
            let right = (key.code is Right && key.is_direct()) || bare_char('l');
            &&& left ==> to is Files
            &&& right ==> to is Diff
            &&& f.focus is Files && key.code is Enter ==> to is Diff
            &&& to != f.focus ==> left || right || key.code is Enter
        }),
{
}

/// Each of the four views has its digit, whatever else is held down.
pub proof fn law_each_view_has_its_digit(f: Flags, key: KeyPress, files_height: u16, diff_height: u16)
    requires
        !f.show_help,
    ensures
        ({
            let c = keys::browse_key(f, key, files_height, diff_height).1;
            &&& (c == BrowseCommand::SetView(ViewKind::All)) == key.is_char('1')
            &&& (c == BrowseCommand::SetView(ViewKind::Unstaged)) == key.is_char('2')
            &&& (c == BrowseCommand::SetView(ViewKind::Staged)) == key.is_char('3')
            &&& (c == BrowseCommand::SetView(ViewKind::Base)) == key.is_char('4')
        }),
{
}

/// A key that shows the help, or the files that are ignored, hides them again. The program
/// ends from anywhere by `q`.
pub proof fn law_second_key_press_takes_back(f: Flags, files_height: u16, diff_height: u16)
    ensures
        ({
            let on = |g: Flags, c: char|
                keys::browse_key(g, plain_key(KeyCode::Char(c)), files_height, diff_height);
            &&& on(f, '?').0.show_help != f.show_help
            &&& on(on(f, '?').0, '?').0.show_help == f.show_help
            &&& on(f, 'I').0.show_ignored != f.show_ignored
            &&& on(on(f, 'I').0, 'I').0.show_ignored == f.show_ignored
            &&& on(f, 'I').1 == BrowseCommand::ListIgnored
            &&& on(f, 'q').1 == BrowseCommand::Quit
            &&& !f.show_help ==> on(f, 'p').0.show_prompt != f.show_prompt
            &&& !f.show_help ==> (on(f, 'p').1 == BrowseCommand::OpenPrompt) == !f.show_prompt
            &&& !f.show_help ==> on(f, 'v').1 == BrowseCommand::ToggleReviewed
        }),
{
}

/// While a comment is written, escape drops it, and it is taken over by the enter key with
/// shift or by the letter `s` with control. Every other key writes, a letter alone among
/// them.
pub proof fn law_only_two_keys_end_writing(key: KeyPress)
    ensures
        (keys::edit_key(key) is Cancel) == (key.code is Esc),
        key.code is Enter ==> (keys::edit_key(key) is Accept) == key.shift,
        key.code is Char && key.is_bare() ==> keys::edit_key(key) is Write,
        keys::edit_key(control_key('s')) is Accept,
        keys::edit_key(key) is Accept ==> key.shift || key.ctrl,
        !(key.code is Enter || key.is_char('s') || key.code is Esc) ==> keys::edit_key(key)
            is Write,
{
}

/// What is selected in the list of comments stays in the list. One step down and one up
/// lead back, the ends are reached by their keys, and nothing is resolved or thrown away
/// but by its own key.
pub proof fn law_selection_stays_in_the_list(key: KeyPress, selected: usize, len: usize)
    requires
        selected < len,
    ensures
        ({
            let c = keys::comment_list_key(key, selected, len);
            let down = keys::comment_list_key(plain_key(KeyCode::Down), selected, len);
            let up = keys::comment_list_key(plain_key(KeyCode::Up), selected, len);
            &&& c matches ListCommand::Select(n) ==> n < len
            &&& down == ListCommand::Select(
                (if selected + 1 < len {
                    selected + 1
                } else {
                    selected as int
                }) as usize,
            )
            &&& selected + 1 < len ==> keys::comment_list_key(
                plain_key(KeyCode::Up),
                down->Select_0,
                len,
            ) == ListCommand::Select(selected)
            &&& selected == 0 ==> up == ListCommand::Select(0)
            &&& selected > 0 ==> keys::comment_list_key(
                plain_key(KeyCode::Down),
                up->Select_0,
                len,
            ) == ListCommand::Select(selected)
            &&& keys::comment_list_key(plain_key(KeyCode::Char('j')), selected, len) == down
            &&& keys::comment_list_key(plain_key(KeyCode::Char('k')), selected, len) == up
            &&& key.code is Home ==> c == ListCommand::Select(0)
            &&& key.code is End ==> c == ListCommand::Select((len - 1) as usize)
            &&& key.code is PageDown ==> c is Select && c->Select_0 >= selected
            &&& key.code is PageUp ==> c is Select && c->Select_0 <= selected
            &&& (c is Close) == (key.code is Esc)
            &&& c is Discard ==> key.code is Delete
            &&& c is Resolve ==> key.is_char('r') || key.is_char('R')
            &&& key == plain_key(KeyCode::Delete) ==> c is Discard
            &&& key == plain_key(KeyCode::Char('R')) ==> c is Resolve
            &&& c is Jump ==> key.code is Enter && key.shift
            &&& key == plain_key(KeyCode::Enter) ==> c is ToggleMark
        }),
{
}

/// In an empty list of comments there is nothing to do but to leave it.
pub proof fn law_empty_list_can_only_be_left(key: KeyPress, selected: usize)
    ensures
        keys::comment_list_key(key, selected, 0) == (if key.code is Esc {
            ListCommand::Close
        } else {
            ListCommand::Nothing
        }),
{
}

/// A click goes to the pane that it hits and to the row that is shown there: the first row
/// stands below the border, and what was scrolled away counts. In the diff it goes to the
/// gutter where it hits one of the columns left of the code.
pub proof fn law_click_hits_what_is_shown(f: Flags, m: MouseInput, p: Panes)
    requires
        f.mode is Browse,
        m.kind is LeftDown,
    ensures
        ({
            let (g, c) = keys::mouse_input(f, m, p);
            let on_files = p.files.holds(m.column, m.row);
            let on_diff = p.diff.holds(m.column, m.row);
            &&& on_files ==> g.focus is Files && c is SelectRow
            &&& on_files && m.row > p.files.y ==> c->SelectRow_0 == p.file_scroll + m.row
                - p.files.y - 1
            &&& on_files && m.row == p.files.y ==> c->SelectRow_0 == p.file_scroll
            &&& !on_files && on_diff ==> g.focus is Diff && c is PlaceCursor
            &&& !on_files && on_diff && m.row > p.diff.y ==> c->visual == p.diff_scroll + m.row
                - p.diff.y - 1
            &&& !on_files && on_diff && m.row == p.diff.y ==> c->visual == p.diff_scroll
            &&& !on_files && on_diff ==> c->in_gutter == (m.column - p.diff.x <= 13)
            &&& !on_files && !on_diff ==> c is Nothing && g.focus == f.focus
        }),
{
}

/// The wheel scrolls the pane under the pointer, or else the one that keys go to: down is
/// forward by three and up takes it back, as far as there is anything to scroll, and the
/// focus stays.
pub proof fn law_wheel_scrolls_the_pane_it_is_over(
    f: Flags,
    down: MouseInput,
    up: MouseInput,
    p: Panes,
)
    requires
        f.mode is Browse,
        down.kind is ScrollDown,
        up.kind is ScrollUp,
        up.column == down.column,
        up.row == down.row,
    ensures
        ({
            let (g, c) = keys::mouse_input(f, down, p);
            let (h, d) = keys::mouse_input(f, up, p);
            let on_files = p.files.holds(down.column, down.row) || (!p.diff.holds(
                down.column,
                down.row,
            ) && f.focus is Files);
            &&& g.focus == f.focus && h.focus == f.focus
            &&& on_files ==> c is ScrollFiles && d is ScrollFiles
            &&& !on_files ==> c is ScrollDiff && d is ScrollDiff
            &&& on_files && p.file_scroll <= u16::MAX - 3 ==> c->ScrollFiles_0 == p.file_scroll + 3
            &&& on_files && p.file_scroll >= 3 ==> d->ScrollFiles_0 == p.file_scroll - 3
            &&& on_files && p.file_scroll < 3 ==> d->ScrollFiles_0 == 0
            &&& !on_files && p.diff_scroll <= u16::MAX - 3 ==> c->ScrollDiff_0 == p.diff_scroll + 3
            &&& !on_files && p.diff_scroll >= 3 ==> d->ScrollDiff_0 == p.diff_scroll - 3
            &&& !on_files && p.diff_scroll < 3 ==> d->ScrollDiff_0 == 0
        }),
{
}

/// While something is written or chosen elsewhere, the mouse does nothing.
pub proof fn law_mouse_waits_for_browsing(f: Flags, m: MouseInput, p: Panes)
    requires
        !(f.mode is Browse),
    ensures
        keys::mouse_input(f, m, p) == (f, MouseCommand::Nothing),
{
}

/// A file that is there in one version only is never shown side by side; else a file is
/// shown as was asked, and a whole file is always shown whole.
pub proof fn law_one_version_is_not_shown_beside_itself(
    mode: DiffViewMode,
    change: Option<FileChangeKind>,
)
    ensures
        ({
            let shown = panes::mode_for(mode, change);
            &&& change == Some(FileChangeKind::Added) || change == Some(FileChangeKind::Deleted)
                ==> !(shown is SideBySide)
            &&& shown != mode ==> mode is SideBySide && shown is Unified && (change == Some(
                FileChangeKind::Added,
            ) || change == Some(FileChangeKind::Deleted))
        }),
{
}

/// A number of lines of context reads back up to the most that is shown, the white space
/// around it makes no difference, and a larger one is read as the most that is shown.
pub proof fn law_context_reads_back(n: u32)
    ensures
        panes::parsed_context(text::decimal(n as nat)) == Some(
            if n <= panes::MAX_DIFF_CONTEXT {
                n
            } else {
                panes::MAX_DIFF_CONTEXT
            },
        ),
{
    let s = text::decimal(n as nat);
    text::lemma_decimal_parses(n as nat);
    assert(!text::is_space(s[0]));
    assert(!text::is_space(s.last()));
    assert(text::trimmed_start(s) == s);
    assert(text::trimmed_end(s) == s);
}

/// The cursor starts on the first row that shows code, or at the top where none does.
pub proof fn law_cursor_starts_on_code(r: Seq<RowView>)
    ensures
        ({
            let n = panes::start_row(r);
            let is_code = |i: int| r[i] is Unified || r[i] is SideBySide || r[i] is Decorated;
            &&& (exists|i: int| 0 <= i < r.len() && #[trigger] is_code(i)) ==> 0 <= n < r.len()
                && is_code(n) && forall|i: int| 0 <= i < n ==> !#[trigger] is_code(i)
            &&& !(exists|i: int| 0 <= i < r.len() && #[trigger] is_code(i)) ==> n == 0
        }),
{
    let ok = panes::code_rows(r);
    let is_code = |i: int| r[i] is Unified || r[i] is SideBySide || r[i] is Decorated;
    assert forall|i: int| 0 <= i < r.len() implies ok[i] == #[trigger] is_code(i) by {}
    lemma_found_forward(ok, 0);
    let n = panes::found_from(ok, 0, true);
    if exists|i: int| 0 <= i < r.len() && #[trigger] is_code(i) {
        let i = choose|i: int| 0 <= i < r.len() && #[trigger] is_code(i);
        assert(ok[i]);
    }
    if n < r.len() {
        assert(is_code(n));
    }
}

proof fn lemma_found_forward(ok: Seq<bool>, i: int)
    requires
        0 <= i <= ok.len(),
    ensures
        ({
            let n = panes::found_from(ok, i, true);
            &&& i <= n <= ok.len()
            &&& n < ok.len() ==> ok[n]
            &&& forall|k: int| i <= k < n ==> !ok[k]
        }),
    decreases ok.len() - i,
{
    if i < ok.len() && !ok[i] {
        lemma_found_forward(ok, i + 1);
    }
}

/// A comment is looked for on the side that it was written on, so that a row that shows its
/// line shows the number of its line there.
pub proof fn law_comment_is_looked_for_on_its_side(key: LineKey, r: RowView)
    requires
        panes::row_shows(r, panes::line_of_key(key)),
    ensures
        match r {
            RowView::Unified { old_line, new_line, .. } => match key.side {
                LineSide::Old => old_line == Some(key.line),
                LineSide::New => new_line == Some(key.line),
            },
            RowView::SideBySide { old_line, new_line, .. } => match key.side {
                LineSide::Old => old_line == Some(key.line),
                LineSide::New => new_line == Some(key.line),
            },
            RowView::Decorated { line_number, old_line_number, .. } => match key.side {
                LineSide::Old => old_line_number == Some(key.line),
                LineSide::New => line_number == key.line,
            },
            _ => false,
        },
{
}

} // verus!
