//! What keys and the mouse ask for.
use crate::git::ViewKind;
use crate::panes;
use crate::session::{Focus, Mode};
use vstd::prelude::*;

verus! {

/// A key, without its modifiers.
#[derive(Debug, Clone, Copy, PartialEq, Eq, Structural)]
pub enum KeyCode {
    Char(char),
    Enter,
    Esc,
    Up,
    Down,
    Left,
    Right,
    PageUp,
    PageDown,
    Home,
    End,
    Delete,
    Other,
}

/// A key with its modifiers.
#[derive(Debug, Clone, Copy, PartialEq, Eq, Structural)]
pub struct KeyPress {
    pub code: KeyCode,
    pub ctrl: bool,
    pub alt: bool,
    pub shift: bool,
    pub other: bool,
}

impl KeyPress {
    /// Whether the key was pressed with no modifier.
    pub open spec fn is_bare(self) -> bool {
        !self.ctrl && !self.alt && !self.shift && !self.other
    }

    /// Whether the key was pressed with neither control nor alt.
    pub open spec fn is_direct(self) -> bool {
        !self.ctrl && !self.alt
    }

    /// Whether the key is the character `c`.
    pub open spec fn is_char(self, c: char) -> bool {
        self.code == KeyCode::Char(c)
    }

    /// Whether this key accepts what was written: Enter with shift, or `s` with
    /// control and not alt.
    pub open spec fn accepts(self) -> bool {
        (self.code == KeyCode::Enter && self.shift) || (self.is_char('s') && self.ctrl && !self.alt)
    }

    fn bare(&self) -> (r: bool)
        ensures
            r == self.is_bare(),
    {
        !self.ctrl && !self.alt && !self.shift && !self.other
    }

    fn direct(&self) -> (r: bool)
        ensures
            r == self.is_direct(),
    {
        !self.ctrl && !self.alt
    }

    fn char_is(&self, c: char) -> (r: bool)
        ensures
            r == self.is_char(c),
    {
        match self.code {
            KeyCode::Char(d) => d == c,
            _ => false,
        }
    }

    fn accept(&self) -> (r: bool)
        ensures
            r == self.accepts(),
    {
        (self.code == KeyCode::Enter && self.shift) || (self.char_is('s') && self.ctrl && !self.alt)
    }
}

/// What is open, what has the keys, and whether the panes follow the cursor.
#[derive(Debug, Clone, Copy, PartialEq, Eq, Structural)]
pub struct Flags {
    pub mode: Mode,
    pub focus: Focus,
    pub manual_scroll: bool,
    pub show_ignored: bool,
    pub show_help: bool,
    pub show_prompt: bool,
    pub show_diff_popup: bool,
}

impl Flags {
    /// Opens a view: the file list has the keys, and no window is open over it. A
    /// popup stays, and so does whether ignored files are listed.
    pub fn open_view(&mut self)
        ensures
            *final(self) == (Flags {
                mode: Mode::Browse,
                focus: Focus::Files,
                manual_scroll: false,
                show_help: false,
                show_prompt: false,
                ..*old(self)
            }),
    {
        self.mode = Mode::Browse;
        self.focus = Focus::Files;
        self.manual_scroll = false;
        self.show_help = false;
        self.show_prompt = false;
    }

    /// Opens the editor of a comment, in place of the help and the prompt.
    pub fn open_editor(&mut self)
        ensures
            *final(self) == (Flags {
                mode: Mode::EditComment,
                show_help: false,
                show_prompt: false,
                ..*old(self)
            }),
    {
        self.mode = Mode::EditComment;
        self.show_help = false;
        self.show_prompt = false;
    }

    /// Opens the list of comments, in place of the help and the prompt.
    pub fn open_comment_list(&mut self)
        ensures
            *final(self) == (Flags {
                mode: Mode::CommentList,
                show_help: false,
                show_prompt: false,
                ..*old(self)
            }),
    {
        self.mode = Mode::CommentList;
        self.show_help = false;
        self.show_prompt = false;
    }

    /// Leaves the editor or the list of comments.
    pub fn leave(&mut self)
        ensures
            *final(self) == (Flags { mode: Mode::Browse, ..*old(self) }),
    {
        self.mode = Mode::Browse;
    }

    /// Closes the prompt.
    pub fn close_prompt(&mut self)
        ensures
            *final(self) == (Flags { mode: Mode::Browse, show_prompt: false, ..*old(self) }),
    {
        self.mode = Mode::Browse;
        self.show_prompt = false;
    }

    /// Opens the popup with the diff, or closes it, and says whether it is open.
    pub fn toggle_diff_popup(&mut self) -> (open: bool)
        ensures
            open == !old(self).show_diff_popup,
            *final(self) == (Flags { show_diff_popup: open, ..*old(self) }),
    {
        self.show_diff_popup = !self.show_diff_popup;
        self.show_diff_popup
    }
}

/// What a key asks for while browsing.
#[derive(Debug, Clone, Copy, PartialEq, Eq, Structural)]
pub enum BrowseCommand {
    Nothing,
    Quit,
    ListIgnored,
    ClosePopup,
    OpenCommentList,
    OpenPrompt,
    SetView(ViewKind),
    ToggleDiffMode,
    Reload,
    ToggleReviewed,
    SelectFile(i32),
    BeginFileComment,
    MoveCursor(i32),
    NextUnreviewed { forward: bool },
    NextHunk,
    BeginComment,
    DeleteComment,
    TogglePopup,
    ToggleResolved,
    AdjustContext(i32),
}

/// What a key asks for in the file list, in a pane of the given height.
pub open spec fn files_key(key: KeyPress, height: u16) -> (Option<Focus>, BrowseCommand) {
    let page = panes::page_of(height);
    match key.code {
        KeyCode::Up => (None, BrowseCommand::SelectFile((-1) as i32)),
        KeyCode::Down => (None, BrowseCommand::SelectFile(1)),
        KeyCode::PageUp => (None, BrowseCommand::SelectFile((-page) as i32)),
        KeyCode::PageDown => (None, BrowseCommand::SelectFile(page)),
        KeyCode::Enter => (Some(Focus::Diff), BrowseCommand::Nothing),
        KeyCode::Char(c) => if c == 'k' && key.is_bare() {
            (None, BrowseCommand::SelectFile((-1) as i32))
        } else if c == 'j' && key.is_bare() {
            (None, BrowseCommand::SelectFile(1))
        } else if c == 'u' && key.ctrl {
            (None, BrowseCommand::SelectFile((-page) as i32))
        } else if c == 'd' && key.ctrl {
            (None, BrowseCommand::SelectFile(page))
        } else if c == 'c' && key.is_bare() {
            (None, BrowseCommand::BeginFileComment)
        } else {
            (None, BrowseCommand::Nothing)
        },
        _ => (None, BrowseCommand::Nothing),
    }
}

/// What a key asks for in the file list, in a pane of the given height.
pub fn handle_files_key(key: KeyPress, height: u16) -> (r: (Option<Focus>, BrowseCommand))
    ensures
        r == files_key(key, height),
{
    let page: i32 = panes::page(height);
    match key.code {
        KeyCode::Up => (None, BrowseCommand::SelectFile(-1)),
        KeyCode::Down => (None, BrowseCommand::SelectFile(1)),
        KeyCode::PageUp => (None, BrowseCommand::SelectFile(-page)),
        KeyCode::PageDown => (None, BrowseCommand::SelectFile(page)),
        KeyCode::Enter => (Some(Focus::Diff), BrowseCommand::Nothing),
        KeyCode::Char(c) => if c == 'k' && key.bare() {
            (None, BrowseCommand::SelectFile(-1))
        } else if c == 'j' && key.bare() {
            (None, BrowseCommand::SelectFile(1))
        } else if c == 'u' && key.ctrl {
            (None, BrowseCommand::SelectFile(-page))
        } else if c == 'd' && key.ctrl {
            (None, BrowseCommand::SelectFile(page))
        } else if c == 'c' && key.bare() {
            (None, BrowseCommand::BeginFileComment)
        } else {
            (None, BrowseCommand::Nothing)
        },
        _ => (None, BrowseCommand::Nothing),
    }
}

/// What a key asks for in the diff, in a pane of the given height.
pub open spec fn diff_key(key: KeyPress, height: u16) -> BrowseCommand {
    let page = panes::page_of(height);
    match key.code {
        KeyCode::Up => BrowseCommand::MoveCursor((-1) as i32),
        KeyCode::Down => BrowseCommand::MoveCursor(1),
        KeyCode::PageUp => BrowseCommand::MoveCursor((-page) as i32),
        KeyCode::PageDown => BrowseCommand::MoveCursor(page),
        KeyCode::Char(c) => if c == 'k' && key.is_bare() {
            BrowseCommand::MoveCursor((-1) as i32)
        } else if c == 'j' && key.is_bare() {
            BrowseCommand::MoveCursor(1)
        } else if c == 'u' && key.ctrl {
            BrowseCommand::MoveCursor((-page) as i32)
        } else if c == 'd' && key.ctrl {
            BrowseCommand::MoveCursor(page)
        } else if c == 'n' && key.ctrl {
            BrowseCommand::NextUnreviewed { forward: true }
        } else if c == 'n' && key.is_bare() {
            BrowseCommand::NextHunk
        } else if c == 'p' && key.ctrl {
            BrowseCommand::NextUnreviewed { forward: false }
        } else if c == 'c' && key.is_bare() {
            BrowseCommand::BeginComment
        } else if c == 'd' && key.is_bare() {
            BrowseCommand::DeleteComment
        } else if c == 'H' || (c == 'h' && key.shift) {
            BrowseCommand::TogglePopup
        } else if c == 'r' && key.is_bare() {
            BrowseCommand::ToggleResolved
        } else if c == '[' && key.is_bare() {
            BrowseCommand::AdjustContext((-1) as i32)
        } else if c == ']' && key.is_bare() {
            BrowseCommand::AdjustContext(1)
        } else {
            BrowseCommand::Nothing
        },
        _ => BrowseCommand::Nothing,
    }
}

/// What a key asks for in the diff, in a pane of the given height.
pub fn handle_diff_key(key: KeyPress, height: u16) -> (r: BrowseCommand)
    ensures
        r == diff_key(key, height),
{
    let page: i32 = panes::page(height);
    match key.code {
        KeyCode::Up => BrowseCommand::MoveCursor(-1),
        KeyCode::Down => BrowseCommand::MoveCursor(1),
        KeyCode::PageUp => BrowseCommand::MoveCursor(-page),
        KeyCode::PageDown => BrowseCommand::MoveCursor(page),
        KeyCode::Char(c) => if c == 'k' && key.bare() {
            BrowseCommand::MoveCursor(-1)
        } else if c == 'j' && key.bare() {
            BrowseCommand::MoveCursor(1)
        } else if c == 'u' && key.ctrl {
            BrowseCommand::MoveCursor(-page)
        } else if c == 'd' && key.ctrl {
            BrowseCommand::MoveCursor(page)
        } else if c == 'n' && key.ctrl {
            BrowseCommand::NextUnreviewed { forward: true }
        } else if c == 'n' && key.bare() {
            BrowseCommand::NextHunk
        } else if c == 'p' && key.ctrl {
            BrowseCommand::NextUnreviewed { forward: false }
        } else if c == 'c' && key.bare() {
            BrowseCommand::BeginComment
        } else if c == 'd' && key.bare() {
            BrowseCommand::DeleteComment
        } else if c == 'H' || (c == 'h' && key.shift) {
            BrowseCommand::TogglePopup
        } else if c == 'r' && key.bare() {
            BrowseCommand::ToggleResolved
        } else if c == '[' && key.bare() {
            BrowseCommand::AdjustContext(-1)
        } else if c == ']' && key.bare() {
            BrowseCommand::AdjustContext(1)
        } else {
            BrowseCommand::Nothing
        },
        _ => BrowseCommand::Nothing,
    }
}

/// What a key that means the same in both panes asks for, and the pane it moves
/// to; nothing for other keys.
pub open spec fn common_key(key: KeyPress) -> Option<(Option<Focus>, BrowseCommand)> {
    match key.code {
        KeyCode::Char(c) => if c == '1' {
            Some((None, BrowseCommand::SetView(ViewKind::All)))
        } else if c == '2' {
            Some((None, BrowseCommand::SetView(ViewKind::Unstaged)))
        } else if c == '3' {
            Some((None, BrowseCommand::SetView(ViewKind::Staged)))
        } else if c == '4' {
            Some((None, BrowseCommand::SetView(ViewKind::Base)))
        } else if c == 'i' && key.is_bare() {
            Some((None, BrowseCommand::ToggleDiffMode))
        } else if c == 'R' && key.is_direct() {
            Some((None, BrowseCommand::Reload))
        } else if c == 'h' && key.is_bare() {
            Some((Some(Focus::Files), BrowseCommand::Nothing))
        } else if c == 'l' && key.is_bare() {
            Some((Some(Focus::Diff), BrowseCommand::Nothing))
        } else if c == 'v' && key.is_bare() {
            Some((None, BrowseCommand::ToggleReviewed))
        } else {
            None
        },
        KeyCode::Left => if key.is_direct() {
            Some((Some(Focus::Files), BrowseCommand::Nothing))
        } else {
            None
        },
        KeyCode::Right => if key.is_direct() {
            Some((Some(Focus::Diff), BrowseCommand::Nothing))
        } else {
            None
        },
        _ => None,
    }
}

/// What a key that means the same in both panes asks for.
fn handle_common_key(key: KeyPress) -> (r: Option<(Option<Focus>, BrowseCommand)>)
    ensures
        r == common_key(key),
{
    match key.code {
        KeyCode::Char(c) => if c == '1' {
            Some((None, BrowseCommand::SetView(ViewKind::All)))
        } else if c == '2' {
            Some((None, BrowseCommand::SetView(ViewKind::Unstaged)))
        } else if c == '3' {
            Some((None, BrowseCommand::SetView(ViewKind::Staged)))
        } else if c == '4' {
            Some((None, BrowseCommand::SetView(ViewKind::Base)))
        } else if c == 'i' && key.bare() {
            Some((None, BrowseCommand::ToggleDiffMode))
        } else if c == 'R' && key.direct() {
            Some((None, BrowseCommand::Reload))
        } else if c == 'h' && key.bare() {
            Some((Some(Focus::Files), BrowseCommand::Nothing))
        } else if c == 'l' && key.bare() {
            Some((Some(Focus::Diff), BrowseCommand::Nothing))
        } else if c == 'v' && key.bare() {
            Some((None, BrowseCommand::ToggleReviewed))
        } else {
            None
        },
        KeyCode::Left => if key.direct() {
            Some((Some(Focus::Files), BrowseCommand::Nothing))
        } else {
            None
        },
        KeyCode::Right => if key.direct() {
            Some((Some(Focus::Diff), BrowseCommand::Nothing))
        } else {
            None
        },
        _ => None,
    }
}

/// The pane that has the keys afterwards.
pub open spec fn moved_focus(f: Flags, to: Option<Focus>) -> Flags {
    match to {
        Some(p) => Flags { focus: p, ..f },
        None => f,
    }
}

/// What a key asks for while browsing, and what is open afterwards. Any key makes
/// the panes follow the cursor again. While the help is open, only the keys that
/// quit, that list ignored files and that close the help do anything.
pub open spec fn browse_key(f: Flags, key: KeyPress, files_height: u16, diff_height: u16) -> (
    Flags,
    BrowseCommand,
) {
    let f = Flags { manual_scroll: false, ..f };
    let help = key.is_char('?') && key.is_direct();
    if (key.is_char('q') || key.is_char('Q')) && key.is_direct() {
        (f, BrowseCommand::Quit)
    } else if key.is_char('I') && key.is_direct() {
        (Flags { show_ignored: !f.show_ignored, ..f }, BrowseCommand::ListIgnored)
    } else if f.show_help {
        (
            Flags { show_help: !(key.code == KeyCode::Esc || help), ..f },
            BrowseCommand::Nothing,
        )
    } else if help {
        (Flags { show_help: true, ..f }, BrowseCommand::Nothing)
    } else if key.code == KeyCode::Esc {
        if f.show_diff_popup {
            (Flags { show_diff_popup: false, ..f }, BrowseCommand::ClosePopup)
        } else {
            (f, BrowseCommand::Quit)
        }
    } else if (key.is_char('C') || (key.is_char('c') && key.shift)) && key.is_direct() {
        (f, BrowseCommand::OpenCommentList)
    } else if key.is_char('p') && key.is_bare() {
        if f.show_prompt {
            (Flags { show_prompt: false, mode: Mode::Browse, ..f }, BrowseCommand::Nothing)
        } else {
            (Flags { show_prompt: true, mode: Mode::EditPrompt, ..f }, BrowseCommand::OpenPrompt)
        }
    } else {
        match common_key(key) {
            Some((to, command)) => (moved_focus(f, to), command),
            None => match f.focus {
                Focus::Files => {
                    let (to, command) = files_key(key, files_height);
                    (moved_focus(f, to), command)
                },
                Focus::Diff => (f, diff_key(key, diff_height)),
            },
        }
    }
}

/// What a key asks for while browsing.
pub fn handle_browse_key(f: &mut Flags, key: KeyPress, files_height: u16, diff_height: u16) -> (r:
    BrowseCommand)
    ensures
        (*final(f), r) == browse_key(*old(f), key, files_height, diff_height),
{
    f.manual_scroll = false;
    let direct = key.direct();
    if direct && (key.char_is('q') || key.char_is('Q')) {
        return BrowseCommand::Quit;
    }
    if direct && key.char_is('I') {
        f.show_ignored = !f.show_ignored;
        return BrowseCommand::ListIgnored;
    }
    let help = key.char_is('?') && direct;
    if f.show_help {
        if key.code == KeyCode::Esc || help {
            f.show_help = false;
        }
        return BrowseCommand::Nothing;
    }
    if help {
        f.show_help = true;
        return BrowseCommand::Nothing;
    }
    if key.code == KeyCode::Esc {
        if f.show_diff_popup {
            f.show_diff_popup = false;
            return BrowseCommand::ClosePopup;
        }
        return BrowseCommand::Quit;
    }
    if (key.char_is('C') || (key.char_is('c') && key.shift)) && direct {
        return BrowseCommand::OpenCommentList;
    }
    if key.char_is('p') && key.bare() {
        if f.show_prompt {
            f.show_prompt = false;
            f.mode = Mode::Browse;
            return BrowseCommand::Nothing;
        }
        f.show_prompt = true;
        f.mode = Mode::EditPrompt;
        return BrowseCommand::OpenPrompt;
    }
    match handle_common_key(key) {
        Some((to, command)) => {
            match to {
                Some(p) => {
                    f.focus = p;
                },
                None => {},
            }
            command
        },
        None => match f.focus {
            Focus::Files => {
                let (to, command) = handle_files_key(key, files_height);
                match to {
                    Some(p) => {
                        f.focus = p;
                    },
                    None => {},
                }
                command
            },
            Focus::Diff => handle_diff_key(key, diff_height),
        },
    }
}

/// While the help is open, no key but those that quit or list ignored files asks
/// for anything.
pub proof fn law_help_swallows_keys(f: Flags, key: KeyPress, files_height: u16, diff_height: u16)
    requires
        f.show_help,
        !(key.is_direct() && (key.is_char('q') || key.is_char('Q') || key.is_char('I'))),
    ensures
        browse_key(f, key, files_height, diff_height).1 == BrowseCommand::Nothing,
{
}

/// Escape closes what is open, and quits where nothing is.
pub proof fn law_escape(f: Flags, key: KeyPress, files_height: u16, diff_height: u16)
    requires
        key.code == KeyCode::Esc,
    ensures
        ({
            let (g, c) = browse_key(f, key, files_height, diff_height);
            if f.show_help {
                !g.show_help && c == BrowseCommand::Nothing
            } else if f.show_diff_popup {
                !g.show_diff_popup && c == BrowseCommand::ClosePopup
            } else {
                c == BrowseCommand::Quit
            }
        }),
{
}

/// What a key asks for while a comment is written.
#[derive(Debug, Clone, Copy, PartialEq, Eq, Structural)]
pub enum EditCommand {
    Cancel,
    Accept,
    Write,
}

/// What a key asks for while a comment or a prompt is written: Escape leaves it,
/// Enter with shift and `s` with control accept it, and all else is written.
pub open spec fn edit_key(key: KeyPress) -> EditCommand {
    if key.code == KeyCode::Esc {
        EditCommand::Cancel
    } else if key.accepts() {
        EditCommand::Accept
    } else {
        EditCommand::Write
    }
}

/// What a key asks for while a comment or a prompt is written.
pub fn handle_edit_key(key: KeyPress) -> (r: EditCommand)
    ensures
        r == edit_key(key),
{
    if key.code == KeyCode::Esc {
        EditCommand::Cancel
    } else if key.accept() {
        EditCommand::Accept
    } else {
        EditCommand::Write
    }
}

/// What a key asks for in the list of comments.
#[derive(Debug, Clone, Copy, PartialEq, Eq, Structural)]
pub enum ListCommand {
    Nothing,
    Close,
    Jump,
    Resolve,
    Discard,
    Select(usize),
    ToggleMark,
}

/// What a key asks for in a list of `len` comments of which one is selected.
pub open spec fn comment_list_key(key: KeyPress, selected: usize, len: usize) -> ListCommand {
    let direct = key.is_direct();
    if key.code == KeyCode::Esc {
        ListCommand::Close
    } else if len == 0 {
        ListCommand::Nothing
    } else if key.code == KeyCode::Enter && key.shift {
        ListCommand::Jump
    } else if (key.is_char('R') || (key.is_char('r') && key.shift)) && direct {
        ListCommand::Resolve
    } else if key.code == KeyCode::Delete && direct {
        ListCommand::Discard
    } else if key.code == KeyCode::Up || key.is_char('k') {
        ListCommand::Select(panes::within(selected - 1, len as int) as usize)
    } else if key.code == KeyCode::Down || key.is_char('j') {
        ListCommand::Select(panes::within(selected + 1, len as int) as usize)
    } else if key.code == KeyCode::PageUp {
        ListCommand::Select(panes::within(selected - 10, len as int) as usize)
    } else if key.code == KeyCode::PageDown {
        ListCommand::Select(panes::within(selected + 10, len as int) as usize)
    } else if key.code == KeyCode::Home {
        ListCommand::Select(0)
    } else if key.code == KeyCode::End {
        ListCommand::Select((len - 1) as usize)
    } else if key.code == KeyCode::Enter && direct {
        ListCommand::ToggleMark
    } else {
        ListCommand::Nothing
    }
}

/// What a key asks for in a list of `len` comments of which one is selected.
pub fn handle_comment_list_key(key: KeyPress, selected: usize, len: usize) -> (r: ListCommand)
    ensures
        r == comment_list_key(key, selected, len),
{
    if key.code == KeyCode::Esc {
        return ListCommand::Close;
    }
    if len == 0 {
        return ListCommand::Nothing;
    }
    let direct = key.direct();
    if key.code == KeyCode::Enter && key.shift {
        return ListCommand::Jump;
    }
    if (key.char_is('R') || (key.char_is('r') && key.shift)) && direct {
        return ListCommand::Resolve;
    }
    if key.code == KeyCode::Delete && direct {
        return ListCommand::Discard;
    }
    if key.code == KeyCode::Up || key.char_is('k') {
        ListCommand::Select(panes::step(selected, -1, len))
    } else if key.code == KeyCode::Down || key.char_is('j') {
        ListCommand::Select(panes::step(selected, 1, len))
    } else if key.code == KeyCode::PageUp {
        ListCommand::Select(panes::step(selected, -10, len))
    } else if key.code == KeyCode::PageDown {
        ListCommand::Select(panes::step(selected, 10, len))
    } else if key.code == KeyCode::Home {
        ListCommand::Select(0)
    } else if key.code == KeyCode::End {
        ListCommand::Select(len - 1)
    } else if key.code == KeyCode::Enter && direct {
        ListCommand::ToggleMark
    } else {
        ListCommand::Nothing
    }
}

/// A part of the screen.
#[derive(Debug, Clone, Copy, PartialEq, Eq, Structural)]
pub struct Area {
    pub x: u16,
    pub y: u16,
    pub width: u16,
    pub height: u16,
}

impl Area {
    /// Whether a place lies in the area. No area reaches beyond the largest place.
    pub open spec fn holds(self, column: u16, row: u16) -> bool {
        &&& self.x <= column < self.x + self.width
        &&& self.y <= row < self.y + self.height
        &&& column < u16::MAX
        &&& row < u16::MAX
    }

    /// Whether a place lies in the area.
    pub fn contains(&self, column: u16, row: u16) -> (r: bool)
        ensures
            r == self.holds(column, row),
    {
        self.x <= column && column < self.x.saturating_add(self.width) && self.y <= row && row
            < self.y.saturating_add(self.height)
    }
}

/// What the mouse did.
#[derive(Debug, Clone, Copy, PartialEq, Eq, Structural)]
pub enum MouseKind {
    LeftDown,
    ScrollUp,
    ScrollDown,
    Other,
}

/// What the mouse did, and where.
#[derive(Debug, Clone, Copy, PartialEq, Eq, Structural)]
pub struct MouseInput {
    pub kind: MouseKind,
    pub column: u16,
    pub row: u16,
}

/// The panes on the screen, and how far each is scrolled.
#[derive(Debug, Clone, Copy, PartialEq, Eq, Structural)]
pub struct Panes {
    pub files: Area,
    pub diff: Area,
    pub file_scroll: u16,
    pub diff_scroll: u16,
}

/// What the mouse asks for.
#[derive(Debug, Clone, Copy, PartialEq, Eq, Structural)]
pub enum MouseCommand {
    Nothing,
    /// Selects the file at a row of the tree.
    SelectRow(usize),
    /// Puts the cursor on the row at a line of the diff, and starts a comment there
    /// where the gutter was hit.
    PlaceCursor { visual: u32, in_gutter: bool },
    /// Scrolls the file list to a position.
    ScrollFiles(u16),
    /// Scrolls the diff to a position.
    ScrollDiff(u16),
}

/// How far below the first line inside an area with a border a place lies.
pub open spec fn inner(at: u16, start: u16) -> int {
    if at > start + 1 {
        at - start - 1
    } else {
        0
    }
}

/// How far below the first line inside an area with a border a place lies.
fn inner_offset(at: u16, start: u16) -> (r: u16)
    ensures
        r == inner(at, start),
{
    if at as u32 > start as u32 + 1 {
        at - start - 1
    } else {
        0
    }
}

/// The pane that the wheel scrolls: the one under the mouse, else the one that has
/// the keys.
pub open spec fn wheel_pane(f: Flags, m: MouseInput, p: Panes) -> Focus {
    if p.files.holds(m.column, m.row) {
        Focus::Files
    } else if p.diff.holds(m.column, m.row) {
        Focus::Diff
    } else {
        f.focus
    }
}

/// Three lines up.
pub open spec fn up(n: u16) -> u16 {
    if n >= 3 {
        (n - 3) as u16
    } else {
        0
    }
}

/// Three lines down.
pub open spec fn down(n: u16) -> u16 {
    if n <= u16::MAX - 3 {
        (n + 3) as u16
    } else {
        u16::MAX
    }
}

/// What the mouse asks for, and what has the keys afterwards. It does nothing but
/// while browsing.
pub open spec fn mouse_input(f: Flags, m: MouseInput, p: Panes) -> (Flags, MouseCommand) {
    if f.mode != Mode::Browse {
        (f, MouseCommand::Nothing)
    } else {
        match m.kind {
            MouseKind::LeftDown => {
                let f = Flags { manual_scroll: false, ..f };
                if p.files.holds(m.column, m.row) {
                    (
                        Flags { focus: Focus::Files, ..f },
                        MouseCommand::SelectRow((p.file_scroll + inner(m.row, p.files.y)) as usize),
                    )
                } else if p.diff.holds(m.column, m.row) {
                    (
                        Flags { focus: Focus::Diff, ..f },
                        MouseCommand::PlaceCursor {
                            visual: (p.diff_scroll + inner(m.row, p.diff.y)) as u32,
                            in_gutter: inner(m.column, p.diff.x) <= 12,
                        },
                    )
                } else {
                    (f, MouseCommand::Nothing)
                }
            },
            MouseKind::ScrollUp => {
                let f = Flags { manual_scroll: true, ..f };
                match wheel_pane(f, m, p) {
                    Focus::Files => (f, MouseCommand::ScrollFiles(up(p.file_scroll))),
                    Focus::Diff => (f, MouseCommand::ScrollDiff(up(p.diff_scroll))),
                }
            },
            MouseKind::ScrollDown => {
                let f = Flags { manual_scroll: true, ..f };
                match wheel_pane(f, m, p) {
                    Focus::Files => (f, MouseCommand::ScrollFiles(down(p.file_scroll))),
                    Focus::Diff => (f, MouseCommand::ScrollDiff(down(p.diff_scroll))),
                }
            },
            MouseKind::Other => (f, MouseCommand::Nothing),
        }
    }
}

/// What the mouse asks for. A scroll position is then kept to what the pane can
/// show.
pub fn handle_mouse(f: &mut Flags, m: MouseInput, p: Panes) -> (r: MouseCommand)
    ensures
        (*final(f), r) == mouse_input(*old(f), m, p),
{
    if f.mode != Mode::Browse {
        return MouseCommand::Nothing;
    }
    let in_files = p.files.contains(m.column, m.row);
    let in_diff = p.diff.contains(m.column, m.row);
    match m.kind {
        MouseKind::LeftDown => {
            f.manual_scroll = false;
            if in_files {
                f.focus = Focus::Files;
                let y: u16 = inner_offset(m.row, p.files.y);
                MouseCommand::SelectRow(p.file_scroll as usize + y as usize)
            } else if in_diff {
                f.focus = Focus::Diff;
                let y: u16 = inner_offset(m.row, p.diff.y);
                let x: u16 = inner_offset(m.column, p.diff.x);
                MouseCommand::PlaceCursor {
                    visual: p.diff_scroll as u32 + y as u32,
                    in_gutter: x <= 12,
                }
            } else {
                MouseCommand::Nothing
            }
        },
        MouseKind::ScrollUp => {
            f.manual_scroll = true;
            if in_files || (!in_diff && f.focus == Focus::Files) {
                MouseCommand::ScrollFiles(p.file_scroll.saturating_sub(3))
            } else {
                MouseCommand::ScrollDiff(p.diff_scroll.saturating_sub(3))
            }
        },
        MouseKind::ScrollDown => {
            f.manual_scroll = true;
            if in_files || (!in_diff && f.focus == Focus::Files) {
                MouseCommand::ScrollFiles(p.file_scroll.saturating_add(3))
            } else {
                MouseCommand::ScrollDiff(p.diff_scroll.saturating_add(3))
            }
        },
        MouseKind::Other => MouseCommand::Nothing,
    }
}

} // verus!
