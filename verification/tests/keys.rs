use remark::comment_list::{
    jump_to_comment_list_entry, row_of_comment, CommentListEntry, ListJump,
};
use remark::file_tree::FileTreeView;
use remark::keys::{
    handle_browse_key, handle_comment_list_key, handle_diff_key, handle_edit_key, handle_files_key,
    handle_mouse, Area, BrowseCommand, EditCommand, Flags, KeyCode, KeyPress, ListCommand,
    MouseCommand, MouseInput, MouseKind, Panes,
};
use remark::metrics::recompute_diff_metrics;
use remark::ordmap::OrdMap;
use remark::panes::{
    adjust_diff_context, build_jump_target, clamp_scroll, diff_context_key, diff_view_key,
    diff_view_name, effective_diff_view_mode, ensure_diff_visible, ensure_file_visible,
    file_position, find_row_for_keep_line, find_row_for_new_line, first_code_row,
    get_current_line_number, jump_next_hunk, keep_cursor_line, keep_line_at, keep_new_line,
    keep_selection, next_diff_view_mode, page, parse_diff_context, select_next_unreviewed,
    start_diff_context, start_diff_view, step, JumpError, KeepLine, DEFAULT_DIFF_CONTEXT,
    MAX_DIFF_CONTEXT,
};
use remark::diff::{Kind, LineStatus};
use remark::git::{strip_leading_dot, ViewKind};
use remark::review::{LineKey, LineSide};
use remark::rows::{DecoratedRow, DiffRow, RenderRow, SideBySideRow};
use remark::session::{
    CommentLocator, DiffViewMode, FileChangeKind, FileEntry, Focus, Mode,
};

fn bare(code: KeyCode) -> KeyPress {
    KeyPress {
        code,
        ctrl: false,
        alt: false,
        shift: false,
        other: false,
    }
}

fn ch(c: char) -> KeyPress {
    bare(KeyCode::Char(c))
}

fn ctrl(c: char) -> KeyPress {
    KeyPress { ctrl: true, ..ch(c) }
}

fn shift(code: KeyCode) -> KeyPress {
    KeyPress {
        shift: true,
        ..bare(code)
    }
}

fn flags() -> Flags {
    Flags {
        mode: Mode::Browse,
        focus: Focus::Files,
        manual_scroll: true,
        show_ignored: false,
        show_help: false,
        show_prompt: false,
        show_diff_popup: false,
    }
}

fn browse(f: &mut Flags, key: KeyPress) -> BrowseCommand {
    handle_browse_key(f, key, 11, 21)
}

#[test]
fn keys_that_quit() {
    for key in [ch('q'), ch('Q'), bare(KeyCode::Esc)] {
        let mut f = flags();
        assert_eq!(browse(&mut f, key), BrowseCommand::Quit);
        assert!(!f.manual_scroll);
    }
    let mut f = flags();
    assert_eq!(browse(&mut f, ctrl('q')), BrowseCommand::Nothing);
}

#[test]
fn help_swallows_most_keys() {
    let mut f = flags();
    assert_eq!(browse(&mut f, ch('?')), BrowseCommand::Nothing);
    assert!(f.show_help);
    assert_eq!(browse(&mut f, ch('v')), BrowseCommand::Nothing);
    assert!(f.show_help);
    assert_eq!(browse(&mut f, bare(KeyCode::Esc)), BrowseCommand::Nothing);
    assert!(!f.show_help);
    f.show_help = true;
    assert_eq!(browse(&mut f, ch('q')), BrowseCommand::Quit);
}

#[test]
fn escape_closes_the_popup_first() {
    let mut f = flags();
    f.show_diff_popup = true;
    assert_eq!(browse(&mut f, bare(KeyCode::Esc)), BrowseCommand::ClosePopup);
    assert!(!f.show_diff_popup);
    assert_eq!(browse(&mut f, bare(KeyCode::Esc)), BrowseCommand::Quit);
}

#[test]
fn keys_of_both_panes() {
    let mut f = flags();
    assert_eq!(browse(&mut f, ch('I')), BrowseCommand::ListIgnored);
    assert!(f.show_ignored);
    assert_eq!(browse(&mut f, ch('1')), BrowseCommand::SetView(ViewKind::All));
    assert_eq!(browse(&mut f, ch('2')), BrowseCommand::SetView(ViewKind::Unstaged));
    assert_eq!(browse(&mut f, ch('3')), BrowseCommand::SetView(ViewKind::Staged));
    assert_eq!(browse(&mut f, ch('4')), BrowseCommand::SetView(ViewKind::Base));
    assert_eq!(browse(&mut f, ch('i')), BrowseCommand::ToggleDiffMode);
    assert_eq!(browse(&mut f, ch('R')), BrowseCommand::Reload);
    assert_eq!(browse(&mut f, ch('v')), BrowseCommand::ToggleReviewed);
    assert_eq!(browse(&mut f, ch('C')), BrowseCommand::OpenCommentList);
    assert_eq!(browse(&mut f, ch('l')), BrowseCommand::Nothing);
    assert_eq!(f.focus, Focus::Diff);
    assert_eq!(browse(&mut f, bare(KeyCode::Left)), BrowseCommand::Nothing);
    assert_eq!(f.focus, Focus::Files);
    assert_eq!(browse(&mut f, ch('p')), BrowseCommand::OpenPrompt);
    assert!(f.show_prompt);
    assert_eq!(f.mode, Mode::EditPrompt);
}

#[test]
fn keys_of_one_pane() {
    assert_eq!(handle_files_key(ch('j'), 11), (None, BrowseCommand::SelectFile(1)));
    assert_eq!(handle_files_key(ctrl('u'), 11), (None, BrowseCommand::SelectFile(-10)));
    assert_eq!(
        handle_files_key(bare(KeyCode::Enter), 11),
        (Some(Focus::Diff), BrowseCommand::Nothing)
    );
    assert_eq!(handle_files_key(ch('c'), 11), (None, BrowseCommand::BeginFileComment));
    assert_eq!(handle_diff_key(bare(KeyCode::PageDown), 21), BrowseCommand::MoveCursor(20));
    assert_eq!(
        handle_diff_key(ctrl('n'), 21),
        BrowseCommand::NextUnreviewed { forward: true }
    );
    assert_eq!(
        handle_diff_key(ctrl('p'), 21),
        BrowseCommand::NextUnreviewed { forward: false }
    );
    assert_eq!(handle_diff_key(ch('n'), 21), BrowseCommand::NextHunk);
    assert_eq!(handle_diff_key(ch('c'), 21), BrowseCommand::BeginComment);
    assert_eq!(handle_diff_key(ch('d'), 21), BrowseCommand::DeleteComment);
    assert_eq!(handle_diff_key(ctrl('d'), 21), BrowseCommand::MoveCursor(20));
    assert_eq!(handle_diff_key(ch('r'), 21), BrowseCommand::ToggleResolved);
    assert_eq!(handle_diff_key(ch('H'), 21), BrowseCommand::TogglePopup);
    assert_eq!(handle_diff_key(ch('['), 21), BrowseCommand::AdjustContext(-1));
    assert_eq!(handle_diff_key(ch(']'), 21), BrowseCommand::AdjustContext(1));
    assert_eq!(page(0), 1);
}

#[test]
fn keys_of_the_editors() {
    assert_eq!(handle_edit_key(bare(KeyCode::Esc)), EditCommand::Cancel);
    assert_eq!(handle_edit_key(ctrl('s')), EditCommand::Accept);
    assert_eq!(handle_edit_key(shift(KeyCode::Enter)), EditCommand::Accept);
    assert_eq!(handle_edit_key(bare(KeyCode::Enter)), EditCommand::Write);
    assert_eq!(handle_edit_key(ch('s')), EditCommand::Write);
}

#[test]
fn keys_of_the_comment_list() {
    assert_eq!(handle_comment_list_key(bare(KeyCode::Esc), 0, 0), ListCommand::Close);
    assert_eq!(handle_comment_list_key(ch('j'), 0, 0), ListCommand::Nothing);
    assert_eq!(handle_comment_list_key(ch('j'), 1, 3), ListCommand::Select(2));
    assert_eq!(handle_comment_list_key(ch('j'), 2, 3), ListCommand::Select(2));
    assert_eq!(
        handle_comment_list_key(bare(KeyCode::PageUp), 5, 9),
        ListCommand::Select(0)
    );
    assert_eq!(
        handle_comment_list_key(bare(KeyCode::End), 0, 9),
        ListCommand::Select(8)
    );
    assert_eq!(
        handle_comment_list_key(shift(KeyCode::Enter), 0, 9),
        ListCommand::Jump
    );
    assert_eq!(
        handle_comment_list_key(bare(KeyCode::Enter), 0, 9),
        ListCommand::ToggleMark
    );
    assert_eq!(handle_comment_list_key(ch('R'), 0, 9), ListCommand::Resolve);
    assert_eq!(
        handle_comment_list_key(bare(KeyCode::Delete), 0, 9),
        ListCommand::Discard
    );
}

#[test]
fn the_mouse_goes_to_the_pane_below_it() {
    let p = Panes {
        files: Area {
            x: 0,
            y: 0,
            width: 40,
            height: 10,
        },
        diff: Area {
            x: 40,
            y: 0,
            width: 60,
            height: 10,
        },
        file_scroll: 2,
        diff_scroll: 5,
    };
    let at = |kind, column, row| MouseInput { kind, column, row };
    let mut f = flags();
    assert_eq!(
        handle_mouse(&mut f, at(MouseKind::LeftDown, 3, 4), p),
        MouseCommand::SelectRow(5)
    );
    assert_eq!(f.focus, Focus::Files);
    assert!(!f.manual_scroll);
    assert_eq!(
        handle_mouse(&mut f, at(MouseKind::LeftDown, 53, 1), p),
        MouseCommand::PlaceCursor {
            visual: 5,
            in_gutter: true,
        }
    );
    assert_eq!(
        handle_mouse(&mut f, at(MouseKind::LeftDown, 54, 1), p),
        MouseCommand::PlaceCursor {
            visual: 5,
            in_gutter: false,
        }
    );
    assert_eq!(f.focus, Focus::Diff);
    assert_eq!(
        handle_mouse(&mut f, at(MouseKind::ScrollUp, 1, 1), p),
        MouseCommand::ScrollFiles(0)
    );
    assert!(f.manual_scroll);
    assert_eq!(
        handle_mouse(&mut f, at(MouseKind::ScrollDown, 1, 50), p),
        MouseCommand::ScrollDiff(8)
    );
    f.mode = Mode::EditComment;
    assert_eq!(
        handle_mouse(&mut f, at(MouseKind::LeftDown, 3, 4), p),
        MouseCommand::Nothing
    );
}

fn files(paths: &[&str]) -> Vec<FileEntry> {
    paths
        .iter()
        .map(|p| FileEntry {
            path: p.to_string(),
            change: FileChangeKind::Modified,
            git_xy: ['M', '-'],
        })
        .collect()
}

#[test]
fn unified_and_side_by_side_take_turns() {
    assert_eq!(next_diff_view_mode(DiffViewMode::Unified), DiffViewMode::SideBySide);
    assert_eq!(next_diff_view_mode(DiffViewMode::SideBySide), DiffViewMode::Unified);
    assert_eq!(next_diff_view_mode(DiffViewMode::Decorated), DiffViewMode::SideBySide);
    for m in [DiffViewMode::Decorated, DiffViewMode::Unified, DiffViewMode::SideBySide] {
        assert_eq!(start_diff_view(Some(diff_view_name(m))), m);
    }
    let mut m = start_diff_view(Some("unified"));
    for _ in 0..2 {
        m = next_diff_view_mode(m);
        assert_eq!(start_diff_view(Some(diff_view_name(m))), m);
    }
    assert_eq!(m, DiffViewMode::Unified);
    assert_eq!(start_diff_view(None), DiffViewMode::Decorated);
    assert_eq!(start_diff_view(Some("odd")), DiffViewMode::Decorated);
    assert_eq!(diff_view_key(), "remark.diffView");
    let mut fs = files(&["a"]);
    assert_eq!(
        effective_diff_view_mode(DiffViewMode::SideBySide, &fs, 0),
        DiffViewMode::SideBySide
    );
    fs[0].change = FileChangeKind::Added;
    assert_eq!(
        effective_diff_view_mode(DiffViewMode::SideBySide, &fs, 0),
        DiffViewMode::Unified
    );
    assert_eq!(
        effective_diff_view_mode(DiffViewMode::Decorated, &fs, 0),
        DiffViewMode::Decorated
    );
}

#[test]
fn the_context_stays_in_bounds() {
    assert_eq!(parse_diff_context(" 7 "), Some(7));
    assert_eq!(parse_diff_context("99"), Some(MAX_DIFF_CONTEXT));
    assert_eq!(parse_diff_context("-1"), None);
    assert_eq!(start_diff_context(Some("x")), DEFAULT_DIFF_CONTEXT);
    assert_eq!(start_diff_context(None), 3);
    assert_eq!(adjust_diff_context(3, 1), 4);
    assert_eq!(adjust_diff_context(0, -1), 0);
    assert_eq!(adjust_diff_context(20, 1), 20);
    assert_eq!(diff_context_key(), "remark.diffContext");
}

#[test]
fn the_next_file_is_one_that_was_not_reviewed() {
    let fs = files(&["a", "b", "c", "d"]);
    let mut reviewed = OrdMap::new();
    reviewed.insert("b".to_string(), "b".to_string());
    reviewed.insert("d".to_string(), "d".to_string());
    assert_eq!(select_next_unreviewed(&fs, &reviewed, 0, true), Some(2));
    assert_eq!(select_next_unreviewed(&fs, &reviewed, 2, true), None);
    assert_eq!(select_next_unreviewed(&fs, &reviewed, 2, false), Some(0));
    assert_eq!(select_next_unreviewed(&Vec::new(), &reviewed, 0, true), None);
    assert_eq!(file_position(&fs, "c"), Some(2));
    assert_eq!(file_position(&fs, "x"), None);
    assert_eq!(keep_selection(&fs, Some("d"), 0), 3);
    assert_eq!(keep_selection(&fs, Some("x"), 9), 3);
    assert_eq!(keep_selection(&fs, None, 1), 1);
    assert_eq!(step(1, -5, 4), 0);
    assert_eq!(step(1, 5, 4), 3);
    assert_eq!(step(1, 5, 0), 0);
}

#[test]
fn what_is_selected_is_on_the_screen() {
    let fs = files(&["a", "b", "c", "d", "e"]);
    let tree = FileTreeView::build(&fs);
    assert_eq!(ensure_file_visible(&tree, false, 4, 0, 3), 2);
    assert_eq!(ensure_file_visible(&tree, false, 0, 2, 3), 0);
    assert_eq!(ensure_file_visible(&tree, false, 3, 2, 3), 2);
    assert_eq!(ensure_file_visible(&tree, true, 3, 2, 3), 0);
    let rows: Vec<RenderRow> = (1..9).map(|n| unified(Kind::Add, None, Some(n))).collect();
    let m = recompute_diff_metrics(&rows, 80);
    assert_eq!(m.total, 8);
    assert_eq!(ensure_diff_visible(&m, false, 7, 0, 3), 5);
    assert_eq!(ensure_diff_visible(&m, false, 1, 5, 3), 1);
    assert_eq!(ensure_diff_visible(&m, true, 1, 5, 3), 0);
    assert_eq!(clamp_scroll(9, 8, 3), 5);
    assert_eq!(clamp_scroll(2, 8, 3), 2);
    assert_eq!(clamp_scroll(2, 1, 3), 0);
}

fn unified(kind: Kind, old: Option<u32>, new: Option<u32>) -> RenderRow {
    RenderRow::Unified(DiffRow {
        kind,
        old_line: old,
        new_line: new,
        spans: Vec::new(),
    })
}

#[test]
fn the_cursor_keeps_its_line() {
    let rows = vec![
        RenderRow::FileHeader {
            path: "a".to_string(),
        },
        RenderRow::Section {
            text: "s".to_string(),
        },
        unified(Kind::Remove, Some(4), None),
        unified(Kind::Add, None, Some(5)),
        RenderRow::Section {
            text: "t".to_string(),
        },
        RenderRow::SideBySide(SideBySideRow {
            left_kind: Some(Kind::Remove),
            right_kind: None,
            old_line: Some(8),
            new_line: None,
            left_spans: Vec::new(),
            right_spans: Vec::new(),
        }),
    ];
    assert_eq!(keep_cursor_line(&rows, 2), Some(KeepLine::Old(4)));
    assert_eq!(keep_cursor_line(&rows, 3), Some(KeepLine::New(5)));
    assert_eq!(keep_cursor_line(&rows, 5), Some(KeepLine::Old(8)));
    assert_eq!(keep_cursor_line(&rows, 1), None);
    for i in [2, 3, 5] {
        let k = keep_cursor_line(&rows, i).unwrap();
        assert_eq!(find_row_for_keep_line(&rows, k), Some(i));
    }
    let key = LineKey {
        side: LineSide::Old,
        line: 4,
    };
    assert_eq!(keep_line_at(key), KeepLine::Old(4));
    assert_eq!(keep_new_line(&rows, 3), Some(5));
    assert_eq!(find_row_for_new_line(&rows, 5), Some(3));
    assert_eq!(find_row_for_new_line(&rows, 6), None);
    assert_eq!(first_code_row(&rows), 2);
    assert_eq!(jump_next_hunk(&rows, 1), 4);
    assert_eq!(jump_next_hunk(&rows, 4), 4);
    let decorated = vec![RenderRow::Decorated(DecoratedRow {
        status: LineStatus::Added,
        line_number: 6,
        old_line_number: None,
        spans: Vec::new(),
    })];
    assert_eq!(get_current_line_number(&decorated, 0), 6);
    assert_eq!(keep_cursor_line(&decorated, 0), None);
    assert_eq!(find_row_for_keep_line(&decorated, KeepLine::New(6)), Some(0));
    assert_eq!(find_row_for_keep_line(&decorated, KeepLine::New(0)), None);
    assert_eq!(find_row_for_keep_line(&decorated, KeepLine::Old(6)), None);
    let deleted = vec![RenderRow::Decorated(DecoratedRow {
        status: LineStatus::Removed,
        line_number: 0,
        old_line_number: Some(3),
        spans: Vec::new(),
    })];
    assert_eq!(keep_cursor_line(&deleted, 0), None);
    assert_eq!(find_row_for_keep_line(&deleted, KeepLine::Old(3)), Some(0));
    assert_eq!(find_row_for_keep_line(&deleted, KeepLine::New(0)), None);
    assert_eq!(get_current_line_number(&rows, 3), 0);
}

#[test]
fn a_place_to_start_at_is_complete() {
    let s = |t: &str| Some(t.to_string());
    let t = build_jump_target(Some(strip_leading_dot("./a.rs")), Some(4), None).unwrap().unwrap();
    assert_eq!(t.path, "a.rs");
    assert_eq!(
        t.line,
        Some(LineKey {
            side: LineSide::New,
            line: 4,
        })
    );
    let t = build_jump_target(s("a.rs"), None, None).unwrap().unwrap();
    assert_eq!(t.line, None);
    assert!(build_jump_target(None, None, None).unwrap().is_none());
    let e = build_jump_target(None, Some(1), None).unwrap_err();
    assert_eq!(e, JumpError::LineWithoutFile);
    assert_eq!(e.message(), "--line/--side requires --file <path>");
    let e = build_jump_target(s("a"), None, Some(LineSide::Old)).unwrap_err();
    assert_eq!(e.message(), "--side requires --line <n>");
    let e = build_jump_target(Some(strip_leading_dot("./")), None, None).unwrap_err();
    assert_eq!(e.message(), "--file <path> must not be empty");
}

#[test]
fn windows_open_and_close() {
    let mut f = flags();
    f.show_help = true;
    f.focus = Focus::Diff;
    f.open_editor();
    assert_eq!(f.mode, Mode::EditComment);
    assert!(!f.show_help && !f.show_prompt);
    assert_eq!(f.focus, Focus::Diff);
    f.leave();
    assert_eq!(f.mode, Mode::Browse);

    f.show_prompt = true;
    f.open_comment_list();
    assert_eq!(f.mode, Mode::CommentList);
    assert!(!f.show_prompt);

    f.show_prompt = true;
    f.mode = Mode::EditPrompt;
    f.close_prompt();
    assert_eq!(f.mode, Mode::Browse);
    assert!(!f.show_prompt);

    assert!(f.toggle_diff_popup());
    f.show_ignored = true;
    f.manual_scroll = true;
    f.open_view();
    assert_eq!(f.focus, Focus::Files);
    assert!(!f.manual_scroll && f.show_ignored && f.show_diff_popup);
    assert!(!f.toggle_diff_popup());
}

#[test]
fn going_to_a_listed_comment() {
    let at = CommentLocator::Line {
        side: LineSide::New,
        line: 5,
    };
    let entry = |path: &str, locator: CommentLocator| CommentListEntry {
        path: path.to_string(),
        locator,
        body: "b".to_string(),
        resolved: false,
    };
    let list = vec![entry("b", at), entry("gone", CommentLocator::File)];
    let files = files(&["a", "b"]);
    match jump_to_comment_list_entry(&list, 0, &files) {
        ListJump::File { index, at: found } => {
            assert_eq!(index, 1);
            assert_eq!(found, at);
        }
        other => panic!("{other:?}"),
    }
    match jump_to_comment_list_entry(&list, 1, &files) {
        ListJump::NotShown(path) => assert_eq!(path, "gone"),
        other => panic!("{other:?}"),
    }
    assert!(matches!(
        jump_to_comment_list_entry(&list, 2, &files),
        ListJump::Nowhere
    ));

    let rows = vec![
        RenderRow::FileHeader {
            path: "b".to_string(),
        },
        unified(Kind::Remove, Some(5), None),
        unified(Kind::Add, None, Some(5)),
    ];
    assert_eq!(row_of_comment(&rows, CommentLocator::File), Some(0));
    assert_eq!(row_of_comment(&rows, at), Some(2));
    let missing = CommentLocator::Line {
        side: LineSide::Old,
        line: 6,
    };
    assert_eq!(row_of_comment(&rows, missing), None);
    let whole = vec![
        RenderRow::FileHeader {
            path: "b".to_string(),
        },
        RenderRow::Decorated(DecoratedRow {
            status: LineStatus::Unchanged,
            line_number: 5,
            old_line_number: Some(4),
            spans: Vec::new(),
        }),
    ];
    assert_eq!(row_of_comment(&whole, at), Some(1));
}
