use remark::comment_list::{
    build_comment_list, comment_list_selected_paths, discard_file, resolve_file,
    toggle_comment_list_mark,
};
use remark::file_tree::FileTreeView;
use remark::git::ViewKind;
use remark::highlight::Highlighter;
use remark::keys::Area;
use remark::notice::{
    copied_prompt, discarded_comments, file_not_found, file_not_in_view, line_not_found, popup_open,
    resolved_comments, toggle_notice, Notice,
};
use remark::ordmap::OrdMap;
use remark::reload::{
    after_listing, anchors, apply_reviewed_invalidation, build_rows, load_diff, reviewed_files,
    Listed, ReviewCheck, RowSources,
};
use remark::review::{CommentState, LineSide, Review};
use remark::rows::RenderRow;
use remark::screen::{
    diff_title, draw_files, editor_popup, editor_title, files_title, fit_with_ellipsis, footer_text,
    git_status_style, mark_reviewed_label, prompt_title, text_cursor, view_label, visible_selection,
    FooterState,
};
use remark::session::{
    is_reviewed, set_reviewed, CommentLocator, CommentTarget, DiffViewMode, FileChangeKind,
    FileEntry, Mode,
};
use remark::style::{Color, Style};

fn file(path: &str, x: char, y: char) -> FileEntry {
    FileEntry {
        path: path.to_string(),
        change: FileChangeKind::Modified,
        git_xy: [x, y],
    }
}

#[test]
fn files_are_drawn_with_their_states() {
    let files = vec![file("src/a.rs", 'A', '-'), file("src/b.rs", '-', 'M')];
    let tree = FileTreeView::build(&files);
    let mut review = Review::new();
    review.set_file_comment("src/b.rs", "x".to_string());
    let mut reviewed = OrdMap::new();
    reviewed.insert("src/a.rs".to_string(), "src/a.rs".to_string());
    let shown = draw_files(&tree.rows, &files, &review, &reviewed, 0, 9);
    let texts: Vec<&str> = shown.iter().map(|l| l.spans[0].content.as_str()).collect();
    assert_eq!(texts, vec!["src/", "├─✓a.rs", "└─ b.rs"]);
    let a = shown[1].spans[0].style;
    assert_eq!(a.fg, Some(Color::Green));
    assert!(a.dim && !a.bold);
    let b = shown[2].spans[0].style;
    assert_eq!(b.fg, Some(Color::Yellow));
    assert!(b.bold && b.underlined && !b.dim);
    assert_eq!(draw_files(&tree.rows, &files, &review, &reviewed, 1, 1).len(), 1);
    assert_eq!(mark_reviewed_label("top.rs"), "✓ top.rs");
    assert_eq!(visible_selection(Some(4), 2, 3), Some(2));
    assert_eq!(visible_selection(Some(5), 2, 3), None);
    assert_eq!(visible_selection(None, 0, 3), None);
}

#[test]
fn letters_have_their_colours() {
    let fg = |x, y| git_status_style(x, y).fg;
    assert_eq!(fg('-', '-'), Some(Color::DarkGray));
    assert_eq!(fg('-', 'N'), Some(Color::Magenta));
    assert_eq!(fg('A', 'I'), Some(Color::DarkGray));
    assert_eq!(fg('A', 'D'), Some(Color::Green));
    assert_eq!(fg('M', 'D'), Some(Color::Red));
    assert_eq!(fg('R', '-'), Some(Color::Cyan));
    assert_eq!(fg('-', 'T'), Some(Color::Blue));
    assert_eq!(fg('M', '-'), Some(Color::Yellow));
    let u = git_status_style('U', '-');
    assert!(u.bold && u.fg == Some(Color::Yellow));
    assert_ne!(u, Style::of(Color::Yellow));
}

#[test]
fn titles_say_what_is_shown() {
    assert_eq!(files_title(ViewKind::All, false), "Files (all)");
    assert_eq!(files_title(ViewKind::Base, false), "Files (base: unset)");
    assert_eq!(files_title(ViewKind::Base, true), "Files (base)");
    let mut r = Review::new();
    r.set_file_comment("a", "x".to_string());
    assert_eq!(diff_title(Mode::Browse, Some("a"), &r), "Diff — a 💬");
    r.toggle_file_comment_resolved("a");
    assert_eq!(diff_title(Mode::Browse, Some("a"), &r), "Diff — a ✓");
    assert_eq!(diff_title(Mode::Browse, Some("b"), &r), "Diff — b");
    assert_eq!(diff_title(Mode::Browse, None, &r), "Diff");
    assert_eq!(
        diff_title(Mode::EditComment, Some("a"), &r),
        "Diff (locked while editing)"
    );
    let t = CommentTarget {
        path: "a.rs".to_string(),
        locator: CommentLocator::Line {
            side: LineSide::Old,
            line: 7,
        },
    };
    assert_eq!(editor_title(&t), "Comment a.rs:7 (old)  (Shift+Enter/Ctrl+S accept)");
    let t = CommentTarget {
        locator: CommentLocator::File,
        ..t
    };
    assert_eq!(editor_title(&t), "Comment a.rs (file)  (Shift+Enter/Ctrl+S accept)");
    assert_eq!(
        prompt_title(Mode::EditPrompt),
        "LLM Prompt (editable)  (Shift+Enter/Ctrl+S copy, Esc close)"
    );
    assert_eq!(prompt_title(Mode::Browse), "LLM Prompt Preview (collated)");
}

#[test]
fn the_footer_fits() {
    assert_eq!(fit_with_ellipsis("abcdef", 6), "abcdef");
    assert_eq!(fit_with_ellipsis("abcdef", 4), "abc…");
    assert_eq!(fit_with_ellipsis("abcdef", 1), "…");
    assert_eq!(fit_with_ellipsis("abcdef", 0), "");
    assert_eq!(view_label(ViewKind::Base, Some("main")), "base(main)");
    assert_eq!(view_label(ViewKind::Base, None), "base(unset)");
    let s = FooterState {
        mode: Mode::Browse,
        view: ViewKind::Staged,
        base: None,
        diff: DiffViewMode::SideBySide,
        context: 3,
        status: "Saved",
    };
    assert_eq!(
        footer_text(&s, 80),
        "view=staged diff=side-by-side ctx=3  |  Saved"
    );
    assert_eq!(footer_text(&s, 40), "view=staged diff=side-by-side ctx=3");
    assert_eq!(footer_text(&s, 12), "view=staged…");
}

#[test]
fn the_editor_stands_by_its_line() {
    let diff = Area {
        x: 40,
        y: 0,
        width: 60,
        height: 30,
    };
    let p = editor_popup(diff, 4, 0);
    assert_eq!((p.x, p.y, p.width, p.height), (42, 6, 56, 6));
    let p = editor_popup(diff, 28, 0);
    assert_eq!(p.y, 23);
    let p = editor_popup(diff, 50, 50);
    assert_eq!(p.y, 2);
    assert_eq!(text_cursor(p, 1, 2), Some((44, 3)));
    assert_eq!(text_cursor(p, 6, 2), None);
    assert_eq!(text_cursor(p, 1, 56), None);
}

#[test]
fn all_comments_are_listed() {
    let mut r = Review::new();
    r.set_line_comment("b", LineSide::New, 2, "two".to_string());
    r.set_line_comment("b", LineSide::Old, 9, "nine".to_string());
    r.set_file_comment("a", "file".to_string());
    r.toggle_file_comment_resolved("a");
    let list = build_comment_list(&r);
    let got: Vec<(&str, CommentLocator, &str, bool)> = list
        .iter()
        .map(|e| (e.path.as_str(), e.locator, e.body.as_str(), e.resolved))
        .collect();
    assert_eq!(
        got,
        vec![
            ("a", CommentLocator::File, "file", true),
            (
                "b",
                CommentLocator::Line {
                    side: LineSide::Old,
                    line: 9,
                },
                "nine",
                false
            ),
            (
                "b",
                CommentLocator::Line {
                    side: LineSide::New,
                    line: 2,
                },
                "two",
                false
            ),
        ]
    );
    let mut marked = Vec::new();
    assert_eq!(comment_list_selected_paths(&list, 1, &marked), vec!["b"]);
    toggle_comment_list_mark(&mut marked, 2, 3);
    toggle_comment_list_mark(&mut marked, 0, 3);
    toggle_comment_list_mark(&mut marked, 1, 3);
    assert_eq!(comment_list_selected_paths(&list, 0, &marked), vec!["a", "b"]);
    toggle_comment_list_mark(&mut marked, 0, 3);
    assert_eq!(comment_list_selected_paths(&list, 0, &marked), vec!["b"]);
    resolve_file(&mut r, "b");
    assert_eq!(r.comment_state("b"), CommentState::ResolvedOnly);
    assert_eq!(build_comment_list(&r).len(), 3);
    set_reviewed(&mut r, "a", true, None);
    discard_file(&mut r, "a");
    discard_file(&mut r, "b");
    assert_eq!(build_comment_list(&r).len(), 0);
    assert_eq!(r.files.len(), 1);
}

#[test]
fn a_mark_falls_when_the_file_changes() {
    let check = |current: Option<&str>, all: Option<&str>| ReviewCheck {
        path: "a".to_string(),
        current: current.map(|s| s.to_string()),
        all: all.map(|s| s.to_string()),
    };
    let mut r = Review::new();
    set_reviewed(&mut r, "a", true, None);
    assert_eq!(apply_reviewed_invalidation(&mut r, &vec![check(Some("h"), None)]), vec!["a"]);
    assert!(is_reviewed(&r, "a"));
    assert!(apply_reviewed_invalidation(&mut r, &vec![check(Some("h"), None)]).is_empty());
    assert!(apply_reviewed_invalidation(&mut r, &vec![check(None, Some("h"))]).is_empty());
    assert_eq!(reviewed_files(&r).len(), 1);
    assert_eq!(apply_reviewed_invalidation(&mut r, &vec![check(Some("i"), None)]), vec!["a"]);
    assert!(!is_reviewed(&r, "a"));
    assert!(reviewed_files(&r).is_empty());
    assert_eq!(after_listing(ViewKind::Base, false, 3), Listed::NoBase);
    assert_eq!(after_listing(ViewKind::All, false, 0), Listed::NoChanges);
    assert_eq!(after_listing(ViewKind::Base, true, 1), Listed::Files);
}

#[test]
fn a_diff_takes_stale_comments_along() {
    let mut r = Review::new();
    r.set_line_comment("a", LineSide::New, 2, "here".to_string());
    r.set_line_comment("a", LineSide::New, 90, "gone".to_string());
    let d = load_diff(&mut r, "a", Some("1\n2\n"), Some("1\ntwo\n"), 3);
    assert!(d.pruned);
    assert!(r.line_comment("a", LineSide::New, 90).is_none());
    assert!(r.line_comment("a", LineSide::New, 2).is_some());
    assert_eq!(d.lines.len(), d.shown.len() + 2);
    let (old, new) = anchors(&d.shown);
    assert!(old.contains(&2) && !old.contains(&1));
    assert!(new.contains(&1) && new.contains(&2));
    let h = Highlighter::new();
    let src = RowSources {
        path: "a",
        lang: None,
        before: Some("1\n2\n"),
        after: Some("1\ntwo\n"),
    };
    for mode in [
        DiffViewMode::Decorated,
        DiffViewMode::Unified,
        DiffViewMode::SideBySide,
    ] {
        let shown = build_rows(&h, mode, &src, &d.shown).expect("rows");
        assert!(matches!(shown.rows[0], RenderRow::FileHeader { .. }));
        let at = if mode == DiffViewMode::Decorated { 1 } else { 2 };
        assert_eq!(shown.cursor, at);
    }
    let bad = RowSources {
        lang: Some("no-such-language"),
        ..src
    };
    assert!(build_rows(&h, DiffViewMode::Decorated, &bad, &d.shown).is_none());
}

#[test]
fn notices_say_what_happened() {
    assert_eq!(Notice::NoBase.message(), "No base ref set (pass --base <ref>)");
    assert_eq!(Notice::UnbornBranch.message(), "No HEAD commit (unborn branch) — notes disabled");
    assert_eq!(toggle_notice(Some(true)), Notice::Resolved);
    assert_eq!(toggle_notice(Some(false)), Notice::Unresolved);
    assert_eq!(toggle_notice(None), Notice::NoCommentHere);
    assert_eq!(popup_open(3), "Diff popup open (3 lines), press ESC or 'H' to close");
    assert_eq!(resolved_comments(2), "Resolved comments (2)");
    assert_eq!(discarded_comments(1), "Discarded comments (1)");
    assert_eq!(line_not_found(8), "Line 8 not found in diff");
    assert_eq!(file_not_found("x"), "File not found: x");
    assert_eq!(file_not_in_view("x"), "File not found in view: x");
    assert_eq!(copied_prompt("osc52"), "Copied prompt to clipboard (osc52)");
}
