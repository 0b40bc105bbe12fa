use remark::diff::Kind;
use remark::metrics::{diff_row_at_visual_line, gutter_width, recompute_diff_metrics, section_line};
use remark::review::{CommentState, LineSide, Review};
use remark::rows::{DecoratedRow, DiffRow, RenderRow, SideBySideRow};
use remark::session::{FileChangeKind, FileEntry};
use remark::style::{Span, StyledLine};
use remark::ui::{draw_diff, render_side_by_side_line};
use remark::width::{columns, fit, sum_columns, word_wrap_line_count};

fn unified(kind: Kind, old: Option<u32>, new: Option<u32>, code: &str) -> RenderRow {
    RenderRow::Unified(DiffRow {
        kind,
        old_line: old,
        new_line: new,
        spans: vec![Span::raw(code.to_string())],
    })
}

#[test]
fn diff_metrics_account_for_marker_width() {
    let rows = vec![unified(Kind::Context, Some(1), Some(1), "x")];

    // This width is chosen so the marker width determines whether the row wraps.
    let m = recompute_diff_metrics(&rows, 16);

    assert_eq!(m.heights, vec![2]);
    assert_eq!(m.total, 2);
}

#[test]
fn rows_are_stacked_by_their_heights() {
    let rows = vec![
        RenderRow::FileHeader {
            path: "a".to_string(),
        },
        unified(Kind::Add, None, Some(1), &"w ".repeat(30)),
        unified(Kind::Add, None, Some(2), "y"),
    ];
    let m = recompute_diff_metrics(&rows, 40);
    assert_eq!(m.offsets, vec![0, 1, 1 + u32::from(m.heights[1])]);
    assert_eq!(m.total, 2 + u32::from(m.heights[1]));
    assert!(m.heights[1] >= 2);
    assert_eq!(diff_row_at_visual_line(&m, 0), 0);
    assert_eq!(diff_row_at_visual_line(&m, 2), 1);
    assert_eq!(diff_row_at_visual_line(&m, m.total - 1), 2);
    assert_eq!(diff_row_at_visual_line(&m, 999), 2);
    assert_eq!(gutter_width(9), 4);
    assert_eq!(gutter_width(123456), 6);
    assert_eq!(section_line("x", 12), "┄┄ x ┄┄     ");
}

#[test]
fn text_wraps_at_words() {
    assert_eq!(word_wrap_line_count("", 10), 1);
    assert_eq!(word_wrap_line_count("hello world", 11), 1);
    assert_eq!(word_wrap_line_count("hello world", 10), 2);
    assert_eq!(word_wrap_line_count("abcdefghij", 3), 4);
    assert_eq!(word_wrap_line_count("ab", 0), 3);
    assert_eq!(word_wrap_line_count("日本語", 4), 2);
    assert_eq!(word_wrap_line_count("      ", 4), 2);
}

#[test]
fn characters_have_their_columns() {
    assert_eq!(columns('a'), 1);
    assert_eq!(columns('日'), 2);
    assert_eq!(columns('\u{301}'), 0);
    assert_eq!(sum_columns("a日\u{301}"), 3);
    let v: Vec<char> = "a日b".chars().collect();
    assert_eq!(fit(&v, 2), (1, 1));
    assert_eq!(fit(&v, 3), (2, 0));
    assert_eq!(fit(&v, 9), (3, 5));
}

fn text_of(l: &StyledLine) -> String {
    l.spans.iter().map(|s| s.content.as_str()).collect()
}

#[test]
fn both_sides_keep_to_their_columns() {
    let row = SideBySideRow {
        left_kind: Some(Kind::Remove),
        right_kind: Some(Kind::Add),
        old_line: Some(3),
        new_line: Some(12),
        left_spans: vec![Span::raw("a very long piece of code".to_string())],
        right_spans: vec![Span::raw("b".to_string())],
    };
    let l = render_side_by_side_line(&row, false, None, 4, 4, false, false, 40);
    let text = text_of(&l);
    assert_eq!(text, "      3 - a very lon │   12 + b         ");
    assert_eq!(sum_columns(&text), 40);
    let l = render_side_by_side_line(
        &row,
        true,
        Some(CommentState::HasUnresolved),
        4,
        4,
        false,
        false,
        40,
    );
    assert!(text_of(&l).starts_with("💬 "));
    assert!(l.style.reversed);
}

#[test]
fn a_pane_shows_its_rows_with_their_markers() {
    let files = vec![FileEntry {
        path: "a.rs".to_string(),
        change: FileChangeKind::Modified,
        git_xy: ['M', '-'],
    }];
    let rows = vec![
        RenderRow::FileHeader {
            path: "a.rs".to_string(),
        },
        RenderRow::Section {
            text: "@@".to_string(),
        },
        unified(Kind::Remove, Some(1), None, "x"),
        unified(Kind::Add, None, Some(1), "y"),
        RenderRow::Decorated(DecoratedRow {
            status: remark::diff::LineStatus::Modified,
            line_number: 2,
            old_line_number: None,
            spans: vec![Span::raw("z".to_string())],
        }),
    ];
    let mut review = Review::new();
    review.set_file_comment("a.rs", "f".to_string());
    review.set_line_comment("a.rs", LineSide::New, 1, "n".to_string());
    review.toggle_line_comment_resolved("a.rs", LineSide::New, 1);
    let shown = draw_diff(&review, &files, 0, &rows, 3, 30);
    let texts: Vec<String> = shown.iter().map(text_of).collect();
    assert_eq!(texts[0], "💬            │ a.rs");
    assert_eq!(texts[1], "┄┄ @@ ┄┄                      ");
    assert_eq!(texts[2], "  -    1      │ x");
    assert_eq!(texts[3], "✓ +         1 │ y");
    assert_eq!(texts[4], "     2 ~ │ z");
    assert!(shown[3].style.reversed);
    assert!(!shown[2].style.reversed);
}
