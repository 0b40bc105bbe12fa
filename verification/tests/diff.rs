use remark::diff::{
    calculate_hunk_bounds, decorated_file_diff, find_context_hint, generate_hunk_header_text,
    line_statuses, unified_file_diff, Change, ChangeTag, InlineSpan, Kind, Line, LineStatus, Op,
};
use remark::rows::{
    build_side_by_side_rows, build_unified_rows, line_code, merge_inline_with_syntax,
    side_by_side_code, text_behind_prefix, unified_code, RenderRow,
};
use remark::style::{Color, Span, Style};

#[test]
fn hunk_header_includes_context_hint_when_available() {
    let before = "fn keep() {}\nfn change() { 1 }\nfn tail() {}\n";
    let after = "fn keep() {}\nfn change() { 2 }\nfn tail() {}\n";

    let lines = unified_file_diff("a/x.rs", "b/x.rs", Some(before), Some(after), 3);
    let header = lines
        .iter()
        .find(|l| l.kind == Kind::HunkHeader)
        .map(|l| l.text.as_str())
        .unwrap();
    assert!(header.contains("fn keep()"), "{header}");
}

#[test]
fn hunk_header_falls_back_to_changed_line_when_no_context() {
    let before = "one\n";
    let after = "two\n";

    let lines = unified_file_diff("a/t.txt", "b/t.txt", Some(before), Some(after), 3);
    let header = lines
        .iter()
        .find(|l| l.kind == Kind::HunkHeader)
        .map(|l| l.text.as_str())
        .unwrap();
    assert!(header.contains("one") || header.contains("two"), "{header}");
}

#[test]
fn inline_highlights_changed_words() {
    let before = "fn foo() -> u32 { 1 }";
    let after = "fn foo() -> u32 { 42 }";

    let lines = unified_file_diff("a.rs", "b.rs", Some(before), Some(after), 3);

    // Find the Add line
    let add_line = lines.iter().find(|l| l.kind == Kind::Add).unwrap();
    assert!(add_line.inline_spans.is_some());

    let spans = add_line.inline_spans.as_ref().unwrap();
    // "42" should be emphasized
    assert!(
        spans.iter().any(|s| s.emphasized && s.text.contains("42")),
        "expected emphasized '42' in spans: {spans:?}"
    );
    // "{", "}" should NOT be emphasized
    assert!(
        !spans.iter().any(|s| s.emphasized && (s.text == "{" || s.text == "}")),
        "did not expect emphasized braces in spans: {spans:?}"
    );
}

#[test]
fn inline_handles_unicode_words() {
    let before = "let x = 1;";
    let after = "let value = 1;";

    let lines = unified_file_diff("a.rs", "b.rs", Some(before), Some(after), 3);

    let add_line = lines.iter().find(|l| l.kind == Kind::Add).unwrap();
    let spans = add_line.inline_spans.as_ref().unwrap();

    // "value" should be emphasized as a whole word (unicode tokenization)
    assert!(
        spans.iter().any(|s| s.emphasized && s.text == "value"),
        "expected emphasized 'value' in spans: {spans:?}"
    );
}

#[test]
fn decorated_returns_full_file() {
    let before = "line1\nline2\nline3\n";
    let after = "line1\nline2-modified\nline3\n";

    let lines = decorated_file_diff(Some(before), Some(after));

    // Should return 3 lines (full file), not just hunk
    assert_eq!(lines.len(), 3, "expected 3 lines, got {}", lines.len());
    assert_eq!(lines[0].text, "line1");
    assert_eq!(lines[1].text, "line2-modified");
    assert_eq!(lines[2].text, "line3");
}

fn texts(lines: &[remark::diff::Line]) -> Vec<&str> {
    lines.iter().map(|l| l.text.as_str()).collect()
}

#[test]
fn a_diff_is_laid_out_line_by_line() {
    let lines = unified_file_diff("a/f", "b/f", Some("a\nb\nc\nd\ne\n"), Some("a\nB\nc\nd\ne\n"), 1);
    assert_eq!(
        texts(&lines),
        vec!["--- a/f", "+++ b/f", "@@ -1,3 +1,3 @@ a", " a\n", "--b-\n", "++B+\n", " c\n"]
    );
    let at: Vec<(Option<u32>, Option<u32>)> =
        lines.iter().skip(3).map(|l| (l.old_line, l.new_line)).collect();
    assert_eq!(
        at,
        vec![
            (Some(1), Some(1)),
            (Some(2), None),
            (None, Some(2)),
            (Some(3), Some(3)),
        ]
    );
}

#[test]
fn a_lone_line_reads_as_it_is() {
    let after = Some("one\ntwo\nthree");
    let lines = unified_file_diff("a", "b", Some("one\ntwo\n"), after, 3);
    assert_eq!(texts(&lines)[3..], [" one\n", " two\n", "+three\n"]);
    for line in &lines[3..] {
        let spans = line.inline_spans.as_ref().unwrap();
        assert_eq!(spans.len(), 1);
        assert!(!spans[0].emphasized);
    }
    let gone = unified_file_diff("a", "b", Some("one\ntwo\n"), None, 3);
    assert_eq!(texts(&gone)[3..], ["-one\n", "-two\n"]);
}

#[test]
fn equal_texts_have_no_hunk() {
    let lines = unified_file_diff("a/f", "b/f", Some("x\n"), Some("x\n"), 3);
    assert!(lines.iter().all(|l| l.kind == Kind::FileHeader));
}

#[test]
fn far_changes_are_in_hunks_of_their_own() {
    let before: String = (1..21).map(|n| format!("{n}\n")).collect();
    let after = before.replace("2\n3\n", "2\nthree\n").replace("19\n", "nineteen\n");
    let lines = unified_file_diff("a", "b", Some(&before), Some(&after), 2);
    let heads: Vec<&str> = lines
        .iter()
        .filter(|l| l.kind == Kind::HunkHeader)
        .map(|l| l.text.as_str())
        .collect();
    assert_eq!(heads, vec!["@@ -1,5 +1,5 @@ 1", "@@ -16,5 +16,5 @@ 17"]);
}

#[test]
fn bounds_span_a_group() {
    let group = vec![
        Op::Equal {
            old_index: 3,
            new_index: 4,
            len: 2,
        },
        Op::Replace {
            old_index: 5,
            old_len: 1,
            new_index: 6,
            new_len: 3,
        },
    ];
    assert_eq!(calculate_hunk_bounds(&group), (3, 4, 4, 6));
    let one = vec![Op::Insert {
        old_index: 0,
        new_index: 0,
        new_len: 1,
    }];
    assert_eq!(calculate_hunk_bounds(&one), (1, 0, 1, 1));
}

fn change(tag: ChangeTag, old: Option<usize>, new: Option<usize>, text: &str) -> Change {
    Change {
        tag,
        old_index: old,
        new_index: new,
        spans: vec![InlineSpan {
            text: text.to_string(),
            emphasized: false,
        }],
    }
}

#[test]
fn the_hint_is_the_nearest_line_that_says_something() {
    let h = vec![vec![
        change(ChangeTag::Equal, Some(0), Some(0), "  first \n"),
        change(ChangeTag::Equal, Some(1), Some(1), "\n"),
        change(ChangeTag::Delete, Some(2), None, "gone\n"),
    ]];
    assert_eq!(find_context_hint(&h).as_deref(), Some("first"));
    let h = vec![vec![change(ChangeTag::Insert, None, Some(0), "new one\n")]];
    assert_eq!(find_context_hint(&h).as_deref(), Some("new one"));
    assert_eq!(find_context_hint(&Vec::new()), None);
    let group = vec![Op::Delete {
        old_index: 0,
        old_len: 1,
        new_index: 0,
    }];
    assert_eq!(generate_hunk_header_text(&group, &Vec::new()), "@@ -1,1 +1,0 @@");
}

#[test]
fn decorated_lines_say_what_became_of_them() {
    let lines = decorated_file_diff(Some("a\nb\n"), Some("a\nc\nd\n"));
    let got: Vec<(LineStatus, u32, &str)> = lines
        .iter()
        .map(|l| (l.status, l.line_number, l.text.as_str()))
        .collect();
    assert_eq!(got[0], (LineStatus::Unchanged, 1, "a"));
    assert!(got[1..].iter().all(|l| l.0 != LineStatus::Unchanged));
    let lines = decorated_file_diff(None, Some("x\ny\n"));
    assert!(lines.iter().all(|l| l.status == LineStatus::Added));
    let lines = decorated_file_diff(Some("x\ny\n"), None);
    let got: Vec<(LineStatus, u32, Option<u32>)> = lines
        .iter()
        .map(|l| (l.status, l.line_number, l.old_line_number))
        .collect();
    assert_eq!(
        got,
        vec![
            (LineStatus::Removed, 0, Some(1)),
            (LineStatus::Removed, 0, Some(2)),
        ]
    );
    assert!(decorated_file_diff(None, None).is_empty());
    let changes = vec![vec![change(ChangeTag::Insert, None, Some(1), "b\n")]];
    assert_eq!(
        line_statuses(&changes, 2),
        vec![LineStatus::Unchanged, LineStatus::Added]
    );
}

#[test]
fn side_by_side_shows_every_line_once() {
    let lines = unified_file_diff("a", "b", Some("a\nb\nc\n"), Some("a\nX\nY\nc\n"), 3);
    let rows = build_side_by_side_rows(&lines, &Vec::new(), &Vec::new());
    let mut left = Vec::new();
    let mut right = Vec::new();
    let mut sections = 0;
    for r in &rows {
        match r {
            RenderRow::SideBySide(r) => {
                left.extend(r.old_line);
                right.extend(r.new_line);
            }
            RenderRow::Section { .. } => sections += 1,
            other => panic!("unexpected row {other:?}"),
        }
    }
    assert_eq!(left, vec![1, 2, 3]);
    assert_eq!(right, vec![1, 2, 3, 4]);
    assert_eq!(sections, 1);
    assert_eq!(side_by_side_code(&lines, true), "a\nb\nc\n");
    assert_eq!(side_by_side_code(&lines, false), "a\nX\nY\nc\n");
}

#[test]
fn unified_rows_take_the_colours_of_their_code() {
    let lines = unified_file_diff("a", "b", Some("a\nb\n"), Some("a\nB\n"), 3);
    let shown: Vec<_> = lines.into_iter().filter(|l| l.kind != Kind::FileHeader).collect();
    assert_eq!(unified_code(&shown), "a\nb\nB\n");
    let blue = Span {
        content: "b!".to_string(),
        style: Style::of(Color::Blue),
    };
    let rows = build_unified_rows(&shown, &vec![Vec::new(), vec![blue]]);
    match (&rows[0], &rows[1], &rows[2], &rows[3]) {
        (
            RenderRow::Section { text },
            RenderRow::Unified(a),
            RenderRow::Unified(b),
            RenderRow::Unified(c),
        ) => {
            assert_eq!(text, "@@ -1,2 +1,2 @@ a");
            assert_eq!((a.kind, a.old_line, a.new_line), (Kind::Context, Some(1), Some(1)));
            assert_eq!((b.kind, b.old_line, b.new_line), (Kind::Remove, Some(2), None));
            assert_eq!((c.kind, c.old_line, c.new_line), (Kind::Add, None, Some(2)));
            assert_eq!(b.spans[0].content, "b!");
            assert_eq!(b.spans[0].style, Style::of(Color::Blue));
            assert_eq!(c.spans[0].content, "B\n");
            assert_eq!(c.spans[0].style, Style::of(Color::Green));
        }
        _ => panic!("unexpected rows {rows:?}"),
    }
    let plain = build_unified_rows(&shown, &Vec::new());
    match &plain[1] {
        RenderRow::Unified(r) => {
            assert_eq!(r.kind, Kind::Context);
            assert_eq!(r.spans.len(), 1);
            assert_eq!(r.spans[0].content, "a\n");
            assert_eq!(r.spans[0].style, Style::new());
        }
        other => panic!("unexpected row {other:?}"),
    }
    let grey = Span {
        content: "a!".to_string(),
        style: Style::of(Color::DarkGray),
    };
    let shaded = build_unified_rows(&shown, &vec![vec![grey]]);
    match &shaded[1] {
        RenderRow::Unified(r) => assert_eq!(r.spans[0].content, "a!"),
        other => panic!("unexpected row {other:?}"),
    }
}

#[test]
fn without_colours_the_sides_keep_their_marks() {
    let lines = unified_file_diff("a", "b", Some("a\nb\n"), Some("a\nB\n"), 3);
    let rows = build_side_by_side_rows(&lines, &Vec::new(), &Vec::new());
    let mut seen = Vec::new();
    for r in &rows {
        if let RenderRow::SideBySide(r) = r {
            seen.push((r.left_spans[0].content.clone(), r.right_spans[0].content.clone()));
        }
    }
    let want = |l: &str, r: &str| (l.to_string(), r.to_string());
    assert_eq!(seen, vec![want("a\n", "a\n"), want("-b-\n", "+B+\n")]);
    let bare = Line {
        kind: Kind::Add,
        text: "+x\n".to_string(),
        old_line: None,
        new_line: Some(1),
        inline_spans: None,
    };
    match &build_unified_rows(&vec![bare], &Vec::new())[0] {
        RenderRow::Unified(r) => assert_eq!(r.spans[0].content, "x\n"),
        other => panic!("unexpected row {other:?}"),
    }
}

#[test]
fn the_code_of_a_line_has_no_marks() {
    let bare = |text: &str| Line {
        kind: Kind::Add,
        text: text.to_string(),
        old_line: None,
        new_line: Some(1),
        inline_spans: None,
    };
    assert_eq!(line_code(&bare("+é")), "é");
    assert_eq!(line_code(&bare("+x\r\n")), "x");
    assert_eq!(line_code(&bare("")), "");
    assert_eq!(text_behind_prefix("+x\r\n"), "x\r\n");
    assert_eq!(text_behind_prefix("é"), "");
    let lines = unified_file_diff("a", "b", Some("let a = 1;\r\nx"), Some("let b = 1;\r\nx"), 3);
    let code: Vec<_> = lines
        .iter()
        .filter(|l| matches!(l.kind, Kind::Add | Kind::Remove | Kind::Context))
        .map(line_code)
        .collect();
    assert_eq!(code, vec!["let a = 1;", "let b = 1;", "x"]);
    let block: Vec<_> = unified_code(&lines).lines().map(str::to_string).collect();
    assert_eq!(block, code);
}

#[test]
fn inline_parts_keep_the_colour_of_their_side() {
    let parts = vec![
        InlineSpan {
            text: "let ".to_string(),
            emphasized: false,
        },
        InlineSpan {
            text: "x".to_string(),
            emphasized: true,
        },
    ];
    let out = merge_inline_with_syntax(&parts, None, Kind::Add);
    assert_eq!(out.len(), 1);
    assert_eq!(out[0].content, "let x");
    assert_eq!(out[0].style, Style::of(Color::Green));
    let out = merge_inline_with_syntax(&parts, None, Kind::Context);
    assert_eq!(out[0].content, "");
    let code = vec![Span::raw("code".to_string())];
    let out = merge_inline_with_syntax(&parts, Some(&code), Kind::Remove);
    assert_eq!(out[0].content, "code");
}
