use remark::draft::{draft_to_review, review_to_draft, DraftReview};
use remark::draft_text::{parse_line_marker, parse_prompt_draft};
use remark::review::{render_prompt, LineSide, PromptSnippet, Review};

#[test]
fn review_to_draft_omits_resolved_and_empty() {
    let mut review = Review::new();
    review.set_file_comment("a.rs", "file".to_string());
    review.toggle_file_comment_resolved("a.rs");
    review.set_file_comment("b.rs", "   ".to_string());
    review.set_line_comment("a.rs", LineSide::New, 1, "keep".to_string());
    review.set_line_comment("a.rs", LineSide::Old, 2, "drop".to_string());
    review.toggle_line_comment_resolved("a.rs", LineSide::Old, 2);

    let draft = review_to_draft(&review);
    assert!(draft.file_comment("a.rs").is_none());
    assert!(draft.file_comment("b.rs").is_none());
    assert_eq!(draft.line_comment("a.rs", LineSide::New, 1), Some("keep"));
    assert!(draft.line_comment("a.rs", LineSide::Old, 2).is_none());
}

#[test]
fn parse_prompt_draft_ignores_non_text_fences() {
    let content = r#"# Review Notes

## src/lib.rs
### File comment
```text
File note
```
### Line comments
- line 5
```text
Line note
```
```rust
fn not_a_comment() {}
```
- line 7 (old)
```text
Old note
```
"#;

    let draft = parse_prompt_draft(content);
    assert_eq!(draft.file_comment("src/lib.rs"), Some("File note"));
    assert_eq!(
        draft.line_comment("src/lib.rs", LineSide::New, 5),
        Some("Line note")
    );
    assert_eq!(
        draft.line_comment("src/lib.rs", LineSide::Old, 7),
        Some("Old note")
    );
}

#[test]
fn parse_prompt_draft_ignores_placeholder() {
    let content = r#"# Review Notes

## src/lib.rs
### File comment
```text
<!-- remark:write comment -->
```

### Line comments
- line 3
```text
<!-- remark:write comment -->
```
"#;

    let draft = parse_prompt_draft(content);
    assert!(draft.file_comment("src/lib.rs").is_none());
    assert!(draft.line_comment("src/lib.rs", LineSide::New, 3).is_none());
}

#[test]
fn line_markers() {
    assert_eq!(parse_line_marker("12"), Some((12, LineSide::New)));
    assert_eq!(parse_line_marker("7 (old)"), Some((7, LineSide::Old)));
    assert_eq!(parse_line_marker("007x"), Some((7, LineSide::New)));
    assert_eq!(parse_line_marker("x"), None);
    assert_eq!(parse_line_marker("+3"), None);
    assert_eq!(parse_line_marker("99999999999"), None);
}

#[test]
fn a_draft_and_its_review_say_the_same() {
    let mut draft = DraftReview::default();
    draft.set_file_comment("a", "x".to_string());
    draft.set_line_comment("a", LineSide::New, 1, " ".to_string());
    draft.set_line_comment("b", LineSide::Old, 2, "y".to_string());
    let review = draft_to_review(&draft);
    assert_eq!(review.file_comment("a").unwrap().body, "x");
    assert!(review.line_comment("a", LineSide::New, 1).is_none());
    assert_eq!(review.line_comment("b", LineSide::Old, 2).unwrap().body, "y");
    assert!(draft.remove_line_comment("b", LineSide::Old, 2));
    assert!(!draft.remove_line_comment("b", LineSide::Old, 2));
    assert!(draft.remove_file_comment("a"));
    assert!(!draft.remove_file_comment("a"));
    assert_eq!(draft.files.len(), 1);
}

#[test]
fn a_draft_reads_back_from_its_prompt() {
    let mut draft = DraftReview::default();
    draft.set_file_comment("src/a.rs", "Whole\n\n  file".to_string());
    draft.set_line_comment("src/a.rs", LineSide::New, 3, "with ` ticks ``".to_string());
    draft.set_line_comment("src/a.rs", LineSide::Old, 4, "## not a heading".to_string());
    draft.set_file_comment("b c.md", "- line 9".to_string());
    let prompt = render_prompt(&draft_to_review(&draft), |_, key| {
        Some(PromptSnippet {
            code: format!("code {}\n```", key.line),
            lang: "rust".to_string(),
        })
    });
    let read = parse_prompt_draft(&prompt);
    assert_eq!(read.files.len(), 2);
    assert_eq!(read.file_comment("src/a.rs"), Some("Whole\n\n  file"));
    assert_eq!(
        read.line_comment("src/a.rs", LineSide::New, 3),
        Some("with ` ticks ``")
    );
    assert_eq!(
        read.line_comment("src/a.rs", LineSide::Old, 4),
        Some("## not a heading")
    );
    assert_eq!(read.file_comment("b c.md"), Some("- line 9"));
    let again = render_prompt(&draft_to_review(&read), |_, _| None);
    assert_eq!(
        render_prompt(&draft_to_review(&parse_prompt_draft(&again)), |_, _| None),
        again
    );
}
