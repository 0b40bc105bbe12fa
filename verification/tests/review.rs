use std::collections::HashSet;

use remark::file_note::{decode_file_note, encode_file_note, note_json, FileNote, FileNoteV1};
use remark::ordmap::OrdMap;
use remark::review::{
    push_fenced_block, push_fenced_block_with_lang, render_prompt, Comment, CommentState,
    FileReview, LineKey, LineSide, PromptSnippet, Review,
};

fn key(side: LineSide, line: u32) -> LineKey {
    LineKey { side, line }
}

#[test]
fn line_key_plain_number_is_new_side() {
    let k = LineKey::decode("12").unwrap();
    assert_eq!(k.side, LineSide::New);
    assert_eq!(k.line, 12);
}

#[test]
fn line_key_roundtrip_has_prefix() {
    let k = key(LineSide::Old, 7);
    let s = k.encode();
    assert_eq!(s, "o:7");
    let k2 = LineKey::decode(&s).unwrap();
    assert_eq!(k2.side, LineSide::Old);
    assert_eq!(k2.line, 7);
}

#[test]
fn line_key_text_must_write_a_line() {
    assert_eq!(key(LineSide::New, 0).encode(), "n:0");
    assert!(LineKey::decode("x:7").is_none());
    assert!(LineKey::decode("o:").is_none());
    assert!(LineKey::decode("").is_none());
    assert!(LineKey::decode("n:4294967296").is_none());
    assert_eq!(LineKey::decode("n:4294967295").unwrap().line, u32::MAX);
    assert_eq!(LineKey::decode("o:+3").unwrap(), key(LineSide::Old, 3));
    assert!(LineKey::decode("n:-3").is_none());
}

#[test]
fn prompt_omits_resolved_comments() {
    let mut r = Review::new();

    r.set_file_comment("a.rs", "File todo".to_string());
    r.set_line_comment("a.rs", LineSide::New, 10, "Fix this".to_string());
    r.set_line_comment("a.rs", LineSide::Old, 2, "Restore this".to_string());

    // Resolve one line and the file comment; only the unresolved line should remain.
    r.toggle_file_comment_resolved("a.rs");
    r.toggle_line_comment_resolved("a.rs", LineSide::Old, 2);

    // File with only resolved comments should not appear.
    r.set_file_comment("b.rs", "All done".to_string());
    r.toggle_file_comment_resolved("b.rs");

    let p = render_prompt(&r, |_, _| None);
    assert!(!p.contains("Target:"));
    assert!(!p.contains("Base:"));
    assert!(p.contains("## a.rs"));
    assert!(p.contains("- line 10"));
    assert!(p.contains("Fix this"));
    assert!(!p.contains("File todo"));
    assert!(!p.contains("Restore this"));
    assert!(!p.contains("## b.rs"));
    assert!(!p.contains("## TODOs"));
}

#[test]
fn prune_line_comments_removes_unreachable() {
    let mut r = Review::new();
    r.set_line_comment("a.rs", LineSide::New, 10, "Fix this".to_string());
    r.set_line_comment("a.rs", LineSide::Old, 2, "Restore this".to_string());

    let mut valid_old = HashSet::new();
    valid_old.insert(2);
    let mut valid_new = HashSet::new();
    valid_new.insert(11);

    assert!(r.prune_line_comments("a.rs", &valid_old, &valid_new));
    assert!(r.line_comment("a.rs", LineSide::Old, 2).is_some());
    assert!(r.line_comment("a.rs", LineSide::New, 10).is_none());
}

#[test]
fn prompt_shows_no_comments_when_all_resolved() {
    let mut r = Review::new();
    r.set_file_comment("a.rs", "done".to_string());
    r.toggle_file_comment_resolved("a.rs");
    let p = render_prompt(&r, |_, _| None);
    assert!(p.contains("No comments."));
}

#[test]
fn prompt_does_not_duplicate_file_comments_as_todos() {
    let mut r = Review::new();
    r.set_file_comment("a.rs", "Do thing".to_string());
    let p = render_prompt(&r, |_, _| None);
    assert!(p.contains("## a.rs"));
    assert!(p.contains("### File comment"));
    assert!(p.contains("Do thing"));
    assert!(!p.contains("## TODOs"));
}

#[test]
fn prompt_includes_line_code_when_available() {
    let mut r = Review::new();
    r.set_line_comment("a.rs", LineSide::New, 10, "Fix this".to_string());

    let p = render_prompt(&r, |path, key| {
        if path == "a.rs" && key.side == LineSide::New && key.line == 10 {
            Some(PromptSnippet {
                code: "let x = 1;".to_string(),
                lang: "rust".to_string(),
            })
        } else {
            None
        }
    });

    assert!(p.contains("```rust"));
    assert!(p.contains("let x = 1;"));
    assert!(p.contains("Fix this"));
}

fn comment_of(v: &serde_json::Value) -> Comment {
    Comment {
        body: v["body"].as_str().unwrap().to_string(),
        resolved: v["resolved"].as_bool().unwrap_or(false),
        snippet_hash: v["snippet_hash"].as_str().map(|s| s.to_string()),
    }
}

fn read_v2(json: &str) -> Option<FileNote> {
    let v: serde_json::Value = serde_json::from_str(json).ok()?;
    let file = v.get("file")?;
    let mut comments = OrdMap::new();
    for (k, c) in file.get("comments")?.as_object()? {
        c.as_object()?;
        comments.insert(LineKey::decode(k)?, comment_of(c));
    }
    let file_comment = match file.get("file_comment") {
        None => None,
        Some(c) => {
            c.as_object()?;
            Some(comment_of(c))
        }
    };
    Some(FileNote {
        version: v["version"].as_u64()? as u8,
        file: FileReview {
            file_comment,
            comments,
            reviewed: file["reviewed"].as_bool().unwrap_or(false),
            reviewed_hash: file["reviewed_hash"].as_str().map(|s| s.to_string()),
        },
    })
}

fn read_v1(json: &str) -> Option<FileNoteV1> {
    let v: serde_json::Value = serde_json::from_str(json).ok()?;
    let file = v.get("file")?;
    let mut comments = OrdMap::new();
    for (k, c) in file.get("comments")?.as_object()? {
        comments.insert(LineKey::decode(k)?, c.as_str()?.to_string());
    }
    Some(FileNoteV1 {
        version: v["version"].as_u64()? as u8,
        file_comment: file["file_comment"].as_str().map(|s| s.to_string()),
        comments,
    })
}

fn decode(note: &str) -> Option<FileReview> {
    let json = note_json(note)?;
    decode_file_note(read_v2(&json), read_v1(&json))
}

#[test]
fn file_note_roundtrip_v2() {
    let json = r#"{
  "version": 2,
  "file": {
    "file_comment": {
      "body": "file-level",
      "resolved": true
    },
    "comments": {
      "o:1": {
        "body": "restore this",
        "resolved": true
      },
      "n:3": {
        "body": "hello",
        "resolved": false
      }
    },
    "reviewed": true,
    "reviewed_hash": "abc123"
  }
}"#;
    let note = encode_file_note(json);
    assert_eq!(note_json(&note).unwrap(), json);
    let decoded = decode(&note).unwrap();
    assert_eq!(
        decoded.file_comment.as_ref().unwrap().body,
        "file-level".to_string()
    );
    assert!(decoded.file_comment.as_ref().unwrap().resolved);
    assert!(decoded.reviewed);
    assert_eq!(decoded.reviewed_hash.as_deref(), Some("abc123"));
    assert_eq!(decoded.comments.len(), 2);
    assert_eq!(
        decoded.comments.get(&key(LineSide::New, 3)).unwrap().body,
        "hello"
    );
    assert!(!decoded.comments.get(&key(LineSide::New, 3)).unwrap().resolved);
}

#[test]
fn file_note_v1_upgrades_to_v2_comments_unresolved() {
    let note = r#"<!-- remark-file:1 -->
```json
{
  "version": 1,
  "file": {
    "file_comment": "do the thing",
    "comments": {
      "12": "new side (implicit)",
      "o:2": "old side",
      "n:3": "new side"
    }
  }
}
```"#;

    let fr = decode(note).unwrap();
    assert_eq!(fr.file_comment.as_ref().unwrap().body, "do the thing");
    assert!(!fr.file_comment.as_ref().unwrap().resolved);
    assert_eq!(fr.comments.len(), 3);
    assert_eq!(
        fr.comments.get(&key(LineSide::New, 12)).unwrap().body,
        "new side (implicit)"
    );
    assert!(!fr.comments.get(&key(LineSide::Old, 2)).unwrap().resolved);
    assert!(!fr.reviewed);
}

#[test]
fn a_note_of_another_version_is_not_read() {
    let note = encode_file_note("{\n  \"version\": 3,\n  \"file\": { \"comments\": {} }\n}");
    assert!(decode(&note).is_none());
    assert!(decode("no block here\n").is_none());
    assert_eq!(note_json("x\n  ```json  \na\r\nb\n\t```\nc\n").unwrap(), "a\nb");
    assert_eq!(note_json("```json\nopen to the end").unwrap(), "open to the end");
}

#[test]
fn what_was_said_is_read_back() {
    let mut r = Review::new();
    r.set_line_comment("a.rs", LineSide::New, 10, "one".to_string());
    r.set_line_comment_snippet_hash("a.rs", LineSide::New, 10, Some("h".to_string()));
    r.toggle_line_comment_resolved("a.rs", LineSide::New, 10);
    r.set_line_comment("a.rs", LineSide::New, 10, "two".to_string());
    let c = r.line_comment("a.rs", LineSide::New, 10).unwrap();
    assert_eq!(c.body, "two");
    assert!(c.resolved);
    assert_eq!(c.snippet_hash.as_deref(), Some("h"));

    r.set_line_comment("a.rs", LineSide::New, 10, " \n ".to_string());
    assert!(r.line_comment("a.rs", LineSide::New, 10).is_none());
    assert!(r.files.is_empty());

    r.set_file_comment("b.rs", "x".to_string());
    assert!(r.remove_file_comment("b.rs"));
    assert!(!r.remove_file_comment("b.rs"));
    assert!(r.files.is_empty());
}

#[test]
fn toggling_twice_leads_back() {
    let mut r = Review::new();
    assert_eq!(r.toggle_file_comment_resolved("a"), None);
    assert_eq!(r.toggle_line_comment_resolved("a", LineSide::Old, 1), None);
    r.set_line_comment("a", LineSide::Old, 1, "x".to_string());
    assert_eq!(r.toggle_line_comment_resolved("a", LineSide::Old, 1), Some(true));
    assert_eq!(r.comment_state("a"), CommentState::ResolvedOnly);
    assert_eq!(r.toggle_line_comment_resolved("a", LineSide::Old, 1), Some(false));
    assert_eq!(r.comment_state("a"), CommentState::HasUnresolved);
    assert!(r.remove_line_comment("a", LineSide::Old, 1));
    assert_eq!(r.comment_state("a"), CommentState::Empty);
}

#[test]
fn pruning_by_the_same_lines_changes_nothing_more() {
    let mut r = Review::new();
    r.set_line_comment("a", LineSide::New, 1, "x".to_string());
    let none = HashSet::new();
    let mut one = HashSet::new();
    one.insert(1);
    assert!(!r.prune_line_comments("a", &none, &one));
    assert!(r.prune_line_comments("a", &none, &none));
    assert!(!r.prune_line_comments("a", &none, &none));
    assert!(r.files.is_empty());
}

#[test]
fn prompt_is_laid_out_by_file_and_line() {
    let mut r = Review::new();
    r.set_file_comment("b.rs", "Whole file  \n".to_string());
    r.set_line_comment("b.rs", LineSide::New, 2, "second".to_string());
    r.set_line_comment("b.rs", LineSide::Old, 9, "gone".to_string());
    r.set_line_comment("a.rs", LineSide::New, 1, "has ``` inside".to_string());
    let p = render_prompt(&r, |_, _| None);
    assert_eq!(
        p,
        "# Review Notes\n\nThese notes are grouped by file. Every comment belongs to the file \
section it appears under.\n\n## a.rs\n### Line comments\n- line 1\n````text\nhas ``` inside\n\
````\n\n## b.rs\n### File comment\n```text\nWhole file\n```\n\n### Line comments\n- line 9 (old)\n\
```text\ngone\n```\n- line 2\n```text\nsecond\n```\n\n"
    );
    assert_eq!(render_prompt(&Review::new(), |_, _| None), "No comments.\n");
}

#[test]
fn a_fence_is_longer_than_any_run_inside() {
    let mut out = String::new();
    push_fenced_block_with_lang(&mut out, "a\n````\n", "md");
    assert_eq!(out, "`````md\na\n````\n`````\n");
    let mut out = String::from("> ");
    push_fenced_block(&mut out, "");
    assert_eq!(out, "> ```text\n\n```\n");
}
