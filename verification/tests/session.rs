use remark::ordmap::OrdMap;
use remark::review::{Comment, FileReview, LineKey, LineSide, Review};
use remark::session::{
    accept_comment, carry_resolved, carry_reviewed, current_comment_target, delete_comment,
    existing_body, is_reviewed, is_worth_storing, merge_draft_into_notes, merge_file_review,
    next_commentable, prune_resolved, set_reviewed, CommentLocator, CommentTarget,
    FileChangeKind, FileEntry,
};

fn comment(body: &str, resolved: bool) -> Comment {
    Comment {
        body: body.to_string(),
        resolved,
        snippet_hash: None,
    }
}

fn lines(entries: Vec<(LineKey, Comment)>) -> OrdMap<LineKey, Comment> {
    let mut out = OrdMap::new();
    for (k, c) in entries {
        out.insert(k, c);
    }
    out
}

#[test]
fn merge_file_review_prefers_unresolved_file_comment() {
    let mut target = FileReview {
        file_comment: Some(comment("old", true)),
        ..Default::default()
    };
    let incoming = FileReview {
        file_comment: Some(comment("new", false)),
        ..Default::default()
    };

    merge_file_review(&mut target, incoming);

    let file_comment = target.file_comment.expect("file comment");
    assert_eq!(file_comment.body, "new");
    assert!(!file_comment.resolved);
}

#[test]
fn merge_file_review_keeps_unresolved_file_comment() {
    let mut target = FileReview {
        file_comment: Some(comment("keep", false)),
        ..Default::default()
    };
    let incoming = FileReview {
        file_comment: Some(comment("resolved", true)),
        ..Default::default()
    };

    merge_file_review(&mut target, incoming);

    let file_comment = target.file_comment.expect("file comment");
    assert_eq!(file_comment.body, "keep");
    assert!(!file_comment.resolved);
}

#[test]
fn merge_file_review_prefers_unresolved_line_comment() {
    let key = LineKey {
        side: LineSide::New,
        line: 10,
    };
    let mut target = FileReview {
        comments: lines(vec![(key, comment("old", true))]),
        ..Default::default()
    };
    let incoming = FileReview {
        comments: lines(vec![(key, comment("new", false))]),
        ..Default::default()
    };

    merge_file_review(&mut target, incoming);

    let comment = target.comments.get(&key).expect("line comment");
    assert_eq!(comment.body, "new");
    assert!(!comment.resolved);
}

#[test]
fn prune_resolved_drops_only_resolved_entries() {
    let mut review = FileReview {
        file_comment: Some(comment("file", true)),
        comments: lines(vec![
            (
                LineKey {
                    side: LineSide::New,
                    line: 1,
                },
                comment("keep", false),
            ),
            (
                LineKey {
                    side: LineSide::Old,
                    line: 2,
                },
                comment("drop", true),
            ),
        ]),
        ..Default::default()
    };

    prune_resolved(&mut review);

    assert!(review.file_comment.is_none());
    assert_eq!(review.comments.len(), 1);
    let remaining = review.comments.val_at(0);
    assert_eq!(remaining.body, "keep");
}

#[test]
fn merging_takes_over_the_mark_of_a_review() {
    let mut target = FileReview::default();
    let incoming = FileReview {
        reviewed: true,
        reviewed_hash: Some("h".to_string()),
        ..Default::default()
    };
    merge_file_review(&mut target, incoming);
    assert!(target.reviewed);
    assert_eq!(target.reviewed_hash.as_deref(), Some("h"));
    let other = FileReview {
        reviewed: true,
        reviewed_hash: Some("i".to_string()),
        ..Default::default()
    };
    merge_file_review(&mut target, other);
    assert_eq!(target.reviewed_hash.as_deref(), Some("h"));
}

#[test]
fn drafted_comments_take_the_place_of_stored_ones() {
    let mut notes = Review::new();
    notes.set_file_comment("a", "stored".to_string());
    set_reviewed(&mut notes, "a", true, Some("h".to_string()));
    notes.set_file_comment("b", "stored too".to_string());
    let mut draft = Review::new();
    draft.set_line_comment("a", LineSide::New, 3, "drafted".to_string());
    draft.set_file_comment("c", "new".to_string());
    let shown = merge_draft_into_notes(&notes, &draft);
    assert!(shown.file_comment("a").is_none());
    assert_eq!(shown.line_comment("a", LineSide::New, 3).unwrap().body, "drafted");
    assert!(is_reviewed(&shown, "a"));
    assert!(shown.file_comment("b").is_none());
    assert_eq!(shown.file_comment("c").unwrap().body, "new");
    assert_eq!(shown.files.len(), 3);
}

#[test]
fn a_mark_comes_and_goes() {
    let mut r = Review::new();
    set_reviewed(&mut r, "a", true, Some("h".to_string()));
    assert!(is_reviewed(&r, "a"));
    set_reviewed(&mut r, "a", false, None);
    assert!(r.files.is_empty());
}

#[test]
fn states_are_carried_over() {
    let key = LineKey {
        side: LineSide::New,
        line: 1,
    };
    let mut stored = FileReview {
        file_comment: Some(comment("f", false)),
        comments: lines(vec![(key, comment("l", true))]),
        ..Default::default()
    };
    let shown = FileReview {
        file_comment: Some(comment("other", true)),
        comments: lines(vec![(key, comment("l2", false))]),
        reviewed: true,
        reviewed_hash: Some("h".to_string()),
    };
    carry_resolved(&mut stored, Some(&shown));
    carry_reviewed(&mut stored, Some(&shown));
    assert_eq!(stored.file_comment.as_ref().unwrap().body, "f");
    assert!(stored.file_comment.as_ref().unwrap().resolved);
    assert!(!stored.comments.get(&key).unwrap().resolved);
    assert!(stored.reviewed);
    assert!(is_worth_storing(&stored));
    assert!(!is_worth_storing(&FileReview::default()));
}

#[test]
fn a_blank_comment_is_a_deletion() {
    let mut r = Review::new();
    let target = CommentTarget {
        path: "a".to_string(),
        locator: CommentLocator::Line {
            side: LineSide::New,
            line: 4,
        },
    };
    assert!(!accept_comment(&mut r, &target, "  ".to_string(), None));
    assert!(accept_comment(&mut r, &target, "x".to_string(), Some("h".to_string())));
    assert_eq!(existing_body(&r, &target), "x");
    let c = r.line_comment("a", LineSide::New, 4).unwrap();
    assert_eq!(c.snippet_hash.as_deref(), Some("h"));
    assert!(accept_comment(&mut r, &target, String::new(), None));
    assert!(!delete_comment(&mut r, &target));
    assert_eq!(existing_body(&r, &target), "");
}

#[test]
fn no_file_means_no_target() {
    let files: Vec<FileEntry> = Vec::new();
    assert!(current_comment_target(&files, 0, &Vec::new(), 0).is_none());
    assert!(next_commentable(&Vec::new(), 0).is_none());
    let files = vec![FileEntry {
        path: "a".to_string(),
        change: FileChangeKind::Added,
        git_xy: ['A', ' '],
    }];
    assert!(current_comment_target(&files, 0, &Vec::new(), 0).is_none());
}
