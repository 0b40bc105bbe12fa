use remark::add_cmd::write_draft;
use remark::config::PromptFilter;
use remark::draft::{draft_to_review, review_to_draft, DraftFileReview, DraftReview};
use remark::draft_ops::{apply_draft, apply_file, rebuild_draft_meta, SkipReason};
use remark::draft_text::parse_prompt_draft;
use remark::git::ViewKind;
use remark::hash::{draft_content_hash, meta_key, snippet_hash};
use remark::ordmap::{Duplicate, OrdMap};
use remark::prompt_cmd::prompt_view_order;
use remark::prompt_code::{prompt_snippet, LineSnippetResolver, Search};
use remark::review::{render_prompt, Comment, FileReview, LineKey, LineSide, Review};
use remark::session::{is_worth_storing, CommentLocator, CommentTarget};
use remark::sync::{
    meta_hash_map, sync_bias, sync_draft_notes_with_mode, sync_file, DraftMeta, DraftSyncMode,
    NotesRefInfo, SyncAction, SyncBias,
};

const PLACEHOLDER: &str = "<!-- remark:write comment -->";

/// A repository with one file, its notes and its draft, all in memory.
struct Repo {
    path: String,
    head: String,
    worktree: String,
    notes: OrdMap<String, FileReview>,
    notes_writes: u32,
    notes_time: i64,
    draft: String,
    draft_mtime: i64,
    meta: DraftMeta,
}

impl Repo {
    fn with_commit(path: &str, contents: &str) -> Repo {
        Repo {
            path: path.to_string(),
            head: contents.to_string(),
            worktree: contents.to_string(),
            notes: OrdMap::new(),
            notes_writes: 0,
            notes_time: 1000,
            draft: "No comments.\n".to_string(),
            draft_mtime: 1000,
            meta: DraftMeta::default(),
        }
    }

    fn info(&self) -> Option<NotesRefInfo> {
        if self.notes_writes == 0 {
            None
        } else {
            Some(NotesRefInfo {
                oid: format!("commit-{}", self.notes_writes),
                time: self.notes_time,
            })
        }
    }

    fn snippet(&self, path: &str, key: LineKey) -> Option<String> {
        let mut resolver = LineSnippetResolver::new(3, prompt_view_order(PromptFilter::All, false));
        loop {
            match resolver.snippet(path, key) {
                Search::Done(found) => return found,
                Search::Read(view) => {
                    let known = path == self.path;
                    let head = if known { Some(self.head.as_str()) } else { None };
                    let tree = if known { Some(self.worktree.as_str()) } else { None };
                    match view {
                        ViewKind::All => resolver.store(view, path, head, tree),
                        ViewKind::Staged => resolver.store(view, path, head, None),
                        ViewKind::Unstaged => resolver.store(view, path, None, tree),
                        ViewKind::Base => resolver.store(view, path, None, None),
                    }
                }
            }
        }
    }

    fn snippets(&self, draft: &DraftReview) -> OrdMap<String, OrdMap<LineKey, String>> {
        let mut keys: Vec<LineKey> = Vec::new();
        if let Some(f) = draft.files.get(&self.path) {
            for i in 0..f.comments.len() {
                keys.push(*f.comments.key_at(i));
            }
        }
        if let Some(f) = self.notes.get(&self.path) {
            for i in 0..f.comments.len() {
                keys.push(*f.comments.key_at(i));
            }
        }
        let mut of_path = OrdMap::new();
        for k in keys {
            if let Some(code) = self.snippet(&self.path, k) {
                of_path.insert(k, code);
            }
        }
        let mut out = OrdMap::new();
        out.insert(self.path.clone(), of_path);
        out
    }

    fn persist(&mut self, path: &str, file: Option<&FileReview>) {
        match file {
            Some(f) if is_worth_storing(f) => self.notes.insert(path.to_string(), f.duplicate()),
            _ => {
                self.notes.remove(&path.to_string());
            }
        }
        self.notes_writes += 1;
    }

    fn write_draft_review(&mut self, review: &Review) {
        let draft = review_to_draft(review);
        self.draft = render_prompt(&draft_to_review(&draft), |path, key| {
            prompt_snippet(path, self.snippet(path, key))
        });
    }

    fn write_draft_from_review(&mut self, review: &Review) {
        self.write_draft_review(review);
        let mut preferred = OrdMap::new();
        for i in 0..review.files.len() {
            let path = review.files.key_at(i);
            let file = review.files.val_at(i);
            for j in 0..file.comments.len() {
                let k = file.comments.key_at(j);
                let c = file.comments.val_at(j);
                if let (false, Some(h)) = (c.resolved, &c.snippet_hash) {
                    let side = if k.side == LineSide::Old { "old" } else { "new" };
                    preferred.insert(meta_key(path, side, k.line), h.clone());
                }
            }
        }
        self.rebuild(&review_to_draft(review), Some(&preferred));
    }

    fn rebuild(&mut self, draft: &DraftReview, preferred: Option<&OrdMap<String, String>>) {
        self.meta = rebuild_draft_meta(
            draft,
            &self.meta,
            preferred,
            &self.snippets(draft),
            &self.info(),
            Some(self.draft_mtime),
            Some(&self.draft),
        );
    }

    fn sync(&mut self) -> bool {
        let draft = parse_prompt_draft(&self.draft);
        let snippets = self.snippets(&draft);
        let hash = draft_content_hash(&self.draft).unwrap();
        let bias = sync_bias(&self.meta, Some(self.draft_mtime), &hash, &self.info());
        let out = sync_draft_notes_with_mode(
            draft,
            &vec![self.path.clone()],
            &self.notes,
            &meta_hash_map(&self.meta),
            &snippets,
            bias,
            DraftSyncMode::Passive,
        );
        for i in 0..out.dirty.len() {
            let path = out.dirty.key_at(i).clone();
            self.persist(&path, Some(out.dirty.val_at(i)));
        }
        if out.draft_updated {
            self.draft = render_prompt(&draft_to_review(&out.draft), |path, key| {
                prompt_snippet(path, self.snippet(path, key))
            });
        }
        self.rebuild(&out.draft, Some(&out.preferred));
        out.draft_updated
    }

    fn load_draft(&self) -> DraftReview {
        parse_prompt_draft(&self.draft)
    }

    fn write_notes_file_comment(&mut self, path: &str, body: &str) {
        let file = FileReview {
            file_comment: Some(comment(body)),
            ..Default::default()
        };
        self.persist(path, Some(&file));
    }

    fn write_draft_file_comment(&mut self, path: &str, body: &str) {
        let mut review = Review::new();
        review.set_file_comment(path, body.to_string());
        self.write_draft_review(&review);
    }

    fn set_draft_mtime_relative(&mut self, delta_secs: i64) {
        self.draft_mtime = self.notes_time + delta_secs;
    }
}

fn comment(body: &str) -> Comment {
    Comment {
        body: body.to_string(),
        resolved: false,
        snippet_hash: None,
    }
}

fn with_file_comment(path: &str, body: &str) -> Review {
    let mut review = Review::new();
    review.set_file_comment(path, body.to_string());
    review
}

fn with_line_comment(path: &str, line: u32, body: &str) -> Review {
    let mut review = Review::new();
    review.set_line_comment(path, LineSide::New, line, body.to_string());
    review
}

fn new_line(line: u32) -> LineKey {
    LineKey {
        side: LineSide::New,
        line,
    }
}

#[test]
fn write_draft_inserts_placeholder_for_empty_comment() {
    let repo = Repo::with_commit("src/lib.rs", "fn main() {}\n");
    let mut draft = DraftReview::default();
    let target = CommentTarget {
        path: "src/lib.rs".to_string(),
        locator: CommentLocator::File,
    };
    write_draft(&mut draft, repo.notes.get(&repo.path), &target);
    let content = render_prompt(&draft_to_review(&draft), |path, key| {
        prompt_snippet(path, repo.snippet(path, key))
    });
    assert!(content.contains(PLACEHOLDER));
    assert!(content.contains("### File comment"));
}

#[test]
fn sync_noop_when_neither_changed() {
    let mut repo = Repo::with_commit("src/lib.rs", "fn main() {}\n");
    repo.write_notes_file_comment("src/lib.rs", "note");
    repo.write_draft_from_review(&with_file_comment("src/lib.rs", "note"));

    assert!(!repo.sync());
}

#[test]
fn sync_prefers_draft_when_only_draft_changed() {
    let mut repo = Repo::with_commit("src/lib.rs", "fn main() {}\n");
    repo.write_notes_file_comment("src/lib.rs", "notes");
    repo.write_draft_from_review(&with_file_comment("src/lib.rs", "notes"));

    repo.write_draft_file_comment("src/lib.rs", "draft");

    assert!(!repo.sync());
    let notes = repo.notes.get(&repo.path).expect("notes present");
    let comment = notes.file_comment.as_ref().expect("file comment");
    assert_eq!(comment.body, "draft");
}

#[test]
fn sync_prefers_notes_when_only_notes_changed() {
    let mut repo = Repo::with_commit("src/lib.rs", "fn main() {}\n");
    repo.write_notes_file_comment("src/lib.rs", "before");
    repo.write_draft_from_review(&with_file_comment("src/lib.rs", "before"));

    repo.write_notes_file_comment("src/lib.rs", "after");

    repo.sync();
    assert_eq!(repo.load_draft().file_comment("src/lib.rs"), Some("after"));
}

#[test]
fn sync_both_changed_same_content_no_updates() {
    let mut repo = Repo::with_commit("src/lib.rs", "fn main() {}\n");
    repo.write_notes_file_comment("src/lib.rs", "same");
    repo.write_draft_from_review(&with_file_comment("src/lib.rs", "same"));

    repo.meta.notes_ref_oid = Some("deadbeef".to_string());
    repo.meta.draft_hash = Some("deadbeef".to_string());

    assert!(!repo.sync());
}

#[test]
fn sync_both_changed_prefers_draft_when_newer() {
    let mut repo = Repo::with_commit("src/lib.rs", "fn main() {}\n");
    repo.write_notes_file_comment("src/lib.rs", "notes");
    repo.write_draft_from_review(&with_file_comment("src/lib.rs", "notes"));

    repo.write_draft_file_comment("src/lib.rs", "draft-new");
    repo.write_notes_file_comment("src/lib.rs", "notes-new");
    repo.set_draft_mtime_relative(10);

    assert!(!repo.sync());
    let notes = repo.notes.get(&repo.path).expect("notes present");
    let comment = notes.file_comment.as_ref().expect("file comment");
    assert_eq!(comment.body, "draft-new");
}

#[test]
fn sync_both_changed_prefers_notes_when_newer() {
    let mut repo = Repo::with_commit("src/lib.rs", "fn main() {}\n");
    repo.write_notes_file_comment("src/lib.rs", "notes");
    repo.write_draft_from_review(&with_file_comment("src/lib.rs", "notes"));

    repo.write_draft_file_comment("src/lib.rs", "draft-new");
    repo.write_notes_file_comment("src/lib.rs", "notes-new");
    repo.set_draft_mtime_relative(-10);

    repo.sync();
    assert_eq!(repo.load_draft().file_comment("src/lib.rs"), Some("notes-new"));
}

#[test]
fn sync_deletes_note_when_draft_removed() {
    let mut repo = Repo::with_commit("src/lib.rs", "fn main() {}\n");
    repo.write_notes_file_comment("src/lib.rs", "note");
    repo.write_draft_from_review(&with_file_comment("src/lib.rs", "note"));

    repo.write_draft_review(&Review::new());

    assert!(!repo.sync());
    assert!(repo.notes.get(&repo.path).is_none());
}

#[test]
fn sync_removes_draft_when_notes_removed() {
    let mut repo = Repo::with_commit("src/lib.rs", "fn main() {}\n");
    repo.write_notes_file_comment("src/lib.rs", "note");
    repo.write_draft_from_review(&with_file_comment("src/lib.rs", "note"));

    repo.persist("src/lib.rs", None);

    repo.sync();
    assert!(repo.load_draft().file_comment("src/lib.rs").is_none());
}

#[test]
fn sync_line_comment_prefers_notes_when_draft_invalid() {
    let mut repo = Repo::with_commit("src/lib.rs", "fn main() {}\n");
    let notes_review = with_line_comment("src/lib.rs", 1, "notes");
    repo.persist("src/lib.rs", notes_review.files.get(&"src/lib.rs".to_string()));

    repo.write_draft_from_review(&with_line_comment("src/lib.rs", 1, "draft"));

    repo.meta.draft_hash = Some("deadbeef".to_string());
    repo.meta.lines.clear();

    repo.sync();
    assert_eq!(
        repo.load_draft().line_comment("src/lib.rs", LineSide::New, 1),
        Some("notes")
    );
}

#[test]
fn sync_line_comment_removes_when_invalidated() {
    let mut repo = Repo::with_commit("src/lib.rs", "fn main() {}\n");
    let review = with_line_comment("src/lib.rs", 1, "note");
    repo.persist("src/lib.rs", review.files.get(&"src/lib.rs".to_string()));
    repo.write_draft_from_review(&review);

    repo.worktree = "fn main() { println!(\"hi\"); }\n".to_string();
    repo.sync();
    assert!(repo
        .load_draft()
        .line_comment("src/lib.rs", LineSide::New, 1)
        .is_none());
    let notes_review = repo.notes.get(&repo.path).expect("notes review");
    assert!(notes_review
        .comments
        .get(&new_line(1))
        .is_some_and(|c| c.resolved));
}

#[test]
fn sync_line_comment_deletes_note_when_draft_missing() {
    let mut repo = Repo::with_commit("src/lib.rs", "fn main() {}\n");
    let notes_review = with_line_comment("src/lib.rs", 1, "note");
    repo.persist("src/lib.rs", notes_review.files.get(&"src/lib.rs".to_string()));
    repo.write_draft_from_review(&with_line_comment("src/lib.rs", 1, "note"));

    repo.write_draft_review(&Review::new());

    assert!(!repo.sync());
    assert!(repo.notes.get(&repo.path).is_none());
}

#[test]
fn synced_twice_is_synced_once() {
    let mut repo = Repo::with_commit("src/lib.rs", "one\ntwo\nthree\n");
    repo.write_draft_review(&with_line_comment("src/lib.rs", 2, "why two?"));
    repo.sync();
    let stored = repo.notes.get(&repo.path).expect("stored").duplicate();
    let c = stored.comments.get(&new_line(2)).expect("comment");
    assert_eq!(c.body, "why two?");
    assert_eq!(
        c.snippet_hash,
        snippet_hash("src/lib.rs", new_line(2), "one\ntwo\nthree")
    );
    let draft = repo.draft.clone();
    let writes = repo.notes_writes;
    assert!(!repo.sync());
    assert_eq!(repo.draft, draft);
    assert_eq!(repo.notes_writes, writes);
}

#[test]
fn what_is_resolved_leaves_the_draft() {
    let mut repo = Repo::with_commit("src/lib.rs", "one\n");
    repo.write_draft_review(&with_line_comment("src/lib.rs", 1, "x"));
    repo.sync();
    let mut stored = repo.notes.get(&repo.path).expect("stored").duplicate();
    let mut c = stored.comments.remove(&new_line(1)).expect("comment");
    c.resolved = true;
    stored.comments.insert(new_line(1), c);
    repo.persist("src/lib.rs", Some(&stored));
    assert!(repo.sync());
    assert!(repo.load_draft().files.is_empty());
    assert_eq!(repo.draft, "No comments.\n");
}

#[test]
fn the_bias_is_for_the_only_side_that_changed() {
    let hash = "h";
    let info = Some(NotesRefInfo {
        oid: "o".to_string(),
        time: 5,
    });
    let mut meta = DraftMeta::default();
    meta.draft_hash = Some("h".to_string());
    meta.notes_ref_oid = Some("o".to_string());
    let b = sync_bias(&meta, Some(5), hash, &info);
    assert_eq!(b.change, None);
    assert!(b.draft_newer && b.prefers_draft());
    let b = sync_bias(&meta, Some(4), "other", &info);
    assert_eq!(b.change, Some(SyncAction::NotesFromDraft));
    assert!(!b.draft_newer && b.prefers_draft());
    meta.notes_ref_oid = Some("p".to_string());
    let b = sync_bias(&meta, Some(9), hash, &info);
    assert_eq!(b.change, Some(SyncAction::DraftFromNotes));
    assert!(!b.prefers_draft());
    let b = sync_bias(&DraftMeta::default(), None, hash, &None);
    assert_eq!(b.change, None);
    assert!(b.draft_newer);
}

#[test]
fn a_line_without_code_is_resolved_and_leaves_the_draft() {
    let mut draft = DraftFileReview::default();
    draft.comments.insert(new_line(9), "d".to_string());
    let mut notes = FileReview::default();
    notes.comments.insert(new_line(9), comment("n"));
    let bias = SyncBias {
        change: None,
        draft_newer: true,
    };
    let r = sync_file("a", &draft, &notes, &OrdMap::new(), &OrdMap::new(), bias);
    assert!(r.draft.comments.is_empty());
    assert!(r.notes.comments.get(&new_line(9)).unwrap().resolved);
    assert!(r.draft_updated && r.notes_dirty);
}

#[test]
fn applying_a_draft_skips_what_it_cannot_place() {
    let mut draft = DraftFileReview::default();
    draft.file_comment = Some("file".to_string());
    draft.comments.insert(new_line(1), "kept".to_string());
    draft.comments.insert(new_line(2), "no sum".to_string());
    draft.comments.insert(new_line(3), "stale".to_string());
    draft.comments.insert(new_line(4), "no code".to_string());
    let mut snippets = OrdMap::new();
    for n in 1..4 {
        snippets.insert(new_line(n), format!("code {n}"));
    }
    let good = snippet_hash("a", new_line(1), "code 1").unwrap();
    let mut hashes = OrdMap::new();
    hashes.insert(meta_key("a", "new", 1), good.clone());
    hashes.insert(meta_key("a", "new", 3), "old sum".to_string());
    let mut existing = FileReview::default();
    existing.comments.insert(new_line(8), comment("gone"));
    let r = apply_file("a", &draft, Some(existing), &hashes, &snippets).expect("applied");
    let f = r.file.expect("a review");
    assert_eq!(f.file_comment.as_ref().unwrap().body, "file");
    assert_eq!(f.comments.len(), 1);
    let c = f.comments.get(&new_line(1)).unwrap();
    assert_eq!(c.body, "kept");
    assert_eq!(c.snippet_hash.as_deref(), Some(good.as_str()));
    assert_eq!(r.applied, 2);
    let why: Vec<(u32, SkipReason)> = r.skipped.iter().map(|s| (s.line, s.reason)).collect();
    assert_eq!(
        why,
        vec![
            (2, SkipReason::MissingChecksum),
            (3, SkipReason::OutOfDate),
            (4, SkipReason::NoSnippet),
        ]
    );
    assert_eq!(SkipReason::NoSnippet.message(), "no snippet available");
    assert_eq!(SkipReason::MissingChecksum.message(), "missing checksum");
    assert_eq!(SkipReason::OutOfDate.message(), "draft out of date");
}

#[test]
fn applying_a_draft_goes_file_by_file() {
    let mut draft = DraftReview::default();
    draft.set_file_comment("a", "about a".to_string());
    draft.set_line_comment("b", LineSide::New, 1, "kept".to_string());
    draft.set_line_comment("b", LineSide::New, 2, "no code".to_string());
    let mut code = OrdMap::new();
    code.insert(new_line(1), "code 1".to_string());
    let mut snippets = OrdMap::new();
    snippets.insert("b".to_string(), code);
    let mut hashes = OrdMap::new();
    hashes.insert(
        meta_key("b", "new", 1),
        snippet_hash("b", new_line(1), "code 1").unwrap(),
    );
    let mut existing = FileReview::default();
    existing.comments.insert(new_line(8), comment("gone"));
    let mut notes = OrdMap::new();
    notes.insert("a".to_string(), existing);

    let r = apply_draft(&draft, &notes, &hashes, &snippets);
    assert!(r.complete);
    assert_eq!(r.files.len(), 2);
    assert_eq!(r.files[0].0, "a");
    let a = r.files[0].1.as_ref().unwrap();
    assert_eq!(a.file_comment.as_ref().unwrap().body, "about a");
    assert!(a.comments.is_empty());
    assert_eq!(r.files[1].0, "b");
    let b = r.files[1].1.as_ref().unwrap();
    assert_eq!(b.comments.len(), 1);
    assert_eq!(b.comments.get(&new_line(1)).unwrap().body, "kept");
    assert_eq!(r.skipped.len(), 1);
    assert_eq!(r.skipped[0].0, "b");
    assert_eq!(r.skipped[0].1.line, 2);
    assert_eq!(r.skipped[0].1.reason, SkipReason::NoSnippet);
}

#[test]
fn the_kept_hashes_go_before_the_preferred_ones() {
    let mut draft = DraftReview::default();
    draft.set_line_comment("a", LineSide::New, 1, "x".to_string());
    draft.set_line_comment("a", LineSide::New, 2, "y".to_string());
    draft.set_line_comment("a", LineSide::Old, 3, "z".to_string());
    let mut kept = DraftMeta::default();
    kept.lines.push(remark::sync::DraftLineMeta {
        file: "a".to_string(),
        side: "new".to_string(),
        line: 1,
        hash: "kept".to_string(),
    });
    let mut preferred = OrdMap::new();
    preferred.insert(meta_key("a", "new", 1), "preferred".to_string());
    preferred.insert(meta_key("a", "new", 2), "preferred".to_string());
    let m = rebuild_draft_meta(
        &draft,
        &kept,
        Some(&preferred),
        &OrdMap::new(),
        &None,
        Some(7),
        Some("text"),
    );
    let lines: Vec<(&str, u32, &str)> = m
        .lines
        .iter()
        .map(|l| (l.side.as_str(), l.line, l.hash.as_str()))
        .collect();
    assert_eq!(lines, vec![("new", 1, "kept"), ("new", 2, "preferred")]);
    assert_eq!(m.notes_ref_oid, None);
    assert_eq!(m.draft_mtime, Some(7));
    assert_eq!(m.draft_hash, draft_content_hash("text"));
}

#[test]
fn a_written_draft_agrees_with_the_notes() {
    let line = |n: u32| LineKey {
        side: LineSide::New,
        line: n,
    };
    let mut lines = OrdMap::new();
    lines.insert(line(1), comment("open on a line"));
    lines.insert(
        line(2),
        Comment {
            body: "done".to_string(),
            resolved: true,
            snippet_hash: None,
        },
    );
    let mut notes = OrdMap::new();
    notes.insert(
        "a.rs".to_string(),
        FileReview {
            file_comment: Some(comment("open on the file")),
            comments: lines,
            ..Default::default()
        },
    );
    let mut code = OrdMap::new();
    code.insert(line(1), "fn a() {}".to_string());
    code.insert(line(2), "fn b() {}".to_string());
    let mut snippets = OrdMap::new();
    snippets.insert("a.rs".to_string(), code);
    let out = sync_draft_notes_with_mode(
        DraftReview::default(),
        &vec!["a.rs".to_string(), "b.rs".to_string()],
        &notes,
        &OrdMap::new(),
        &snippets,
        SyncBias {
            change: Some(SyncAction::DraftFromNotes),
            draft_newer: false,
        },
        DraftSyncMode::Passive,
    );
    let written = render_prompt(&draft_to_review(&out.draft), |path, _| {
        prompt_snippet(path, Some("fn a() {}".to_string()))
    });
    let back = parse_prompt_draft(&written);
    assert_eq!(back.files.len(), 1);
    let f = back.files.get(&"a.rs".to_string()).unwrap();
    assert_eq!(f.file_comment.as_deref(), Some("open on the file"));
    assert_eq!(f.comments.len(), 1);
    assert_eq!(f.comments.get(&line(1)).map(String::as_str), Some("open on a line"));
    let kept = out.dirty.get(&"a.rs".to_string()).unwrap();
    assert_eq!(kept.comments.get(&line(1)).unwrap().body, "open on a line");
    assert!(kept.comments.get(&line(2)).unwrap().resolved);
}
