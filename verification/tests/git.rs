use remark::git::{
    branch_remote_key, default_base_ref, default_notes_ref, list_base_paths, list_remotes,
    list_staged_paths, list_staged_status, list_unstaged, list_unstaged_paths, note_file_key_oid,
    notes_ref_key, notes_refspec, notes_remote_key, read_notes_ref, select_notes_remote,
    split_config_key, strip_leading_dot, IndexChange, StatusItem, UnstagedStatus, ViewKind,
    WorktreeChange, WorktreeItem,
};
use remark::listing::{
    base_ref_for_key, git_letters, list_files_for_view, paths_for_view, reviewed_view, sources,
    views_to_scan, Listing, Source,
};
use remark::notes::{
    author_email, author_name, collect_remark_refs, commit_message, generate_notes_ref,
    is_remark_ref_name, note_path, resets_config, stored_note,
};
use remark::session::FileChangeKind;

fn item(path: &str, is_dir: bool, item: WorktreeItem) -> StatusItem {
    StatusItem {
        path: path.to_string(),
        is_dir,
        item,
    }
}

#[test]
fn list_unstaged_paths_includes_untracked_files() {
    let items = vec![
        item("untracked.txt", false, WorktreeItem::Untracked),
        item("dir/nested.rs", false, WorktreeItem::Untracked),
        item("empty-dir", true, WorktreeItem::Untracked),
        item("dir", true, WorktreeItem::Untracked),
    ];

    let paths = list_unstaged_paths(&items, false);

    assert!(paths.contains(&"untracked.txt".to_string()));
    assert!(paths.contains(&"dir/nested.rs".to_string()));
    assert!(!paths.contains(&"dir".to_string()));
    assert!(!paths.contains(&"empty-dir".to_string()));
}

#[test]
fn list_unstaged_paths_can_include_ignored_files() {
    let items = vec![
        item(".gitignore", false, WorktreeItem::Untracked),
        item("ignored.txt", false, WorktreeItem::Ignored),
    ];

    let paths_hidden = list_unstaged_paths(&items, false);
    assert!(!paths_hidden.contains(&"ignored.txt".to_string()));

    let paths_shown = list_unstaged_paths(&items, true);
    assert!(paths_shown.contains(&"ignored.txt".to_string()));
}

#[test]
fn changes_have_their_letters() {
    let items = vec![
        item("c", false, WorktreeItem::Known(Some(WorktreeChange::Conflict))),
        item("d", false, WorktreeItem::Known(Some(WorktreeChange::Removed))),
        item("n", false, WorktreeItem::Known(None)),
        item("o", false, WorktreeItem::Other),
        item("r", false, WorktreeItem::Known(Some(WorktreeChange::Renamed))),
    ];
    let m = list_unstaged(&items, false);
    assert_eq!(m.len(), 3);
    assert_eq!(*m.get(&"c".to_string()).unwrap(), UnstagedStatus::Changed('U'));
    assert_eq!(*m.get(&"d".to_string()).unwrap(), UnstagedStatus::Changed('D'));
    assert_eq!(*m.get(&"r".to_string()).unwrap(), UnstagedStatus::Changed('R'));
    let staged = vec![
        ("b".to_string(), IndexChange::Rewrite { copy: true }),
        ("a".to_string(), IndexChange::Addition),
        ("b".to_string(), IndexChange::Modification),
    ];
    let m = list_staged_status(&staged);
    assert_eq!(*m.get(&"a".to_string()).unwrap(), 'A');
    assert_eq!(*m.get(&"b".to_string()).unwrap(), 'M');
    assert_eq!(list_staged_paths(&staged), vec!["a", "b"]);
    let found = vec!["z".to_string(), "a".to_string(), "z".to_string()];
    assert_eq!(list_base_paths(&found), vec!["a", "z"]);
    assert_eq!(list_remotes(&found), vec!["a", "z"]);
}

#[test]
fn the_base_is_looked_for_in_turn() {
    let head = Some("refs/remotes/origin/dev".to_string());
    assert_eq!(default_base_ref(true, true, true, head.clone()).as_deref(), Some("@{upstream}"));
    assert_eq!(default_base_ref(false, true, true, None).as_deref(), Some("refs/heads/main"));
    assert_eq!(default_base_ref(false, false, true, None).as_deref(), Some("refs/heads/master"));
    assert_eq!(
        default_base_ref(false, false, false, head).as_deref(),
        Some("refs/remotes/origin/dev")
    );
    assert_eq!(default_base_ref(false, false, false, None), None);
}

#[test]
fn the_remote_is_looked_for_in_turn() {
    let s = |t: &str| t.to_string();
    let remotes = vec![s("fork"), s("origin")];
    assert_eq!(select_notes_remote(Some(s("x")), Some(s("y")), &remotes).as_deref(), Some("x"));
    assert_eq!(select_notes_remote(None, Some(s("y")), &remotes).as_deref(), Some("y"));
    assert_eq!(select_notes_remote(None, None, &remotes).as_deref(), Some("origin"));
    assert_eq!(select_notes_remote(None, None, &vec![s("fork")]).as_deref(), Some("fork"));
    assert_eq!(select_notes_remote(None, None, &Vec::new()), None);
    assert_eq!(branch_remote_key("dev"), "branch.dev.remote");
    assert_eq!(notes_refspec("refs/notes/x"), "+refs/notes/x:refs/notes/x");
    assert_eq!(read_notes_ref(None), default_notes_ref());
    assert_eq!(read_notes_ref(Some(s("r"))), "r");
    assert_eq!(notes_ref_key(), "remark.notesRef");
    assert_eq!(notes_remote_key(), "remark.notesRemote");
}

#[test]
fn a_config_key_has_two_parts() {
    assert_eq!(
        split_config_key("remark.notesRef"),
        Some(("remark".to_string(), "notesRef".to_string()))
    );
    assert_eq!(split_config_key("a.b.c"), Some(("a".to_string(), "b.c".to_string())));
    assert_eq!(split_config_key("plain"), None);
    assert_eq!(split_config_key(".x"), None);
    assert_eq!(split_config_key("x."), None);
    assert_eq!(strip_leading_dot("./a/b"), "a/b");
    assert_eq!(strip_leading_dot(".a"), ".a");
}

#[test]
fn the_key_of_a_note_is_the_id_of_a_blob() {
    let head = "1111111111111111111111111111111111111111";
    let text = format!("remark-file-key:v1\nhead:{head}\nkind:all\npath:src/lib.rs\n");
    let want = gix_object::compute_hash(
        gix_hash::Kind::Sha1,
        gix_object::Kind::Blob,
        text.as_bytes(),
    )
    .unwrap()
    .to_string();
    let all = note_file_key_oid(head, ViewKind::All, None, "src/lib.rs").unwrap();
    assert_eq!(all, want);
    let base = note_file_key_oid(head, ViewKind::Base, Some("main"), "src/lib.rs").unwrap();
    assert_ne!(all, base);
    assert_eq!(note_path(&all), format!("{}/{}", &all[..2], &all[2..]));
    assert_eq!(note_path("a"), "a/");
    assert_eq!(note_path("é12"), "é1/2");
}

#[test]
fn a_blank_note_is_not_stored() {
    assert_eq!(stored_note(None), None);
    assert_eq!(stored_note(Some(" \n")), None);
    assert_eq!(stored_note(Some("x")), Some("x"));
    assert_eq!(commit_message(), "git-review: update notes\n");
    let s = |t: &str| Some(t.to_string());
    assert_eq!(author_name(s("a"), s("c"), s("u")), "a");
    assert_eq!(author_name(None, s("c"), s("u")), "c");
    assert_eq!(author_name(None, None, s("u")), "u");
    assert_eq!(author_name(None, None, None), "git-review");
    assert_eq!(author_email(None, s("c")), "c");
    assert_eq!(author_email(None, None), "git-review@localhost");
}

#[test]
fn new_notes_can_be_purged() {
    assert_eq!(generate_notes_ref(17, 0), "refs/notes/remark-17");
    assert_eq!(generate_notes_ref(17, 2), "refs/notes/remark-17-2");
    assert!(is_remark_ref_name(&generate_notes_ref(17, 2)));
    let names: Vec<String> = [
        "refs/notes/remark/x",
        "refs/notes/remarkable",
        "refs/notes/remark",
        "refs/notes/remark-17",
        "refs/notes/remark",
        "refs/notes/remark.y",
    ]
    .iter()
    .map(|s| s.to_string())
    .collect();
    assert_eq!(
        collect_remark_refs(&names),
        vec![
            "refs/notes/remark",
            "refs/notes/remark-17",
            "refs/notes/remark.y",
            "refs/notes/remark/x",
        ]
    );
    assert!(resets_config("refs/notes/remark-1"));
    assert!(!resets_config("refs/notes/remark"));
    assert!(!resets_config("refs/notes/other"));
}

#[test]
fn a_view_reads_two_versions() {
    assert_eq!(sources(ViewKind::All), (Source::Head, Source::Worktree));
    assert_eq!(sources(ViewKind::Unstaged), (Source::Index, Source::Worktree));
    assert_eq!(sources(ViewKind::Staged), (Source::Head, Source::Index));
    assert_eq!(sources(ViewKind::Base), (Source::Base, Source::Head));
    assert_eq!(reviewed_view(ViewKind::Staged), ViewKind::All);
    assert_eq!(reviewed_view(ViewKind::Base), ViewKind::Base);
    assert_eq!(base_ref_for_key(ViewKind::All, Some("m".to_string())), None);
    assert_eq!(
        base_ref_for_key(ViewKind::Base, Some("m".to_string())).as_deref(),
        Some("m")
    );
    assert_eq!(views_to_scan(ViewKind::Staged).len(), 3);
    assert_eq!(views_to_scan(ViewKind::Base)[3], ViewKind::Base);
}

#[test]
fn files_are_listed_with_their_letters() {
    let unstaged = list_unstaged(
        &vec![
            item("b", false, WorktreeItem::Known(Some(WorktreeChange::Modified))),
            item("u", false, WorktreeItem::Untracked),
        ],
        false,
    );
    let staged = list_staged_status(&vec![
        ("b".to_string(), IndexChange::Addition),
        ("a".to_string(), IndexChange::Deletion),
    ]);
    let l = Listing {
        staged,
        unstaged,
        base_paths: vec!["q".to_string()],
    };
    let paths = paths_for_view(ViewKind::All, &l);
    assert_eq!(paths, vec!["a", "b", "u"]);
    let there = vec![(true, false), (true, true), (false, true)];
    let files = list_files_for_view(ViewKind::All, &l, &paths, &there);
    let got: Vec<(&str, FileChangeKind, [char; 2])> = files
        .iter()
        .map(|f| (f.path.as_str(), f.change, f.git_xy))
        .collect();
    assert_eq!(
        got,
        vec![
            ("a", FileChangeKind::Deleted, ['D', '-']),
            ("b", FileChangeKind::Modified, ['A', 'M']),
            ("u", FileChangeKind::Added, ['-', 'N']),
        ]
    );
    assert_eq!(paths_for_view(ViewKind::Staged, &l), vec!["a", "b"]);
    assert_eq!(paths_for_view(ViewKind::Unstaged, &l), vec!["b", "u"]);
    assert_eq!(paths_for_view(ViewKind::Base, &l), vec!["q"]);
    assert_eq!(
        git_letters(ViewKind::Base, None, None, FileChangeKind::Added),
        ('A', '-')
    );
    assert_eq!(
        git_letters(ViewKind::Unstaged, Some('A'), Some(UnstagedStatus::Ignored), FileChangeKind::Added),
        ('-', 'I')
    );
}
