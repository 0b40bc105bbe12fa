use remark::lsp::{
    build_diag, code_actions, event_matters, hover_text, inlay_hints, inlay_label,
    language_server_command, line_end_utf16, merge_notes, parse_command, parse_side,
    resolve_request, review_to_diagnostics, should_sync_event, should_sync_path, watch_step,
    ActionPlace, CommandArgs, DiagnosticSeverity, PathFacts, RemarkCommand, WatchAction, WatchInput,
    WatchKind, WatchPhase,
};
use remark::ordmap::OrdMap;
use remark::review::{Comment, FileReview, LineKey, LineSide};

fn comment(body: &str, resolved: bool) -> Comment {
    Comment {
        body: body.to_string(),
        resolved,
        snippet_hash: None,
    }
}

fn lines(entries: Vec<(LineKey, Comment)>) -> OrdMap<LineKey, Comment> {
    let mut out = OrdMap::new();
    for (k, c) in entries {
        out.insert(k, c);
    }
    out
}

fn key(side: LineSide, line: u32) -> LineKey {
    LineKey { side, line }
}

#[test]
fn review_to_diagnostics_formats_messages() {
    let review = FileReview {
        file_comment: Some(comment("file note", false)),
        comments: lines(vec![
            (key(LineSide::Old, 5), comment("old note", false)),
            (key(LineSide::New, 3), comment("new note", false)),
        ]),
        ..Default::default()
    };

    let mut messages: Vec<String> = review_to_diagnostics(&review)
        .into_iter()
        .map(|diag| diag.message)
        .collect();
    messages.sort();

    let mut expected = vec![
        "file note".to_string(),
        "new note (line 3)".to_string(),
        "[old] old note (line 5)".to_string(),
    ];
    expected.sort();
    assert_eq!(messages, expected);
}

#[test]
fn build_diag_sets_range_and_source() {
    let diag = build_diag(7, None, &comment("note", false), None);

    assert_eq!(diag.range.start.line, 6);
    assert_eq!(diag.range.start.character, 0);
    assert_eq!(diag.range.end.line, 6);
    assert_eq!(diag.range.end.character, 0);
    assert_eq!(diag.source.as_deref(), Some("remark"));
    assert_eq!(diag.severity, Some(DiagnosticSeverity::Warning));
}

#[test]
fn load_file_review_reads_notes_from_repo() {
    let file = FileReview {
        file_comment: Some(comment("file note", false)),
        comments: lines(vec![(key(LineSide::New, 1), comment("line note", false))]),
        ..Default::default()
    };

    let loaded = merge_notes(&vec![file]).expect("review present");

    let file_comment = loaded.file_comment.expect("file comment");
    assert_eq!(file_comment.body, "file note");
    let line_comment = loaded
        .comments
        .get(&key(LineSide::New, 1))
        .expect("line comment");
    assert_eq!(line_comment.body, "line note");
}

#[test]
fn load_file_review_prefers_unresolved_across_views() {
    let k = key(LineSide::New, 2);
    let resolved = FileReview {
        comments: lines(vec![(k, comment("resolved", true))]),
        ..Default::default()
    };
    let unresolved = FileReview {
        comments: lines(vec![(k, comment("unresolved", false))]),
        ..Default::default()
    };

    let loaded = merge_notes(&vec![resolved, unresolved]).expect("review present");

    let comment = loaded.comments.get(&k).expect("line comment");
    assert_eq!(comment.body, "unresolved");
    assert!(!comment.resolved);
    assert!(merge_notes(&Vec::new()).is_none());
}

#[test]
fn a_resolved_comment_is_a_hint() {
    let diag = build_diag(0, Some(LineSide::Old), &comment("  gone \n", true), Some(key(LineSide::Old, 4)));
    assert_eq!(diag.message, "[old] gone (line 4)");
    assert_eq!(diag.severity, Some(DiagnosticSeverity::Hint));
    assert_eq!(diag.range.start.line, 0);
}

#[test]
fn hovering_shows_the_line_or_the_file() {
    let f = FileReview {
        file_comment: Some(comment("file", false)),
        comments: lines(vec![
            (key(LineSide::Old, 2), comment("was", false)),
            (key(LineSide::New, 2), comment("is", true)),
        ]),
        ..Default::default()
    };
    assert_eq!(hover_text(&f, 1, true).as_deref(), Some("[old] was\n\n---\n\nis"));
    assert_eq!(hover_text(&f, 1, false).as_deref(), Some("[old] was"));
    assert_eq!(hover_text(&f, 7, false).as_deref(), Some("file"));
    assert_eq!(hover_text(&FileReview::default(), 0, true), None);
}

#[test]
fn hints_stand_at_the_end_of_their_lines() {
    let f = FileReview {
        file_comment: Some(comment("whole", false)),
        comments: lines(vec![
            (key(LineSide::Old, 1), comment("first\nmore", false)),
            (key(LineSide::New, 3), comment("third", false)),
            (key(LineSide::New, 9), comment("beyond", false)),
        ]),
        ..Default::default()
    };
    let hints = inlay_hints(&f, Some("ab\ncd\ne😀\n"), 0, 4);
    let got: Vec<(u32, u32, &str)> = hints
        .iter()
        .map(|h| (h.line, h.character, h.label.as_str()))
        .collect();
    assert_eq!(
        got,
        vec![
            (0, 2, "remark: whole"),
            (0, 2, "remark: [old] first"),
            (2, 3, "remark: third"),
        ]
    );
    assert!(inlay_hints(&f, None, 3, 4).is_empty());
    assert_eq!(line_end_utf16(Some("a"), 5), 0);
    assert_eq!(line_end_utf16(None, 0), 0);
}

#[test]
fn a_long_hint_is_cut() {
    let long = "x".repeat(100);
    assert_eq!(
        inlay_label(&comment(&long, false), None),
        format!("remark: {}…", "x".repeat(80))
    );
    let exact = "y".repeat(80);
    assert_eq!(
        inlay_label(&comment(&exact, false), Some(LineSide::Old)),
        format!("remark: [old] {exact}")
    );
    let wide = format!("{}é{}", "z".repeat(79), "z".repeat(9));
    assert_eq!(
        inlay_label(&comment(&wide, false), Some(LineSide::New)),
        format!("remark: {}…", "z".repeat(79))
    );
}

#[test]
fn actions_are_offered_for_what_is_there() {
    let f = FileReview {
        file_comment: Some(comment("f", true)),
        comments: lines(vec![(key(LineSide::Old, 1), comment("o", false))]),
        ..Default::default()
    };
    let got: Vec<(String, RemarkCommand)> = code_actions(&f, 0)
        .into_iter()
        .map(|a| (a.title, a.command))
        .collect();
    assert_eq!(
        got,
        vec![
            ("Remark: Add line comment".to_string(), RemarkCommand::AddDraftComment),
            ("Remark: Add file comment".to_string(), RemarkCommand::AddDraftComment),
            ("Remark: Open prompt".to_string(), RemarkCommand::OpenPrompt),
            ("Resolve remark comment [old]".to_string(), RemarkCommand::Resolve),
            ("Unresolve remark file comment".to_string(), RemarkCommand::Unresolve),
        ]
    );
    let all = code_actions(&f, 0);
    assert_eq!(
        all[3].place,
        Some(ActionPlace {
            line: Some(1),
            side: Some(LineSide::Old),
            file_comment: false,
        })
    );
    assert_eq!(all[2].place, None);
    assert_eq!(all[4].command_title, "Remark: Unresolve remark file comment");
}

#[test]
fn commands_are_known_by_name() {
    for c in [
        RemarkCommand::Resolve,
        RemarkCommand::Unresolve,
        RemarkCommand::AddDraftComment,
        RemarkCommand::OpenPrompt,
    ] {
        assert_eq!(parse_command(c.name()), Some(c));
    }
    assert_eq!(parse_command("remark.other"), None);
    assert_eq!(parse_side(None), Ok(None));
    assert_eq!(parse_side(Some("old")), Ok(Some(LineSide::Old)));
    assert_eq!(parse_side(Some("new")), Ok(Some(LineSide::New)));
    assert_eq!(parse_side(Some("both")), Err(()));
    let args = CommandArgs {
        file: "a.rs".to_string(),
        line: Some(3),
        side: Some("old".to_string()),
        file_comment: false,
    };
    let r = resolve_request(RemarkCommand::Unresolve, &args).unwrap();
    assert_eq!(r.file.as_deref(), Some("a.rs"));
    assert_eq!((r.line, r.side), (Some(3), Some(LineSide::Old)));
    assert!(r.unresolve && !r.file_comment);
    let bad = CommandArgs {
        side: Some("x".to_string()),
        ..args
    };
    assert!(resolve_request(RemarkCommand::Resolve, &bad).is_err());
}

#[test]
fn a_change_on_disk_leads_to_a_synchronisation() {
    assert!(!should_sync_event(WatchKind::Access));
    assert!(!should_sync_event(WatchKind::Other));
    assert!(should_sync_event(WatchKind::Modify));
    assert!(should_sync_event(WatchKind::Any));
    let good = PathFacts {
        in_root: true,
        in_git_dir: false,
        is_file: true,
        is_listed: true,
    };
    assert!(should_sync_path(good));
    assert!(!should_sync_path(PathFacts {
        in_git_dir: true,
        ..good
    }));
    assert!(!should_sync_path(PathFacts {
        in_root: false,
        ..good
    }));
    let bad = PathFacts {
        is_listed: false,
        ..good
    };
    assert!(event_matters(WatchKind::Create, &vec![bad, good]));
    assert!(!event_matters(WatchKind::Create, &vec![bad]));
    assert!(!event_matters(WatchKind::Access, &vec![good]));

    let (phase, act) = watch_step(WatchPhase::Waiting, WatchInput::Change);
    assert_eq!(act, WatchAction::Sync);
    let (phase, act) = watch_step(phase, WatchInput::Change);
    assert_eq!(act, WatchAction::Look);
    let (phase, act) = watch_step(phase, WatchInput::Quiet);
    assert_eq!(act, WatchAction::Sync);
    let (phase, act) = watch_step(phase, WatchInput::Quiet);
    assert_eq!((phase, act), (WatchPhase::Waiting, WatchAction::Wait));
    assert_eq!(watch_step(phase, WatchInput::Problem).1, WatchAction::Wait);
    assert_eq!(watch_step(phase, WatchInput::Closed).1, WatchAction::Stop);
}

#[test]
fn an_editor_starts_the_server_with_more_arguments() {
    let env = vec![("HOME".to_string(), "/root".to_string())];
    let start = language_server_command(
        Some("/bin/remark".to_string()),
        Some(" --a  b\n"),
        env.clone(),
    )
    .unwrap();
    assert_eq!(start.command, "/bin/remark");
    assert_eq!(start.args, vec!["lsp", "--a", "b"]);
    assert_eq!(start.env, env);
    let start = language_server_command(Some("r".to_string()), None, Vec::new()).unwrap();
    assert_eq!(start.args, vec!["lsp"]);
    assert_eq!(
        language_server_command(None, None, env).unwrap_err(),
        "remark binary not found in PATH"
    );
}
