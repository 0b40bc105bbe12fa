use remark::add_cmd::{
    add_comment, body_source, choose_editor, editor_command, find_body, initial_body, needs_meta,
    place, place_in_draft, plan_add, remove_from_draft, skip_line, words, write_draft, AddError,
    AddPlan, BodySource,
};
use remark::config::{
    resolve_base_ref_for_ui, resolve_base_ref_optional, resolve_fetch_notes, resolve_notes_ref,
    resolve_show_ignored, validate_ui_args, AddCli, AppConfig, Cli, Command, GlobalArgs, NewCli,
    PromptFilter, ResolveCli, UiArgs,
};
use remark::draft::DraftReview;
use remark::draft_ops::{ApplySkip, SkipReason};
use remark::git::ViewKind;
use remark::hash::snippet_hash;
use remark::ordmap::OrdMap;
use remark::prompt_cmd::{
    print_prompt, prompt_files, prompt_of_draft, prompt_view_order, restrict,
};
use remark::prompt_code::{
    language_for_path, path_ending, prompt_snippet, snippet_from_lines, split_versions,
    LineSnippetResolver, Search,
};
use remark::resolve_cmd::{
    plan_resolve, resolve_comment, resolve_in_notes, resolve_views, ResolveError,
};
use remark::review::{Comment, FileReview, LineKey, LineSide, Review};
use remark::session::{CommentLocator, CommentTarget};

fn add() -> AddCli {
    AddCli {
        file: Some("a.rs".to_string()),
        line: None,
        side: None,
        file_comment: false,
        message: None,
        edit: false,
        editor: None,
        draft: false,
        apply: false,
        print_path: false,
    }
}

fn at(side: LineSide, line: u32) -> CommentLocator {
    CommentLocator::Line { side, line }
}

#[test]
fn where_a_comment_goes() {
    assert_eq!(place(None, Some(LineSide::Old)), CommentLocator::File);
    assert_eq!(place(Some(3), None), at(LineSide::New, 3));
    assert_eq!(place(Some(3), Some(LineSide::Old)), at(LineSide::Old, 3));
    match plan_add(&add()) {
        Ok(AddPlan::Comment(t)) => {
            assert_eq!(t.path, "a.rs");
            assert_eq!(t.locator, CommentLocator::File);
        }
        other => panic!("unexpected plan {other:?}"),
    }
    let cmd = AddCli {
        draft: true,
        line: Some(7),
        ..add()
    };
    match plan_add(&cmd) {
        Ok(AddPlan::Draft(t)) => assert_eq!(t.locator, at(LineSide::New, 7)),
        other => panic!("unexpected plan {other:?}"),
    }
    let cmd = AddCli {
        apply: true,
        file: None,
        ..add()
    };
    assert!(matches!(plan_add(&cmd), Ok(AddPlan::Apply)));
}

#[test]
fn what_cannot_be_added() {
    let cmd = AddCli {
        draft: true,
        apply: true,
        ..add()
    };
    let e = plan_add(&cmd).unwrap_err();
    assert_eq!(e, AddError::DraftAndApply);
    assert_eq!(e.message(), "use either --draft or --apply (not both)");
    let cmd = AddCli {
        file: None,
        ..add()
    };
    let e = plan_add(&cmd).unwrap_err();
    assert_eq!(e.message(), "missing --file <path>");
    let cmd = AddCli {
        file_comment: true,
        line: Some(1),
        ..add()
    };
    let e = plan_add(&cmd).unwrap_err();
    assert_eq!(e.message(), "use either --file-comment or --line (not both)");
    let e = body_source(&add()).unwrap_err();
    assert_eq!(e, AddError::MissingBody);
    assert_eq!(e.message(), "missing comment body (use --message or --edit)");
    let cmd = AddCli {
        edit: true,
        message: Some("m".to_string()),
        ..add()
    };
    assert!(matches!(body_source(&cmd), Ok(BodySource::Editor)));
    let cmd = AddCli {
        message: Some("m".to_string()),
        ..add()
    };
    match body_source(&cmd) {
        Ok(BodySource::Message(m)) => assert_eq!(m, "m"),
        other => panic!("unexpected source {other:?}"),
    }
}

#[test]
fn an_added_comment_is_found_again() {
    let target = CommentTarget {
        path: "a.rs".to_string(),
        locator: at(LineSide::New, 2),
    };
    let k = LineKey {
        side: LineSide::New,
        line: 2,
    };
    let hash = snippet_hash("a.rs", k, "code");
    let f = add_comment(None, &target, "why?".to_string(), hash.clone()).unwrap();
    assert_eq!(find_body(Some(&f), target.locator).as_deref(), Some("why?"));
    assert_eq!(initial_body(Some(&f), CommentLocator::File), "");
    assert_eq!(f.comments.get(&k).unwrap().snippet_hash, hash);
    assert!(add_comment(Some(f), &target, " ".to_string(), None).is_none());
}

#[test]
fn a_draft_is_seeded_and_cleared() {
    let target = CommentTarget {
        path: "a.rs".to_string(),
        locator: at(LineSide::Old, 4),
    };
    let mut d = DraftReview::default();
    write_draft(&mut d, None, &target);
    assert_eq!(
        d.line_comment("a.rs", LineSide::Old, 4),
        Some("<!-- remark:write comment -->")
    );
    assert!(remove_from_draft(&mut d, &target));
    assert!(!remove_from_draft(&mut d, &target));
    let mut f = FileReview::default();
    f.comments.insert(
        LineKey {
            side: LineSide::Old,
            line: 4,
        },
        Comment {
            body: "stored".to_string(),
            resolved: false,
            snippet_hash: None,
        },
    );
    write_draft(&mut d, Some(&f), &target);
    assert_eq!(d.line_comment("a.rs", LineSide::Old, 4), Some("stored"));
    d.set_line_comment("a.rs", LineSide::Old, 4, "drafted".to_string());
    write_draft(&mut d, Some(&f), &target);
    assert_eq!(d.line_comment("a.rs", LineSide::Old, 4), Some("drafted"));
    assert_eq!(place_in_draft(Some(1), None, true), Some(CommentLocator::File));
    assert_eq!(
        place_in_draft(Some(1), Some(LineSide::New), false),
        Some(at(LineSide::New, 1))
    );
    assert_eq!(place_in_draft(None, Some(LineSide::New), false), None);
    assert!(needs_meta(None, true));
    assert!(needs_meta(Some("  "), true));
    assert!(needs_meta(Some("x"), false));
    assert!(!needs_meta(Some("{}"), true));
}

#[test]
fn an_editor_command_is_parted_at_white_space() {
    let s = |t: &str| Some(t.to_string());
    assert_eq!(choose_editor(s("a"), s("b"), s("c")).as_deref(), Some("a"));
    assert_eq!(choose_editor(None, s("b"), s("c")).as_deref(), Some("b"));
    assert_eq!(choose_editor(None, None, s("c")).as_deref(), Some("c"));
    assert_eq!(choose_editor(None, None, None), None);
    let (program, args) = editor_command(" code  --wait\t-n ").unwrap();
    assert_eq!(program, "code");
    assert_eq!(args, vec!["--wait", "-n"]);
    assert_eq!(editor_command(" \n"), None);
    assert!(words("").is_empty());
    let skip = ApplySkip {
        line: 3,
        side: LineSide::Old,
        reason: SkipReason::OutOfDate,
    };
    assert_eq!(
        skip_line("a.rs", &skip),
        "remark: skipped a.rs:3 (old) - draft out of date"
    );
}

fn resolve() -> ResolveCli {
    ResolveCli {
        file: Some("a.rs".to_string()),
        line: None,
        side: None,
        file_comment: false,
        unresolve: false,
    }
}

#[test]
fn resolving_and_back() {
    let t = plan_resolve(&ResolveCli {
        line: Some(42),
        ..resolve()
    })
    .unwrap();
    assert_eq!(t.locator, at(LineSide::New, 42));
    assert_eq!(plan_resolve(&resolve()).unwrap().locator, CommentLocator::File);
    let e = plan_resolve(&ResolveCli {
        file: None,
        ..resolve()
    })
    .unwrap_err();
    assert_eq!(e, ResolveError::MissingFile);
    assert_eq!(e.message(), "missing --file <path>");
    let e = plan_resolve(&ResolveCli {
        file_comment: true,
        line: Some(1),
        ..resolve()
    })
    .unwrap_err();
    assert_eq!(e.message(), "use either --file-comment or --line (not both)");
    assert_eq!(
        ResolveError::NoComment.message(),
        "no matching comment found to resolve"
    );
    let mut f = FileReview {
        file_comment: Some(Comment {
            body: "x".to_string(),
            resolved: false,
            snippet_hash: None,
        }),
        ..Default::default()
    };
    assert!(resolve_comment(&mut f, CommentLocator::File, false));
    assert!(f.file_comment.as_ref().unwrap().resolved);
    assert!(!resolve_comment(&mut f, CommentLocator::File, false));
    assert!(resolve_comment(&mut f, CommentLocator::File, true));
    assert!(!f.file_comment.as_ref().unwrap().resolved);
    assert!(!resolve_comment(&mut f, at(LineSide::New, 1), false));
    assert_eq!(resolve_views(false).len(), 3);
    assert_eq!(resolve_views(true)[3], ViewKind::Base);
}

#[test]
fn a_comment_is_resolved_in_every_note() {
    let note = |resolved: bool| {
        let mut f = FileReview::default();
        f.file_comment = Some(Comment {
            body: "b".to_string(),
            resolved,
            snippet_hash: None,
        });
        Some(f)
    };
    let found = vec![None, note(false), note(true), note(false)];
    let changed = resolve_in_notes(&found, CommentLocator::File, false).unwrap();
    let places: Vec<usize> = changed.iter().map(|c| c.0).collect();
    assert_eq!(places, vec![1, 3]);
    for (_, f) in &changed {
        assert!(f.file_comment.as_ref().unwrap().resolved);
    }
    let back = resolve_in_notes(&found, CommentLocator::File, true).unwrap();
    assert_eq!(back.len(), 1);
    assert_eq!(back[0].0, 2);
    assert!(!back[0].1.file_comment.as_ref().unwrap().resolved);
    let none = resolve_in_notes(&found, at(LineSide::New, 1), false);
    assert_eq!(none.err(), Some(ResolveError::NoComment));
}

#[test]
fn the_prompt_is_of_the_files_of_its_filter() {
    let v = |names: &[&str]| -> Vec<String> { names.iter().map(|s| s.to_string()).collect() };
    let all = prompt_files(PromptFilter::All, &v(&["s"]), &v(&["u"]), &v(&["b"]));
    assert_eq!(all.len(), 2);
    assert!(all.contains_key(&"s".to_string()) && all.contains_key(&"u".to_string()));
    let base = prompt_files(PromptFilter::Base, &v(&["s"]), &v(&["u"]), &v(&["b"]));
    assert_eq!(base.len(), 1);
    let mut r = Review::new();
    r.set_file_comment("s", "1".to_string());
    r.set_file_comment("b", "2".to_string());
    let got = restrict(&r, &all);
    assert_eq!(got.files.len(), 1);
    assert!(got.file_comment("s").is_some());
    assert_eq!(
        prompt_view_order(PromptFilter::Staged, true),
        vec![ViewKind::Staged, ViewKind::All, ViewKind::Unstaged, ViewKind::Base]
    );
    assert_eq!(
        prompt_view_order(PromptFilter::Base, false),
        vec![ViewKind::All, ViewKind::Staged, ViewKind::Unstaged]
    );
    assert_eq!(print_prompt("x".to_string()), "x\n");
    assert_eq!(print_prompt("x\n".to_string()), "x\n");
    assert_eq!(prompt_of_draft(" \n".to_string()), "No comments.\n");
    assert_eq!(prompt_of_draft("text".to_string()), "text");
}

#[test]
fn code_is_looked_for_view_by_view() {
    let key = |side, line| LineKey { side, line };
    let mut r = LineSnippetResolver::new(1, vec![ViewKind::Staged, ViewKind::All]);
    assert!(matches!(
        r.snippet("a", key(LineSide::New, 2)),
        Search::Read(ViewKind::Staged)
    ));
    r.store(ViewKind::Staged, "a", Some("x"), None);
    assert!(matches!(
        r.snippet("a", key(LineSide::New, 2)),
        Search::Read(ViewKind::All)
    ));
    r.store(ViewKind::All, "a", None, Some("1\n2\n3\n4\n"));
    match r.snippet("a", key(LineSide::New, 2)) {
        Search::Done(Some(code)) => assert_eq!(code, "1\n2\n3"),
        other => panic!("unexpected {other:?}"),
    }
    assert!(matches!(
        r.snippet("a", key(LineSide::Old, 9)),
        Search::Done(None)
    ));
    let m = split_versions(Some("a\nb"), None);
    let lines = m.before.unwrap();
    assert_eq!(snippet_from_lines(&lines, 2, 0).as_deref(), Some("b"));
    assert_eq!(snippet_from_lines(&lines, 0, 3), None);
    assert_eq!(snippet_from_lines(&lines, 3, 3), None);
    assert_eq!(snippet_from_lines(&lines, 1, 9).as_deref(), Some("a\nb"));
    assert!(m.after.is_none());
}

#[test]
fn code_is_labelled_by_its_path() {
    for (path, lang) in [
        ("a.rs", "rust"),
        ("x/y.YML", "yaml"),
        ("b.hpp", "cpp"),
        ("Makefile", "text"),
        (".rs", "text"),
        ("a.b.md", "markdown"),
        ("dir.rs/file", "text"),
    ] {
        assert_eq!(language_for_path(path), lang, "{path}");
    }
    assert_eq!(path_ending("a/b.c.TSX"), "TSX");
    let s = prompt_snippet("a.go", Some("x".to_string())).unwrap();
    assert_eq!((s.code.as_str(), s.lang.as_str()), ("x", "go"));
    assert!(prompt_snippet("a.go", None).is_none());
}

fn ui() -> UiArgs {
    UiArgs {
        show_ignored: None,
        view: None,
        file: None,
        line: None,
        side: None,
    }
}

fn global() -> GlobalArgs {
    GlobalArgs {
        config_file: None,
        notes_ref: None,
        base_ref: None,
        fetch_notes: None,
    }
}

#[test]
fn flags_of_the_interface_stand_alone() {
    let cli = Cli {
        global: global(),
        command: Some(Command::New(NewCli {})),
        ui: ui(),
    };
    assert!(validate_ui_args(&cli).is_ok());
    let cli = Cli {
        ui: UiArgs {
            line: Some(1),
            ..ui()
        },
        ..cli
    };
    let e = validate_ui_args(&cli).unwrap_err();
    assert_eq!(
        e.message(),
        "UI-only flags (--ignored/--view/--file/--line/--side) require no subcommand"
    );
    let cli = Cli {
        command: None,
        ..cli
    };
    assert!(validate_ui_args(&cli).is_ok());
    assert!(cli.ui.has_any());
}

#[test]
fn the_command_line_goes_before_the_configuration() {
    let s = |t: &str| Some(t.to_string());
    let config = AppConfig {
        notes_ref: s("cfg"),
        base_ref: None,
        show_ignored: true,
        fetch_notes: false,
    };
    assert_eq!(resolve_notes_ref(&config, s("cli"), "repo".to_string()), "cli");
    assert_eq!(resolve_notes_ref(&config, None, "repo".to_string()), "cfg");
    assert_eq!(resolve_base_ref_for_ui(&config, None, s("repo")).as_deref(), Some("repo"));
    assert_eq!(resolve_base_ref_optional(&config, None), None);
    assert_eq!(resolve_base_ref_optional(&config, s("x")).as_deref(), Some("x"));
    assert!(resolve_show_ignored(&config, None));
    assert!(!resolve_show_ignored(&config, Some(false)));
    assert!(resolve_fetch_notes(&config, Some(true)));
    assert!(!resolve_fetch_notes(&config, None));
    let none: OrdMap<String, String> = OrdMap::new();
    assert!(none.is_empty());
}
