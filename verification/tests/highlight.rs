use remark::diff::{unified_file_diff, Kind};
use remark::highlight::{leading_word, resolve_lang_token, show_code, Chunk, CodeStyle, Detected, Highlighter};
use remark::probe::{next_probe, ProbeAnswer, ProbeStep};
use remark::reload::{side_by_side_rows, unified_rows, without_header};
use remark::rows::RenderRow;
use remark::style::{Color, Span, Style};

#[test]
fn resolves_ts_and_tsx() {
    assert!(resolve_lang_token("ts", Some("TypeScript")).is_some());
    assert!(resolve_lang_token("tsx", None).is_some());
    assert!(resolve_lang_token("TypeScript", None).is_some());
    assert!(resolve_lang_token("TSX", None).is_some());
}

#[test]
fn detects_typescript_from_repo_path() {
    let hl = Highlighter::new();
    let lang = hl.detect_file_lang(
        "src/example.ts",
        &Detected {
            for_path: Some("TypeScript"),
            from_file: None,
            for_language: None,
        },
    );
    assert!(lang.is_some());
}

#[test]
fn what_was_detected_goes_first() {
    let token = resolve_lang_token("whatever.unknown", Some("Rust")).expect("by what was detected");
    let name = resolve_lang_token("rust", None).expect("by its name");
    assert_eq!(token, name);
    assert_eq!(resolve_lang_token("   ", Some("Rust")), None);
    assert_eq!(resolve_lang_token("no-such-language", None), None);
    assert_eq!(leading_word("  two words"), "two");
    assert_eq!(leading_word(" "), "");
}

#[test]
fn the_file_is_asked_where_the_path_says_nothing() {
    let hl = Highlighter::new();
    let none = Detected {
        for_path: None,
        from_file: None,
        for_language: None,
    };
    assert_eq!(hl.detect_file_lang("no-such-thing", &none), None);
    let from_file = Detected {
        for_path: None,
        from_file: Some("Python"),
        for_language: None,
    };
    assert_eq!(
        hl.detect_file_lang("no-such-thing", &from_file),
        resolve_lang_token("python", None)
    );
}

#[test]
fn code_is_shown_in_colour_and_whole() {
    let hl = Highlighter::new();
    let lang = resolve_lang_token("rust", None).unwrap();
    let lines = hl.highlight_lang(&lang, "fn main() {}\nlet x = 1;\n").expect("parsed");
    let first: String = lines[0].iter().map(|s| s.content.as_str()).collect();
    assert_eq!(first, "fn main() {}");
    assert!(lines[0].iter().any(|s| s.style.fg.is_some()));
    assert!(hl.highlight_lang("no-such-language", "x").is_none());
}

#[test]
fn a_diff_is_shown_in_colour() {
    let hl = Highlighter::new();
    let lines = hl.highlight_diff("-a\n+b\n").expect("parsed");
    let text: Vec<String> = lines
        .iter()
        .map(|l| l.iter().map(|s| s.content.as_str()).collect())
        .collect();
    assert_eq!(text[0], "-a");
    assert_eq!(text[1], "+b");
    let whole = hl.highlight_diff_text("-a\n+b\n").expect("parsed");
    assert_eq!(whole.len(), lines.len());
    assert_eq!(whole[0].style, Style::new());
    assert_eq!(whole[0].spans[0].content, lines[0][0].content);
}

#[test]
fn a_look_is_taken_over_whole() {
    let chunk = Chunk {
        text: "x".to_string(),
        style: Some(CodeStyle {
            color: (1, 2, 3),
            bg: Some((4, 5, 6)),
            bold: true,
            italic: false,
            underline: true,
            strikethrough: true,
        }),
    };
    let plain = Chunk {
        text: "y".to_string(),
        style: None,
    };
    let shown = show_code(&vec![vec![chunk, plain]]);
    let s = shown[0][0].style;
    assert_eq!(s.fg, Some(Color::Rgb(1, 2, 3)));
    assert_eq!(s.bg, Some(Color::Rgb(4, 5, 6)));
    assert!(s.bold && !s.italic && s.underlined && s.crossed_out && !s.dim && !s.reversed);
    assert_eq!(shown[0][1].style, Style::new());
}

/// What is asked about a name, where the answers are those of `found`.
fn asked(raw: &str, found: &dyn Fn(&str) -> ProbeAnswer) -> (Vec<String>, Option<String>) {
    let mut seen = Vec::new();
    let mut last = None;
    loop {
        last = match next_probe(raw, last) {
            ProbeStep::Ask { probe, path } => {
                let a = found(&path);
                seen.push(path);
                Some((probe, a))
            }
            ProbeStep::Make { probe, ending } => {
                let made = format!("*.{ending}");
                let a = found(&made);
                seen.push(made);
                Some((probe, a))
            }
            ProbeStep::Done(name) => return (seen, name),
        };
    }
}

#[test]
fn a_name_is_tried_before_its_ending() {
    let (seen, name) = asked("rs", &|p| match p {
        "file.rs" => ProbeAnswer::Language("Rust".to_string()),
        _ => ProbeAnswer::Unknown,
    });
    assert_eq!(seen, vec!["rs", "file.rs"]);
    assert_eq!(name.as_deref(), Some("Rust"));

    let (seen, name) = asked("src/A.TS", &|_| ProbeAnswer::Failed);
    assert_eq!(seen, vec!["src/A.TS", "*.ts", "file.src/A.TS", "*.ts"]);
    assert_eq!(name, None);

    let (seen, name) = asked("src/A.TS", &|p| match p {
        "*.ts" => ProbeAnswer::Language("TypeScript".to_string()),
        _ => ProbeAnswer::Failed,
    });
    assert_eq!(seen, vec!["src/A.TS", "*.ts"]);
    assert_eq!(name.as_deref(), Some("TypeScript"));

    let (seen, name) = asked("Makefile", &|p| match p {
        "*.makefile" => ProbeAnswer::Unknown,
        _ => ProbeAnswer::Failed,
    });
    assert_eq!(seen, vec!["Makefile", "file.Makefile", "*.makefile"]);
    assert_eq!(name, None);

    let (seen, name) = asked("", &|_| ProbeAnswer::Failed);
    assert!(seen.is_empty());
    assert_eq!(name, None);
}

#[test]
fn a_coloured_row_shows_its_own_line() {
    let hl = Highlighter::new();
    let lang = resolve_lang_token("rust", None).unwrap();
    let before = "fn a() {}\nfn b() { 1 }\nfn c() {}\n";
    let after = "fn a() {}\nfn b() { 2 }\nfn c() {}\nfn d() {}\n";
    let lines = unified_file_diff("a", "b", Some(before), Some(after), 3);
    let shown = without_header(&lines);
    let read = |spans: &Vec<Span>| -> String { spans.iter().map(|s| s.content.as_str()).collect() };
    let rows = unified_rows(&hl, "x.rs", Some(&lang), &shown).expect("parsed");
    let mut seen = Vec::new();
    for r in &rows {
        if let RenderRow::Unified(r) = r {
            seen.push((r.kind, read(&r.spans)));
        }
    }
    let want = |kind: Kind, t: &str| (kind, t.to_string());
    assert_eq!(
        seen,
        vec![
            want(Kind::Context, "fn a() {}"),
            want(Kind::Remove, "fn b() { 1 }"),
            want(Kind::Add, "fn b() { 2 }"),
            want(Kind::Context, "fn c() {}"),
            want(Kind::Add, "fn d() {}"),
        ]
    );
    let rows = side_by_side_rows(&hl, "x.rs", Some(&lang), &shown).expect("parsed");
    let mut seen = Vec::new();
    for r in &rows {
        if let RenderRow::SideBySide(r) = r {
            seen.push((read(&r.left_spans), read(&r.right_spans)));
        }
    }
    let want = |l: &str, r: &str| (l.to_string(), r.to_string());
    assert_eq!(
        seen,
        vec![
            want("fn a() {}", "fn a() {}"),
            want("fn b() { 1 }", "fn b() { 2 }"),
            want("fn c() {}", "fn c() {}"),
            want("", "fn d() {}"),
        ]
    );
}
