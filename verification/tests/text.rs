use remark::clipboard::{
    copy_methods, osc52_enabled, osc52_sequence, passthrough, wrap_payload, Method, Passthrough,
};
use remark::hash::{
    blob_id_of_text, draft_content_hash, hash_text, meta_key, review_fingerprint, side_label,
    snippet_hash,
};
use remark::ordmap::{names, sort_names, OrdMap};
use remark::review::{LineKey, LineSide};
use remark::text::{
    before, blank, contains, decimal_string, ends_with, join, lines, lower, parse_u32, same, space,
    split, starts_with, strip_prefix, trim, trim_end, trim_start,
};

#[test]
fn white_space_is_what_the_language_says() {
    for n in 0..0x11_0000u32 {
        if let Some(c) = char::from_u32(n) {
            assert_eq!(space(c), c.is_whitespace(), "{n:x}");
        }
    }
}

#[test]
fn texts_are_cut_as_the_language_does() {
    for s in [
        "",
        "\n",
        "a",
        "a\n",
        "a\r\nb",
        "a\rb\n\nc",
        "\n\nx\r\n",
        " \u{2003}é\t",
        "no end\r",
    ] {
        assert_eq!(lines(s), s.lines().collect::<Vec<_>>(), "{s:?}");
        assert_eq!(trim(s), s.trim());
        assert_eq!(trim_start(s), s.trim_start());
        assert_eq!(trim_end(s), s.trim_end());
        assert_eq!(blank(s), s.trim().is_empty());
        assert_eq!(split(s, '\n'), s.split('\n').collect::<Vec<_>>());
        assert_eq!(lower(s), s.to_ascii_lowercase());
        for t in ["", "a", "\n", "b", "x\r"] {
            assert_eq!(contains(s, t), s.contains(t));
            assert_eq!(starts_with(s, t), s.starts_with(t));
            assert_eq!(ends_with(s, t), s.ends_with(t));
            assert_eq!(strip_prefix(s, t).as_deref(), s.strip_prefix(t));
            assert_eq!(same(s, t), s == t);
            assert_eq!(before(s, t), s < t);
        }
    }
    assert_eq!(lower("ÀBC"), "Àbc");
    let parts = vec!["a".to_string(), "".to_string(), "b".to_string()];
    assert_eq!(join(&parts, ", "), "a, , b");
}

#[test]
fn numbers_are_read_and_written() {
    for s in ["0", "7", "+7", "007", "4294967295", "4294967296", "-1", "", "+", "1a", " 1"] {
        assert_eq!(parse_u32(s), s.parse::<u32>().ok(), "{s:?}");
    }
    assert_eq!(decimal_string(0), "0");
    assert_eq!(decimal_string(u64::MAX), u64::MAX.to_string());
}

#[test]
fn a_map_keeps_its_names_in_order() {
    let mut m: OrdMap<String, String> = OrdMap::new();
    for k in ["b", "a", "é", "Z", "ab"] {
        m.insert(k.to_string(), k.to_string());
    }
    assert_eq!(names(&m), vec!["Z", "a", "ab", "b", "é"]);
    m.insert("a".to_string(), "new".to_string());
    assert_eq!(m.len(), 5);
    assert_eq!(m.get(&"a".to_string()).unwrap(), "new");
    assert_eq!(m.remove(&"a".to_string()).as_deref(), Some("new"));
    assert_eq!(m.remove(&"a".to_string()), None);
    assert_eq!(m.key_at(0), "Z");
    let v = vec!["b".to_string(), "a".to_string(), "b".to_string()];
    assert_eq!(sort_names(&v), vec!["a", "b"]);
}

fn sha1(bytes: &[u8]) -> String {
    let mut h = gix_hash::hasher(gix_hash::Kind::Sha1);
    h.update(bytes);
    h.try_finalize().unwrap().to_string()
}

#[test]
fn hashes_are_of_what_is_hashed() {
    assert_eq!(
        hash_text("abc").as_deref(),
        Some("a9993e364706816aba3e25717850c26c9cd0d89d")
    );
    assert_eq!(
        blob_id_of_text("hello\n").as_deref(),
        Some("ce013625030ba8dba906f756967f9e9ca394464a")
    );
    assert_eq!(
        draft_content_hash("é").unwrap(),
        sha1("remark-draft-content-v1\0é".as_bytes())
    );
    let k = LineKey {
        side: LineSide::Old,
        line: 12,
    };
    assert_eq!(
        snippet_hash("a.rs", k, "x\ny").unwrap(),
        sha1(b"remark-draft-snippet-v1\0a.rs\0old\012\0x\ny".as_slice())
    );
    assert_eq!(meta_key("a", side_label(LineSide::New), 3), "a\0new\03");
}

#[test]
fn a_fingerprint_tells_changes_apart() {
    let a = review_fingerprint(Some("é"), None).unwrap();
    assert_eq!(
        a,
        sha1("remark-review-v1\0before\01\02\0éafter\00\0".as_bytes())
    );
    let all = [
        review_fingerprint(None, None).unwrap(),
        review_fingerprint(Some(""), None).unwrap(),
        review_fingerprint(None, Some("")).unwrap(),
        review_fingerprint(Some("ab"), Some("c")).unwrap(),
        review_fingerprint(Some("a"), Some("bc")).unwrap(),
    ];
    for i in 0..all.len() {
        for j in 0..i {
            assert_ne!(all[i], all[j]);
        }
    }
}

#[test]
fn copying_goes_through_the_terminal_last() {
    assert_eq!(copy_methods(true, true), vec![Method::Wayland, Method::Desktop, Method::Terminal]);
    assert_eq!(copy_methods(false, false), vec![Method::Desktop]);
    assert_eq!(Method::Wayland.name(), "wayland");
    assert_eq!(Method::Desktop.name(), "desktop");
    assert_eq!(Method::Terminal.name(), "osc52");
    assert!(osc52_enabled(Some("1")));
    assert!(osc52_enabled(Some("TrUe")));
    assert!(!osc52_enabled(Some("yes")));
    assert!(!osc52_enabled(Some("0")));
    assert!(osc52_enabled(None));
    assert_eq!(copy_methods(false, osc52_enabled(None)), vec![Method::Desktop, Method::Terminal]);
    assert_eq!(passthrough(true, Some("screen")), Passthrough::Tmux);
    assert_eq!(passthrough(false, Some("screen-256color")), Passthrough::Screen);
    assert_eq!(passthrough(false, Some("xterm")), Passthrough::Direct);
    assert_eq!(passthrough(false, None), Passthrough::Direct);
    let direct = osc52_sequence(Passthrough::Direct, "hi é");
    assert_eq!(direct, "\x1b]52;c;aGkgw6k=\x07");
    assert_eq!(
        osc52_sequence(Passthrough::Tmux, "hi é"),
        "\x1bPtmux;\x1b\x1b]52;c;aGkgw6k=\x07\x1b\\"
    );
    assert_eq!(
        osc52_sequence(Passthrough::Screen, "hi é"),
        "\x1bP\x1b]52;c;aGkgw6k=\x07\x1b\\"
    );
    assert_eq!(wrap_payload(Passthrough::Direct, "QQ=="), "\x1b]52;c;QQ==\x07");
    for (text, coded) in [
        ("", ""),
        ("A", "QQ=="),
        ("AB", "QUI="),
        ("ABC", "QUJD"),
        ("~~?~~>0", "fn4/fn4+MA=="),
    ] {
        assert_eq!(
            osc52_sequence(Passthrough::Direct, text),
            format!("\x1b]52;c;{coded}\x07")
        );
    }
}
