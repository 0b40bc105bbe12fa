use remark::file_tree::FileTreeView;
use remark::session::{FileChangeKind, FileEntry};

fn fe(path: &str) -> FileEntry {
    FileEntry {
        path: path.to_string(),
        change: FileChangeKind::Modified,
        git_xy: ['-', '-'],
    }
}

#[test]
fn builds_flat_list() {
    let files = vec![fe("a.rs"), fe("b.rs")];
    let view = FileTreeView::build(&files);
    assert_eq!(view.rows.len(), 2);
    assert_eq!(view.rows[0].label, "a.rs");
    assert_eq!(view.rows[1].label, "b.rs");
    assert_eq!(view.file_to_row, vec![0, 1]);
    assert_eq!(view.file_at_row(0), Some(0));
    assert_eq!(view.file_at_row(1), Some(1));
}

#[test]
fn builds_tree_with_dirs() {
    let files = vec![fe("README.md"), fe("src/app.rs"), fe("src/ui.rs")];
    let view = FileTreeView::build(&files);

    let labels: Vec<&str> = view.rows.iter().map(|r| r.label.as_str()).collect();
    assert_eq!(labels, vec!["README.md", "src/", "├─ app.rs", "└─ ui.rs"]);
    assert_eq!(view.file_to_row, vec![0, 2, 3]);
    assert_eq!(view.file_at_row(1), None);
    assert_eq!(view.file_at_row(2), Some(1));
    assert_eq!(view.file_at_row(3), Some(2));
}

#[test]
fn nested_directories_are_connected() {
    let files = vec![
        fe("src/b/c/d.rs"),
        fe("src/a.rs"),
        fe("src/b/e.rs"),
        fe("src/z.rs"),
        fe("Cargo.toml"),
    ];
    let view = FileTreeView::build(&files);
    let labels: Vec<&str> = view.rows.iter().map(|r| r.label.as_str()).collect();
    assert_eq!(
        labels,
        vec![
            "Cargo.toml",
            "src/",
            "├─ a.rs",
            "├─ b/",
            "│  ├─ c/",
            "│  │  └─ d.rs",
            "│  └─ e.rs",
            "└─ z.rs",
        ]
    );
    for i in 0..files.len() {
        let row = view.selected_row(i).unwrap();
        assert_eq!(view.file_at_row(row), Some(i));
    }
    assert_eq!(view.selected_row(5), None);
}

#[test]
fn a_file_comes_before_a_directory_of_its_name() {
    let files = vec![fe("a/x"), fe("a"), fe("a-b/y"), fe("a.rs")];
    let view = FileTreeView::build(&files);
    let labels: Vec<&str> = view.rows.iter().map(|r| r.label.as_str()).collect();
    assert_eq!(labels, vec!["a", "a-b/", "└─ y", "a.rs", "a/", "└─ x"]);
}

#[test]
fn the_later_of_two_files_with_one_path_is_shown() {
    let files = vec![fe("x"), fe("x")];
    let view = FileTreeView::build(&files);
    assert_eq!(view.rows.len(), 1);
    assert_eq!(view.file_at_row(0), Some(1));
    assert_eq!(view.file_to_row, vec![0, 0]);
}

#[test]
fn no_files_make_no_rows() {
    let view = FileTreeView::build(&Vec::new());
    assert!(view.rows.is_empty());
    assert!(FileTreeView::default().file_to_row.is_empty());
}

#[test]
fn each_file_and_directory_has_one_row() {
    let paths = ["b/z", "a.rs", "a/b/x", "a/b/y", "a-c/x", "a/q", "b/y/z/w"];
    let files: Vec<FileEntry> = paths.iter().map(|p| fe(p)).collect();
    let view = FileTreeView::build(&files);
    let mut dirs = std::collections::BTreeSet::new();
    for p in paths {
        for (i, _) in p.match_indices('/') {
            dirs.insert(&p[..i]);
        }
    }
    assert_eq!(dirs.len(), 6);
    assert_eq!(view.rows.len(), paths.len() + dirs.len());
    assert_eq!(view.file_to_row.len(), paths.len());
    let mut shown = Vec::new();
    for (r, row) in view.rows.iter().enumerate() {
        assert_eq!(row.is_dir, row.file_index.is_none());
        if let Some(i) = row.file_index {
            assert_eq!(view.file_to_row[i], r);
            shown.push(paths[i]);
        }
    }
    let mut sorted = paths.to_vec();
    sorted.sort();
    assert_eq!(shown, sorted);
}
