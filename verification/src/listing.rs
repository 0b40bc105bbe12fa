//! The files that a view lists.
use crate::git::{UnstagedStatus, ViewKind};
use crate::ordmap;
use crate::ordmap::OrdMap;
use crate::session;
use crate::session::{FileChangeKind, FileEntry, FileEntryView};
use crate::text;
use vstd::prelude::*;

verus! {

/// Where a version of a file is read from.
#[derive(Debug, Clone, Copy, PartialEq, Eq, Structural)]
pub enum Source {
    Head,
    Index,
    Worktree,
    Base,
}

/// Where the two versions that a view compares are read from, the old one first.
pub open spec fn sources_of(view: ViewKind) -> (Source, Source) {
    match view {
        ViewKind::All => (Source::Head, Source::Worktree),
        ViewKind::Unstaged => (Source::Index, Source::Worktree),
        ViewKind::Staged => (Source::Head, Source::Index),
        ViewKind::Base => (Source::Base, Source::Head),
    }
}

/// Where the two versions that a view compares are read from, the old one first.
pub fn sources(view: ViewKind) -> (r: (Source, Source))
    ensures
        r == sources_of(view),
{
    match view {
        ViewKind::All => (Source::Head, Source::Worktree),
        ViewKind::Unstaged => (Source::Index, Source::Worktree),
        ViewKind::Staged => (Source::Head, Source::Index),
        ViewKind::Base => (Source::Base, Source::Head),
    }
}

/// The view by which a file is marked as reviewed: marks of the work tree hold in
/// all of its views.
pub open spec fn mark_view(view: ViewKind) -> ViewKind {
    if view == ViewKind::Base {
        ViewKind::Base
    } else {
        ViewKind::All
    }
}

/// The view by which a file is marked as reviewed and its note is kept.
pub fn reviewed_view(view: ViewKind) -> (r: ViewKind)
    ensures
        r == mark_view(view),
{
    match view {
        ViewKind::Base => ViewKind::Base,
        _ => ViewKind::All,
    }
}

/// The base that belongs to the key of a note in a view.
pub fn base_ref_for_key(view: ViewKind, base_ref: Option<String>) -> (r: Option<String>)
    ensures
        text::opt_view(r) == (if view == ViewKind::Base {
            text::opt_view(base_ref)
        } else {
            None
        }),
{
    match view {
        ViewKind::Base => base_ref,
        _ => None,
    }
}

/// The views whose notes of a file are merged, in order.
pub open spec fn scanned_views(view: ViewKind) -> Seq<ViewKind> {
    if view == ViewKind::Base {
        seq![ViewKind::All, ViewKind::Staged, ViewKind::Unstaged, ViewKind::Base]
    } else {
        seq![ViewKind::All, ViewKind::Staged, ViewKind::Unstaged]
    }
}

/// The views whose notes of a file are merged, in order.
pub fn views_to_scan(view: ViewKind) -> (out: Vec<ViewKind>)
    ensures
        out@ == scanned_views(view),
{
    let mut out: Vec<ViewKind> = Vec::new();
    out.push(ViewKind::All);
    out.push(ViewKind::Staged);
    out.push(ViewKind::Unstaged);
    if view == ViewKind::Base {
        out.push(ViewKind::Base);
    }
    assert(out@ =~= scanned_views(view));
    out
}

/// What became of a file, by whether its old and its new version are there.
pub open spec fn change_of(before: bool, after: bool) -> FileChangeKind {
    if !before && after {
        FileChangeKind::Added
    } else if before && !after {
        FileChangeKind::Deleted
    } else {
        FileChangeKind::Modified
    }
}

/// The value under `k`.
pub open spec fn at<B>(m: Map<Seq<char>, B>, k: Seq<char>) -> Option<B> {
    if m.contains_key(k) {
        Some(m[k])
    } else {
        None
    }
}

/// The two letters beside a file: the left one for the index, the right one for the
/// work tree, a dash where there is nothing to tell.
pub open spec fn letters_of(
    view: ViewKind,
    staged: Option<char>,
    unstaged: Option<UnstagedStatus>,
    change: FileChangeKind,
) -> (char, char) {
    let x = match staged {
        Some(c) => c,
        None => '-',
    };
    match view {
        ViewKind::All => match unstaged {
            Some(UnstagedStatus::Untracked) => ('-', 'N'),
            Some(UnstagedStatus::Ignored) => ('-', 'I'),
            Some(UnstagedStatus::Changed(y)) => (x, y),
            None => (x, '-'),
        },
        ViewKind::Unstaged => match unstaged {
            Some(UnstagedStatus::Untracked) => ('-', 'N'),
            Some(UnstagedStatus::Ignored) => ('-', 'I'),
            Some(UnstagedStatus::Changed(y)) => ('-', y),
            None => ('-', '-'),
        },
        ViewKind::Staged => (x, '-'),
        ViewKind::Base => match change {
            FileChangeKind::Added => ('A', '-'),
            FileChangeKind::Deleted => ('D', '-'),
            FileChangeKind::Modified => ('M', '-'),
        },
    }
}

/// The two letters beside a file.
pub fn git_letters(
    view: ViewKind,
    staged: Option<char>,
    unstaged: Option<UnstagedStatus>,
    change: FileChangeKind,
) -> (r: (char, char))
    ensures
        r == letters_of(view, staged, unstaged, change),
{
    let x = match staged {
        Some(c) => c,
        None => '-',
    };
    match view {
        ViewKind::All => match unstaged {
            Some(UnstagedStatus::Untracked) => ('-', 'N'),
            Some(UnstagedStatus::Ignored) => ('-', 'I'),
            Some(UnstagedStatus::Changed(y)) => (x, y),
            None => (x, '-'),
        },
        ViewKind::Unstaged => match unstaged {
            Some(UnstagedStatus::Untracked) => ('-', 'N'),
            Some(UnstagedStatus::Ignored) => ('-', 'I'),
            Some(UnstagedStatus::Changed(y)) => ('-', y),
            None => ('-', '-'),
        },
        ViewKind::Staged => (x, '-'),
        ViewKind::Base => match change {
            FileChangeKind::Added => ('A', '-'),
            FileChangeKind::Deleted => ('D', '-'),
            FileChangeKind::Modified => ('M', '-'),
        },
    }
}

/// What git reports of the files, for the views that need it.
pub struct Listing {
    pub staged: OrdMap<String, char>,
    pub unstaged: OrdMap<String, UnstagedStatus>,
    pub base_paths: Vec<String>,
}

/// What a listing views to.
#[verifier::ext_equal]
pub struct ListingView {
    pub staged: Map<Seq<char>, char>,
    pub unstaged: Map<Seq<char>, UnstagedStatus>,
    pub base_paths: Seq<Seq<char>>,
}

impl View for Listing {
    type V = ListingView;

    open spec fn view(&self) -> ListingView {
        ListingView {
            staged: self.staged@,
            unstaged: self.unstaged@,
            base_paths: text::views(self.base_paths@),
        }
    }
}

/// The paths that a view lists.
pub open spec fn view_paths(view: ViewKind, l: ListingView) -> Seq<Seq<char>> {
    match view {
        ViewKind::All => ordmap::sorted_names(
            ordmap::names_of(l.staged) + ordmap::names_of(l.unstaged),
        ),
        ViewKind::Unstaged => ordmap::names_of(l.unstaged),
        ViewKind::Staged => ordmap::names_of(l.staged),
        ViewKind::Base => l.base_paths,
    }
}

/// The paths that a view lists: those of the index and of the work tree in order,
/// or those that differ from the base.
pub fn paths_for_view(view: ViewKind, l: &Listing) -> (out: Vec<String>)
    ensures
        text::views(out@) == view_paths(view, l@),
{
    match view {
        ViewKind::All => {
            let mut set = OrdMap::<String, String>::new();
            let staged = ordmap::names(&l.staged);
            let unstaged = ordmap::names(&l.unstaged);
            ordmap::add_names(&mut set, &staged);
            ordmap::add_names(&mut set, &unstaged);
            proof {
                let a = text::views(staged@);
                let b = text::views(unstaged@);
                assert forall|p: Seq<char>| (a + b).contains(p) == (a.contains(p) || b.contains(
                    p,
                )) by {
                    if a.contains(p) {
                        let j = choose|j: int| 0 <= j < a.len() && a[j] == p;
                        assert((a + b)[j] == p);
                    }
                    if b.contains(p) {
                        let j = choose|j: int| 0 <= j < b.len() && b[j] == p;
                        assert((a + b)[a.len() + j] == p);
                    }
                }
                assert(set@ =~= ordmap::set_of(a + b));
            }
            ordmap::names(&set)
        },
        ViewKind::Unstaged => ordmap::names(&l.unstaged),
        ViewKind::Staged => ordmap::names(&l.staged),
        ViewKind::Base => {
            let mut out: Vec<String> = Vec::new();
            let ghost all = text::views(l.base_paths@);
            let mut i: usize = 0;
            while i < l.base_paths.len()
                invariant
                    i <= l.base_paths.len() == all.len(),
                    all == text::views(l.base_paths@),
                    text::views(out@) =~= all.take(i as int),
                decreases l.base_paths.len() - i,
            {
                let ghost before = text::views(out@);
                out.push(l.base_paths[i].clone());
                assert(text::views(out@) =~= before.push(all[i as int]));
                i += 1;
            }
            out
        },
    }
}

/// A file that a view lists, by whether its old and its new version are there.
pub open spec fn entry_of(
    view: ViewKind,
    l: ListingView,
    path: Seq<char>,
    there: (bool, bool),
) -> FileEntryView {
    let change = change_of(there.0, there.1);
    let letters = letters_of(view, at(l.staged, path), at(l.unstaged, path), change);
    FileEntryView { path, change, git_xy: seq![letters.0, letters.1] }
}

/// The files that a view lists.
pub open spec fn entries_of(
    view: ViewKind,
    l: ListingView,
    paths: Seq<Seq<char>>,
    there: Seq<(bool, bool)>,
) -> Seq<FileEntryView> {
    Seq::new(paths.len(), |i: int| entry_of(view, l, paths[i], there[i]))
}

/// The files that a view lists, by whether the old and the new version of each is
/// there.
pub fn list_files_for_view(
    view: ViewKind,
    l: &Listing,
    paths: &Vec<String>,
    there: &Vec<(bool, bool)>,
) -> (out: Vec<FileEntry>)
    requires
        there@.len() == paths@.len(),
    ensures
        session::entry_views(out@) == entries_of(view, l@, text::views(paths@), there@),
{
    let ghost all = entries_of(view, l@, text::views(paths@), there@);
    let mut out: Vec<FileEntry> = Vec::new();
    let mut i: usize = 0;
    while i < paths.len()
        invariant
            i <= paths.len() == there.len() == all.len(),
            all == entries_of(view, l@, text::views(paths@), there@),
            session::entry_views(out@) =~= all.take(i as int),
        decreases paths.len() - i,
    {
        let path = &paths[i];
        let (before, after) = there[i];
        let change = if !before && after {
            FileChangeKind::Added
        } else if before && !after {
            FileChangeKind::Deleted
        } else {
            FileChangeKind::Modified
        };
        let staged = match l.staged.get(path) {
            Some(c) => Some(*c),
            None => None,
        };
        let unstaged = match l.unstaged.get(path) {
            Some(s) => Some(*s),
            None => None,
        };
        let (x, y) = git_letters(view, staged, unstaged, change);
        let ghost earlier = session::entry_views(out@);
        let git_xy: [char; 2] = [x, y];
        assert(git_xy@ =~= seq![x, y]);
        out.push(FileEntry { path: path.clone(), change, git_xy });
        assert(session::entry_views(out@) =~= earlier.push(all[i as int]));
        assert(all.take(i + 1) =~= earlier.push(all[i as int]));
        i += 1;
    }
    assert(all.take(i as int) =~= all);
    out
}

} // verus!
