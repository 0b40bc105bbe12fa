//! The list of all comments.
use crate::ordmap;
use crate::ordmap::{Duplicate, OrdMap};
use crate::panes;
use crate::review;
use crate::review::{Comment, CommentView, FileReview, FileReviewView, LineKey, Review, ReviewView};
use crate::rows::RenderRow;
use crate::session::{CommentLocator, FileEntry};
use crate::text;
use vstd::prelude::*;

verus! {

/// A comment of the list.
#[derive(Debug)]
pub struct CommentListEntry {
    pub path: String,
    pub locator: CommentLocator,
    pub body: String,
    pub resolved: bool,
}

/// What a comment of the list holds.
#[verifier::ext_equal]
pub struct ListEntryView {
    pub path: Seq<char>,
    pub locator: CommentLocator,
    pub body: Seq<char>,
    pub resolved: bool,
}

impl View for CommentListEntry {
    type V = ListEntryView;

    open spec fn view(&self) -> ListEntryView {
        ListEntryView {
            path: self.path@,
            locator: self.locator,
            body: self.body@,
            resolved: self.resolved,
        }
    }
}

/// What the comments of the list hold.
pub open spec fn list_views(v: Seq<CommentListEntry>) -> Seq<ListEntryView> {
    v.map_values(|e: CommentListEntry| e@)
}

/// A comment of the list, nothing where it is blank.
pub open spec fn listed_comment(path: Seq<char>, locator: CommentLocator, c: CommentView) -> Seq<
    ListEntryView,
> {
    if text::is_blank(c.body) {
        seq![]
    } else {
        seq![ListEntryView { path, locator, body: c.body, resolved: c.resolved }]
    }
}

/// The line comments of a file that are listed.
pub open spec fn listed_lines(path: Seq<char>, e: Seq<(LineKey, CommentView)>) -> Seq<ListEntryView>
    decreases e.len(),
{
    if e.len() == 0 {
        seq![]
    } else {
        let k = e.last().0;
        listed_lines(path, e.drop_last()) + listed_comment(
            path,
            CommentLocator::Line { side: k.side, line: k.line },
            e.last().1,
        )
    }
}

/// The comments of a file that are listed: the one on the file, then those on its
/// lines in order.
pub open spec fn listed_file(path: Seq<char>, f: FileReviewView) -> Seq<ListEntryView> {
    (match f.file_comment {
        Some(c) => listed_comment(path, CommentLocator::File, c),
        None => seq![],
    }) + listed_lines(path, ordmap::ordered::<LineKey, CommentView>(f.comments))
}

/// The comments of some files that are listed.
pub open spec fn listed_files(e: Seq<(Seq<char>, FileReviewView)>) -> Seq<ListEntryView>
    decreases e.len(),
{
    if e.len() == 0 {
        seq![]
    } else {
        listed_files(e.drop_last()) + listed_file(e.last().0, e.last().1)
    }
}

/// The comments that are listed, file by file in order.
pub open spec fn listed(m: ReviewView) -> Seq<ListEntryView> {
    listed_files(ordmap::ordered::<String, FileReviewView>(m))
}

/// Adds a comment to the list where it is not blank.
fn push_comment(out: &mut Vec<CommentListEntry>, path: &str, locator: CommentLocator, c: &Comment)
    ensures
        list_views(final(out)@) == list_views(old(out)@) + listed_comment(path@, locator, c@),
{
    let ghost before = list_views(out@);
    if !text::blank(c.body.as_str()) {
        out.push(
            CommentListEntry {
                path: path.to_string(),
                locator,
                body: c.body.clone(),
                resolved: c.resolved,
            },
        );
    }
    assert(list_views(out@) =~= before + listed_comment(path@, locator, c@));
}

/// Adds the comments of a file to the list.
fn push_file(out: &mut Vec<CommentListEntry>, path: &str, f: &FileReview)
    ensures
        list_views(final(out)@) == list_views(old(out)@) + listed_file(path@, f@),
{
    let ghost before = list_views(out@);
    match &f.file_comment {
        Some(c) => {
            push_comment(out, path, CommentLocator::File, c);
        },
        None => {
            assert(before + Seq::<ListEntryView>::empty() =~= before);
        },
    }
    let ghost head = list_views(out@);
    let n: usize = f.comments.len();
    let ghost e = ordmap::ordered::<LineKey, CommentView>(f.comments@);
    let mut i: usize = 0;
    assert(head + listed_lines(path@, e.take(0)) =~= head);
    while i < n
        invariant
            i <= n == e.len(),
            e == ordmap::ordered::<LineKey, CommentView>(f.comments@),
            list_views(out@) == head + listed_lines(path@, e.take(i as int)),
        decreases n - i,
    {
        let k = *f.comments.key_at(i);
        push_comment(
            out,
            path,
            CommentLocator::Line { side: k.side, line: k.line },
            f.comments.val_at(i),
        );
        proof {
            assert(e.take(i + 1).drop_last() =~= e.take(i as int));
            assert(list_views(out@) =~= head + listed_lines(path@, e.take(i + 1)));
        }
        i += 1;
    }
    proof {
        assert(e.take(i as int) =~= e);
        assert(list_views(out@) =~= before + listed_file(path@, f@));
    }
}

/// All comments that are not blank, file by file in order, each file's own comment
/// before those on its lines.
pub fn build_comment_list(r: &Review) -> (out: Vec<CommentListEntry>)
    ensures
        list_views(out@) == listed(r@),
{
    let mut out: Vec<CommentListEntry> = Vec::new();
    let n: usize = r.files.len();
    let ghost e = ordmap::ordered::<String, FileReviewView>(r@);
    let mut i: usize = 0;
    while i < n
        invariant
            i <= n == e.len(),
            e == ordmap::ordered::<String, FileReviewView>(r@),
            list_views(out@) =~= listed_files(e.take(i as int)),
        decreases n - i,
    {
        push_file(&mut out, r.files.key_at(i).as_str(), r.files.val_at(i));
        assert(e.take(i + 1).drop_last() =~= e.take(i as int));
        i += 1;
    }
    assert(e.take(i as int) =~= e);
    out
}

/// Whether a comment of the list is chosen: it is marked, or the selected one where
/// none is.
pub open spec fn is_chosen(i: int, selected: usize, marked: Seq<usize>) -> bool {
    if marked.len() == 0 {
        i == selected
    } else {
        exists|j: int| 0 <= j < marked.len() && #[trigger] marked[j] == i
    }
}

/// The files with a chosen comment.
pub open spec fn chosen_files(list: Seq<ListEntryView>, selected: usize, marked: Seq<usize>) -> Map<
    Seq<char>,
    Seq<char>,
> {
    Map::new(
        |p: Seq<char>|
            exists|i: int|
                0 <= i < list.len() && (#[trigger] list[i]).path == p && is_chosen(
                    i,
                    selected,
                    marked,
                ),
        |p: Seq<char>| p,
    )
}

/// Whether a number is marked.
fn is_marked(marked: &Vec<usize>, i: usize) -> (r: bool)
    ensures
        r == exists|j: int| 0 <= j < marked@.len() && #[trigger] marked@[j] == i,
{
    let mut j: usize = 0;
    while j < marked.len()
        invariant
            j <= marked.len(),
            forall|k: int| 0 <= k < j ==> #[trigger] marked@[k] != i,
        decreases marked.len() - j,
    {
        if marked[j] == i {
            return true;
        }
        j += 1;
    }
    false
}

/// The paths of the files with a chosen comment, in order.
pub fn comment_list_selected_paths(
    list: &Vec<CommentListEntry>,
    selected: usize,
    marked: &Vec<usize>,
) -> (out: Vec<String>)
    ensures
        text::views(out@) == ordmap::names_of(
            chosen_files(list_views(list@), selected, marked@),
        ),
{
    let ghost all = list_views(list@);
    let mut set = OrdMap::<String, String>::new();
    let mut i: usize = 0;
    while i < list.len()
        invariant
            i <= list.len() == all.len(),
            all == list_views(list@),
            forall|p: Seq<char>| #[trigger]
                set@.contains_key(p) == exists|j: int|
                    0 <= j < i && (#[trigger] all[j]).path == p && is_chosen(j, selected, marked@),
            forall|p: Seq<char>| #[trigger] set@.contains_key(p) ==> set@[p] == p,
        decreases list.len() - i,
    {
        let chosen = if marked.len() == 0 {
            i == selected
        } else {
            is_marked(marked, i)
        };
        let ghost before = set@;
        assert(all[i as int].path == list@[i as int].path@);
        if chosen {
            set.insert(list[i].path.clone(), list[i].path.clone());
        }
        assert(chosen == is_chosen(i as int, selected, marked@));
        assert forall|p: Seq<char>| #[trigger]
            set@.contains_key(p) == exists|j: int|
                0 <= j < i + 1 && (#[trigger] all[j]).path == p && is_chosen(
                    j,
                    selected,
                    marked@,
                ) by {
            if before.contains_key(p) {
                let j = choose|j: int|
                    0 <= j < i && (#[trigger] all[j]).path == p && is_chosen(j, selected, marked@);
                assert(all[j].path == p);
            }
        }
        i += 1;
    }
    assert(set@ =~= chosen_files(all, selected, marked@));
    ordmap::names(&set)
}

/// Where going to a comment of the list leads: nowhere, to a file that is not
/// shown, or to a place in a file of the list of files.
#[derive(Debug)]
pub enum ListJump {
    Nowhere,
    NotShown(String),
    File { index: usize, at: CommentLocator },
}

/// Where going to the selected comment leads.
pub fn jump_to_comment_list_entry(
    list: &Vec<CommentListEntry>,
    selected: usize,
    files: &Vec<FileEntry>,
) -> (r: ListJump)
    ensures
        match r {
            ListJump::Nowhere => selected >= list@.len(),
            ListJump::NotShown(path) => {
                &&& selected < list@.len()
                &&& path@ == list@[selected as int].path@
                &&& panes::position_of(files@, path@) is None
            },
            ListJump::File { index, at } => {
                &&& selected < list@.len()
                &&& at == list@[selected as int].locator
                &&& panes::position_of(files@, list@[selected as int].path@) == Some(index as int)
                &&& index < files@.len()
            },
        },
{
    if selected >= list.len() {
        return ListJump::Nowhere;
    }
    let e = &list[selected];
    match panes::file_position(files, e.path.as_str()) {
        Some(index) => ListJump::File { index, at: e.locator },
        None => ListJump::NotShown(e.path.clone()),
    }
}

/// The row of the diff at which a comment stands, where it shows one: the first
/// for the file as a whole, else the first that shows the line.
pub fn row_of_comment(diff_rows: &Vec<RenderRow>, at: CommentLocator) -> (r: Option<usize>)
    ensures
        match at {
            CommentLocator::File => r == Some(0usize),
            CommentLocator::Line { side, line } => {
                let k = panes::line_of_key(LineKey { side, line });
                match r {
                    Some(n) => {
                        &&& n < diff_rows@.len()
                        &&& panes::row_shows(diff_rows@[n as int]@, k)
                        &&& forall|i: int|
                            0 <= i < n ==> !panes::row_shows((#[trigger] diff_rows@[i])@, k)
                    },
                    None => forall|i: int|
                        0 <= i < diff_rows@.len() ==> !panes::row_shows(
                            (#[trigger] diff_rows@[i])@,
                            k,
                        ),
                }
            },
        },
{
    match at {
        CommentLocator::File => Some(0),
        CommentLocator::Line { side, line } => panes::find_row_for_keep_line(
            diff_rows,
            panes::keep_line_at(LineKey { side, line }),
        ),
    }
}

/// Marks the comment `i` of a list of `len`, or takes its mark away.
pub fn toggle_comment_list_mark(marked: &mut Vec<usize>, i: usize, len: usize)
    ensures
        forall|k: usize| #[trigger]
            final(marked)@.contains(k) == (if k == i && len > 0 {
                !old(marked)@.contains(k)
            } else {
                old(marked)@.contains(k)
            }),
{
    if len == 0 {
        return;
    }
    let ghost start = marked@;
    let was = is_marked(marked, i);
    let mut rest: Vec<usize> = Vec::new();
    let mut j: usize = 0;
    while j < marked.len()
        invariant
            j <= marked.len(),
            marked@ == start,
            forall|k: usize| #[trigger]
                rest@.contains(k) == (k != i && exists|x: int|
                    0 <= x < j && #[trigger] start[x] == k),
        decreases marked.len() - j,
    {
        let ghost before = rest@;
        if marked[j] != i {
            rest.push(marked[j]);
        }
        assert forall|k: usize| #[trigger]
            rest@.contains(k) == (k != i && exists|x: int|
                0 <= x < j + 1 && #[trigger] start[x] == k) by {
            if before.contains(k) {
                let x = choose|x: int| 0 <= x < before.len() && before[x] == k;
                assert(rest@[x] == k);
            }
            if rest@.contains(k) && !before.contains(k) {
                let x = choose|x: int| 0 <= x < rest@.len() && rest@[x] == k;
                assert(x == before.len());
                assert(start[j as int] == k);
            }
            if k != i && start[j as int] == k {
                assert(rest@[before.len() as int] == k);
            }
        }
        j += 1;
    }
    let ghost kept = rest@;
    if !was {
        rest.push(i);
    }
    proof {
        assert forall|k: usize| #[trigger]
            rest@.contains(k) == (if k == i {
                !start.contains(k)
            } else {
                start.contains(k)
            }) by {
            if kept.contains(k) {
                let x = choose|x: int| 0 <= x < kept.len() && kept[x] == k;
                assert(rest@[x] == k);
            }
            if !was && k == i {
                assert(rest@[kept.len() as int] == k);
            }
            if rest@.contains(k) && !kept.contains(k) {
                let x = choose|x: int| 0 <= x < rest@.len() && rest@[x] == k;
                if x < kept.len() {
                    assert(kept[x] == k);
                }
            }
            if was && k == i {
                let x = choose|x: int| 0 <= x < start.len() && #[trigger] start[x] == i;
                assert(start[x] == i);
            }
        }
    }
    *marked = rest;
}

/// A comment, resolved.
pub open spec fn resolved_comment(c: CommentView) -> CommentView {
    CommentView { resolved: true, ..c }
}

/// Line comments, all resolved.
pub open spec fn all_resolved(m: Map<LineKey, CommentView>) -> Map<LineKey, CommentView> {
    Map::new(|k: LineKey| m.contains_key(k), |k: LineKey| resolved_comment(m[k]))
}

/// `m` after all comments of a file were resolved.
pub open spec fn with_file_resolved(m: ReviewView, path: Seq<char>) -> ReviewView {
    if m.contains_key(path) {
        let f = m[path];
        review::settled(
            m,
            path,
            FileReviewView {
                file_comment: match f.file_comment {
                    Some(c) => Some(resolved_comment(c)),
                    None => None,
                },
                comments: all_resolved(f.comments),
                ..f
            },
        )
    } else {
        m
    }
}

/// Resolves all comments of a file.
pub fn resolve_file(r: &mut Review, path: &str)
    ensures
        final(r)@ == with_file_resolved(old(r)@, path@),
{
    let key = path.to_owned();
    let ghost m = r@;
    let mut f = match r.files.remove(&key) {
        Some(f) => f,
        None => {
            return;
        },
    };
    let ghost before = f@;
    f.file_comment = match f.file_comment {
        Some(c) => Some(Comment { body: c.body, resolved: true, snippet_hash: c.snippet_hash }),
        None => None,
    };
    let n: usize = f.comments.len();
    let ghost e = ordmap::ordered::<LineKey, CommentView>(f.comments@);
    let mut all = OrdMap::<LineKey, Comment>::new();
    let mut i: usize = 0;
    proof {
        ordmap::lemma_map_of_empty::<LineKey, CommentView>();
        assert(e.take(0) =~= Seq::empty());
        assert(all@ =~= all_resolved(ordmap::map_of(e.take(0))));
    }
    while i < n
        invariant
            i <= n == e.len(),
            e == ordmap::ordered::<LineKey, CommentView>(f.comments@),
            ordmap::increasing::<LineKey, CommentView>(e),
            all@ == all_resolved(ordmap::map_of(e.take(i as int))),
        decreases n - i,
    {
        proof {
            ordmap::lemma_take_next::<LineKey, CommentView>(e, i as int);
        }
        let mut c = f.comments.val_at(i).duplicate();
        c.resolved = true;
        all.insert(*f.comments.key_at(i), c);
        assert(all@ =~= all_resolved(ordmap::map_of(e.take(i + 1))));
        i += 1;
    }
    assert(e.take(n as int) =~= e);
    f.comments = all;
    if crate::session::is_worth_storing(&f) {
        r.files.insert(key, f);
    }
    assert(r@ =~= with_file_resolved(m, path@));
}

/// `m` after all comments of a file were thrown away.
pub open spec fn with_file_discarded(m: ReviewView, path: Seq<char>) -> ReviewView {
    if m.contains_key(path) {
        review::settled(
            m,
            path,
            FileReviewView { file_comment: None, comments: Map::empty(), ..m[path] },
        )
    } else {
        m
    }
}

/// Throws all comments of a file away.
pub fn discard_file(r: &mut Review, path: &str)
    ensures
        final(r)@ == with_file_discarded(old(r)@, path@),
{
    let key = path.to_owned();
    let ghost m = r@;
    let mut f = match r.files.remove(&key) {
        Some(f) => f,
        None => {
            return;
        },
    };
    f.file_comment = None;
    f.comments = OrdMap::new();
    if f.reviewed {
        r.files.insert(key, f);
    }
    assert(r@ =~= with_file_discarded(m, path@));
}

/// A file whose comments were all resolved has none that is not, and one whose
/// comments were thrown away has none. Neither changes whether it was reviewed.
pub proof fn law_resolve_and_discard(m: ReviewView, path: Seq<char>)
    ensures
        !review::file_or_blank(with_file_resolved(m, path), path).has_unresolved(),
        !review::file_or_blank(with_file_discarded(m, path), path).has_comment(),
        review::file_or_blank(with_file_resolved(m, path), path).reviewed
            == review::file_or_blank(m, path).reviewed,
        review::file_or_blank(with_file_discarded(m, path), path).reviewed
            == review::file_or_blank(m, path).reviewed,
        forall|p: Seq<char>| #![trigger with_file_resolved(m, path).contains_key(p)]
            p != path ==> with_file_resolved(m, path).contains_key(p) == m.contains_key(p),
        forall|p: Seq<char>| #![trigger with_file_discarded(m, path).contains_key(p)]
            p != path ==> with_file_discarded(m, path).contains_key(p) == m.contains_key(p),
{
}

} // verus!
