//! What a review session decides about comments: where one can be written,
//! what becomes of it, and how what is stored and what is drafted come together.
use crate::diff::Kind;
use crate::ordmap;
use crate::ordmap::{Duplicate, OrdMap};
use crate::review;
use crate::review::{
    Comment, CommentView, FileReview, FileReviewView, LineKey, LineSide, Review, ReviewView,
    SnippetView,
};
use crate::rows;
use crate::rows::{RenderRow, RowView};
use crate::sync;
use crate::text;
use vstd::prelude::*;

verus! {

/// What the session is doing.
#[derive(Debug, Clone, Copy, PartialEq, Eq, Structural)]
pub enum Mode {
    Browse,
    EditComment,
    EditPrompt,
    CommentList,
}

/// The pane that keys go to.
#[derive(Debug, Clone, Copy, PartialEq, Eq, Structural)]
pub enum Focus {
    Files,
    Diff,
}

/// How a diff is shown.
#[derive(Debug, Clone, Copy, PartialEq, Eq, Structural)]
pub enum DiffViewMode {
    Decorated,
    Unified,
    SideBySide,
}

/// What became of a file.
#[derive(Debug, Clone, Copy, PartialEq, Eq, Structural)]
pub enum FileChangeKind {
    Added,
    Modified,
    Deleted,
}

/// A file of the list: its path, what became of it, and its two status letters.
#[derive(Debug)]
pub struct FileEntry {
    pub path: String,
    pub change: FileChangeKind,
    pub git_xy: [char; 2],
}

/// What a file of the list holds.
#[verifier::ext_equal]
pub struct FileEntryView {
    pub path: Seq<char>,
    pub change: FileChangeKind,
    pub git_xy: Seq<char>,
}

impl View for FileEntry {
    type V = FileEntryView;

    open spec fn view(&self) -> FileEntryView {
        FileEntryView { path: self.path@, change: self.change, git_xy: self.git_xy@ }
    }
}

/// What the files of the list hold.
pub open spec fn entry_views(v: Seq<FileEntry>) -> Seq<FileEntryView> {
    v.map_values(|e: FileEntry| e@)
}

/// What a comment is on.
#[derive(Debug, Clone, Copy, PartialEq, Eq, Structural)]
pub enum CommentLocator {
    File,
    Line { side: LineSide, line: u32 },
}

/// A file, and what of it a comment is on.
#[derive(Debug)]
pub struct CommentTarget {
    pub path: String,
    pub locator: CommentLocator,
}

/// The place of a line of the given side, where there is one.
pub open spec fn line_locator(side: LineSide, line: Option<u32>) -> Option<CommentLocator> {
    match line {
        Some(line) => Some(CommentLocator::Line { side, line }),
        None => None,
    }
}

/// What a comment on a row is on. Added lines and context lines are lines of
/// the new version, removed lines of the old one.
pub open spec fn row_locator(r: RowView) -> Option<CommentLocator> {
    match r {
        RowView::FileHeader { .. } => Some(CommentLocator::File),
        RowView::Section { .. } => None,
        RowView::Unified { kind, old_line, new_line, .. } => match kind {
            Kind::Remove => line_locator(LineSide::Old, old_line),
            Kind::Add | Kind::Context => line_locator(LineSide::New, new_line),
            _ => None,
        },
        RowView::SideBySide { left_kind, right_kind, old_line, new_line, .. } => if right_kind
            == Some(Kind::Add) || right_kind == Some(Kind::Context) {
            line_locator(LineSide::New, new_line)
        } else if left_kind == Some(Kind::Remove) {
            line_locator(LineSide::Old, old_line)
        } else {
            None
        },
        RowView::Decorated { line_number, old_line_number, .. } => if line_number > 0 {
            Some(CommentLocator::Line { side: LineSide::New, line: line_number })
        } else {
            line_locator(LineSide::Old, old_line_number)
        },
    }
}

fn locator_of(side: LineSide, line: Option<u32>) -> (r: Option<CommentLocator>)
    ensures
        r == line_locator(side, line),
{
    match line {
        Some(line) => Some(CommentLocator::Line { side, line }),
        None => None,
    }
}

fn is_kind(o: Option<Kind>, kind: Kind) -> (r: bool)
    ensures
        r == (o == Some(kind)),
{
    match o {
        Some(k) => k == kind,
        None => false,
    }
}

/// What a comment on a row is on.
pub fn locate_row(row: &RenderRow) -> (r: Option<CommentLocator>)
    ensures
        r == row_locator(row@),
{
    match row {
        RenderRow::FileHeader { path } => Some(CommentLocator::File),
        RenderRow::Section { text } => None,
        RenderRow::Unified(u) => match u.kind {
            Kind::Remove => locator_of(LineSide::Old, u.old_line),
            Kind::Add | Kind::Context => locator_of(LineSide::New, u.new_line),
            _ => None,
        },
        RenderRow::SideBySide(s) => if is_kind(s.right_kind, Kind::Add) || is_kind(
            s.right_kind,
            Kind::Context,
        ) {
            locator_of(LineSide::New, s.new_line)
        } else if is_kind(s.left_kind, Kind::Remove) {
            locator_of(LineSide::Old, s.old_line)
        } else {
            None
        },
        RenderRow::Decorated(d) => if d.line_number > 0 {
            Some(CommentLocator::Line { side: LineSide::New, line: d.line_number })
        } else {
            locator_of(LineSide::Old, d.old_line_number)
        },
    }
}

/// What a comment at the cursor is on: a place in the selected file.
pub fn current_comment_target(
    files: &Vec<FileEntry>,
    file_selected: usize,
    diff_rows: &Vec<RenderRow>,
    diff_cursor: usize,
) -> (r: Option<CommentTarget>)
    ensures
        ({
            let locator = if diff_cursor < diff_rows@.len() {
                row_locator(diff_rows@[diff_cursor as int]@)
            } else {
                None
            };
            match r {
                Some(t) => file_selected < files@.len() && t.path@
                    == files@[file_selected as int].path@ && locator == Some(t.locator),
                None => file_selected >= files@.len() || locator is None,
            }
        }),
{
    if file_selected >= files.len() || diff_cursor >= diff_rows.len() {
        return None;
    }
    match locate_row(&diff_rows[diff_cursor]) {
        Some(locator) => Some(
            CommentTarget { path: files[file_selected].path.clone(), locator },
        ),
        None => None,
    }
}

/// Whether the cursor stops at a row when it moves on after a comment.
pub open spec fn is_commentable(r: RowView) -> bool {
    match r {
        RowView::FileHeader { .. } => true,
        RowView::Section { .. } => false,
        RowView::Unified { kind, old_line, new_line, .. } => match kind {
            Kind::Remove => old_line is Some,
            Kind::Add | Kind::Context => new_line is Some,
            _ => false,
        },
        RowView::SideBySide { left_kind, right_kind, old_line, new_line, .. } => {
            ||| (right_kind == Some(Kind::Add) || right_kind == Some(Kind::Context))
                && new_line is Some
            ||| left_kind == Some(Kind::Remove) && old_line is Some
        },
        RowView::Decorated { line_number, old_line_number, .. } => line_number > 0
            || old_line_number is Some,
    }
}

fn commentable(row: &RenderRow) -> (r: bool)
    ensures
        r == is_commentable(row@),
{
    match row {
        RenderRow::FileHeader { path } => true,
        RenderRow::Section { text } => false,
        RenderRow::Unified(u) => match u.kind {
            Kind::Remove => u.old_line.is_some(),
            Kind::Add | Kind::Context => u.new_line.is_some(),
            _ => false,
        },
        RenderRow::SideBySide(s) => ((is_kind(s.right_kind, Kind::Add) || is_kind(
            s.right_kind,
            Kind::Context,
        )) && s.new_line.is_some()) || (is_kind(s.left_kind, Kind::Remove)
            && s.old_line.is_some()),
        RenderRow::Decorated(d) => d.line_number > 0 || d.old_line_number.is_some(),
    }
}

/// The cursor stops wherever a comment can be written.
pub proof fn law_locator_is_commentable(r: RowView)
    ensures
        row_locator(r) is Some ==> is_commentable(r),
{
}

/// The first row below the cursor at which it stops, if there is one.
pub fn next_commentable(diff_rows: &Vec<RenderRow>, diff_cursor: usize) -> (r: Option<usize>)
    ensures
        match r {
            Some(i) => diff_cursor < i < diff_rows@.len() && is_commentable(diff_rows@[i as int]@)
                && forall|j: int|
                diff_cursor < j < i ==> !is_commentable(#[trigger] diff_rows@[j]@),
            None => forall|j: int|
                diff_cursor < j < diff_rows@.len() ==> !is_commentable(#[trigger] diff_rows@[j]@),
        },
{
    if diff_cursor >= diff_rows.len() {
        return None;
    }
    let mut i: usize = diff_cursor + 1;
    while i < diff_rows.len()
        invariant
            diff_cursor < i <= diff_rows.len(),
            forall|j: int| diff_cursor < j < i ==> !is_commentable(#[trigger] diff_rows@[j]@),
        decreases diff_rows.len() - i,
    {
        if commentable(&diff_rows[i]) {
            return Some(i);
        }
        i += 1;
    }
    None
}

/// The comment at a place of a review.
pub open spec fn comment_at(m: ReviewView, path: Seq<char>, at: CommentLocator) -> Option<
    CommentView,
> {
    let f = review::file_or_blank(m, path);
    match at {
        CommentLocator::File => f.file_comment,
        CommentLocator::Line { side, line } => sync::at(f.comments, LineKey { side, line }),
    }
}

/// The text that the editor starts with for a comment: what is there, or nothing.
pub fn existing_body(r: &Review, target: &CommentTarget) -> (out: String)
    ensures
        out@ == (match comment_at(r@, target.path@, target.locator) {
            Some(c) => c.body,
            None => seq![],
        }),
{
    let c = match target.locator {
        CommentLocator::File => r.file_comment(target.path.as_str()),
        CommentLocator::Line { side, line } => r.line_comment(target.path.as_str(), side, line),
    };
    match c {
        Some(c) => c.body.clone(),
        None => String::new(),
    }
}

/// `m` without the comment at a place.
pub open spec fn without_comment(m: ReviewView, path: Seq<char>, at: CommentLocator) -> ReviewView {
    match at {
        CommentLocator::File => review::without_file_comment(m, path),
        CommentLocator::Line { side, line } => review::without_line_comment(
            m,
            path,
            LineKey { side, line },
        ),
    }
}

/// `m` with the comment at a place set to `body`, and its hash where one is given.
pub open spec fn with_comment(
    m: ReviewView,
    path: Seq<char>,
    at: CommentLocator,
    body: Seq<char>,
    hash: Option<Seq<char>>,
) -> ReviewView {
    match at {
        CommentLocator::File => review::with_file_comment(m, path, body),
        CommentLocator::Line { side, line } => {
            let k = LineKey { side, line };
            let set = review::with_line_comment(m, path, k, body);
            if hash is Some {
                review::with_line_hash(set, path, k, hash)
            } else {
                set
            }
        },
    }
}

/// Takes the comment at a place away, and says whether there was one.
pub fn delete_comment(r: &mut Review, target: &CommentTarget) -> (removed: bool)
    ensures
        removed == (comment_at(old(r)@, target.path@, target.locator) is Some),
        final(r)@ == without_comment(old(r)@, target.path@, target.locator),
{
    match target.locator {
        CommentLocator::File => r.remove_file_comment(target.path.as_str()),
        CommentLocator::Line { side, line } => r.remove_line_comment(
            target.path.as_str(),
            side,
            line,
        ),
    }
}

/// Puts what was written in the editor in place of the comment there, and says
/// whether the file has to be stored. A blank text takes the comment away.
/// `hash` is that of the code on the line, where it is known.
pub fn accept_comment(r: &mut Review, target: &CommentTarget, comment: String, hash: Option<String>) -> (
    store: bool)
    ensures
        ({
            let m = old(r)@;
            let path = target.path@;
            if text::is_blank(comment@) {
                &&& final(r)@ == without_comment(m, path, target.locator)
                &&& store == (comment_at(m, path, target.locator) is Some)
            } else {
                &&& final(r)@ == with_comment(
                    m,
                    path,
                    target.locator,
                    comment@,
                    text::opt_view(hash),
                )
                &&& store
            }
        }),
{
    if text::blank(comment.as_str()) {
        return delete_comment(r, target);
    }
    match target.locator {
        CommentLocator::File => {
            r.set_file_comment(target.path.as_str(), comment);
        },
        CommentLocator::Line { side, line } => {
            r.set_line_comment(target.path.as_str(), side, line, comment);
            if hash.is_some() {
                r.set_line_comment_snippet_hash(target.path.as_str(), side, line, hash);
            }
        },
    }
    true
}

/// Whether a comment gives way to another one on the same place: it is missing,
/// or resolved while the other is not.
pub open spec fn gives_way(kept: Option<CommentView>, other: Option<CommentView>) -> bool {
    match (kept, other) {
        (None, Some(_)) => true,
        (Some(k), Some(o)) => k.resolved && !o.resolved,
        _ => false,
    }
}

/// The comments of one file put together with those of another note of it: of
/// two on one place the first stands, unless it is resolved and the other is not.
pub open spec fn merged_comments(
    target: FileReviewView,
    incoming: FileReviewView,
) -> FileReviewView {
    FileReviewView {
        file_comment: if gives_way(target.file_comment, incoming.file_comment) {
            incoming.file_comment
        } else {
            target.file_comment
        },
        comments: merged_lines(target.comments, incoming.comments),
        ..target
    }
}

/// The line comments of two notes put together.
pub open spec fn merged_lines(
    target: Map<LineKey, CommentView>,
    incoming: Map<LineKey, CommentView>,
) -> Map<LineKey, CommentView> {
    Map::new(
        |k: LineKey| target.contains_key(k) || incoming.contains_key(k),
        |k: LineKey|
            if gives_way(sync::at(target, k), sync::at(incoming, k)) {
                incoming[k]
            } else {
                target[k]
            },
    )
}

/// The review of a file put together with another note of it. It is reviewed
/// where one of them is; the hash is that of the first that has one.
pub open spec fn merged_file(target: FileReviewView, incoming: FileReviewView) -> FileReviewView {
    let m = merged_comments(target, incoming);
    if incoming.reviewed {
        FileReviewView {
            reviewed: true,
            reviewed_hash: sync::either(target.reviewed_hash, incoming.reviewed_hash),
            ..m
        }
    } else {
        m
    }
}

fn yields(kept: Option<&Comment>, other: &Comment) -> (r: bool)
    ensures
        r == gives_way(
            match kept {
                Some(c) => Some(c@),
                None => None,
            },
            Some(other@),
        ),
{
    match kept {
        Some(c) => c.resolved && !other.resolved,
        None => true,
    }
}

/// Puts the comments of another note of the same file together with those of `target`.
pub fn merge_comments(target: &mut FileReview, incoming: &FileReview)
    ensures
        final(target)@ == merged_comments(old(target)@, incoming@),
{
    match &incoming.file_comment {
        Some(c) => {
            let takes = match &target.file_comment {
                Some(t) => yields(Some(t), c),
                None => true,
            };
            if takes {
                target.file_comment = Some(c.duplicate());
            }
        },
        None => {},
    }
    let ghost before = old(target)@.comments;
    let n: usize = incoming.comments.len();
    let ghost e = ordmap::ordered::<LineKey, CommentView>(incoming.comments@);
    let mut i: usize = 0;
    let ghost fc = target@.file_comment;
    proof {
        ordmap::lemma_map_of_empty::<LineKey, CommentView>();
        assert(e.take(0) =~= Seq::empty());
        assert(target@.comments =~= merged_lines(before, ordmap::map_of(e.take(0))));
    }
    while i < n
        invariant
            i <= n == e.len(),
            e == ordmap::ordered::<LineKey, CommentView>(incoming.comments@),
            ordmap::increasing::<LineKey, CommentView>(e),
            target@ == (FileReviewView {
                file_comment: fc,
                comments: merged_lines(before, ordmap::map_of(e.take(i as int))),
                ..old(target)@
            }),
        decreases n - i,
    {
        let ghost seen = ordmap::map_of(e.take(i as int));
        let ghost next = ordmap::map_of(e.take(i + 1));
        proof {
            ordmap::lemma_take_next::<LineKey, CommentView>(e, i as int);
        }
        let key = *incoming.comments.key_at(i);
        let c = incoming.comments.val_at(i);
        assert(sync::at(target@.comments, key) == sync::at(before, key));
        if yields(target.comments.get(&key), c) {
            target.comments.insert(key, c.duplicate());
        }
        assert(target@.comments =~= merged_lines(before, next));
        i += 1;
    }
    assert(e.take(n as int) =~= e);
}

/// Puts another note of the same file together with `target`.
pub fn merge_file_review(target: &mut FileReview, incoming: FileReview)
    ensures
        final(target)@ == merged_file(old(target)@, incoming@),
{
    merge_comments(target, &incoming);
    if incoming.reviewed {
        target.reviewed = true;
        if target.reviewed_hash.is_none() {
            target.reviewed_hash = incoming.reviewed_hash;
        }
    }
}

/// Some notes of one file put together.
pub open spec fn merged_all(found: Seq<FileReview>) -> Option<FileReviewView>
    decreases found.len(),
{
    if found.len() == 0 {
        None
    } else {
        match merged_all(found.drop_last()) {
            None => Some(found.last()@),
            Some(m) => Some(merged_file(m, found.last()@)),
        }
    }
}

/// The notes that were found of one file put together, in the order in which they are
/// given; nothing where none was found.
pub fn merge_all(found: Vec<FileReview>) -> (r: Option<FileReview>)
    ensures
        match r {
            Some(f) => merged_all(found@) == Some(f@),
            None => merged_all(found@) is None,
        },
{
    if found.len() == 0 {
        return None;
    }
    let mut out = found[0].duplicate();
    let mut i: usize = 1;
    proof {
        assert(found@.take(1).drop_last() =~= seq![]);
        assert(found@.take(1).last() == found@[0]);
        assert(merged_all(found@.take(1).drop_last()) is None);
    }
    while i < found.len()
        invariant
            1 <= i <= found.len(),
            merged_all(found@.take(i as int)) == Some(out@),
        decreases found.len() - i,
    {
        proof {
            assert(found@.take(i + 1).drop_last() =~= found@.take(i as int));
        }
        merge_file_review(&mut out, found[i].duplicate());
        i += 1;
    }
    assert(found@.take(i as int) =~= found@);
    Some(out)
}

/// A comment that is not resolved is never lost to one that is: where either
/// note has one at a place, so has the merged one.
pub proof fn law_merge_keeps_unresolved(
    target: FileReviewView,
    incoming: FileReviewView,
    k: LineKey,
)
    ensures
        ({
            let m = merged_file(target, incoming);
            let one = sync::live_body(sync::at(target.comments, k)) is Some;
            let other = sync::live_body(sync::at(incoming.comments, k)) is Some;
            &&& (one || other) == (sync::live_body(sync::at(m.comments, k)) is Some)
            &&& one ==> sync::at(m.comments, k) == sync::at(target.comments, k)
            &&& (sync::live_body(target.file_comment) is Some || sync::live_body(
                incoming.file_comment,
            ) is Some) == (sync::live_body(m.file_comment) is Some)
        }),
{
}

/// What a session shows: what is drafted, with whether each file was reviewed
/// from what is stored.
pub open spec fn with_draft(notes: ReviewView, draft: ReviewView) -> ReviewView {
    Map::new(
        |p: Seq<char>| notes.contains_key(p) || draft.contains_key(p),
        |p: Seq<char>|
            {
                let n = review::file_or_blank(notes, p);
                let d = review::file_or_blank(draft, p);
                FileReviewView { file_comment: d.file_comment, comments: d.comments, ..n }
            },
    )
}

/// Puts the comments of a draft in place of those of the stored notes.
pub fn merge_draft_into_notes(notes: &Review, draft: &Review) -> (out: Review)
    ensures
        out@ == with_draft(notes@, draft@),
{
    let mut out = Review::new();
    let n: usize = notes.files.len();
    let ghost e = ordmap::ordered::<String, FileReviewView>(notes@);
    let ghost none = ReviewView::empty();
    let mut i: usize = 0;
    proof {
        ordmap::lemma_map_of_empty::<String, FileReviewView>();
        assert(e.take(0) =~= Seq::empty());
        assert(out@ =~= with_draft(ordmap::map_of(e.take(0)), none));
    }
    while i < n
        invariant
            i <= n == e.len(),
            e == ordmap::ordered::<String, FileReviewView>(notes@),
            ordmap::increasing::<String, FileReviewView>(e),
            none == ReviewView::empty(),
            out@ == with_draft(ordmap::map_of(e.take(i as int)), none),
        decreases n - i,
    {
        proof {
            ordmap::lemma_take_next::<String, FileReviewView>(e, i as int);
        }
        let f = notes.files.val_at(i);
        out.files.insert(
            notes.files.key_at(i).clone(),
            FileReview {
                file_comment: None,
                comments: OrdMap::new(),
                reviewed: f.reviewed,
                reviewed_hash: review::copy_opt(&f.reviewed_hash),
            },
        );
        assert(out@ =~= with_draft(ordmap::map_of(e.take(i + 1)), none));
        i += 1;
    }
    assert(e.take(n as int) =~= e);
    let m: usize = draft.files.len();
    let ghost d = ordmap::ordered::<String, FileReviewView>(draft@);
    i = 0;
    proof {
        assert(d.take(0) =~= Seq::empty());
        assert(out@ =~= with_draft(notes@, ordmap::map_of(d.take(0))));
    }
    while i < m
        invariant
            i <= m == d.len(),
            d == ordmap::ordered::<String, FileReviewView>(draft@),
            ordmap::increasing::<String, FileReviewView>(d),
            out@ == with_draft(notes@, ordmap::map_of(d.take(i as int))),
        decreases m - i,
    {
        proof {
            ordmap::lemma_take_next::<String, FileReviewView>(d, i as int);
        }
        let path = draft.files.key_at(i);
        let f = draft.files.val_at(i);
        let (reviewed, reviewed_hash) = match out.files.get(path) {
            Some(n) => (n.reviewed, review::copy_opt(&n.reviewed_hash)),
            None => (false, None),
        };
        out.files.insert(
            path.clone(),
            FileReview {
                file_comment: review::copy_comment(&f.file_comment),
                comments: f.comments.duplicate(),
                reviewed,
                reviewed_hash,
            },
        );
        assert(out@ =~= with_draft(notes@, ordmap::map_of(d.take(i + 1))));
        i += 1;
    }
    assert(d.take(m as int) =~= d);
    out
}

/// What is stored of a file, with what was resolved in the session.
pub open spec fn with_resolved(
    file: FileReviewView,
    shown: Option<FileReviewView>,
) -> FileReviewView {
    match shown {
        None => file,
        Some(s) => FileReviewView {
            file_comment: match (file.file_comment, s.file_comment) {
                (Some(d), Some(c)) => Some(CommentView { resolved: c.resolved, ..d }),
                (d, _) => d,
            },
            comments: resolved_lines(file.comments, s.comments),
            ..file
        },
    }
}

/// Line comments with whether they are resolved taken from others on the same lines.
pub open spec fn resolved_lines(
    lines: Map<LineKey, CommentView>,
    shown: Map<LineKey, CommentView>,
) -> Map<LineKey, CommentView> {
    Map::new(
        |k: LineKey| lines.contains_key(k),
        |k: LineKey|
            if shown.contains_key(k) {
                CommentView { resolved: shown[k].resolved, ..lines[k] }
            } else {
                lines[k]
            },
    )
}

/// What an optional review of a file holds.
pub open spec fn opt_file(o: Option<&FileReview>) -> Option<FileReviewView> {
    match o {
        Some(f) => Some(f@),
        None => None,
    }
}

/// Takes over into what is stored of a file what was resolved in the session.
pub fn carry_resolved(file: &mut FileReview, shown: Option<&FileReview>)
    ensures
        final(file)@ == with_resolved(old(file)@, opt_file(shown)),
{
    let s = match shown {
        Some(s) => s,
        None => {
            return;
        },
    };
    match &s.file_comment {
        Some(c) => {
            let mut fc: Option<Comment> = None;
            std::mem::swap(&mut file.file_comment, &mut fc);
            file.file_comment = match fc {
                Some(d) => Some(
                    Comment {
                        body: d.body,
                        resolved: c.resolved,
                        snippet_hash: d.snippet_hash,
                    },
                ),
                None => None,
            };
        },
        None => {},
    }
    let ghost before = old(file)@.comments;
    let ghost fc = file@.file_comment;
    let n: usize = s.comments.len();
    let ghost e = ordmap::ordered::<LineKey, CommentView>(s.comments@);
    let mut i: usize = 0;
    proof {
        ordmap::lemma_map_of_empty::<LineKey, CommentView>();
        assert(e.take(0) =~= Seq::empty());
        assert(file@.comments =~= resolved_lines(before, ordmap::map_of(e.take(0))));
    }
    while i < n
        invariant
            i <= n == e.len(),
            e == ordmap::ordered::<LineKey, CommentView>(s.comments@),
            ordmap::increasing::<LineKey, CommentView>(e),
            file@ == (FileReviewView {
                file_comment: fc,
                comments: resolved_lines(before, ordmap::map_of(e.take(i as int))),
                ..old(file)@
            }),
        decreases n - i,
    {
        proof {
            ordmap::lemma_take_next::<LineKey, CommentView>(e, i as int);
        }
        let key = *s.comments.key_at(i);
        let resolved = s.comments.val_at(i).resolved;
        match file.comments.remove(&key) {
            Some(d) => {
                file.comments.insert(
                    key,
                    Comment { body: d.body, resolved, snippet_hash: d.snippet_hash },
                );
            },
            None => {},
        }
        assert(file@.comments =~= resolved_lines(before, ordmap::map_of(e.take(i + 1))));
        i += 1;
    }
    assert(e.take(n as int) =~= e);
}

/// Takes over into what is stored of a file whether it was reviewed in the session.
pub fn carry_reviewed(file: &mut FileReview, shown: Option<&FileReview>)
    ensures
        final(file)@ == (FileReviewView {
            reviewed: match opt_file(shown) {
                Some(s) => s.reviewed,
                None => false,
            },
            reviewed_hash: match opt_file(shown) {
                Some(s) => s.reviewed_hash,
                None => None,
            },
            ..old(file)@
        }),
{
    match shown {
        Some(s) => {
            file.reviewed = s.reviewed;
            file.reviewed_hash = review::copy_opt(&s.reviewed_hash);
        },
        None => {
            file.reviewed = false;
            file.reviewed_hash = None;
        },
    }
}

/// Whether a note has to be stored for a file: it has a comment or was reviewed.
pub fn is_worth_storing(file: &FileReview) -> (r: bool)
    ensures
        r == !file@.is_bare(),
{
    !file.comments.is_empty() || file.file_comment.is_some() || file.reviewed
}

/// `m` after the file `path` was marked as reviewed, with the hash of what was
/// reviewed, or the mark was taken away.
pub open spec fn with_reviewed(
    m: ReviewView,
    path: Seq<char>,
    reviewed: bool,
    hash: Option<Seq<char>>,
) -> ReviewView {
    let f = FileReviewView {
        reviewed,
        reviewed_hash: hash,
        ..review::file_or_blank(m, path)
    };
    review::settled(m, path, f)
}

/// Whether the file `path` was marked as reviewed.
pub fn is_reviewed(r: &Review, path: &str) -> (reviewed: bool)
    ensures
        reviewed == review::file_or_blank(r@, path@).reviewed,
{
    match r.files.get(&path.to_owned()) {
        Some(f) => f.reviewed,
        None => false,
    }
}

/// Marks the file `path` as reviewed, with the hash of what was reviewed, or
/// takes the mark away.
pub fn set_reviewed(r: &mut Review, path: &str, reviewed: bool, hash: Option<String>)
    ensures
        final(r)@ == with_reviewed(old(r)@, path@, reviewed, text::opt_view(hash)),
{
    let key = path.to_owned();
    let ghost m = r@;
    let mut f = match r.files.remove(&key) {
        Some(f) => f,
        None => FileReview::default(),
    };
    f.reviewed = reviewed;
    f.reviewed_hash = hash;
    if is_worth_storing(&f) {
        r.files.insert(key, f);
    }
    assert(r@ =~= with_reviewed(m, path@, reviewed, text::opt_view(hash)));
}

/// Line comments without those that are resolved.
pub open spec fn unresolved_lines(m: Map<LineKey, CommentView>) -> Map<LineKey, CommentView> {
    Map::new(|k: LineKey| m.contains_key(k) && !m[k].resolved, |k: LineKey| m[k])
}

/// The review of a file without the comments that are resolved.
pub open spec fn unresolved(f: FileReviewView) -> FileReviewView {
    FileReviewView {
        file_comment: if f.file_comment is Some && f.file_comment->0.resolved {
            None
        } else {
            f.file_comment
        },
        comments: unresolved_lines(f.comments),
        ..f
    }
}

/// Takes the comments away that are resolved.
pub fn prune_resolved(file: &mut FileReview)
    ensures
        final(file)@ == unresolved(old(file)@),
{
    let ghost before = file@;
    let drops = match &file.file_comment {
        Some(c) => c.resolved,
        None => false,
    };
    if drops {
        file.file_comment = None;
    }
    let n: usize = file.comments.len();
    let ghost e = ordmap::ordered::<LineKey, CommentView>(file.comments@);
    let mut kept = OrdMap::<LineKey, Comment>::new();
    let mut i: usize = 0;
    proof {
        ordmap::lemma_map_of_empty::<LineKey, CommentView>();
        assert(e.take(0) =~= Seq::empty());
        assert(kept@ =~= unresolved_lines(ordmap::map_of(e.take(0))));
    }
    while i < n
        invariant
            i <= n == e.len(),
            e == ordmap::ordered::<LineKey, CommentView>(file.comments@),
            ordmap::increasing::<LineKey, CommentView>(e),
            kept@ == unresolved_lines(ordmap::map_of(e.take(i as int))),
        decreases n - i,
    {
        proof {
            ordmap::lemma_take_next::<LineKey, CommentView>(e, i as int);
        }
        let c = file.comments.val_at(i);
        if !c.resolved {
            kept.insert(*file.comments.key_at(i), c.duplicate());
        }
        assert(kept@ =~= unresolved_lines(ordmap::map_of(e.take(i + 1))));
        i += 1;
    }
    assert(e.take(n as int) =~= e);
    file.comments = kept;
}

/// Those of the given line comments that are not resolved.
spec fn open_entries(e: Seq<(LineKey, CommentView)>) -> Seq<(LineKey, CommentView)>
    decreases e.len(),
{
    if e.len() == 0 {
        seq![]
    } else if e.last().1.resolved {
        open_entries(e.drop_last())
    } else {
        open_entries(e.drop_last()).push(e.last())
    }
}

proof fn lemma_open_entries(e: Seq<(LineKey, CommentView)>)
    requires
        ordmap::increasing::<LineKey, CommentView>(e),
    ensures
        ordmap::increasing::<LineKey, CommentView>(open_entries(e)),
        ordmap::map_of(open_entries(e)) == unresolved_lines(ordmap::map_of(e)),
        review::shown_lines(open_entries(e)) == review::shown_lines(e),
        forall|i: int|
            0 <= i < open_entries(e).len() ==> exists|j: int|
                0 <= j < e.len() && #[trigger] open_entries(e)[i] == #[trigger] e[j],
    decreases e.len(),
{
    let n = e.len() as int;
    if n == 0 {
        ordmap::lemma_map_of_empty::<LineKey, CommentView>();
        assert(e =~= Seq::empty());
        assert(ordmap::map_of(open_entries(e)) =~= unresolved_lines(ordmap::map_of(e)));
    } else {
        let front = e.drop_last();
        assert(front =~= e.take(n - 1));
        assert(e =~= e.take(n));
        ordmap::lemma_take_next::<LineKey, CommentView>(e, n - 1);
        lemma_open_entries(front);
        let g = open_entries(front);
        let (k, c) = e.last();
        if c.resolved {
            assert(unresolved_lines(ordmap::map_of(e)) =~= unresolved_lines(
                ordmap::map_of(front),
            ));
            assert forall|i: int| 0 <= i < open_entries(e).len() implies exists|j: int|
                0 <= j < e.len() && #[trigger] open_entries(e)[i] == #[trigger] e[j] by {
                let j = choose|j: int| 0 <= j < front.len() && g[i] == #[trigger] front[j];
                assert(e[j] == front[j]);
            }
        } else {
            if g.len() > 0 {
                let last = g.len() - 1;
                let j = choose|j: int| 0 <= j < front.len() && g[last] == #[trigger] front[j];
                assert(e[j] == front[j]);
                assert(<LineKey as ordmap::Key>::precedes(e[j].0, e[n - 1].0));
            }
            ordmap::lemma_increasing_push::<LineKey, CommentView>(g, k, c);
            assert(g.push((k, c)).drop_last() =~= g);
            assert(unresolved_lines(ordmap::map_of(e)) =~= unresolved_lines(
                ordmap::map_of(front),
            ).insert(k, c));
            assert forall|i: int| 0 <= i < open_entries(e).len() implies exists|j: int|
                0 <= j < e.len() && #[trigger] open_entries(e)[i] == #[trigger] e[j] by {
                if i < g.len() {
                    let j = choose|j: int| 0 <= j < front.len() && g[i] == #[trigger] front[j];
                    assert(open_entries(e)[i] == g[i]);
                    assert(e[j] == front[j]);
                } else {
                    assert(open_entries(e)[i] == e[n - 1]);
                }
            }
        }
    }
}

/// The prompt is of what is unresolved: taking the resolved comments away from a file
/// leaves its section as it was.
pub proof fn law_prompt_shows_unresolved(
    path: Seq<char>,
    f: FileReviewView,
    codes: Seq<Option<SnippetView>>,
)
    requires
        f.comments.dom().finite(),
    ensures
        review::file_section(path, unresolved(f), codes) == review::file_section(path, f, codes),
        !f.has_unresolved() ==> review::file_section(path, f, codes) == Seq::<char>::empty(),
{
    let e = ordmap::ordered::<LineKey, CommentView>(f.comments);
    ordmap::lemma_ordered_exists::<LineKey, CommentView>(f.comments);
    lemma_open_entries(e);
    ordmap::lemma_ordered_is::<LineKey, CommentView>(open_entries(e));
    if !f.has_unresolved() {
        let g = open_entries(e);
        if g.len() > 0 {
            ordmap::lemma_map_of_at::<LineKey, CommentView>(g, 0);
            assert(unresolved_lines(f.comments).contains_key(g[0].0));
        }
    }
}

} // verus!
