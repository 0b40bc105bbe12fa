//! The review: comments on files and lines, kept by path, and the prompt that
//! is made of them.
use crate::ordmap::{Duplicate, Key, OrdMap};
use crate::ordmap;
use crate::text;
use std::collections::HashSet;
use vstd::prelude::*;

verus! {

/// A comment: its text, whether it was resolved, and the hash of the code it
/// was written about, where that is known.
#[derive(Debug)]
pub struct Comment {
    pub body: String,
    pub resolved: bool,
    pub snippet_hash: Option<String>,
}

/// What a comment holds.
#[verifier::ext_equal]
pub struct CommentView {
    pub body: Seq<char>,
    pub resolved: bool,
    pub snippet_hash: Option<Seq<char>>,
}

impl View for Comment {
    type V = CommentView;

    open spec fn view(&self) -> CommentView {
        CommentView {
            body: self.body@,
            resolved: self.resolved,
            snippet_hash: text::opt_view(self.snippet_hash),
        }
    }
}

/// A copy of an optional string.
pub fn copy_opt(o: &Option<String>) -> (r: Option<String>)
    ensures
        text::opt_view(r) == text::opt_view(*o),
{
    match o {
        Some(s) => Some(s.clone()),
        None => None,
    }
}

impl Duplicate for Comment {
    fn duplicate(&self) -> (r: Self) {
        Comment {
            body: self.body.clone(),
            resolved: self.resolved,
            snippet_hash: copy_opt(&self.snippet_hash),
        }
    }
}

impl Clone for Comment {
    fn clone(&self) -> (r: Self)
        ensures
            r@ == self@,
    {
        self.duplicate()
    }
}

impl Default for Comment {
    fn default() -> (r: Self)
        ensures
            r@ == (CommentView { body: seq![], resolved: false, snippet_hash: None }),
    {
        Comment { body: String::new(), resolved: false, snippet_hash: None }
    }
}

/// Which version of a file a line belongs to.
#[derive(Debug, Clone, Copy, PartialEq, Eq, PartialOrd, Ord, Structural)]
pub enum LineSide {
    Old,
    New,
}

/// A line of one version of a file, counted from one.
#[derive(Debug, Clone, Copy, PartialEq, Eq, PartialOrd, Ord, Structural)]
pub struct LineKey {
    pub side: LineSide,
    pub line: u32,
}

impl View for LineKey {
    type V = LineKey;

    open spec fn view(&self) -> LineKey {
        *self
    }
}

impl Key for LineKey {
    open spec fn precedes(a: LineKey, b: LineKey) -> bool {
        (a.side is Old && b.side is New) || (a.side == b.side && a.line < b.line)
    }

    proof fn irreflexive(a: LineKey) {
    }

    proof fn transitive(a: LineKey, b: LineKey, c: LineKey) {
    }

    proof fn total(a: LineKey, b: LineKey) {
    }

    fn is_before(&self, other: &Self) -> (r: bool) {
        match (self.side, other.side) {
            (LineSide::Old, LineSide::New) => true,
            (LineSide::New, LineSide::Old) => false,
            _ => self.line < other.line,
        }
    }

    fn same_key(&self, other: &Self) -> (r: bool) {
        *self == *other
    }

    fn copy_key(&self) -> (k: Self) {
        *self
    }
}

/// What is kept of one file.
pub struct FileReview {
    pub file_comment: Option<Comment>,
    pub comments: OrdMap<LineKey, Comment>,
    pub reviewed: bool,
    pub reviewed_hash: Option<String>,
}

/// What the review of one file holds.
#[verifier::ext_equal]
pub struct FileReviewView {
    pub file_comment: Option<CommentView>,
    pub comments: Map<LineKey, CommentView>,
    pub reviewed: bool,
    pub reviewed_hash: Option<Seq<char>>,
}

/// What an optional comment holds.
pub open spec fn opt_comment(o: Option<Comment>) -> Option<CommentView> {
    match o {
        Some(c) => Some(c@),
        None => None,
    }
}

impl View for FileReview {
    type V = FileReviewView;

    open spec fn view(&self) -> FileReviewView {
        FileReviewView {
            file_comment: opt_comment(self.file_comment),
            comments: self.comments@,
            reviewed: self.reviewed,
            reviewed_hash: text::opt_view(self.reviewed_hash),
        }
    }
}

/// A copy of an optional comment.
pub fn copy_comment(o: &Option<Comment>) -> (r: Option<Comment>)
    ensures
        opt_comment(r) == opt_comment(*o),
{
    match o {
        Some(c) => Some(c.duplicate()),
        None => None,
    }
}

impl Duplicate for FileReview {
    fn duplicate(&self) -> (r: Self) {
        FileReview {
            file_comment: copy_comment(&self.file_comment),
            comments: self.comments.duplicate(),
            reviewed: self.reviewed,
            reviewed_hash: copy_opt(&self.reviewed_hash),
        }
    }
}

impl Clone for FileReview {
    fn clone(&self) -> (r: Self)
        ensures
            r@ == self@,
    {
        self.duplicate()
    }
}

impl FileReviewView {
    /// The review of a file about which nothing was said.
    pub open spec fn blank() -> FileReviewView {
        FileReviewView {
            file_comment: None,
            comments: Map::empty(),
            reviewed: false,
            reviewed_hash: None,
        }
    }

    /// Whether there is nothing in it that has to be kept.
    pub open spec fn is_bare(self) -> bool {
        self.file_comment is None && self.comments == Map::<LineKey, CommentView>::empty()
            && !self.reviewed
    }

    /// Whether it has a comment.
    pub open spec fn has_comment(self) -> bool {
        self.file_comment is Some || self.comments != Map::<LineKey, CommentView>::empty()
    }

    /// Whether it has a comment that is not resolved.
    pub open spec fn has_unresolved(self) -> bool {
        ||| self.file_comment matches Some(c) && !c.resolved
        ||| exists|k: LineKey| #[trigger]
            self.comments.contains_key(k) && !self.comments[k].resolved
    }
}

impl Default for FileReview {
    fn default() -> (r: Self)
        ensures
            r@ == FileReviewView::blank(),
    {
        FileReview {
            file_comment: None,
            comments: OrdMap::new(),
            reviewed: false,
            reviewed_hash: None,
        }
    }
}

/// All comments, by path.
pub struct Review {
    pub files: OrdMap<String, FileReview>,
}

/// What a review holds.
pub type ReviewView = Map<Seq<char>, FileReviewView>;

impl View for Review {
    type V = ReviewView;

    open spec fn view(&self) -> ReviewView {
        self.files@
    }
}

impl Duplicate for Review {
    fn duplicate(&self) -> (r: Self) {
        Review { files: self.files.duplicate() }
    }
}

impl Clone for Review {
    fn clone(&self) -> (r: Self)
        ensures
            r@ == self@,
    {
        self.duplicate()
    }
}

/// What the comments on a file amount to.
#[derive(Debug, Clone, Copy, PartialEq, Eq, Structural)]
pub enum CommentState {
    Empty,
    ResolvedOnly,
    HasUnresolved,
}

/// What `m` has under `path`, or the review about which nothing was said.
pub open spec fn file_or_blank(m: ReviewView, path: Seq<char>) -> FileReviewView {
    if m.contains_key(path) {
        m[path]
    } else {
        FileReviewView::blank()
    }
}

/// `m` with `f` under `path`, or without `path` where `f` holds nothing to keep.
pub open spec fn settled(m: ReviewView, path: Seq<char>, f: FileReviewView) -> ReviewView {
    if f.is_bare() {
        m.remove(path)
    } else {
        m.insert(path, f)
    }
}

/// The comments of `comments` on lines that are in the given sets.
pub open spec fn reachable(
    comments: Map<LineKey, CommentView>,
    old_lines: Set<u32>,
    new_lines: Set<u32>,
) -> Map<LineKey, CommentView> {
    Map::new(
        |k: LineKey|
            comments.contains_key(k) && match k.side {
                LineSide::Old => old_lines.contains(k.line),
                LineSide::New => new_lines.contains(k.line),
            },
        |k: LineKey| comments[k],
    )
}

/// `m` after the comment on the file `path` was set to `body`.
pub open spec fn with_file_comment(m: ReviewView, path: Seq<char>, body: Seq<char>) -> ReviewView {
    let f = file_or_blank(m, path);
    let c = if text::is_blank(body) {
        None
    } else {
        Some(
            CommentView {
                body,
                resolved: f.file_comment matches Some(c) && c.resolved,
                snippet_hash: None,
            },
        )
    };
    settled(m, path, FileReviewView { file_comment: c, ..f })
}

/// `m` after the comment on the line `k` of `path` was set to `body`.
pub open spec fn with_line_comment(
    m: ReviewView,
    path: Seq<char>,
    k: LineKey,
    body: Seq<char>,
) -> ReviewView {
    let f = file_or_blank(m, path);
    let comments = if text::is_blank(body) {
        f.comments.remove(k)
    } else if f.comments.contains_key(k) {
        f.comments.insert(k, CommentView { body, ..f.comments[k] })
    } else {
        f.comments.insert(k, CommentView { body, resolved: false, snippet_hash: None })
    };
    settled(m, path, FileReviewView { comments, ..f })
}

/// `m` after the comment on the file `path`, if any, was resolved or taken up again.
pub open spec fn with_file_toggled(m: ReviewView, path: Seq<char>) -> ReviewView {
    match file_or_blank(m, path).file_comment {
        Some(c) => m.insert(
            path,
            FileReviewView {
                file_comment: Some(CommentView { resolved: !c.resolved, ..c }),
                ..m[path]
            },
        ),
        None => m,
    }
}

/// `m` after the comment on the line `k` of `path`, if any, was resolved or taken up again.
pub open spec fn with_line_toggled(m: ReviewView, path: Seq<char>, k: LineKey) -> ReviewView {
    let f = file_or_blank(m, path);
    if f.comments.contains_key(k) {
        let c = f.comments[k];
        m.insert(
            path,
            FileReviewView {
                comments: f.comments.insert(k, CommentView { resolved: !c.resolved, ..c }),
                ..f
            },
        )
    } else {
        m
    }
}

/// `m` after the hash of the comment on the line `k` of `path`, if any, was set.
pub open spec fn with_line_hash(
    m: ReviewView,
    path: Seq<char>,
    k: LineKey,
    hash: Option<Seq<char>>,
) -> ReviewView {
    let f = file_or_blank(m, path);
    if f.comments.contains_key(k) {
        let c = CommentView { snippet_hash: hash, ..f.comments[k] };
        m.insert(path, FileReviewView { comments: f.comments.insert(k, c), ..f })
    } else {
        m
    }
}

/// `m` without the comment on the file `path`.
pub open spec fn without_file_comment(m: ReviewView, path: Seq<char>) -> ReviewView {
    if m.contains_key(path) {
        settled(m, path, FileReviewView { file_comment: None, ..m[path] })
    } else {
        m
    }
}

/// `m` without the comment on the line `k` of `path`.
pub open spec fn without_line_comment(m: ReviewView, path: Seq<char>, k: LineKey) -> ReviewView {
    if m.contains_key(path) {
        settled(
            m,
            path,
            FileReviewView { comments: m[path].comments.remove(k), ..m[path] },
        )
    } else {
        m
    }
}

/// `m` without the comments on lines of `path` that are in neither set.
pub open spec fn pruned(
    m: ReviewView,
    path: Seq<char>,
    old_lines: Set<u32>,
    new_lines: Set<u32>,
) -> ReviewView {
    if m.contains_key(path) {
        settled(
            m,
            path,
            FileReviewView {
                comments: reachable(m[path].comments, old_lines, new_lines),
                ..m[path]
            },
        )
    } else {
        m
    }
}

impl Review {
    /// The review without comments.
    pub fn new() -> (r: Self)
        ensures
            r@ == ReviewView::empty(),
    {
        Review { files: OrdMap::new() }
    }

    /// Takes the review of `path` out, or makes one about which nothing was said.
    fn take_file(&mut self, path: &String) -> (f: FileReview)
        ensures
            f@ == file_or_blank(old(self)@, path@),
            final(self)@ == old(self)@.remove(path@),
    {
        match self.files.remove(path) {
            Some(f) => f,
            None => FileReview::default(),
        }
    }

    /// Puts the review of `path` back, where it holds anything to keep.
    fn settle_file(&mut self, path: String, f: FileReview)
        ensures
            final(self)@ == settled(old(self)@.remove(path@), path@, f@),
    {
        assert(self@.remove(path@).remove(path@) =~= self@.remove(path@));
        assert(self@.remove(path@).insert(path@, f@) =~= self@.insert(path@, f@));
        if f.file_comment.is_none() && f.comments.is_empty() && !f.reviewed {
            self.files.remove(&path);
        } else {
            self.files.insert(path, f);
        }
    }

    /// Sets the comment on the file `path`. A blank comment takes it away; a
    /// comment that was resolved stays resolved.
    pub fn set_file_comment(&mut self, path: &str, comment: String)
        ensures
            final(self)@ == with_file_comment(old(self)@, path@, comment@),
    {
        let path = path.to_owned();
        let mut f = self.take_file(&path);
        let ghost before = f@;
        if text::blank(comment.as_str()) {
            f.file_comment = None;
        } else {
            let resolved = match &f.file_comment {
                Some(c) => c.resolved,
                None => false,
            };
            f.file_comment = Some(Comment { body: comment, resolved, snippet_hash: None });
        }
        self.settle_file(path, f);
        assert(self@ =~= settled(old(self)@, path@, f@));
    }

    /// The comment on the file `path`.
    pub fn file_comment(&self, path: &str) -> (r: Option<&Comment>)
        ensures
            match r {
                Some(c) => file_or_blank(self@, path@).file_comment == Some(c@),
                None => file_or_blank(self@, path@).file_comment is None,
            },
    {
        let path = path.to_owned();
        match self.files.get(&path) {
            Some(f) => match &f.file_comment {
                Some(c) => Some(c),
                None => None,
            },
            None => None,
        }
    }

    /// Takes the comment on the file `path` away, and says whether there was one.
    pub fn remove_file_comment(&mut self, path: &str) -> (removed: bool)
        ensures
            removed == (file_or_blank(old(self)@, path@).file_comment is Some),
            final(self)@ == without_file_comment(old(self)@, path@),
    {
        let path = path.to_owned();
        if !self.files.contains_key(&path) {
            return false;
        }
        let mut f = self.take_file(&path);
        let removed = f.file_comment.is_some();
        f.file_comment = None;
        self.settle_file(path, f);
        assert(self@ =~= settled(old(self)@, path@, f@));
        removed
    }

    /// Turns the comment on the file `path` from unresolved to resolved or
    /// back, and says what it then is.
    pub fn toggle_file_comment_resolved(&mut self, path: &str) -> (r: Option<bool>)
        ensures
            final(self)@ == with_file_toggled(old(self)@, path@),
            r == (match file_or_blank(old(self)@, path@).file_comment {
                Some(c) => Some(!c.resolved),
                None => None,
            }),
    {
        let key = path.to_owned();
        match self.file_comment(path) {
            None => {
                return None;
            },
            Some(c) => {},
        }
        let mut f = self.take_file(&key);
        let mut out: Option<bool> = None;
        match f.file_comment {
            Some(mut c) => {
                c.resolved = !c.resolved;
                out = Some(c.resolved);
                f.file_comment = Some(c);
            },
            None => {
                f.file_comment = None;
            },
        }
        self.files.insert(key, f);
        assert(self@ =~= old(self)@.insert(key@, f@));
        out
    }

    /// Sets the comment on a line. A blank comment takes it away; a comment
    /// that replaces another keeps whether that was resolved, and its hash.
    pub fn set_line_comment(
        &mut self,
        path: &str,
        side: LineSide,
        line_1_based: u32,
        comment: String,
    )
        ensures
            final(self)@ == with_line_comment(
                old(self)@,
                path@,
                (LineKey { side, line: line_1_based }),
                comment@,
            ),
    {
        let path = path.to_owned();
        let key = LineKey { side, line: line_1_based };
        let mut f = self.take_file(&path);
        if text::blank(comment.as_str()) {
            f.comments.remove(&key);
        } else {
            let (resolved, snippet_hash) = match f.comments.get(&key) {
                Some(c) => (c.resolved, copy_opt(&c.snippet_hash)),
                None => (false, None),
            };
            f.comments.insert(key, Comment { body: comment, resolved, snippet_hash });
        }
        self.settle_file(path, f);
        assert(self@ =~= settled(old(self)@, path@, f@));
    }

    /// Sets the hash of the comment on a line, where there is one.
    pub fn set_line_comment_snippet_hash(
        &mut self,
        path: &str,
        side: LineSide,
        line_1_based: u32,
        hash: Option<String>,
    )
        ensures
            final(self)@ == with_line_hash(
                old(self)@,
                path@,
                (LineKey { side, line: line_1_based }),
                text::opt_view(hash),
            ),
    {
        let path = path.to_owned();
        let key = LineKey { side, line: line_1_based };
        let present = match self.files.get(&path) {
            Some(f) => f.comments.contains_key(&key),
            None => false,
        };
        if !present {
            return;
        }
        let mut f = self.take_file(&path);
        match f.comments.remove(&key) {
            Some(mut c) => {
                c.snippet_hash = hash;
                f.comments.insert(key, c);
            },
            None => {},
        }
        assert(f@.comments =~= file_or_blank(old(self)@, path@).comments.insert(
            key,
            f@.comments[key],
        ));
        self.files.insert(path, f);
        assert(self@ =~= old(self)@.insert(path@, f@));
    }

    /// The comment on a line.
    pub fn line_comment(&self, path: &str, side: LineSide, line_1_based: u32) -> (r: Option<
        &Comment,
    >)
        ensures
            ({
                let comments = file_or_blank(self@, path@).comments;
                let k = LineKey { side, line: line_1_based };
                match r {
                    Some(c) => comments.contains_key(k) && comments[k] == c@,
                    None => !comments.contains_key(k),
                }
            }),
    {
        let path = path.to_owned();
        match self.files.get(&path) {
            Some(f) => f.comments.get(&LineKey { side, line: line_1_based }),
            None => None,
        }
    }

    /// Takes the comment on a line away, and says whether there was one.
    pub fn remove_line_comment(&mut self, path: &str, side: LineSide, line_1_based: u32) -> (removed:
        bool)
        ensures
            ({
                let k = LineKey { side, line: line_1_based };
                &&& removed == file_or_blank(old(self)@, path@).comments.contains_key(k)
                &&& final(self)@ == without_line_comment(old(self)@, path@, k)
            }),
    {
        let path = path.to_owned();
        if !self.files.contains_key(&path) {
            return false;
        }
        let mut f = self.take_file(&path);
        let removed = f.comments.remove(&LineKey { side, line: line_1_based }).is_some();
        self.settle_file(path, f);
        assert(self@ =~= settled(old(self)@, path@, f@));
        removed
    }

    /// Turns the comment on a line from unresolved to resolved or back, and
    /// says what it then is.
    pub fn toggle_line_comment_resolved(
        &mut self,
        path: &str,
        side: LineSide,
        line_1_based: u32,
    ) -> (r: Option<bool>)
        ensures
            ({
                let f = file_or_blank(old(self)@, path@);
                let k = LineKey { side, line: line_1_based };
                &&& final(self)@ == with_line_toggled(old(self)@, path@, k)
                &&& r == (if f.comments.contains_key(k) {
                    Some(!f.comments[k].resolved)
                } else {
                    None
                })
            }),
    {
        let path = path.to_owned();
        let key = LineKey { side, line: line_1_based };
        let present = match self.files.get(&path) {
            Some(f) => f.comments.contains_key(&key),
            None => false,
        };
        if !present {
            return None;
        }
        let mut f = self.take_file(&path);
        let mut out: Option<bool> = None;
        match f.comments.remove(&key) {
            Some(mut c) => {
                c.resolved = !c.resolved;
                out = Some(c.resolved);
                f.comments.insert(key, c);
            },
            None => {},
        }
        assert(f@.comments =~= file_or_blank(old(self)@, path@).comments.insert(
            key,
            f@.comments[key],
        ));
        self.files.insert(path, f);
        assert(self@ =~= old(self)@.insert(path@, f@));
        out
    }

    /// Takes the comments away that stand on no line of the given sets, and
    /// says whether anything changed.
    pub fn prune_line_comments(
        &mut self,
        path: &str,
        valid_old: &HashSet<u32>,
        valid_new: &HashSet<u32>,
    ) -> (changed: bool)
        ensures
            final(self)@ == pruned(old(self)@, path@, valid_old@, valid_new@),
            changed == (final(self)@ != old(self)@),
    {
        let path = path.to_owned();
        if !self.files.contains_key(&path) {
            return false;
        }
        let mut f = self.take_file(&path);
        let ghost before = f@;
        let n: usize = f.comments.len();
        let ghost e = ordmap::ordered::<LineKey, CommentView>(f.comments@);
        let mut kept = OrdMap::<LineKey, Comment>::new();
        let mut changed = false;
        let mut i: usize = 0;
        proof {
            ordmap::lemma_map_of_empty::<LineKey, CommentView>();
            assert(e.take(0) =~= Seq::empty());
            assert(kept@ =~= reachable(ordmap::map_of(e.take(0)), valid_old@, valid_new@));
        }
        while i < n
            invariant
                i <= n == e.len(),
                e == ordmap::ordered::<LineKey, CommentView>(f.comments@),
                ordmap::increasing::<LineKey, CommentView>(e),
                kept@ == reachable(ordmap::map_of(e.take(i as int)), valid_old@, valid_new@),
                changed == (kept@ != ordmap::map_of(e.take(i as int))),
            decreases n - i,
        {
            let key = *f.comments.key_at(i);
            let valid = match key.side {
                LineSide::Old => valid_old.contains(&key.line),
                LineSide::New => valid_new.contains(&key.line),
            };
            let ghost seen = ordmap::map_of(e.take(i as int));
            let ghost next = ordmap::map_of(e.take(i + 1));
            let ghost kept_before = kept@;
            proof {
                ordmap::lemma_take_next::<LineKey, CommentView>(e, i as int);
                assert(next == seen.insert(key, e[i as int].1));
                assert(!kept@.contains_key(key));
            }
            if valid {
                kept.insert(key, f.comments.val_at(i).duplicate());
                assert(kept@ =~= reachable(next, valid_old@, valid_new@));
                proof {
                    if kept@ == next {
                        assert(kept_before =~= kept@.remove(key));
                        assert(seen =~= next.remove(key));
                    }
                }
            } else {
                changed = true;
                assert(kept@ =~= reachable(next, valid_old@, valid_new@));
                assert(next.contains_key(key));
            }
            i += 1;
        }
        assert(e.take(n as int) =~= e);
        f.comments = kept;
        let emptied = f.file_comment.is_none() && f.comments.is_empty() && !f.reviewed;
        self.settle_file(path, f);
        proof {
            assert(self@ =~= settled(old(self)@, path@, f@));
            assert(old(self)@[path@] == before);
            if emptied {
                assert(!self@.contains_key(path@));
            } else if changed {
                assert(self@[path@].comments != before.comments);
            } else {
                assert(f@ == before);
                assert(self@ =~= old(self)@);
            }
        }
        changed || emptied
    }

    /// What the comments on the file `path` amount to.
    pub fn comment_state(&self, path: &str) -> (state: CommentState)
        ensures
            ({
                let f = file_or_blank(self@, path@);
                state == (if f.has_unresolved() {
                    CommentState::HasUnresolved
                } else if f.has_comment() {
                    CommentState::ResolvedOnly
                } else {
                    CommentState::Empty
                })
            }),
    {
        let key = path.to_owned();
        match self.files.get(&key) {
            None => {
                assert(!FileReviewView::blank().has_unresolved());
                CommentState::Empty
            },
            Some(f) => {
                let mut saw_any = false;
                match &f.file_comment {
                    Some(c) => {
                        saw_any = true;
                        if !c.resolved {
                            return CommentState::HasUnresolved;
                        }
                    },
                    None => {},
                }
                let n: usize = f.comments.len();
                let ghost e = ordmap::ordered::<LineKey, CommentView>(f.comments@);
                let mut i: usize = 0;
                while i < n
                    invariant
                        i <= n == e.len(),
                        e == ordmap::ordered::<LineKey, CommentView>(f.comments@),
                        f@ == file_or_blank(self@, path@),
                        ordmap::increasing::<LineKey, CommentView>(e),
                        ordmap::map_of(e) == f.comments@,
                        forall|j: int| 0 <= j < i ==> (#[trigger] e[j]).1.resolved,
                    decreases n - i,
                {
                    if !f.comments.val_at(i).resolved {
                        proof {
                            let k = e[i as int].0;
                            ordmap::lemma_map_of_at::<LineKey, CommentView>(e, i as int);
                            assert(f@.comments.contains_key(k) && !f@.comments[k].resolved);
                        }
                        return CommentState::HasUnresolved;
                    }
                    i += 1;
                }
                proof {
                    assert forall|k: LineKey| #[trigger] f@.comments.contains_key(k) implies
                        f@.comments[k].resolved by {
                        let j = ordmap::index_of_key(e, k);
                        ordmap::lemma_map_of_at::<LineKey, CommentView>(e, j);
                    }
                }
                if saw_any || !f.comments.is_empty() {
                    CommentState::ResolvedOnly
                } else {
                    CommentState::Empty
                }
            },
        }
    }
}

/// A piece of code and the name of its language.
#[derive(Debug)]
pub struct PromptSnippet {
    pub code: String,
    pub lang: String,
}

/// What a piece of code for the prompt holds.
pub struct SnippetView {
    pub code: Seq<char>,
    pub lang: Seq<char>,
}

/// What an optional piece of code holds.
pub open spec fn opt_snippet(o: Option<PromptSnippet>) -> Option<SnippetView> {
    match o {
        Some(s) => Some(SnippetView { code: s.code@, lang: s.lang@ }),
        None => None,
    }
}

/// The length of the shortest run of at least `n` backticks that `text` does not hold.
pub open spec fn fence_len(text: Seq<char>, n: nat) -> nat
    decreases text.len() + 1 - n,
    via fence_len_decreases
{
    if text::occurs(text, text::repeated('`', n)) {
        fence_len(text, n + 1)
    } else {
        n
    }
}

#[via_fn]
proof fn fence_len_decreases(text: Seq<char>, n: nat) {
    text::lemma_occurs_len(text, text::repeated('`', n));
}

/// The fence around `text`: three backticks, or as many more as it takes for
/// the fence not to occur in it.
pub open spec fn fence(text: Seq<char>) -> Seq<char> {
    text::repeated('`', fence_len(text, 3))
}

/// `text` as a fenced block of the language `lang`.
pub open spec fn fenced(text: Seq<char>, lang: Seq<char>) -> Seq<char> {
    let body = if text.len() > 0 && text.last() == '\n' {
        text
    } else {
        text.push('\n')
    };
    fence(text) + lang + seq!['\n'] + body + fence(text) + seq!['\n']
}

/// A fence does not occur in the text that it surrounds.
pub proof fn law_fence_is_free(text: Seq<char>)
    ensures
        !text::occurs(text, fence(text)),
        fence(text).len() >= 3,
{
    lemma_fence_free(text, 3);
}

proof fn lemma_fence_free(text: Seq<char>, n: nat)
    ensures
        !text::occurs(text, text::repeated('`', fence_len(text, n))),
        fence_len(text, n) >= n,
    decreases text.len() + 1 - n,
{
    if text::occurs(text, text::repeated('`', n)) {
        text::lemma_occurs_len(text, text::repeated('`', n));
        lemma_fence_free(text, n + 1);
    }
}

/// Writes `text` as a fenced block of the language `lang` at the end of `out`.
pub fn push_fenced_block_with_lang(out: &mut String, text: &str, lang: &str)
    ensures
        final(out)@ == old(out)@ + fenced(text@, lang@),
{
    let mut fence_text = String::new();
    fence_text.push('`');
    fence_text.push('`');
    fence_text.push('`');
    assert(fence_text@ == text::repeated('`', 3));
    while text::contains(text, fence_text.as_str())
        invariant
            fence_text@ == text::repeated('`', fence_text@.len()),
            fence_len(text@, fence_text@.len()) == fence_len(text@, 3),
        decreases text@.len() + 1 - fence_text@.len(),
    {
        proof {
            text::lemma_occurs_len(text@, fence_text@);
        }
        let ghost n = fence_text@.len();
        fence_text.push('`');
        assert(fence_text@ == text::repeated('`', n + 1));
    }
    assert(fence_text@ == fence(text@));
    out.append(fence_text.as_str());
    out.append(lang);
    out.push('\n');
    out.append(text);
    if !ends_with_newline(text) {
        out.push('\n');
    }
    out.append(fence_text.as_str());
    out.push('\n');
    assert(out@ == old(out)@ + fenced(text@, lang@));
}

/// Whether `s` ends with a line feed.
pub fn ends_with_newline(s: &str) -> (r: bool)
    ensures
        r == (s@.len() > 0 && s@.last() == '\n'),
{
    let v = text::chars(s);
    v.len() > 0 && v[v.len() - 1] == '\n'
}

/// Writes `text` as a fenced block of plain text at the end of `out`.
pub fn push_fenced_block(out: &mut String, text: &str)
    ensures
        final(out)@ == old(out)@ + fenced(text@, "text"@),
{
    push_fenced_block_with_lang(out, text, "text");
}

/// The comment on a file that the prompt shows: unresolved, not blank,
/// without the white space it ends with.
pub open spec fn shown_file_comment(f: FileReviewView) -> Option<Seq<char>> {
    match f.file_comment {
        Some(c) => if !c.resolved && !text::is_blank(c.body) {
            Some(text::trimmed_end(c.body))
        } else {
            None
        },
        None => None,
    }
}

/// Those of the given line comments that the prompt shows: unresolved, not
/// blank, without the white space they end with.
pub open spec fn shown_lines(e: Seq<(LineKey, CommentView)>) -> Seq<(LineKey, Seq<char>)>
    decreases e.len(),
{
    if e.len() == 0 {
        seq![]
    } else {
        let front = shown_lines(e.drop_last());
        let (k, c) = e.last();
        if !c.resolved && !text::is_blank(c.body) {
            front.push((k, text::trimmed_end(c.body)))
        } else {
            front
        }
    }
}

/// The line comments of `f` that the prompt shows, in the order of their lines.
pub open spec fn shown_of(f: FileReviewView) -> Seq<(LineKey, Seq<char>)> {
    shown_lines(ordmap::ordered::<LineKey, CommentView>(f.comments))
}

/// The item of the prompt for a line comment: where it stands, the code there
/// if it is known, and the comment.
pub open spec fn line_item(k: LineKey, code: Option<SnippetView>, body: Seq<char>) -> Seq<char> {
    let head = "- line "@ + text::decimal(k.line as nat) + (if k.side is Old {
        " (old)"@
    } else {
        seq![]
    }) + seq!['\n'];
    let snippet = match code {
        Some(s) => fenced(s.code, s.lang),
        None => seq![],
    };
    head + snippet + fenced(body, "text"@)
}

/// The items of the prompt for line comments, each with the code there.
pub open spec fn line_items(
    shown: Seq<(LineKey, Seq<char>)>,
    codes: Seq<Option<SnippetView>>,
) -> Seq<char>
    decreases shown.len(),
{
    if shown.len() == 0 {
        seq![]
    } else {
        line_items(shown.drop_last(), codes) + line_item(
            shown.last().0,
            codes[shown.len() - 1],
            shown.last().1,
        )
    }
}

/// The section of the prompt for one file; empty where no comment is shown.
pub open spec fn file_section(
    path: Seq<char>,
    f: FileReviewView,
    codes: Seq<Option<SnippetView>>,
) -> Seq<char> {
    let shown = shown_of(f);
    let file_part = match shown_file_comment(f) {
        Some(body) => "### File comment\n"@ + fenced(body, "text"@) + seq!['\n'],
        None => seq![],
    };
    let line_part = if shown.len() > 0 {
        "### Line comments\n"@ + line_items(shown, codes)
    } else {
        seq![]
    };
    if shows_any(f) {
        "## "@ + path + seq!['\n'] + file_part + line_part + seq!['\n']
    } else {
        seq![]
    }
}

/// Whether the prompt shows a comment of this file.
pub open spec fn shows_any(f: FileReviewView) -> bool {
    shown_file_comment(f) is Some || shown_of(f).len() > 0
}

/// The sections of the prompt for the given files.
pub open spec fn file_sections(
    e: Seq<(Seq<char>, FileReviewView)>,
    codes: Seq<Seq<Option<SnippetView>>>,
) -> Seq<char>
    decreases e.len(),
{
    if e.len() == 0 {
        seq![]
    } else {
        file_sections(e.drop_last(), codes) + file_section(
            e.last().0,
            e.last().1,
            codes[e.len() - 1],
        )
    }
}

/// The prompt: a heading and a section for each file with a comment to show,
/// in the order of their paths; `codes` holds, for each file and each comment
/// of it that is shown, the code on its line.
pub open spec fn prompt_text(m: ReviewView, codes: Seq<Seq<Option<SnippetView>>>) -> Seq<char> {
    let e = ordmap::ordered::<String, FileReviewView>(m);
    if m == ReviewView::empty() {
        "No comments.\n"@
    } else {
        prompt_heading() + file_sections(e, codes) + (if exists|i: int|
            0 <= i < e.len() && shows_any(#[trigger] e[i].1) {
            seq![]
        } else {
            "No comments.\n"@
        })
    }
}

/// What a prompt starts with.
pub open spec fn prompt_heading() -> Seq<char> {
    "# Review Notes\n\nThese notes are grouped by file. Every comment belongs to the file section it appears under.\n\n"@
}

/// Whether `o` is an answer of `f` to the question for the code on line `k` of `path`.
pub open spec fn answered<F: Fn(&str, LineKey) -> Option<PromptSnippet>>(
    f: F,
    path: Seq<char>,
    k: LineKey,
    o: Option<SnippetView>,
) -> bool {
    exists|p: &str, r: Option<PromptSnippet>|
        #![trigger call_ensures(f, (p, k), r)]
        p@ == path && call_ensures(f, (p, k), r) && opt_snippet(r) == o
}

/// Whether `codes` holds an answer of `f` for each comment of the files `e` that is shown.
pub open spec fn all_answered<F: Fn(&str, LineKey) -> Option<PromptSnippet>>(
    f: F,
    e: Seq<(Seq<char>, FileReviewView)>,
    codes: Seq<Seq<Option<SnippetView>>>,
) -> bool {
    &&& codes.len() == e.len()
    &&& forall|i: int|
        0 <= i < e.len() ==> file_answered(f, (#[trigger] e[i]).0, shown_of(e[i].1), codes[i])
}

/// Whether `codes` holds an answer of `f` for each of the comments `shown` of `path`.
pub open spec fn file_answered<F: Fn(&str, LineKey) -> Option<PromptSnippet>>(
    f: F,
    path: Seq<char>,
    shown: Seq<(LineKey, Seq<char>)>,
    codes: Seq<Option<SnippetView>>,
) -> bool {
    &&& codes.len() == shown.len()
    &&& forall|j: int|
        0 <= j < shown.len() ==> answered(f, path, (#[trigger] shown[j]).0, codes[j])
}

proof fn lemma_line_items_prefix(
    shown: Seq<(LineKey, Seq<char>)>,
    a: Seq<Option<SnippetView>>,
    b: Seq<Option<SnippetView>>,
)
    requires
        forall|j: int| 0 <= j < shown.len() ==> a[j] == b[j],
    ensures
        line_items(shown, a) == line_items(shown, b),
    decreases shown.len(),
{
    if shown.len() > 0 {
        lemma_line_items_prefix(shown.drop_last(), a, b);
    }
}

proof fn lemma_file_sections_prefix(
    e: Seq<(Seq<char>, FileReviewView)>,
    a: Seq<Seq<Option<SnippetView>>>,
    b: Seq<Seq<Option<SnippetView>>>,
)
    requires
        forall|j: int| 0 <= j < e.len() ==> a[j] == b[j],
    ensures
        file_sections(e, a) == file_sections(e, b),
    decreases e.len(),
{
    if e.len() > 0 {
        lemma_file_sections_prefix(e.drop_last(), a, b);
    }
}

/// The comment on a file that the prompt shows.
pub fn prompt_file_comment(f: &FileReview) -> (r: Option<String>)
    ensures
        text::opt_view(r) == shown_file_comment(f@),
{
    match &f.file_comment {
        Some(c) => if !c.resolved && !text::blank(c.body.as_str()) {
            Some(text::trim_end(c.body.as_str()))
        } else {
            None
        },
        None => None,
    }
}

/// The line comments and their bodies, as a sequence of plain values.
pub open spec fn line_views(v: Seq<(LineKey, String)>) -> Seq<(LineKey, Seq<char>)> {
    v.map_values(|p: (LineKey, String)| (p.0, p.1@))
}

/// The line comments of a file that the prompt shows, in the order of their lines.
pub fn prompt_line_comments(f: &FileReview) -> (out: Vec<(LineKey, String)>)
    ensures
        line_views(out@) == shown_of(f@),
{
    let n: usize = f.comments.len();
    let ghost e = ordmap::ordered::<LineKey, CommentView>(f.comments@);
    let mut out: Vec<(LineKey, String)> = Vec::new();
    let mut i: usize = 0;
    assert(e.take(0) =~= Seq::empty());
    while i < n
        invariant
            i <= n == e.len(),
            e == ordmap::ordered::<LineKey, CommentView>(f.comments@),
            line_views(out@) == shown_lines(e.take(i as int)),
        decreases n - i,
    {
        assert(e.take(i + 1).drop_last() =~= e.take(i as int));
        let ghost before = out@;
        let c = f.comments.val_at(i);
        if !c.resolved && !text::blank(c.body.as_str()) {
            out.push((*f.comments.key_at(i), text::trim_end(c.body.as_str())));
            assert(line_views(out@) == line_views(before).push(
                (e[i as int].0, text::trimmed_end(e[i as int].1.body)),
            ));
        }
        i += 1;
    }
    assert(e.take(n as int) =~= e);
    out
}

proof fn lemma_add_assoc(a: Seq<char>, b: Seq<char>, c: Seq<char>)
    ensures
        a + b + c == a + (b + c),
{
    assert(a + b + c =~= a + (b + c));
}

/// Writes the item of the prompt for a line comment.
fn push_line_item(out: &mut String, key: LineKey, code: &Option<PromptSnippet>, body: &str)
    ensures
        final(out)@ == old(out)@ + line_item(key, opt_snippet(*code), body@),
{
    out.append("- line ");
    text::push_decimal(out, key.line as u64);
    match key.side {
        LineSide::Old => {
            out.append(" (old)");
        },
        LineSide::New => {},
    }
    out.push('\n');
    match code {
        Some(snippet) => {
            push_fenced_block_with_lang(out, snippet.code.as_str(), snippet.lang.as_str());
        },
        None => {},
    }
    push_fenced_block(out, body);
    assert(out@ =~= old(out)@ + line_item(key, opt_snippet(*code), body@));
}

/// Writes the section of the prompt for one file, where a comment of it is
/// shown, and says whether one is. `line_code` is asked for the code on the
/// line of each comment that is shown.
fn push_file_section<F: Fn(&str, LineKey) -> Option<PromptSnippet>>(
    out: &mut String,
    path: &String,
    f: &FileReview,
    line_code: &F,
) -> (r: (bool, Ghost<Seq<Option<SnippetView>>>))
    requires
        forall|p: &str, k: LineKey| #[trigger] call_requires(*line_code, (p, k)),
    ensures
        r.0 == shows_any(f@),
        file_answered(*line_code, path@, shown_of(f@), r.1@),
        final(out)@ == old(out)@ + file_section(path@, f@, r.1@),
{
    let file_comment = prompt_file_comment(f);
    let line_comments = prompt_line_comments(f);
    let ghost shown = shown_of(f@);
    let ghost mut codes: Seq<Option<SnippetView>> = seq![];
    assert(shown.len() == line_comments@.len());
    if file_comment.is_none() && line_comments.len() == 0 {
        return (false, Ghost(codes));
    }
    out.append("## ");
    out.append(path.as_str());
    out.push('\n');
    match &file_comment {
        Some(body) => {
            out.append("### File comment\n");
            push_fenced_block(out, body.as_str());
            out.push('\n');
        },
        None => {},
    }
    let ghost front = out@;
    if line_comments.len() > 0 {
        out.append("### Line comments\n");
        let ghost base = out@;
        let mut i: usize = 0;
        assert(shown.take(0) =~= Seq::empty());
        while i < line_comments.len()
            invariant
                i <= line_comments.len() == shown.len(),
                line_views(line_comments@) == shown,
                codes.len() == i,
                forall|p: &str, k: LineKey| #[trigger] call_requires(*line_code, (p, k)),
                forall|j: int|
                    0 <= j < i ==> answered(*line_code, path@, (#[trigger] shown[j]).0, codes[j]),
                out@ == base + line_items(shown.take(i as int), codes),
            decreases line_comments.len() - i,
        {
            let ghost before = codes;
            let key = line_comments[i].0;
            assert(shown[i as int] == (key, line_comments@[i as int].1@));
            let ghost text_before = out@;
            let code = line_code(path.as_str(), key);
            push_line_item(out, key, &code, line_comments[i].1.as_str());
            proof {
                codes = before.push(opt_snippet(code));
                assert(answered(*line_code, path@, key, opt_snippet(code)));
                lemma_line_items_prefix(shown.take(i as int), before, codes);
                assert(shown.take(i + 1).drop_last() =~= shown.take(i as int));
                assert(shown.take(i + 1).last() == shown[i as int]);
                lemma_add_assoc(
                    base,
                    line_items(shown.take(i as int), codes),
                    line_item(key, opt_snippet(code), shown[i as int].1),
                );
            }
            i += 1;
        }
        assert(shown.take(i as int) =~= shown);
    }
    out.push('\n');
    assert(out@ =~= old(out)@ + file_section(path@, f@, codes));
    (true, Ghost(codes))
}

/// The prompt for `review`: its unresolved comments, grouped by file.
/// `line_code` is asked for the code on the line of each comment that is shown.
pub fn render_prompt<F: Fn(&str, LineKey) -> Option<PromptSnippet>>(
    review: &Review,
    line_code: F,
) -> (out: String)
    requires
        forall|p: &str, k: LineKey| #[trigger] call_requires(line_code, (p, k)),
    ensures
        exists|codes: Seq<Seq<Option<SnippetView>>>|
            #![trigger prompt_text(review@, codes)]
            all_answered(
                line_code,
                ordmap::ordered::<String, FileReviewView>(review@),
                codes,
            ) && out@ == prompt_text(review@, codes),
{
    let ghost e = ordmap::ordered::<String, FileReviewView>(review@);
    let mut out = String::new();
    let n: usize = review.files.len();
    if review.files.is_empty() {
        out.append("No comments.\n");
        proof {
            ordmap::lemma_map_of_empty::<String, FileReviewView>();
            ordmap::lemma_ordered_is::<String, FileReviewView>(Seq::empty());
            let codes: Seq<Seq<Option<SnippetView>>> = seq![];
            assert(out@ =~= prompt_text(review@, codes));
            assert(all_answered(line_code, e, codes));
        }
        return out;
    }
    out.append(
        "# Review Notes\n\nThese notes are grouped by file. Every comment belongs to the file section it appears under.\n\n",
    );
    let ghost base = out@;
    assert(base =~= prompt_heading());
    let ghost mut codes: Seq<Seq<Option<SnippetView>>> = seq![];
    let mut wrote_any = false;
    let mut i: usize = 0;
    assert(e.take(0) =~= Seq::empty());
    while i < n
        invariant
            i <= n == e.len(),
            e == ordmap::ordered::<String, FileReviewView>(review@),
            forall|p: &str, k: LineKey| #[trigger] call_requires(line_code, (p, k)),
            codes.len() == i,
            forall|j: int|
                0 <= j < i ==> file_answered(
                    line_code,
                    (#[trigger] e[j]).0,
                    shown_of(e[j].1),
                    codes[j],
                ),
            out@ == base + file_sections(e.take(i as int), codes),
            wrote_any == exists|j: int| 0 <= j < i && shows_any(#[trigger] e[j].1),
        decreases n - i,
    {
        let ghost before = codes;
        let (any, Ghost(file_codes)) = push_file_section(
            &mut out,
            review.files.key_at(i),
            review.files.val_at(i),
            &line_code,
        );
        proof {
            codes = before.push(file_codes);
            lemma_file_sections_prefix(e.take(i as int), before, codes);
            assert(e.take(i + 1).drop_last() =~= e.take(i as int));
            assert(out@ =~= base + (file_sections(e.take(i as int), codes) + file_section(
                e[i as int].0,
                e[i as int].1,
                file_codes,
            )));
            assert forall|j: int| 0 <= j < i + 1 implies file_answered(
                line_code,
                (#[trigger] e[j]).0,
                shown_of(e[j].1),
                codes[j],
            ) by {
                if j < i {
                    assert(codes[j] == before[j]);
                }
            }
            if any {
                assert(shows_any(e[i as int].1));
            }
        }
        wrote_any = wrote_any || any;
        i += 1;
    }
    assert(e.take(n as int) =~= e);
    if !wrote_any {
        out.append("No comments.\n");
    }
    proof {
        assert(review@ != ReviewView::empty());
        assert(out@ =~= prompt_text(review@, codes));
        assert(all_answered(line_code, e, codes));
    }
    out
}

/// Whether each file of `m` holds something to keep.
pub open spec fn is_tidy(m: ReviewView) -> bool {
    forall|p: Seq<char>| #[trigger] m.contains_key(p) ==> !m[p].is_bare()
}

/// Settling a file keeps a review tidy and leaves every other file as it was.
pub proof fn law_settled(m: ReviewView, path: Seq<char>, f: FileReviewView)
    ensures
        is_tidy(m) ==> is_tidy(settled(m, path, f)),
        forall|p: Seq<char>|
            p != path ==> settled(m, path, f).contains_key(p) == m.contains_key(p) && settled(
                m,
                path,
                f,
            )[p] == m[p],
        file_or_blank(settled(m, path, f), path).file_comment == f.file_comment,
        file_or_blank(settled(m, path, f), path).comments == f.comments,
        file_or_blank(settled(m, path, f), path).reviewed == f.reviewed,
{
    assert forall|p: Seq<char>|
        is_tidy(m) && #[trigger] settled(m, path, f).contains_key(p) implies !settled(m, path, f)[p].is_bare() by {
        if p != path {
            assert(m.contains_key(p));
        }
    }
}

/// A tidy review stays tidy whatever is said in it.
pub proof fn law_operations_keep_tidy(
    m: ReviewView,
    path: Seq<char>,
    k: LineKey,
    body: Seq<char>,
    hash: Option<Seq<char>>,
    old_lines: Set<u32>,
    new_lines: Set<u32>,
)
    requires
        is_tidy(m),
    ensures
        is_tidy(with_file_comment(m, path, body)),
        is_tidy(with_line_comment(m, path, k, body)),
        is_tidy(with_file_toggled(m, path)),
        is_tidy(with_line_toggled(m, path, k)),
        is_tidy(with_line_hash(m, path, k, hash)),
        is_tidy(without_file_comment(m, path)),
        is_tidy(without_line_comment(m, path, k)),
        is_tidy(pruned(m, path, old_lines, new_lines)),
{
    assert forall|f: FileReviewView| is_tidy(#[trigger] settled(m, path, f)) by {
        law_settled(m, path, f);
    }
    assert forall|f: FileReviewView| !f.is_bare() implies is_tidy(#[trigger] m.insert(path, f)) by {
        assert forall|p: Seq<char>| #[trigger] m.insert(path, f).contains_key(p) implies !m.insert(
            path,
            f,
        )[p].is_bare() by {
            if p != path {
                assert(m.contains_key(p));
            }
        }
    }
    let f = file_or_blank(m, path);
    if f.comments.contains_key(k) {
        let c = f.comments[k];
        let comments = f.comments.insert(k, CommentView { resolved: !c.resolved, ..c });
        assert(comments.contains_key(k));
        assert(!(FileReviewView { comments, ..f }).is_bare());
        let hashed = f.comments.insert(k, CommentView { snippet_hash: hash, ..c });
        assert(hashed.contains_key(k));
        assert(!(FileReviewView { comments: hashed, ..f }).is_bare());
    }
}

/// What was last said about a line is what is read back, and nothing else changed.
pub proof fn law_line_comment_reads_back(
    m: ReviewView,
    path: Seq<char>,
    k: LineKey,
    body: Seq<char>,
)
    ensures
        ({
            let after = file_or_blank(with_line_comment(m, path, k, body), path);
            let before = file_or_blank(m, path);
            &&& after.comments.contains_key(k) == !text::is_blank(body)
            &&& !text::is_blank(body) ==> after.comments[k].body == body
            &&& after.comments.remove(k) == before.comments.remove(k)
            &&& after.file_comment == before.file_comment
            &&& after.reviewed == before.reviewed
        }),
{
    let before = file_or_blank(m, path);
    let after = file_or_blank(with_line_comment(m, path, k, body), path);
    assert(after.comments.remove(k) =~= before.comments.remove(k));
}

/// What was last said about a file is what is read back, and nothing else changed.
pub proof fn law_file_comment_reads_back(m: ReviewView, path: Seq<char>, body: Seq<char>)
    ensures
        ({
            let after = file_or_blank(with_file_comment(m, path, body), path);
            let before = file_or_blank(m, path);
            &&& after.file_comment is Some == !text::is_blank(body)
            &&& !text::is_blank(body) ==> after.file_comment->0.body == body
            &&& after.comments == before.comments
            &&& after.reviewed == before.reviewed
        }),
{
}

/// Resolving a comment and taking it up again leaves the review as it was.
pub proof fn law_toggle_twice(m: ReviewView, path: Seq<char>, k: LineKey)
    ensures
        with_file_toggled(with_file_toggled(m, path), path) == m,
        with_line_toggled(with_line_toggled(m, path, k), path, k) == m,
{
    assert(with_file_toggled(with_file_toggled(m, path), path) =~= m) by {
        if m.contains_key(path) && m[path].file_comment is Some {
            let c = m[path].file_comment->0;
            let n = CommentView { resolved: !c.resolved, ..c };
            assert(CommentView { resolved: !n.resolved, ..n } == c);
            assert(with_file_toggled(with_file_toggled(m, path), path)[path] == m[path]);
        }
    }
    assert(with_line_toggled(with_line_toggled(m, path, k), path, k) =~= m) by {
        let f = file_or_blank(m, path);
        if f.comments.contains_key(k) {
            let c = f.comments[k];
            let n = CommentView { resolved: !c.resolved, ..c };
            assert(CommentView { resolved: !n.resolved, ..n } == c);
            assert(f.comments.insert(k, n).insert(k, c) =~= f.comments);
            assert(with_line_toggled(with_line_toggled(m, path, k), path, k)[path] == m[path]);
        }
    }
}

/// Pruning by the same lines once more changes nothing.
pub proof fn law_prune_twice(
    m: ReviewView,
    path: Seq<char>,
    old_lines: Set<u32>,
    new_lines: Set<u32>,
)
    ensures
        pruned(pruned(m, path, old_lines, new_lines), path, old_lines, new_lines) == pruned(
            m,
            path,
            old_lines,
            new_lines,
        ),
{
    if m.contains_key(path) {
        let once = reachable(m[path].comments, old_lines, new_lines);
        assert(reachable(once, old_lines, new_lines) =~= once);
        let p = pruned(m, path, old_lines, new_lines);
        assert(pruned(p, path, old_lines, new_lines) =~= p);
    }
}

} // verus!
