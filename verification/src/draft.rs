//! The draft: the unresolved comments of a review as a text that is edited by
//! hand and read back.
use crate::ordmap;
use crate::ordmap::{Duplicate, OrdMap};
use crate::review;
use crate::review::{
    Comment, CommentView, FileReview, FileReviewView, LineKey, LineSide, Review, ReviewView,
};
use crate::text;
use vstd::prelude::*;

verus! {

/// What stands in a draft where a comment is still to be written.
pub open spec fn placeholder() -> Seq<char> {
    "<!-- remark:write comment -->"@
}

/// The comments of a draft on one file.
pub struct DraftFileReview {
    pub file_comment: Option<String>,
    pub comments: OrdMap<LineKey, String>,
}

/// What a draft holds of one file.
#[verifier::ext_equal]
pub struct DraftFileView {
    pub file_comment: Option<Seq<char>>,
    pub comments: Map<LineKey, Seq<char>>,
}

impl DraftFileView {
    /// Nothing said about a file.
    pub open spec fn blank() -> DraftFileView {
        DraftFileView { file_comment: None, comments: Map::empty() }
    }

    /// Whether it holds no comment.
    pub open spec fn is_bare(self) -> bool {
        self.file_comment is None && self.comments == Map::<LineKey, Seq<char>>::empty()
    }
}

impl View for DraftFileReview {
    type V = DraftFileView;

    open spec fn view(&self) -> DraftFileView {
        DraftFileView {
            file_comment: text::opt_view(self.file_comment),
            comments: self.comments@,
        }
    }
}

impl Duplicate for DraftFileReview {
    fn duplicate(&self) -> (r: Self) {
        DraftFileReview {
            file_comment: review::copy_opt(&self.file_comment),
            comments: self.comments.duplicate(),
        }
    }
}

impl Default for DraftFileReview {
    fn default() -> (r: Self)
        ensures
            r@ == DraftFileView::blank(),
    {
        DraftFileReview { file_comment: None, comments: OrdMap::new() }
    }
}

/// The comments of a draft, by path.
pub struct DraftReview {
    pub files: OrdMap<String, DraftFileReview>,
}

/// What a draft holds.
pub type DraftView = Map<Seq<char>, DraftFileView>;

impl View for DraftReview {
    type V = DraftView;

    open spec fn view(&self) -> DraftView {
        self.files@
    }
}

impl Duplicate for DraftReview {
    fn duplicate(&self) -> (r: Self) {
        DraftReview { files: self.files.duplicate() }
    }
}

impl Default for DraftReview {
    fn default() -> (r: Self)
        ensures
            r@ == DraftView::empty(),
    {
        DraftReview { files: OrdMap::new() }
    }
}

/// What `d` has under `path`, or nothing said about a file.
pub open spec fn draft_or_blank(d: DraftView, path: Seq<char>) -> DraftFileView {
    if d.contains_key(path) {
        d[path]
    } else {
        DraftFileView::blank()
    }
}

/// `d` with `f` under `path`, or without `path` where `f` holds no comment.
pub open spec fn settled_draft(d: DraftView, path: Seq<char>, f: DraftFileView) -> DraftView {
    if f.is_bare() {
        d.remove(path)
    } else {
        d.insert(path, f)
    }
}

/// `d` with the comment `body` on the file `path`.
pub open spec fn with_draft_file_comment(d: DraftView, path: Seq<char>, body: Seq<char>) -> DraftView {
    d.insert(
        path,
        DraftFileView { file_comment: Some(body), ..draft_or_blank(d, path) },
    )
}

/// `d` with the comment `body` on the line `k` of `path`.
pub open spec fn with_draft_line_comment(
    d: DraftView,
    path: Seq<char>,
    k: LineKey,
    body: Seq<char>,
) -> DraftView {
    let f = draft_or_blank(d, path);
    d.insert(path, DraftFileView { comments: f.comments.insert(k, body), ..f })
}

/// `d` without the comment on the file `path`.
pub open spec fn without_draft_file_comment(d: DraftView, path: Seq<char>) -> DraftView {
    if d.contains_key(path) {
        settled_draft(d, path, DraftFileView { file_comment: None, ..d[path] })
    } else {
        d
    }
}

/// `d` without the comment on the line `k` of `path`.
pub open spec fn without_draft_line_comment(d: DraftView, path: Seq<char>, k: LineKey) -> DraftView {
    if d.contains_key(path) {
        settled_draft(
            d,
            path,
            DraftFileView { comments: d[path].comments.remove(k), ..d[path] },
        )
    } else {
        d
    }
}

impl DraftReview {
    /// The comment on the file `path`.
    pub fn file_comment(&self, path: &str) -> (r: Option<&str>)
        ensures
            match r {
                Some(c) => draft_or_blank(self@, path@).file_comment == Some(c@),
                None => draft_or_blank(self@, path@).file_comment is None,
            },
    {
        let path = path.to_owned();
        match self.files.get(&path) {
            Some(f) => match &f.file_comment {
                Some(c) => Some(c.as_str()),
                None => None,
            },
            None => None,
        }
    }

    /// The comment on a line.
    pub fn line_comment(&self, path: &str, side: LineSide, line: u32) -> (r: Option<&str>)
        ensures
            ({
                let comments = draft_or_blank(self@, path@).comments;
                let k = LineKey { side, line };
                match r {
                    Some(c) => comments.contains_key(k) && comments[k] == c@,
                    None => !comments.contains_key(k),
                }
            }),
    {
        let path = path.to_owned();
        match self.files.get(&path) {
            Some(f) => match f.comments.get(&LineKey { side, line }) {
                Some(c) => Some(c.as_str()),
                None => None,
            },
            None => None,
        }
    }

    /// Takes what is said about `path` out.
    fn take_file(&mut self, path: &String) -> (f: DraftFileReview)
        ensures
            f@ == draft_or_blank(old(self)@, path@),
            final(self)@ == old(self)@.remove(path@),
    {
        match self.files.remove(path) {
            Some(f) => f,
            None => DraftFileReview::default(),
        }
    }

    /// Puts `f` under `path`, or takes `path` out where `f` holds no comment.
    fn settle_file(&mut self, path: String, f: DraftFileReview)
        ensures
            final(self)@ == settled_draft(old(self)@, path@, f@),
    {
        if f.file_comment.is_none() && f.comments.is_empty() {
            self.files.remove(&path);
        } else {
            self.files.insert(path, f);
        }
    }

    /// Sets the comment on the file `path`.
    pub fn set_file_comment(&mut self, path: &str, body: String)
        ensures
            final(self)@ == with_draft_file_comment(old(self)@, path@, body@),
    {
        let path = path.to_owned();
        let mut f = self.take_file(&path);
        f.file_comment = Some(body);
        self.files.insert(path, f);
        assert(self@ =~= with_draft_file_comment(old(self)@, path@, body@));
    }

    /// Sets the comment on a line.
    pub fn set_line_comment(&mut self, path: &str, side: LineSide, line: u32, body: String)
        ensures
            final(self)@ == with_draft_line_comment(
                old(self)@,
                path@,
                (LineKey { side, line }),
                body@,
            ),
    {
        let path = path.to_owned();
        let mut f = self.take_file(&path);
        f.comments.insert(LineKey { side, line }, body);
        self.files.insert(path, f);
        assert(self@ =~= with_draft_line_comment(
            old(self)@,
            path@,
            LineKey { side, line },
            body@,
        ));
    }

    /// Takes the comment on the file `path` away, and says whether there was one.
    pub fn remove_file_comment(&mut self, path: &str) -> (removed: bool)
        ensures
            removed == (draft_or_blank(old(self)@, path@).file_comment is Some),
            final(self)@ == without_draft_file_comment(old(self)@, path@),
    {
        let path = path.to_owned();
        if !self.files.contains_key(&path) {
            return false;
        }
        let mut f = self.take_file(&path);
        let removed = f.file_comment.is_some();
        f.file_comment = None;
        self.settle_file(path, f);
        assert(self@ =~= settled_draft(old(self)@, path@, f@));
        removed
    }

    /// Takes the comment on a line away, and says whether there was one.
    pub fn remove_line_comment(&mut self, path: &str, side: LineSide, line: u32) -> (removed: bool)
        ensures
            ({
                let k = LineKey { side, line };
                &&& removed == draft_or_blank(old(self)@, path@).comments.contains_key(k)
                &&& final(self)@ == without_draft_line_comment(old(self)@, path@, k)
            }),
    {
        let path = path.to_owned();
        if !self.files.contains_key(&path) {
            return false;
        }
        let mut f = self.take_file(&path);
        let removed = f.comments.remove(&LineKey { side, line }).is_some();
        self.settle_file(path, f);
        assert(self@ =~= settled_draft(old(self)@, path@, f@));
        removed
    }
}

/// A comment of a draft as one of a review: unresolved.
pub open spec fn lifted_comment(body: Seq<char>) -> CommentView {
    CommentView { body, resolved: false, snippet_hash: None }
}

/// What a draft says about a file, as the review of that file; blank comments are left out.
pub open spec fn lifted(f: DraftFileView) -> FileReviewView {
    FileReviewView {
        file_comment: match f.file_comment {
            Some(body) => if text::is_blank(body) {
                None
            } else {
                Some(lifted_comment(body))
            },
            None => None,
        },
        comments: lifted_lines(f.comments),
        reviewed: false,
        reviewed_hash: None,
    }
}

/// The line comments of a draft as those of a review; blank comments are left out.
pub open spec fn lifted_lines(m: Map<LineKey, Seq<char>>) -> Map<LineKey, CommentView> {
    Map::new(
        |k: LineKey| m.contains_key(k) && !text::is_blank(m[k]),
        |k: LineKey| lifted_comment(m[k]),
    )
}

/// The review that a draft makes up.
pub open spec fn draft_as_review(d: DraftView) -> ReviewView {
    Map::new(
        |p: Seq<char>| d.contains_key(p) && !lifted(d[p]).is_bare(),
        |p: Seq<char>| lifted(d[p]),
    )
}

/// What a draft says about a file, as the review of that file.
fn lift_file(f: &DraftFileReview) -> (r: FileReview)
    ensures
        r@ == lifted(f@),
{
    let n: usize = f.comments.len();
    let ghost e = ordmap::ordered::<LineKey, Seq<char>>(f.comments@);
    let mut comments = OrdMap::<LineKey, Comment>::new();
    let mut i: usize = 0;
    proof {
        ordmap::lemma_map_of_empty::<LineKey, Seq<char>>();
        assert(e.take(0) =~= Seq::empty());
        assert(comments@ =~= lifted_lines(ordmap::map_of(e.take(0))));
    }
    while i < n
        invariant
            i <= n == e.len(),
            e == ordmap::ordered::<LineKey, Seq<char>>(f.comments@),
            ordmap::increasing::<LineKey, Seq<char>>(e),
            comments@ == lifted_lines(ordmap::map_of(e.take(i as int))),
        decreases n - i,
    {
        proof {
            ordmap::lemma_take_next::<LineKey, Seq<char>>(e, i as int);
        }
        let body = f.comments.val_at(i);
        if !text::blank(body.as_str()) {
            comments.insert(
                *f.comments.key_at(i),
                Comment { body: body.clone(), resolved: false, snippet_hash: None },
            );
        }
        assert(comments@ =~= lifted_lines(ordmap::map_of(e.take(i + 1))));
        i += 1;
    }
    assert(e.take(n as int) =~= e);
    let file_comment = match &f.file_comment {
        Some(body) => if text::blank(body.as_str()) {
            None
        } else {
            Some(Comment { body: body.clone(), resolved: false, snippet_hash: None })
        },
        None => None,
    };
    FileReview { file_comment, comments, reviewed: false, reviewed_hash: None }
}

/// The review that a draft makes up.
pub fn draft_to_review(draft: &DraftReview) -> (out: Review)
    ensures
        out@ == draft_as_review(draft@),
{
    let n: usize = draft.files.len();
    let ghost e = ordmap::ordered::<String, DraftFileView>(draft@);
    let mut out = Review::new();
    let mut i: usize = 0;
    proof {
        ordmap::lemma_map_of_empty::<String, DraftFileView>();
        assert(e.take(0) =~= Seq::empty());
        assert(out@ =~= draft_as_review(ordmap::map_of(e.take(0))));
    }
    while i < n
        invariant
            i <= n == e.len(),
            e == ordmap::ordered::<String, DraftFileView>(draft@),
            ordmap::increasing::<String, DraftFileView>(e),
            out@ == draft_as_review(ordmap::map_of(e.take(i as int))),
        decreases n - i,
    {
        proof {
            ordmap::lemma_take_next::<String, DraftFileView>(e, i as int);
        }
        let f = lift_file(draft.files.val_at(i));
        if !(f.file_comment.is_none() && f.comments.is_empty()) {
            out.files.insert(draft.files.key_at(i).clone(), f);
        }
        assert(out@ =~= draft_as_review(ordmap::map_of(e.take(i + 1))));
        i += 1;
    }
    assert(e.take(n as int) =~= e);
    out
}

/// Whether a comment goes into a draft: unresolved and not blank.
pub open spec fn is_open(c: CommentView) -> bool {
    !c.resolved && !text::is_blank(c.body)
}

/// The line comments that go into a draft, without the white space they end with.
pub open spec fn drafted_lines(m: Map<LineKey, CommentView>) -> Map<LineKey, Seq<char>> {
    Map::new(
        |k: LineKey| m.contains_key(k) && is_open(m[k]),
        |k: LineKey| text::trimmed_end(m[k].body),
    )
}

/// What goes into a draft of the review of one file.
pub open spec fn drafted(f: FileReviewView) -> DraftFileView {
    DraftFileView {
        file_comment: review::shown_file_comment(f),
        comments: drafted_lines(f.comments),
    }
}

/// The draft of a review: its unresolved comments that are not blank.
pub open spec fn review_as_draft(m: ReviewView) -> DraftView {
    Map::new(
        |p: Seq<char>| m.contains_key(p) && !drafted(m[p]).is_bare(),
        |p: Seq<char>| drafted(m[p]),
    )
}

/// What goes into a draft of the review of one file.
fn draft_file(f: &FileReview) -> (r: DraftFileReview)
    ensures
        r@ == drafted(f@),
{
    let n: usize = f.comments.len();
    let ghost e = ordmap::ordered::<LineKey, CommentView>(f.comments@);
    let mut comments = OrdMap::<LineKey, String>::new();
    let mut i: usize = 0;
    proof {
        ordmap::lemma_map_of_empty::<LineKey, CommentView>();
        assert(e.take(0) =~= Seq::empty());
        assert(comments@ =~= drafted_lines(ordmap::map_of(e.take(0))));
    }
    while i < n
        invariant
            i <= n == e.len(),
            e == ordmap::ordered::<LineKey, CommentView>(f.comments@),
            ordmap::increasing::<LineKey, CommentView>(e),
            comments@ == drafted_lines(ordmap::map_of(e.take(i as int))),
        decreases n - i,
    {
        proof {
            ordmap::lemma_take_next::<LineKey, CommentView>(e, i as int);
        }
        let c = f.comments.val_at(i);
        if !c.resolved && !text::blank(c.body.as_str()) {
            comments.insert(*f.comments.key_at(i), text::trim_end(c.body.as_str()));
        }
        assert(comments@ =~= drafted_lines(ordmap::map_of(e.take(i + 1))));
        i += 1;
    }
    assert(e.take(n as int) =~= e);
    DraftFileReview { file_comment: review::prompt_file_comment(f), comments }
}

/// The draft of a review: its unresolved comments that are not blank.
pub fn review_to_draft(review: &Review) -> (out: DraftReview)
    ensures
        out@ == review_as_draft(review@),
{
    let n: usize = review.files.len();
    let ghost e = ordmap::ordered::<String, FileReviewView>(review@);
    let mut out = DraftReview::default();
    let mut i: usize = 0;
    proof {
        ordmap::lemma_map_of_empty::<String, FileReviewView>();
        assert(e.take(0) =~= Seq::empty());
        assert(out@ =~= review_as_draft(ordmap::map_of(e.take(0))));
    }
    while i < n
        invariant
            i <= n == e.len(),
            e == ordmap::ordered::<String, FileReviewView>(review@),
            ordmap::increasing::<String, FileReviewView>(e),
            out@ == review_as_draft(ordmap::map_of(e.take(i as int))),
        decreases n - i,
    {
        proof {
            ordmap::lemma_take_next::<String, FileReviewView>(e, i as int);
        }
        let f = draft_file(review.files.val_at(i));
        if !(f.file_comment.is_none() && f.comments.is_empty()) {
            out.files.insert(review.files.key_at(i).clone(), f);
        }
        assert(out@ =~= review_as_draft(ordmap::map_of(e.take(i + 1))));
        i += 1;
    }
    assert(e.take(n as int) =~= e);
    out
}

} // verus!
