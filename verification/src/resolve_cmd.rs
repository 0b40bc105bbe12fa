//! Resolving a comment without the user interface.
use crate::add_cmd;
use crate::config::ResolveCli;
use crate::draft_ops;
use crate::git::ViewKind;
use crate::ordmap::Duplicate;
use crate::review::{Comment, CommentView, FileReview, FileReviewView, LineKey};
use crate::session::{CommentLocator, CommentTarget};
use crate::sync;
use crate::text;
use vstd::prelude::*;

verus! {

/// What is wrong with the arguments, or with what they ask for.
#[derive(Debug, Clone, Copy, PartialEq, Eq, Structural)]
pub enum ResolveError {
    MissingFile,
    FileCommentAndLine,
    NoComment,
}

impl ResolveError {
    /// The error in words.
    pub open spec fn text(self) -> Seq<char> {
        match self {
            ResolveError::MissingFile => "missing --file <path>"@,
            ResolveError::FileCommentAndLine => "use either --file-comment or --line (not both)"@,
            ResolveError::NoComment => "no matching comment found to resolve"@,
        }
    }

    /// The error in words.
    pub fn message(&self) -> (r: &'static str)
        ensures
            r@ == self.text(),
    {
        match self {
            ResolveError::MissingFile => "missing --file <path>",
            ResolveError::FileCommentAndLine => "use either --file-comment or --line (not both)",
            ResolveError::NoComment => "no matching comment found to resolve",
        }
    }
}

/// The comment that is to be resolved.
pub fn plan_resolve(cmd: &ResolveCli) -> (r: Result<CommentTarget, ResolveError>)
    ensures
        match r {
            Err(ResolveError::MissingFile) => cmd.file is None,
            Err(ResolveError::FileCommentAndLine) => cmd.file is Some && cmd.file_comment
                && cmd.line is Some,
            Err(ResolveError::NoComment) => false,
            Ok(t) => {
                &&& cmd.file is Some && !(cmd.file_comment && cmd.line is Some)
                &&& t.path@ == cmd.file->0@
                &&& t.locator == add_cmd::place_of(cmd.line, cmd.side)
            },
        },
{
    let path = match &cmd.file {
        Some(f) => f.clone(),
        None => {
            return Err(ResolveError::MissingFile);
        },
    };
    if cmd.file_comment && cmd.line.is_some() {
        return Err(ResolveError::FileCommentAndLine);
    }
    Ok(CommentTarget { path, locator: add_cmd::place(cmd.line, cmd.side) })
}

/// The views whose notes are looked at, in order.
pub fn resolve_views(has_base: bool) -> (out: Vec<ViewKind>)
    ensures
        out@ == (if has_base {
            seq![ViewKind::All, ViewKind::Staged, ViewKind::Unstaged, ViewKind::Base]
        } else {
            seq![ViewKind::All, ViewKind::Staged, ViewKind::Unstaged]
        }),
{
    let mut out: Vec<ViewKind> = Vec::new();
    out.push(ViewKind::All);
    out.push(ViewKind::Staged);
    out.push(ViewKind::Unstaged);
    if has_base {
        out.push(ViewKind::Base);
    }
    out
}

/// The comment at a place of a file.
pub open spec fn comment_in(f: FileReviewView, at: CommentLocator) -> Option<CommentView> {
    match at {
        CommentLocator::File => f.file_comment,
        CommentLocator::Line { side, line } => sync::at(f.comments, LineKey { side, line }),
    }
}

/// What is kept of a file after the comment at a place was resolved, or was not any
/// more.
pub open spec fn with_state(f: FileReviewView, at: CommentLocator, resolved: bool) -> FileReviewView {
    match comment_in(f, at) {
        None => f,
        Some(c) => {
            let c = CommentView { resolved, ..c };
            match at {
                CommentLocator::File => FileReviewView { file_comment: Some(c), ..f },
                CommentLocator::Line { side, line } => FileReviewView {
                    comments: f.comments.insert(LineKey { side, line }, c),
                    ..f
                },
            }
        },
    }
}

/// Resolves the comment at a place, or takes that back, and says whether anything
/// changed.
pub fn resolve_comment(f: &mut FileReview, at: CommentLocator, unresolve: bool) -> (changed: bool)
    ensures
        final(f)@ == with_state(old(f)@, at, !unresolve),
        changed == (comment_in(old(f)@, at) is Some && comment_in(old(f)@, at)->0.resolved
            == unresolve),
{
    let ghost before = f@;
    match at {
        CommentLocator::File => {
            let c = match &f.file_comment {
                Some(c) => Comment {
                    body: c.body.clone(),
                    resolved: c.resolved,
                    snippet_hash: crate::review::copy_opt(&c.snippet_hash),
                },
                None => {
                    return false;
                },
            };
            let changed = c.resolved == unresolve;
            f.file_comment = Some(
                Comment { body: c.body, resolved: !unresolve, snippet_hash: c.snippet_hash },
            );
            assert(f@ =~= with_state(before, at, !unresolve));
            changed
        },
        CommentLocator::Line { side, line } => {
            let k = LineKey { side, line };
            match f.comments.remove(&k) {
                Some(c) => {
                    let changed = c.resolved == unresolve;
                    f.comments.insert(
                        k,
                        Comment { body: c.body, resolved: !unresolve, snippet_hash: c.snippet_hash },
                    );
                    assert(f@ =~= with_state(before, at, !unresolve));
                    changed
                },
                None => {
                    assert(f@ =~= before);
                    false
                },
            }
        },
    }
}

/// Whether resolving the comment at a place, or taking that back, changes a note.
pub open spec fn is_changed(f: Option<FileReviewView>, at: CommentLocator, unresolve: bool) -> bool {
    &&& f is Some
    &&& comment_in(f->0, at) is Some
    &&& comment_in(f->0, at)->0.resolved == unresolve
}

/// The notes that change, each behind its place among those that were found.
pub open spec fn changed_notes(
    found: Seq<Option<FileReviewView>>,
    at: CommentLocator,
    unresolve: bool,
) -> Seq<(int, FileReviewView)>
    decreases found.len(),
{
    if found.len() == 0 {
        seq![]
    } else {
        let rest = changed_notes(found.drop_last(), at, unresolve);
        if is_changed(found.last(), at, unresolve) {
            rest.push((found.len() - 1, with_state(found.last()->0, at, !unresolve)))
        } else {
            rest
        }
    }
}

/// What the notes hold that were found.
pub open spec fn found_views(found: Seq<Option<FileReview>>) -> Seq<Option<FileReviewView>> {
    found.map_values(|f: Option<FileReview>| draft_ops::opt_file(f))
}

/// What notes hold, behind their places.
pub open spec fn placed_views(v: Seq<(usize, FileReview)>) -> Seq<(int, FileReviewView)> {
    v.map_values(|p: (usize, FileReview)| (p.0 as int, p.1@))
}

/// Resolves the comment at a place in each of the notes that were found of a file, or
/// takes that back: the notes to store, each behind its place among those found. It is
/// an error where none of them changes.
pub fn resolve_in_notes(
    found: &Vec<Option<FileReview>>,
    at: CommentLocator,
    unresolve: bool,
) -> (r: Result<Vec<(usize, FileReview)>, ResolveError>)
    ensures
        ({
            let changed = changed_notes(found_views(found@), at, unresolve);
            match r {
                Ok(v) => changed.len() > 0 && placed_views(v@) == changed,
                Err(e) => changed.len() == 0 && e == ResolveError::NoComment,
            }
        }),
{
    let ghost all = found_views(found@);
    let mut out: Vec<(usize, FileReview)> = Vec::new();
    let mut i: usize = 0;
    assert(all.take(0) =~= Seq::empty());
    while i < found.len()
        invariant
            i <= found.len() == all.len(),
            all == found_views(found@),
            placed_views(out@) =~= changed_notes(all.take(i as int), at, unresolve),
        decreases found.len() - i,
    {
        let ghost before = placed_views(out@);
        proof {
            assert(all.take(i + 1).drop_last() =~= all.take(i as int));
            assert(all.take(i + 1).last() == all[i as int]);
        }
        match &found[i] {
            Some(f) => {
                let mut g = f.duplicate();
                if resolve_comment(&mut g, at, unresolve) {
                    out.push((i, g));
                    assert(placed_views(out@) =~= before.push((i as int, g@)));
                }
            },
            None => {},
        }
        i += 1;
    }
    assert(all.take(i as int) =~= all);
    if out.len() == 0 {
        assert(placed_views(out@).len() == 0);
        Err(ResolveError::NoComment)
    } else {
        assert(placed_views(out@).len() == out@.len());
        Ok(out)
    }
}

/// After a comment was resolved, or is not any more, it stands so in every note that
/// holds it: in those that are stored again, and in those that are left as they are.
pub proof fn law_every_note_agrees(
    found: Seq<Option<FileReviewView>>,
    at: CommentLocator,
    unresolve: bool,
    i: int,
)
    requires
        0 <= i < found.len(),
        found[i] is Some,
        comment_in(found[i]->0, at) is Some,
    ensures
        ({
            let after = with_state(found[i]->0, at, !unresolve);
            &&& comment_in(after, at) is Some
            &&& comment_in(after, at)->0.resolved == !unresolve
            &&& changed_notes(found, at, unresolve).contains((i, after)) || after == found[i]->0
        }),
    decreases found.len(),
{
    let f = found[i]->0;
    let after = with_state(f, at, !unresolve);
    let c = comment_in(f, at)->0;
    if is_changed(found[i], at, unresolve) {
        let v = changed_notes(found, at, unresolve);
        if i == found.len() - 1 {
            assert(v.last() == (i, after));
        } else {
            let rest = found.drop_last();
            law_every_note_agrees(rest, at, unresolve, i);
            let w = changed_notes(rest, at, unresolve);
            let j = choose|j: int| 0 <= j < w.len() && w[j] == (i, after);
            assert(w.contains((i, after)) || after == f);
            if w.contains((i, after)) {
                assert(v[j] == (i, after));
            }
        }
    } else {
        match at {
            CommentLocator::File => {},
            CommentLocator::Line { side, line } => {
                let k = LineKey { side, line };
                assert(f.comments.insert(k, c) =~= f.comments);
            },
        }
    }
}

/// A comment that was resolved and then is not any more is as it was, where it was
/// not resolved; and resolving a comment twice is resolving it once.
pub proof fn law_resolve_and_back(f: FileReviewView, at: CommentLocator)
    ensures
        comment_in(f, at) is Some && !comment_in(f, at)->0.resolved ==> with_state(
            with_state(f, at, true),
            at,
            false,
        ) == f,
        with_state(with_state(f, at, true), at, true) == with_state(f, at, true),
        with_state(f, at, true).is_bare() == f.is_bare(),
{
    let g = with_state(f, at, true);
    match comment_in(f, at) {
        None => {},
        Some(c) => {
            match at {
                CommentLocator::File => {
                    assert(with_state(g, at, true) =~= g);
                    if !c.resolved {
                        assert(with_state(g, at, false) =~= f);
                    }
                },
                CommentLocator::Line { side, line } => {
                    let k = LineKey { side, line };
                    assert(g.comments[k] == (CommentView { resolved: true, ..c }));
                    assert(with_state(g, at, true).comments =~= g.comments);
                    if !c.resolved {
                        assert(with_state(g, at, false).comments =~= f.comments);
                    }
                    assert(f.comments.contains_key(k) && g.comments.contains_key(k));
                },
            }
        },
    }
}

} // verus!
