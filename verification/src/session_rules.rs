//! What writing, merging and showing comments in a session is for, told from what a
//! review holds at each place before and afterwards.
use crate::diff::Kind;
use crate::panes;
use crate::panes::KeepLine;
use crate::review;
use crate::review::{CommentView, FileReviewView, LineKey, LineSide, ReviewView};
use crate::rows::RowView;
use crate::session;
use crate::session::CommentLocator;
use crate::text;
use vstd::prelude::*;

verus! {

/// The number that a row shows in the new version.
pub open spec fn new_number(r: RowView) -> Option<u32> {
    match r {
        RowView::Unified { new_line, .. } => new_line,
        RowView::SideBySide { new_line, .. } => new_line,
        RowView::Decorated { line_number, .. } => if line_number > 0 {
            Some(line_number)
        } else {
            None
        },
        _ => None,
    }
}

/// The number that a row shows in the old version.
pub open spec fn old_number(r: RowView) -> Option<u32> {
    match r {
        RowView::Unified { old_line, .. } => old_line,
        RowView::SideBySide { old_line, .. } => old_line,
        RowView::Decorated { old_line_number, .. } => old_line_number,
        _ => None,
    }
}

/// Whether a row shows a line that the new version has.
pub open spec fn shows_new_version(r: RowView) -> bool {
    match r {
        RowView::Unified { kind, .. } => kind is Add || kind is Context,
        RowView::SideBySide { right_kind, .. } => right_kind == Some(Kind::Add) || right_kind
            == Some(Kind::Context),
        RowView::Decorated { line_number, .. } => line_number > 0,
        _ => false,
    }
}

/// Whether a row shows a line that only the old version has.
pub open spec fn shows_removed_line(r: RowView) -> bool {
    match r {
        RowView::Unified { kind, .. } => kind is Remove,
        RowView::SideBySide { left_kind, .. } => left_kind == Some(Kind::Remove)
            && !shows_new_version(r),
        RowView::Decorated { line_number, .. } => line_number == 0,
        _ => false,
    }
}

/// The place of a comment that is written on a row is the line that the row shows: on the
/// new version, with the number that the row shows there, where the new version has the
/// line, and else on the old one with its number there. A place is found again as a row
/// that shows it. The row above a file stands for the file.
pub proof fn law_place_is_the_line_shown(r: RowView)
    ensures
        session::row_locator(r) == Some(CommentLocator::File) <==> r is FileHeader,
        shows_new_version(r) ==> session::row_locator(r) == (match new_number(r) {
            Some(line) => Some(CommentLocator::Line { side: LineSide::New, line }),
            None => None,
        }),
        shows_removed_line(r) ==> session::row_locator(r) == (match old_number(r) {
            Some(line) => Some(CommentLocator::Line { side: LineSide::Old, line }),
            None => None,
        }),
        !shows_new_version(r) && !shows_removed_line(r) && !(r is FileHeader)
            ==> session::row_locator(r) is None,
        session::row_locator(r) matches Some(CommentLocator::Line { side, line })
            ==> panes::row_shows(
            r,
            match side {
                LineSide::Old => KeepLine::Old(line),
                LineSide::New => KeepLine::New(line),
            },
        ),
{
}

/// What was written at a place is read there, with the hash that came with it, and
/// nothing else that is said about any file changes.
pub proof fn law_comment_is_written_at_its_place(
    m: ReviewView,
    path: Seq<char>,
    at: CommentLocator,
    body: Seq<char>,
    hash: Option<Seq<char>>,
    other_path: Seq<char>,
    other: CommentLocator,
)
    requires
        !text::is_blank(body),
    ensures
        ({
            let after = session::with_comment(m, path, at, body, hash);
            let c = session::comment_at(after, path, at);
            &&& c is Some && c->0.body == body
            &&& session::comment_at(m, path, at) is None ==> !c->0.resolved
            &&& session::comment_at(m, path, at) is Some ==> c->0.resolved
                == session::comment_at(m, path, at)->0.resolved
            &&& hash is Some && at is Line ==> c->0.snippet_hash == hash
            &&& (other_path, other) != (path, at) ==> session::comment_at(
                after,
                other_path,
                other,
            ) == session::comment_at(m, other_path, other)
            &&& review::file_or_blank(after, other_path).reviewed == review::file_or_blank(
                m,
                other_path,
            ).reviewed
            &&& review::file_or_blank(after, other_path).reviewed_hash == review::file_or_blank(
                m,
                other_path,
            ).reviewed_hash
        }),
{
    let f = review::file_or_blank(m, path);
    match at {
        CommentLocator::Line { side, line } => {
            let k = LineKey { side, line };
            let set = review::with_line_comment(m, path, k, body);
            assert(review::file_or_blank(set, path).comments.contains_key(k));
            match other {
                CommentLocator::Line { side: s, line: l } => {
                    let j = LineKey { side: s, line: l };
                    assert(k != j || (other == at));
                },
                CommentLocator::File => {},
            }
        },
        CommentLocator::File => {},
    }
}

/// A comment that is taken away is gone, and nothing else that is said changes.
pub proof fn law_comment_is_taken_from_its_place(
    m: ReviewView,
    path: Seq<char>,
    at: CommentLocator,
    other_path: Seq<char>,
    other: CommentLocator,
)
    ensures
        ({
            let after = session::without_comment(m, path, at);
            &&& session::comment_at(after, path, at) is None
            &&& (other_path, other) != (path, at) ==> session::comment_at(
                after,
                other_path,
                other,
            ) == session::comment_at(m, other_path, other)
            &&& review::file_or_blank(after, other_path).reviewed == review::file_or_blank(
                m,
                other_path,
            ).reviewed
        }),
{
    match (at, other) {
        (
            CommentLocator::Line { side, line },
            CommentLocator::Line { side: s, line: l },
        ) => {
            let k = LineKey { side, line };
            let j = LineKey { side: s, line: l };
            assert(k != j || (other == at));
        },
        _ => {},
    }
}

/// The comment of a file at a place.
pub open spec fn in_file(f: FileReviewView, at: CommentLocator) -> Option<CommentView> {
    match at {
        CommentLocator::File => f.file_comment,
        CommentLocator::Line { side, line } => {
            let k = LineKey { side, line };
            if f.comments.contains_key(k) {
                Some(f.comments[k])
            } else {
                None
            }
        },
    }
}

/// Of two notes of a file, the merged one has at each place what one of them has there:
/// the first where the second has nothing, the second where the first has nothing, and of
/// two the first, unless only the second is still open. It is reviewed where one is.
pub proof fn law_merged_note_has_what_either_has(
    first: FileReviewView,
    second: FileReviewView,
    at: CommentLocator,
)
    ensures
        ({
            let m = session::merged_file(first, second);
            let (a, b, c) = (in_file(first, at), in_file(second, at), in_file(m, at));
            &&& b is None ==> c == a
            &&& a is None ==> c == b
            &&& a is Some && b is Some && (!a->0.resolved || b->0.resolved) ==> c == a
            &&& a is Some && b is Some && a->0.resolved && !b->0.resolved ==> c == b
            &&& m.reviewed == (first.reviewed || second.reviewed)
            &&& first.reviewed_hash is Some ==> m.reviewed_hash == first.reviewed_hash
            &&& first.reviewed_hash is None && second.reviewed ==> m.reviewed_hash
                == second.reviewed_hash
            &&& in_file(session::merged_comments(first, second), at) == c
            &&& session::merged_comments(first, second).reviewed == first.reviewed
        }),
{
}

/// A session shows at each place what the draft says, and of each file the mark that is
/// stored.
pub proof fn law_session_shows_the_draft(
    notes: ReviewView,
    draft: ReviewView,
    path: Seq<char>,
    at: CommentLocator,
)
    ensures
        session::comment_at(session::with_draft(notes, draft), path, at) == session::comment_at(
            draft,
            path,
            at,
        ),
        review::file_or_blank(session::with_draft(notes, draft), path).reviewed
            == review::file_or_blank(notes, path).reviewed,
        review::file_or_blank(session::with_draft(notes, draft), path).reviewed_hash
            == review::file_or_blank(notes, path).reviewed_hash,
{
}

/// What was resolved in a session is stored as resolved, and what was taken up again as
/// open; what the comments say stays, and none is lost or added.
pub proof fn law_resolving_is_carried_over(
    file: FileReviewView,
    shown: FileReviewView,
    at: CommentLocator,
)
    ensures
        ({
            let after = session::with_resolved(file, Some(shown));
            let (a, b, c) = (in_file(file, at), in_file(shown, at), in_file(after, at));
            &&& (c is Some) == (a is Some)
            &&& a is Some ==> c->0.body == a->0.body && c->0.snippet_hash == a->0.snippet_hash
            &&& a is Some && b is Some ==> c->0.resolved == b->0.resolved
            &&& a is Some && b is None ==> c == a
            &&& after.reviewed == file.reviewed
        }),
        session::with_resolved(file, None) == file,
{
}

/// A mark that is set is read back, and nothing that is said changes.
pub proof fn law_mark_reads_back(
    m: ReviewView,
    path: Seq<char>,
    reviewed: bool,
    hash: Option<Seq<char>>,
    other: Seq<char>,
    at: CommentLocator,
)
    ensures
        ({
            let after = session::with_reviewed(m, path, reviewed, hash);
            &&& review::file_or_blank(after, path).reviewed == reviewed
            &&& reviewed ==> review::file_or_blank(after, path).reviewed_hash == hash
            &&& other != path ==> review::file_or_blank(after, other) == review::file_or_blank(
                m,
                other,
            )
            &&& session::comment_at(after, other, at) == session::comment_at(m, other, at)
        }),
{
}

/// Taking the resolved comments away leaves just those that are open, as they were.
pub proof fn law_only_open_comments_are_left(f: FileReviewView, at: CommentLocator)
    ensures
        ({
            let a = in_file(f, at);
            let c = in_file(session::unresolved(f), at);
            &&& a is Some && !a->0.resolved ==> c == a
            &&& a is None || a->0.resolved ==> c is None
            &&& session::unresolved(f).reviewed == f.reviewed
        }),
{
}

} // verus!
