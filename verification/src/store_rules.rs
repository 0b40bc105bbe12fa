//! What storing, listing and resolving comments is for, and what the lists of files hold.
use crate::add_cmd;
use crate::comment_list;
use crate::comment_list::ListEntryView;
use crate::config::PromptFilter;
use crate::draft;
use crate::draft::{DraftFileView, DraftView};
use crate::draft_ops;
use crate::draft_ops::{LineFate, LineMetaView, MetaSources};
use crate::git;
use crate::git::{StatusItemView, UnstagedStatus, ViewKind, WorktreeItem};
use crate::hash;
use crate::listing;
use crate::listing::ListingView;
use crate::ordmap;
use crate::prompt_cmd;
use crate::reload;
use crate::resolve_cmd;
use crate::review;
use crate::review::{CommentView, FileReviewView, LineKey, ReviewView};
use crate::session;
use crate::session::{CommentLocator, FileChangeKind};
use crate::session_rules;
use crate::text;
use vstd::prelude::*;

verus! {

/// A draft is shown as open comments at the places and with the words that it has; what is
/// blank in it is no comment.
pub proof fn law_draft_is_shown_as_open_comments(f: DraftFileView, k: LineKey)
    ensures
        ({
            let shown = draft::lifted(f);
            let has_line = f.comments.contains_key(k) && !text::is_blank(f.comments[k]);
            let has_file = f.file_comment is Some && !text::is_blank(f.file_comment->0);
            &&& shown.comments.contains_key(k) == has_line
            &&& has_line ==> shown.comments[k].body == f.comments[k] && !shown.comments[k].resolved
            &&& (shown.file_comment is Some) == has_file
            &&& has_file ==> shown.file_comment->0.body == f.file_comment->0
                && !shown.file_comment->0.resolved
            &&& !shown.reviewed
        }),
{
}

/// Resolving a comment, or taking it up again, changes that comment alone, and of it
/// nothing but whether it is resolved.
pub proof fn law_resolving_changes_one_comment(
    f: FileReviewView,
    at: CommentLocator,
    resolved: bool,
    other: CommentLocator,
)
    ensures
        ({
            let after = resolve_cmd::with_state(f, at, resolved);
            let before = session_rules::in_file(f, at);
            let c = session_rules::in_file(after, at);
            &&& (c is Some) == (before is Some)
            &&& before is Some ==> c->0.resolved == resolved && c->0.body == before->0.body
                && c->0.snippet_hash == before->0.snippet_hash
            &&& other != at ==> session_rules::in_file(after, other) == session_rules::in_file(
                f,
                other,
            )
            &&& after.reviewed == f.reviewed && after.reviewed_hash == f.reviewed_hash
        }),
{
    match (at, other) {
        (
            CommentLocator::Line { side, line },
            CommentLocator::Line { side: s, line: l },
        ) => {
            assert(LineKey { side, line } != LineKey { side: s, line: l } || at == other);
        },
        _ => {},
    }
}

/// What is stored by resolving are notes that had the comment in the other state, each
/// with just that state changed.
pub proof fn law_only_notes_that_change_are_stored(
    found: Seq<Option<FileReviewView>>,
    at: CommentLocator,
    unresolve: bool,
    j: int,
)
    requires
        0 <= j < resolve_cmd::changed_notes(found, at, unresolve).len(),
    ensures
        ({
            let (i, f) = resolve_cmd::changed_notes(found, at, unresolve)[j];
            &&& 0 <= i < found.len()
            &&& found[i] is Some
            &&& session_rules::in_file(found[i]->0, at) is Some
            &&& session_rules::in_file(found[i]->0, at)->0.resolved == unresolve
            &&& session_rules::in_file(f, at) is Some
            &&& session_rules::in_file(f, at)->0.resolved == !unresolve
            &&& session_rules::in_file(f, at)->0.body == session_rules::in_file(
                found[i]->0,
                at,
            )->0.body
        }),
    decreases found.len(),
{
    let front = found.drop_last();
    let rest = resolve_cmd::changed_notes(front, at, unresolve);
    if j < rest.len() {
        law_only_notes_that_change_are_stored(front, at, unresolve, j);
        let (i, f) = rest[j];
        assert(front[i] == found[i]);
    } else {
        law_resolving_changes_one_comment(found.last()->0, at, !unresolve, at);
    }
}

/// Whether an entry of the list is that of the comment at a place.
pub open spec fn is_entry_of(
    e: ListEntryView,
    path: Seq<char>,
    at: CommentLocator,
    c: CommentView,
) -> bool {
    e.path == path && e.locator == at && e.body == c.body && e.resolved == c.resolved
}

proof fn lemma_line_is_listed(path: Seq<char>, e: Seq<(LineKey, CommentView)>, j: int) -> (i: int)
    requires
        0 <= j < e.len(),
        !text::is_blank(e[j].1.body),
    ensures
        0 <= i < comment_list::listed_lines(path, e).len(),
        is_entry_of(
            comment_list::listed_lines(path, e)[i],
            path,
            CommentLocator::Line { side: e[j].0.side, line: e[j].0.line },
            e[j].1,
        ),
    decreases e.len(),
{
    let front = e.drop_last();
    if j < e.len() - 1 {
        assert(front[j] == e[j]);
        lemma_line_is_listed(path, front, j)
    } else {
        comment_list::listed_lines(path, front).len() as int
    }
}

proof fn lemma_listed_is_line(path: Seq<char>, e: Seq<(LineKey, CommentView)>, i: int) -> (j: int)
    requires
        0 <= i < comment_list::listed_lines(path, e).len(),
    ensures
        0 <= j < e.len(),
        !text::is_blank(e[j].1.body),
        is_entry_of(
            comment_list::listed_lines(path, e)[i],
            path,
            CommentLocator::Line { side: e[j].0.side, line: e[j].0.line },
            e[j].1,
        ),
    decreases e.len(),
{
    let front = e.drop_last();
    if i < comment_list::listed_lines(path, front).len() {
        let j = lemma_listed_is_line(path, front, i);
        assert(front[j] == e[j]);
        j
    } else {
        e.len() - 1
    }
}

proof fn lemma_listed_file(path: Seq<char>, f: FileReviewView, at: CommentLocator) -> (i: int)
    requires
        f.comments.dom().finite(),
        session_rules::in_file(f, at) is Some,
        !text::is_blank(session_rules::in_file(f, at)->0.body),
    ensures
        0 <= i < comment_list::listed_file(path, f).len(),
        is_entry_of(
            comment_list::listed_file(path, f)[i],
            path,
            at,
            session_rules::in_file(f, at)->0,
        ),
{
    let e = ordmap::ordered::<LineKey, CommentView>(f.comments);
    ordmap::lemma_ordered_exists::<LineKey, CommentView>(f.comments);
    let l = comment_list::listed_lines(path, e);
    let all = comment_list::listed_file(path, f);
    let off = all.len() - l.len();
    match at {
        CommentLocator::File => 0,
        CommentLocator::Line { side, line } => {
            let k = LineKey { side, line };
            let j = ordmap::index_of_key(e, k);
            ordmap::lemma_map_of_at::<LineKey, CommentView>(e, j);
            let i = lemma_line_is_listed(path, e, j);
            assert(all[off + i] == l[i]);
            off + i
        },
    }
}

proof fn lemma_listed_files(e: Seq<(Seq<char>, FileReviewView)>, j: int, i: int) -> (n: int)
    requires
        0 <= j < e.len(),
        0 <= i < comment_list::listed_file(e[j].0, e[j].1).len(),
    ensures
        0 <= n < comment_list::listed_files(e).len(),
        comment_list::listed_files(e)[n] == comment_list::listed_file(e[j].0, e[j].1)[i],
    decreases e.len(),
{
    let front = comment_list::listed_files(e.drop_last());
    if j < e.len() - 1 {
        assert(e.drop_last()[j] == e[j]);
        lemma_listed_files(e.drop_last(), j, i)
    } else {
        front.len() + i
    }
}

proof fn lemma_listed_from(e: Seq<(Seq<char>, FileReviewView)>, n: int) -> (p: (int, int))
    requires
        0 <= n < comment_list::listed_files(e).len(),
    ensures
        0 <= p.0 < e.len(),
        0 <= p.1 < comment_list::listed_file(e[p.0].0, e[p.0].1).len(),
        comment_list::listed_files(e)[n] == comment_list::listed_file(e[p.0].0, e[p.0].1)[p.1],
    decreases e.len(),
{
    let front = comment_list::listed_files(e.drop_last());
    if n < front.len() {
        let p = lemma_listed_from(e.drop_last(), n);
        assert(e.drop_last()[p.0] == e[p.0]);
        p
    } else {
        (e.len() - 1, n - front.len())
    }
}

/// Every comment that is not blank is in the list of comments, with its place, its text
/// and whether it is resolved.
#[verifier::rlimit(40)]
pub proof fn law_every_comment_is_listed(m: ReviewView, path: Seq<char>, at: CommentLocator)
    requires
        m.dom().finite(),
        m.contains_key(path),
        m[path].comments.dom().finite(),
        session_rules::in_file(m[path], at) is Some,
        !text::is_blank(session_rules::in_file(m[path], at)->0.body),
    ensures
        exists|n: int|
            0 <= n < comment_list::listed(m).len() && is_entry_of(
                #[trigger] comment_list::listed(m)[n],
                path,
                at,
                session_rules::in_file(m[path], at)->0,
            ),
{
    let e = ordmap::ordered::<String, FileReviewView>(m);
    ordmap::lemma_ordered_exists::<String, FileReviewView>(m);
    let j = ordmap::index_of_key(e, path);
    ordmap::lemma_map_of_at::<String, FileReviewView>(e, j);
    let i = lemma_listed_file(path, m[path], at);
    let n = lemma_listed_files(e, j, i);
    assert(is_entry_of(
        comment_list::listed(m)[n],
        path,
        at,
        session_rules::in_file(m[path], at)->0,
    ));
}

/// Everything in the list of comments is a comment of the review, at the place that is
/// named.
#[verifier::rlimit(40)]
pub proof fn law_only_comments_are_listed(m: ReviewView, n: int)
    requires
        m.dom().finite(),
        forall|p: Seq<char>| #[trigger] m.contains_key(p) ==> m[p].comments.dom().finite(),
        0 <= n < comment_list::listed(m).len(),
    ensures
        ({
            let x = comment_list::listed(m)[n];
            &&& m.contains_key(x.path)
            &&& session_rules::in_file(m[x.path], x.locator) is Some
            &&& session_rules::in_file(m[x.path], x.locator)->0.body == x.body
            &&& session_rules::in_file(m[x.path], x.locator)->0.resolved == x.resolved
        }),
{
    let e = ordmap::ordered::<String, FileReviewView>(m);
    ordmap::lemma_ordered_exists::<String, FileReviewView>(m);
    let (j, i) = lemma_listed_from(e, n);
    ordmap::lemma_map_of_at::<String, FileReviewView>(e, j);
    let (path, f) = e[j];
    assert(m.contains_key(path) && m[path] == f);
    let d = ordmap::ordered::<LineKey, CommentView>(f.comments);
    ordmap::lemma_ordered_exists::<LineKey, CommentView>(f.comments);
    let l = comment_list::listed_lines(path, d);
    let all = comment_list::listed_file(path, f);
    let off = all.len() - l.len();
    if i >= off {
        assert(all[i] == l[i - off]);
        let k = lemma_listed_is_line(path, d, i - off);
        ordmap::lemma_map_of_at::<LineKey, CommentView>(d, k);
        assert(LineKey { side: d[k].0.side, line: d[k].0.line } == d[k].0);
    }
}

/// Resolving all comments of a file resolves each and changes nothing else of it;
/// discarding them leaves none. Other files stay as they were.
pub proof fn law_whole_file_is_resolved_or_discarded(
    m: ReviewView,
    path: Seq<char>,
    at: CommentLocator,
    other: Seq<char>,
)
    ensures
        ({
            let before = session::comment_at(m, path, at);
            let resolved = session::comment_at(
                comment_list::with_file_resolved(m, path),
                path,
                at,
            );
            &&& (resolved is Some) == (before is Some)
            &&& before is Some ==> resolved->0.resolved && resolved->0.body == before->0.body
                && resolved->0.snippet_hash == before->0.snippet_hash
            &&& session::comment_at(comment_list::with_file_discarded(m, path), path, at) is None
            &&& other != path ==> session::comment_at(
                comment_list::with_file_resolved(m, path),
                other,
                at,
            ) == session::comment_at(m, other, at)
            &&& other != path ==> session::comment_at(
                comment_list::with_file_discarded(m, path),
                other,
                at,
            ) == session::comment_at(m, other, at)
        }),
{
}

/// A comment of the draft is stored just where there is code on its line whose hash is
/// that which was kept for it, and else the reason is told.
pub proof fn law_draft_is_stored_for_the_code_it_was_written_about(
    path: Seq<char>,
    k: LineKey,
    hashes: Map<Seq<char>, Seq<char>>,
    snippets: Map<LineKey, Seq<char>>,
)
    ensures
        ({
            let key = hash::meta_key_text(path, hash::side_name(k.side), k.line as nat);
            let now = hash::text_hash(hash::snippet_preimage(path, k, snippets[k]));
            let fate = draft_ops::line_fate(path, k, hashes, snippets);
            &&& fate is Stored <==> snippets.contains_key(k) && hashes.contains_key(key) && now
                == Some(hashes[key])
            &&& fate matches LineFate::Stored(h) ==> now == Some(h)
            &&& fate == LineFate::Skipped(draft_ops::SkipReason::NoSnippet)
                <==> !snippets.contains_key(k)
            &&& fate == LineFate::Skipped(draft_ops::SkipReason::MissingChecksum)
                <==> snippets.contains_key(k) && !hashes.contains_key(key)
        }),
{
}

proof fn lemma_applied_lines_keep(
    m: ReviewView,
    path: Seq<char>,
    e: Seq<(LineKey, Seq<char>)>,
    hashes: Map<Seq<char>, Seq<char>>,
    snippets: Map<LineKey, Seq<char>>,
    k: LineKey,
)
    requires
        forall|i: int| 0 <= i < e.len() ==> (#[trigger] e[i]).0 != k,
    ensures
        ({
            let st = draft_ops::applied_lines(m, path, e, hashes, snippets);
            let a = review::file_or_blank(st.review, path);
            let b = review::file_or_blank(m, path);
            &&& session_rules::in_file(
                a,
                CommentLocator::Line { side: k.side, line: k.line },
            ) == session_rules::in_file(b, CommentLocator::Line { side: k.side, line: k.line })
            &&& a.file_comment == b.file_comment
            &&& a.reviewed == b.reviewed
        }),
    decreases e.len(),
{
    if e.len() > 0 {
        let front = e.drop_last();
        assert forall|i: int| 0 <= i < front.len() implies (#[trigger] front[i]).0 != k by {
            assert(front[i] == e[i]);
        }
        lemma_applied_lines_keep(m, path, front, hashes, snippets, k);
        assert(e[e.len() - 1] == e.last());
        let st = draft_ops::applied_lines(m, path, front, hashes, snippets);
        let (j, body) = e.last();
        assert(LineKey { side: k.side, line: k.line } == k);
        let set = review::with_line_comment(st.review, path, j, body);
        review::law_line_comment_reads_back(st.review, path, j, body);
    }
}

/// Storing a draft takes from the notes of a file the comments on lines that the draft
/// does not have, and keeps the mark of the file.
pub proof fn law_what_the_draft_lacks_leaves_the_notes(
    existing: Option<FileReviewView>,
    path: Seq<char>,
    d: DraftFileView,
    hashes: Map<Seq<char>, Seq<char>>,
    snippets: Map<LineKey, Seq<char>>,
    k: LineKey,
)
    requires
        d.comments.dom().finite(),
        !d.comments.contains_key(k),
    ensures
        ({
            let after = review::file_or_blank(
                draft_ops::applied_file(existing, path, d, hashes, snippets).review,
                path,
            );
            &&& !after.comments.contains_key(k)
            &&& d.file_comment is None ==> after.file_comment is None
            &&& d.file_comment is Some && !text::is_blank(d.file_comment->0)
                ==> after.file_comment is Some && after.file_comment->0.body == d.file_comment->0
            &&& after.reviewed == (existing is Some && existing->0.reviewed)
        }),
{
    let e = ordmap::ordered::<LineKey, Seq<char>>(d.comments);
    ordmap::lemma_ordered_exists::<LineKey, Seq<char>>(d.comments);
    assert forall|i: int| 0 <= i < e.len() implies (#[trigger] e[i]).0 != k by {
        ordmap::lemma_map_of_at::<LineKey, Seq<char>>(e, i);
    }
    let start = draft_ops::applied_start(existing, path, d);
    lemma_applied_lines_keep(start, path, e, hashes, snippets, k);
    assert(LineKey { side: k.side, line: k.line } == k);
    let m0 = match existing {
        Some(f) => ReviewView::empty().insert(path, f),
        None => ReviewView::empty(),
    };
    let m1 = if d.file_comment is None {
        review::without_file_comment(m0, path)
    } else {
        m0
    };
    let m2 = draft_ops::without_dropped(m1, path, d.comments);
    assert(!review::file_or_blank(m2, path).comments.contains_key(k)) by {
        if m1.contains_key(path) {
            let kept = draft_ops::kept_lines(m1[path].comments, d.comments);
            assert(!kept.contains_key(k));
        }
    }
    if d.file_comment is Some {
        review::law_file_comment_reads_back(m2, path, d.file_comment->0);
    }
}

proof fn lemma_meta_line(
    path: Seq<char>,
    e: Seq<(LineKey, Seq<char>)>,
    src: MetaSources,
    j: int,
) -> (i: int)
    requires
        0 <= j < e.len(),
        draft_ops::hash_to_keep(path, e[j].0, src) is Some,
    ensures
        0 <= i < draft_ops::file_meta_lines(path, e, src).len(),
        draft_ops::file_meta_lines(path, e, src)[i] == (LineMetaView {
            file: path,
            side: hash::side_name(e[j].0.side),
            line: e[j].0.line,
            hash: draft_ops::hash_to_keep(path, e[j].0, src)->0,
        }),
    decreases e.len(),
{
    let front = draft_ops::file_meta_lines(path, e.drop_last(), src);
    if j < e.len() - 1 {
        assert(e.drop_last()[j] == e[j]);
        let i = lemma_meta_line(path, e.drop_last(), src, j);
        assert(draft_ops::file_meta_lines(path, e, src)[i] == front[i]);
        i
    } else {
        front.len() as int
    }
}

/// Beside a draft a hash is kept for each line that it comments on: the one that was kept
/// before, else that of the note, else that of the code on the line now.
pub proof fn law_hash_is_kept_for_each_drafted_line(
    path: Seq<char>,
    comments: Map<LineKey, Seq<char>>,
    src: MetaSources,
    k: LineKey,
)
    requires
        comments.dom().finite(),
        comments.contains_key(k),
    ensures
        ({
            let key = hash::meta_key_text(path, hash::side_name(k.side), k.line as nat);
            let code = src.snippets.contains_key(path) && src.snippets[path].contains_key(k);
            let now = hash::text_hash(hash::snippet_preimage(path, k, src.snippets[path][k]));
            let kept: Option<Seq<char>> = if src.kept.contains_key(key) {
                Some(src.kept[key])
            } else if src.preferred.contains_key(key) {
                Some(src.preferred[key])
            } else if code {
                now
            } else {
                None
            };
            kept matches Some(h) ==> draft_ops::file_meta_lines(
                path,
                ordmap::ordered::<LineKey, Seq<char>>(comments),
                src,
            ).contains(
                LineMetaView { file: path, side: hash::side_name(k.side), line: k.line, hash: h },
            )
        }),
{
    let e = ordmap::ordered::<LineKey, Seq<char>>(comments);
    ordmap::lemma_ordered_exists::<LineKey, Seq<char>>(comments);
    let j = ordmap::index_of_key(e, k);
    ordmap::lemma_map_of_at::<LineKey, Seq<char>>(e, j);
    if draft_ops::hash_to_keep(path, k, src) is Some {
        let i = lemma_meta_line(path, e, src, j);
    }
}

/// What was written into a draft at a place is read there, and nothing else of it changes;
/// what is taken out is gone, and nothing else with it.
pub proof fn law_draft_is_written_at_its_place(
    d: DraftView,
    path: Seq<char>,
    at: CommentLocator,
    body: Seq<char>,
    other_path: Seq<char>,
    other: CommentLocator,
)
    ensures
        add_cmd::draft_body(add_cmd::with_draft_body(d, path, at, body), path, at) == Some(body),
        (other_path, other) != (path, at) ==> add_cmd::draft_body(
            add_cmd::with_draft_body(d, path, at, body),
            other_path,
            other,
        ) == add_cmd::draft_body(d, other_path, other),
        ({
            let out = match at {
                CommentLocator::File => draft::without_draft_file_comment(d, path),
                CommentLocator::Line { side, line } => draft::without_draft_line_comment(
                    d,
                    path,
                    LineKey { side, line },
                ),
            };
            &&& add_cmd::draft_body(out, path, at) is None
            &&& (other_path, other) != (path, at) ==> add_cmd::draft_body(out, other_path, other)
                == add_cmd::draft_body(d, other_path, other)
        }),
{
    match (at, other) {
        (
            CommentLocator::Line { side, line },
            CommentLocator::Line { side: s, line: l },
        ) => {
            assert(LineKey { side, line } != LineKey { side: s, line: l } || at == other);
        },
        _ => {},
    }
}

/// A comment that is started in the draft keeps what the draft has there, else takes over
/// what is stored, and is a mark to write at only where both are missing or blank.
pub proof fn law_started_comment_keeps_what_is_there(
    d: DraftView,
    existing: FileReviewView,
    path: Seq<char>,
    at: CommentLocator,
)
    ensures
        ({
            let started = add_cmd::started_body(d, existing, path, at);
            let drafted = add_cmd::draft_body(d, path, at);
            let stored = session_rules::in_file(existing, at);
            &&& drafted is Some && !text::is_blank(drafted->0) ==> started == drafted->0
            &&& drafted is None && stored is Some && !text::is_blank(stored->0.body) ==> started
                == stored->0.body
            &&& drafted is None && stored is None ==> started == "<!-- remark:write comment -->"@
        }),
{
    let nothing: Seq<char> = seq![];
    assert(text::is_blank(nothing));
}

/// A mark is kept just where what was reviewed is what the file is now, in this view or in
/// that of the work tree; a mark without a fingerprint is given the present one.
pub proof fn law_mark_is_kept_while_the_file_stays(
    m: ReviewView,
    path: Seq<char>,
    current: Option<Seq<char>>,
    all: Option<Seq<char>>,
    other: Seq<char>,
)
    requires
        m.contains_key(path),
        m[path].reviewed,
    ensures
        ({
            let after = reload::checked(m, path, current, all);
            let h = m[path].reviewed_hash;
            &&& after.contains_key(path)
            &&& after[path].reviewed <==> h is None || h == current || h == all
            &&& h is None ==> after[path].reviewed_hash == current
            &&& h is Some && after[path].reviewed ==> after[path].reviewed_hash == h
            &&& other != path ==> review::file_or_blank(after, other) == review::file_or_blank(
                m,
                other,
            )
        }),
{
}

/// The names of a map are its keys, each once and in order.
pub proof fn law_names_are_the_keys<B>(m: Map<Seq<char>, B>, p: Seq<char>, i: int, j: int)
    requires
        m.dom().finite(),
    ensures
        ordmap::names_of(m).contains(p) <==> m.contains_key(p),
        0 <= i < j < ordmap::names_of(m).len() ==> text::lex_before(
            ordmap::names_of(m)[i],
            ordmap::names_of(m)[j],
        ),
{
    let e = ordmap::ordered::<String, B>(m);
    ordmap::lemma_ordered_exists::<String, B>(m);
    let n = ordmap::names_of(m);
    if m.contains_key(p) {
        let k = ordmap::index_of_key(e, p);
        assert(n[k] == p);
    }
    if n.contains(p) {
        let k = choose|k: int| 0 <= k < n.len() && n[k] == p;
        ordmap::lemma_map_of_at::<String, B>(e, k);
    }
    if 0 <= i < j < n.len() {
        assert(<String as ordmap::Key>::precedes(e[i].0, e[j].0));
    }
}

/// The view of everything lists a file just where it is staged or changed in the work
/// tree; the other views of the work tree list what is in theirs; and that of the base
/// what differs from it.
pub proof fn law_view_lists_its_files(view: ViewKind, l: ListingView, path: Seq<char>)
    requires
        l.staged.dom().finite(),
        l.unstaged.dom().finite(),
    ensures
        listing::view_paths(view, l).contains(path) <==> (match view {
            ViewKind::All => l.staged.contains_key(path) || l.unstaged.contains_key(path),
            ViewKind::Unstaged => l.unstaged.contains_key(path),
            ViewKind::Staged => l.staged.contains_key(path),
            ViewKind::Base => l.base_paths.contains(path),
        }),
{
    law_names_are_the_keys(l.staged, path, 0, 0);
    law_names_are_the_keys(l.unstaged, path, 0, 0);
    if view is All {
        let a = ordmap::names_of(l.staged);
        let b = ordmap::names_of(l.unstaged);
        let both = a + b;
        let s = ordmap::set_of(both);
        assert(s.dom() =~= both.to_set());
        vstd::seq_lib::seq_to_set_is_finite(both);
        law_names_are_the_keys(s, path, 0, 0);
        if a.contains(path) {
            let i = choose|i: int| 0 <= i < a.len() && a[i] == path;
            assert(both[i] == path);
        }
        if b.contains(path) {
            let i = choose|i: int| 0 <= i < b.len() && b[i] == path;
            assert(both[a.len() + i] == path);
        }
        if both.contains(path) {
            let i = choose|i: int| 0 <= i < both.len() && both[i] == path;
            if i < a.len() {
                assert(a[i] == path);
            } else {
                assert(b[i - a.len()] == path);
            }
        }
    }
}

/// An entry of the list of files is about its own path. It is added where only the new
/// version has it, deleted where only the old one has, and else modified. Its first letter
/// is that of the index and its second that of the work tree, each in the views that show
/// it; a file that git does not know or ignores is told by the second.
pub proof fn law_entry_tells_what_became_of_its_file(
    view: ViewKind,
    l: ListingView,
    path: Seq<char>,
    there: (bool, bool),
)
    ensures
        ({
            let e = listing::entry_of(view, l, path, there);
            let (x, y) = (e.git_xy[0], e.git_xy[1]);
            let unstaged = if l.unstaged.contains_key(path) {
                Some(l.unstaged[path])
            } else {
                None
            };
            let in_tree = view is All || view is Unstaged;
            let in_index = view is All || view is Staged;
            let unknown = unstaged == Some(UnstagedStatus::Untracked) || unstaged == Some(
                UnstagedStatus::Ignored,
            );
            &&& e.path == path
            &&& e.git_xy.len() == 2
            &&& e.change == FileChangeKind::Added <==> !there.0 && there.1
            &&& e.change == FileChangeKind::Deleted <==> there.0 && !there.1
            &&& in_tree ==> y == (match unstaged {
                Some(UnstagedStatus::Untracked) => 'N',
                Some(UnstagedStatus::Ignored) => 'I',
                Some(UnstagedStatus::Changed(c)) => c,
                None => '-',
            })
            &&& !in_tree ==> y == '-'
            &&& in_index && l.staged.contains_key(path) && !(view is All && unknown) ==> x
                == l.staged[path]
            &&& in_index && !l.staged.contains_key(path) ==> x == '-'
            &&& view is Unstaged ==> x == '-'
            &&& view is Base ==> (x == 'A' <==> e.change == FileChangeKind::Added) && (x == 'D'
                <==> e.change == FileChangeKind::Deleted) && (x == 'M' <==> e.change
                == FileChangeKind::Modified)
        }),
{
}

/// What git reports of the work tree is listed under its path: files that it does not know
/// always, ignored ones where they are asked for, known ones where something became of
/// them, and directories never.
pub proof fn law_work_tree_is_listed_by_path(
    items: Seq<StatusItemView>,
    include_ignored: bool,
    path: Seq<char>,
)
    ensures
        ({
            let m = git::unstaged_of(items, include_ignored);
            &&& m.contains_key(path) <==> exists|i: int|
                0 <= i < items.len() && (#[trigger] items[i]).path == path && !items[i].is_dir && (
                match items[i].item {
                    WorktreeItem::Untracked => true,
                    WorktreeItem::Ignored => include_ignored,
                    WorktreeItem::Other => false,
                    WorktreeItem::Known(c) => c is Some,
                })
            &&& m.contains_key(path) ==> exists|i: int|
                0 <= i < items.len() && (#[trigger] items[i]).path == path && !items[i].is_dir && (
                match m[path] {
                    UnstagedStatus::Untracked => items[i].item is Untracked,
                    UnstagedStatus::Ignored => items[i].item is Ignored,
                    UnstagedStatus::Changed(_) => items[i].item is Known,
                })
        }),
    decreases items.len(),
{
    if items.len() > 0 {
        let front = items.drop_last();
        let n = items.len() - 1;
        law_work_tree_is_listed_by_path(front, include_ignored, path);
        assert(items[n] == items.last());
        assert forall|i: int| 0 <= i < front.len() implies #[trigger] front[i] == items[i] by {}
        let m = git::unstaged_of(items, include_ignored);
        let g = git::unstaged_of(front, include_ignored);
        if g.contains_key(path) {
            let i = choose|i: int|
                0 <= i < front.len() && (#[trigger] front[i]).path == path && !front[i].is_dir && (
                match g[path] {
                    UnstagedStatus::Untracked => front[i].item is Untracked,
                    UnstagedStatus::Ignored => front[i].item is Ignored,
                    UnstagedStatus::Changed(_) => front[i].item is Known,
                });
            assert(items[i] == front[i]);
            let j = choose|j: int|
                0 <= j < front.len() && (#[trigger] front[j]).path == path && !front[j].is_dir && (
                match front[j].item {
                    WorktreeItem::Untracked => true,
                    WorktreeItem::Ignored => include_ignored,
                    WorktreeItem::Other => false,
                    WorktreeItem::Known(c) => c is Some,
                });
            assert(items[j] == front[j]);
        }
        if exists|i: int|
            0 <= i < items.len() && (#[trigger] items[i]).path == path && !items[i].is_dir && (
            match items[i].item {
                WorktreeItem::Untracked => true,
                WorktreeItem::Ignored => include_ignored,
                WorktreeItem::Other => false,
                WorktreeItem::Known(c) => c is Some,
            }) {
            let i = choose|i: int|
                0 <= i < items.len() && (#[trigger] items[i]).path == path && !items[i].is_dir && (
                match items[i].item {
                    WorktreeItem::Untracked => true,
                    WorktreeItem::Ignored => include_ignored,
                    WorktreeItem::Other => false,
                    WorktreeItem::Known(c) => c is Some,
                });
            if i < n {
                assert(front[i] == items[i]);
            }
        }
    }
}

/// The prompt of a selection is of the files that are selected.
pub proof fn law_prompt_is_of_the_selected_files(
    filter: PromptFilter,
    staged: Seq<Seq<char>>,
    unstaged: Seq<Seq<char>>,
    base: Seq<Seq<char>>,
    m: ReviewView,
    path: Seq<char>,
)
    ensures
        ({
            let files = prompt_cmd::prompt_paths(filter, staged, unstaged, base);
            let selected = match filter {
                PromptFilter::All => staged.contains(path) || unstaged.contains(path),
                PromptFilter::Staged => staged.contains(path),
                PromptFilter::Unstaged => unstaged.contains(path),
                PromptFilter::Base => base.contains(path),
            };
            &&& files.contains_key(path) == selected
            &&& prompt_cmd::restricted(m, files).contains_key(path) == (selected
                && m.contains_key(path))
            &&& selected && m.contains_key(path) ==> prompt_cmd::restricted(m, files)[path]
                == m[path]
        }),
{
}

/// The code for a prompt is looked for first in the view that the prompt is of, and then
/// in all others.
pub proof fn law_code_is_looked_for_in_the_view_of_the_prompt(
    filter: PromptFilter,
    include_base: bool,
    view: ViewKind,
)
    ensures
        ({
            let order = prompt_cmd::prompt_views(filter, include_base);
            &&& filter == PromptFilter::All ==> order[0] == ViewKind::All
            &&& filter == PromptFilter::Staged ==> order[0] == ViewKind::Staged
            &&& filter == PromptFilter::Unstaged ==> order[0] == ViewKind::Unstaged
            &&& filter == PromptFilter::Base && include_base ==> order[0] == ViewKind::Base
            &&& order.contains(view) <==> view != ViewKind::Base || include_base
        }),
{
    let order = prompt_cmd::prompt_views(filter, include_base);
    if filter == PromptFilter::Base && include_base {
        assert(order[0] == ViewKind::Base);
        assert(order[1] == ViewKind::All && order[2] == ViewKind::Staged && order[3]
            == ViewKind::Unstaged);
    } else {
        assert(order.take(3).contains(ViewKind::All)) by {
            assert(order[0] == ViewKind::All || order[1] == ViewKind::All);
            if order[0] == ViewKind::All {
                assert(order.take(3)[0] == ViewKind::All);
            } else {
                assert(order.take(3)[1] == ViewKind::All);
            }
        }
        if include_base {
            assert(order[3] == ViewKind::Base);
        }
        if order[0] == view {
        } else if order[1] == view {
        } else if order[2] == view {
        } else if include_base && order[3] == view {
        }
    }
}

} // verus!
