//! The draft on disk and the notes agree: what a synchronisation leaves is what is read
//! from the draft that it writes.
use crate::draft;
use crate::draft::{DraftFileView, DraftView};
use crate::draft_text;
use crate::ordmap;
use crate::prompt_code;
use crate::review;
use crate::review::{CommentView, FileReviewView, LineKey, ReviewView, SnippetView};
use crate::round_trip;
use crate::sync;
use crate::sync::{SyncAction, SyncContext, SyncInput};
use crate::text;
use vstd::prelude::*;

verus! {

/// Whether a comment, where there is one, is not blank, ends with no white space, and
/// can be told from what stands around it in a draft.
pub open spec fn is_plain_comment(body: Option<Seq<char>>) -> bool {
    body is Some ==> round_trip::is_trim(body->0) && round_trip::is_plain_body(body->0)
}

/// Whether a draft speaks of a file in plain comments.
pub open spec fn is_plain_draft_file(f: DraftFileView) -> bool {
    &&& f.comments.dom().finite()
    &&& is_plain_comment(f.file_comment)
    &&& forall|k: LineKey| is_plain_comment(#[trigger] sync::at(f.comments, k))
}

/// Whether the comments on a file that are not resolved are plain.
pub open spec fn is_plain_note(f: FileReviewView) -> bool {
    &&& f.comments.dom().finite()
    &&& is_plain_comment(sync::live_body(f.file_comment))
    &&& forall|k: LineKey|
        is_plain_comment(sync::live_body(#[trigger] sync::at(f.comments, k)))
}

/// Whether the draft has a comment on a file, or the notes have one that is not
/// resolved.
pub open spec fn is_commented(f: DraftFileView, n: FileReviewView) -> bool {
    ||| f.file_comment is Some
    ||| sync::live_body(n.file_comment) is Some
    ||| exists|k: LineKey| #[trigger] sync::is_spoken_of(f, n, k)
}

/// Whether all that a synchronisation visits is plain: the comments of both sides, and
/// the paths of the files that have any.
pub open spec fn is_plain_input(
    in_tree: Seq<Seq<char>>,
    draft: DraftView,
    notes: ReviewView,
) -> bool {
    &&& draft.dom().finite()
    &&& forall|p: Seq<char>| #[trigger]
        sync::is_visited(in_tree, draft, p) ==> {
            let f = draft::draft_or_blank(draft, p);
            let n = review::file_or_blank(notes, p);
            &&& is_commented(f, n) ==> round_trip::is_plain_path(p)
            &&& is_plain_draft_file(f)
            &&& is_plain_note(n)
        }
}

/// Whether all code that is shown beside the comments of a review is told from them.
pub open spec fn is_code_told_apart(m: ReviewView, codes: Seq<Seq<Option<SnippetView>>>) -> bool {
    let e = ordmap::ordered::<String, FileReviewView>(m);
    forall|i: int, j: int|
        0 <= i < e.len() && 0 <= j < review::shown_of(e[i].1).len() && (
        #[trigger] codes[i][j]) is Some ==> round_trip::is_told_apart(codes[i][j]->0)
}

/// Code whose file has an ending of a known language is told from a comment.
pub proof fn law_code_of_known_language_is_told_apart(path: Seq<char>, code: Seq<char>)
    ensures
        ({
            let lang = prompt_code::language_of_ending(
                text::lowered(prompt_code::ending_of(path)),
            );
            lang != "text"@ ==> round_trip::is_told_apart(SnippetView { code, lang })
        }),
{
    let lang = prompt_code::language_of_ending(text::lowered(prompt_code::ending_of(path)));
    reveal_strlit("text");
    reveal_strlit("rust");
    reveal_strlit("go");
    reveal_strlit("python");
    reveal_strlit("javascript");
    reveal_strlit("jsx");
    reveal_strlit("typescript");
    reveal_strlit("tsx");
    reveal_strlit("json");
    reveal_strlit("toml");
    reveal_strlit("yaml");
    reveal_strlit("sh");
    reveal_strlit("bash");
    reveal_strlit("zsh");
    reveal_strlit("c");
    reveal_strlit("cpp");
    reveal_strlit("markdown");
    if lang != "text"@ {
        assert(lang.len() > 0 && !text::is_space(lang[0]) && !text::is_space(lang.last()));
        lemma_word_is_trimmed(lang);
        assert(round_trip::is_language_name(lang));
        if ("text"@).is_prefix_of(lang) {
            let start = lang.subrange(0, 4);
            assert(start[0] == 't' && start[1] == 'e');
            assert(lang[0] == 't' && lang[1] == 'e');
        }
    }
}

/// A text with no white space at either end is left as it is.
proof fn lemma_word_is_trimmed(s: Seq<char>)
    requires
        s.len() > 0,
        !text::is_space(s[0]),
        !text::is_space(s.last()),
    ensures
        text::trimmed(s) == s,
{
    assert(text::trimmed_start(s) == s);
    assert(text::trimmed_end(s) == s);
}

/// What one line keeps of two plain sides is plain.
proof fn lemma_line_stays_plain(
    f: DraftFileView,
    n: FileReviewView,
    ctx: SyncContext,
    k: LineKey,
)
    requires
        is_plain_draft_file(f),
        is_plain_note(n),
    ensures
        is_plain_comment(sync::line_result(f, n, ctx, k).draft),
        sync::line_result(f, n, ctx, k).draft is Some ==> sync::is_spoken_of(f, n, k),
{
    assert(is_plain_comment(sync::at(f.comments, k)));
    assert(is_plain_comment(sync::live_body(sync::at(n.comments, k))));
}

/// What a file keeps of two plain sides is plain.
proof fn lemma_file_stays_plain(f: DraftFileView, n: FileReviewView, ctx: SyncContext)
    requires
        is_plain_draft_file(f),
        is_plain_note(n),
    ensures
        is_plain_draft_file(sync::synced_file(f, n, ctx).draft),
        !sync::synced_file(f, n, ctx).draft.is_bare() ==> is_commented(f, n),
{
    let r = sync::synced_file(f, n, ctx).draft;
    assert forall|k: LineKey| is_plain_comment(#[trigger] sync::at(r.comments, k)) by {
        lemma_line_stays_plain(f, n, ctx, k);
        assert(sync::at(r.comments, k) == sync::line_result(f, n, ctx, k).draft);
    }
    let both = f.comments.dom().union(n.comments.dom());
    assert forall|k: LineKey| r.comments.dom().contains(k) implies both.contains(k) by {
        lemma_line_stays_plain(f, n, ctx, k);
    }
    if !r.is_bare() && r.file_comment is None {
        assert(exists|k: LineKey| r.comments.contains_key(k)) by {
            if !(exists|k: LineKey| r.comments.contains_key(k)) {
                assert(r.comments =~= Map::<LineKey, Seq<char>>::empty());
            }
        }
        let k = choose|k: LineKey| r.comments.contains_key(k);
        lemma_line_stays_plain(f, n, ctx, k);
        assert(sync::is_spoken_of(f, n, k));
    }
    assert(r.comments.dom().subset_of(both));
    vstd::set_lib::lemma_set_subset_finite(both, r.comments.dom());
}

/// The draft that is left of plain sides is plain, and holds no file without a comment.
proof fn lemma_draft_stays_plain(
    in_tree: Seq<Seq<char>>,
    draft: DraftView,
    input: SyncInput,
    after: DraftView,
)
    requires
        is_plain_input(in_tree, draft, input.notes),
        forall|p: Seq<char>| #[trigger]
            sync::at(after, p) == sync::draft_after(
                draft,
                input,
                sync::is_visited(in_tree, draft, p),
                p,
            ),
    ensures
        after.dom().finite(),
        forall|p: Seq<char>| #[trigger]
            after.contains_key(p) ==> round_trip::is_plain_path(p) && is_plain_draft_file(after[p])
                && !after[p].is_bare(),
{
    let all = draft.dom().union(in_tree.to_set());
    assert forall|p: Seq<char>| #[trigger] after.contains_key(p) implies round_trip::is_plain_path(
        p,
    ) && is_plain_draft_file(after[p]) && !after[p].is_bare() && all.contains(p) by {
        assert(sync::at(after, p) == Some(after[p]));
        assert(sync::is_visited(in_tree, draft, p));
        let ctx = SyncContext {
            path: p,
            hashes: input.hashes,
            snippets: sync::snippets_of(input.snippets, p),
            bias: input.bias,
        };
        lemma_file_stays_plain(
            draft::draft_or_blank(draft, p),
            review::file_or_blank(input.notes, p),
            ctx,
        );
    }
    assert(after.dom().subset_of(all));
    vstd::seq_lib::seq_to_set_is_finite(in_tree);
    vstd::set_lib::lemma_set_subset_finite(all, after.dom());
}

/// Each comment on a line that is shown is one of the file, without the white space it
/// ends with.
proof fn lemma_shown_line(e: Seq<(LineKey, CommentView)>, j: int) -> (i: int)
    requires
        0 <= j < review::shown_lines(e).len(),
    ensures
        0 <= i < e.len(),
        review::shown_lines(e)[j].1 == text::trimmed_end(e[i].1.body),
    decreases e.len(),
{
    let front = review::shown_lines(e.drop_last());
    if j < front.len() {
        let i = lemma_shown_line(e.drop_last(), j);
        assert(e.drop_last()[i] == e[i]);
        i
    } else {
        e.len() - 1
    }
}

/// What the prompt shows of a plain draft of a file can be told from what stands around
/// it.
proof fn lemma_plain_file(path: Seq<char>, f: DraftFileView, codes: Seq<Option<SnippetView>>)
    requires
        round_trip::is_plain_path(path),
        is_plain_draft_file(f),
        forall|j: int|
            0 <= j < review::shown_of(draft::lifted(f)).len() && (#[trigger] codes[j]) is Some
                ==> round_trip::is_told_apart(codes[j]->0),
    ensures
        round_trip::is_plain_file(path, draft::lifted(f), codes),
{
    let l = draft::lifted(f);
    if f.file_comment is Some {
        round_trip::lemma_trim_stays(f.file_comment->0);
    }
    assert(l.comments.dom().subset_of(f.comments.dom()));
    vstd::set_lib::lemma_set_subset_finite(f.comments.dom(), l.comments.dom());
    ordmap::lemma_ordered_exists::<LineKey, CommentView>(l.comments);
    let e = ordmap::ordered::<LineKey, CommentView>(l.comments);
    let shown = review::shown_of(l);
    assert forall|j: int| 0 <= j < shown.len() implies round_trip::is_plain_body(
        (#[trigger] shown[j]).1,
    ) && (codes[j] is Some ==> round_trip::is_told_apart(codes[j]->0)) by {
        let i = lemma_shown_line(e, j);
        let k = e[i].0;
        ordmap::lemma_map_of_at::<LineKey, CommentView>(e, i);
        assert(l.comments.contains_key(k) && l.comments[k] == e[i].1);
        assert(is_plain_comment(sync::at(f.comments, k)));
        round_trip::lemma_trim_stays(f.comments[k]);
    }
}

/// After a synchronisation, what is read from the draft that was written is what the
/// notes hold: for each file that was visited, the draft has a comment on the file or on
/// a line just where the notes have one that is not resolved, and the two are the same.
/// Files without a comment may have any path.
/// `after` is the draft that the synchronisation left, and `codes` the code that was
/// written beside its comments.
pub proof fn law_written_draft_agrees_with_notes(
    in_tree: Seq<Seq<char>>,
    draft: DraftView,
    input: SyncInput,
    after: DraftView,
    codes: Seq<Seq<Option<SnippetView>>>,
)
    requires
        input.bias.change != Some(SyncAction::Keep),
        is_plain_input(in_tree, draft, input.notes),
        is_code_told_apart(draft::draft_as_review(after), codes),
        forall|p: Seq<char>| #[trigger]
            sync::at(after, p) == sync::draft_after(
                draft,
                input,
                sync::is_visited(in_tree, draft, p),
                p,
            ),
    ensures
        ({
            let back = draft_text::parsed_draft(
                review::prompt_text(draft::draft_as_review(after), codes),
            );
            &&& back == after
            &&& forall|p: Seq<char>| #[trigger]
                sync::is_visited(in_tree, draft, p) ==> {
                    let d = draft::draft_or_blank(back, p);
                    let n = sync::notes_after(draft, input, true, p);
                    &&& d.file_comment == sync::live_body(n.file_comment)
                    &&& forall|k: LineKey| #[trigger]
                        sync::at(d.comments, k) == sync::live_body(sync::at(n.comments, k))
                }
            &&& forall|p: Seq<char>| #[trigger]
                back.contains_key(p) ==> sync::is_visited(in_tree, draft, p)
        }),
{
    lemma_draft_stays_plain(in_tree, draft, input, after);
    assert(round_trip::is_tidy_draft(after)) by {
        assert forall|p: Seq<char>, k: LineKey| #[trigger]
            after.contains_key(p) && #[trigger] after[p].comments.contains_key(
                k,
            ) implies round_trip::is_trim(after[p].comments[k]) by {
            assert(is_plain_comment(sync::at(after[p].comments, k)));
        }
    }
    let m = draft::draft_as_review(after);
    assert(m.dom().subset_of(after.dom()));
    vstd::set_lib::lemma_set_subset_finite(after.dom(), m.dom());
    ordmap::lemma_ordered_exists::<String, FileReviewView>(m);
    let e = ordmap::ordered::<String, FileReviewView>(m);
    assert(round_trip::is_plain_review(m, codes)) by {
        assert forall|i: int|
            0 <= i < e.len() && review::shows_any((#[trigger] e[i]).1) implies
            round_trip::is_plain_file(e[i].0, e[i].1, codes[i]) by {
            ordmap::lemma_map_of_at::<String, FileReviewView>(e, i);
            let p = e[i].0;
            assert(m.contains_key(p));
            assert(after.contains_key(p));
            lemma_plain_file(p, after[p], codes[i]);
        }
    }
    round_trip::law_draft_reads_back(after, codes);
    assert forall|p: Seq<char>| #[trigger] sync::is_visited(in_tree, draft, p) implies ({
        let d = draft::draft_or_blank(after, p);
        let n = sync::notes_after(draft, input, true, p);
        &&& d.file_comment == sync::live_body(n.file_comment)
        &&& forall|k: LineKey| #[trigger]
            sync::at(d.comments, k) == sync::live_body(sync::at(n.comments, k))
    }) by {
        assert(sync::at(after, p) == sync::draft_after(draft, input, true, p));
        sync::law_all_in_step(draft, input, p);
    }
    assert forall|p: Seq<char>| #[trigger] after.contains_key(p) implies sync::is_visited(
        in_tree,
        draft,
        p,
    ) by {
        assert(sync::at(after, p) == Some(after[p]));
    }
}

} // verus!
