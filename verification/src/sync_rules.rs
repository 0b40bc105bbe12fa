//! What a synchronisation is for: which side has its way about each comment, told from
//! what the two sides held before and hold afterwards.
use crate::draft;
use crate::draft::DraftView;
use crate::hash;
use crate::review;
use crate::review::{CommentView, FileReviewView, LineKey};
use crate::sync;
use crate::sync::{SyncAction, SyncBias, SyncContext, SyncInput};
use vstd::prelude::*;

verus! {

/// The comment that a draft has on a line.
pub open spec fn drafted_on(d: DraftView, path: Seq<char>, k: LineKey) -> Option<Seq<char>> {
    if d.contains_key(path) && d[path].comments.contains_key(k) {
        Some(d[path].comments[k])
    } else {
        None
    }
}

/// The comment that the notes have on a line.
pub open spec fn noted_on(
    m: Map<Seq<char>, FileReviewView>,
    path: Seq<char>,
    k: LineKey,
) -> Option<CommentView> {
    if m.contains_key(path) && m[path].comments.contains_key(k) {
        Some(m[path].comments[k])
    } else {
        None
    }
}

/// The hash that was kept beside the draft for a line.
pub open spec fn kept_hash(input: SyncInput, path: Seq<char>, k: LineKey) -> Option<Seq<char>> {
    let key = hash::meta_key_text(path, hash::side_name(k.side), k.line as nat);
    if input.hashes.contains_key(key) {
        Some(input.hashes[key])
    } else {
        None
    }
}

/// The hash of the code on a line, where there is code.
pub open spec fn present_hash(input: SyncInput, path: Seq<char>, k: LineKey) -> Option<Seq<char>> {
    if input.snippets.contains_key(path) && input.snippets[path].contains_key(k) {
        hash::text_hash(hash::snippet_preimage(path, k, input.snippets[path][k]))
    } else {
        None
    }
}

/// The comment that the draft has on a line after a synchronisation that visited its
/// file.
pub open spec fn drafted_after(
    draft: DraftView,
    input: SyncInput,
    path: Seq<char>,
    k: LineKey,
) -> Option<Seq<char>> {
    match sync::draft_after(draft, input, true, path) {
        Some(f) => if f.comments.contains_key(k) {
            Some(f.comments[k])
        } else {
            None
        },
        None => None,
    }
}

/// The comment that the notes have on a line after a synchronisation that visited its
/// file.
pub open spec fn noted_after(
    draft: DraftView,
    input: SyncInput,
    path: Seq<char>,
    k: LineKey,
) -> Option<CommentView> {
    let f = sync::notes_after(draft, input, true, path);
    if f.comments.contains_key(k) {
        Some(f.comments[k])
    } else {
        None
    }
}

/// Whether a comment is there and not resolved.
pub open spec fn is_live(c: Option<CommentView>) -> bool {
    c is Some && !c->0.resolved
}

/// Whether the code on a line is that which a comment was written about, as far as is
/// known: there is code, and the hash that is kept, with the note or else beside the
/// draft, is that of the code.
pub open spec fn is_about_present_code(
    draft: DraftView,
    input: SyncInput,
    path: Seq<char>,
    k: LineKey,
) -> bool {
    let n = noted_on(input.notes, path, k);
    let now = present_hash(input, path, k);
    &&& now is Some
    &&& (if is_live(n) && n->0.snippet_hash is Some {
        n->0.snippet_hash == now
    } else {
        kept_hash(input, path, k) is None || kept_hash(input, path, k) == now
    })
}

/// Whether the draft has its way: it alone changed, or it is no older where neither or
/// both did.
pub open spec fn draft_leads(bias: SyncBias) -> bool {
    bias.change == Some(SyncAction::NotesFromDraft) || (bias.change is None && bias.draft_newer)
}

/// Whether the notes have their way: they alone changed, or they are newer where neither
/// or both did.
pub open spec fn notes_lead(bias: SyncBias) -> bool {
    bias.change == Some(SyncAction::DraftFromNotes) || (bias.change is None && !bias.draft_newer)
}

/// Both sides of a line after a synchronisation are those that the line comes to.
proof fn lemma_line_after(draft: DraftView, input: SyncInput, path: Seq<char>, k: LineKey)
    ensures
        ({
            let l = sync::synced_line(
                drafted_on(draft, path, k),
                noted_on(input.notes, path, k),
                kept_hash(input, path, k),
                present_hash(input, path, k),
                input.bias,
            );
            drafted_after(draft, input, path, k) == l.draft && noted_after(draft, input, path, k)
                == l.note
        }),
{
    let before = draft::draft_or_blank(draft, path);
    let old = review::file_or_blank(input.notes, path);
    let ctx = SyncContext {
        path,
        hashes: input.hashes,
        snippets: sync::snippets_of(input.snippets, path),
        bias: input.bias,
    };
    let r = sync::path_result(draft, input, path);
    let l = sync::line_result(before, old, ctx, k);
    assert(sync::at(before.comments, k) == drafted_on(draft, path, k));
    assert(sync::at(old.comments, k) == noted_on(input.notes, path, k));
    assert(sync::code_hash(path, k, ctx.snippets) == present_hash(input, path, k));
    assert(sync::at(
        ctx.hashes,
        hash::meta_key_text(path, hash::side_name(k.side), k.line as nat),
    ) == kept_hash(input, path, k));
    assert(sync::at(r.draft.comments, k) == l.draft);
    assert(sync::at(r.notes.comments, k) == l.note);
    if r.draft.is_bare() {
        assert(!r.draft.comments.contains_key(k));
    }
    if !r.notes_dirty {
        assert(!l.note_changed);
    }
}

/// Where both sides have a comment on a line that is about the present code, whose hash
/// is kept beside the draft, and the two differ: both end with what the draft says where
/// the draft leads, and with what the notes say where the notes lead.
pub proof fn law_the_side_that_leads_has_its_way(
    draft: DraftView,
    input: SyncInput,
    path: Seq<char>,
    k: LineKey,
)
    requires
        drafted_on(draft, path, k) is Some,
        is_live(noted_on(input.notes, path, k)),
        drafted_on(draft, path, k)->0 != noted_on(input.notes, path, k)->0.body,
        is_about_present_code(draft, input, path, k),
        kept_hash(input, path, k) is Some,
    ensures
        ({
            let d = drafted_on(draft, path, k)->0;
            let n = noted_on(input.notes, path, k)->0;
            let after = noted_after(draft, input, path, k);
            &&& draft_leads(input.bias) ==> drafted_after(draft, input, path, k) == Some(d)
                && is_live(after) && after->0.body == d && after->0.snippet_hash == kept_hash(
                input,
                path,
                k,
            )
            &&& notes_lead(input.bias) ==> drafted_after(draft, input, path, k) == Some(n.body)
                && is_live(after) && after->0.body == n.body
        }),
{
    lemma_line_after(draft, input, path, k);
}

/// Where both sides say the same about the present code, both go on saying it.
pub proof fn law_agreement_is_kept(
    draft: DraftView,
    input: SyncInput,
    path: Seq<char>,
    k: LineKey,
)
    requires
        is_live(noted_on(input.notes, path, k)),
        drafted_on(draft, path, k) == Some(noted_on(input.notes, path, k)->0.body),
        is_about_present_code(draft, input, path, k),
    ensures
        drafted_after(draft, input, path, k) == drafted_on(draft, path, k),
        is_live(noted_after(draft, input, path, k)),
        noted_after(draft, input, path, k)->0.body == noted_on(input.notes, path, k)->0.body,
{
    lemma_line_after(draft, input, path, k);
}

/// A comment that only the draft has is stored in the notes with the hash of the code it
/// is about, unless the notes alone changed: there it was taken out, and leaves the draft.
pub proof fn law_new_comment_of_the_draft_is_stored(
    draft: DraftView,
    input: SyncInput,
    path: Seq<char>,
    k: LineKey,
)
    requires
        drafted_on(draft, path, k) is Some,
        !is_live(noted_on(input.notes, path, k)),
        is_about_present_code(draft, input, path, k),
    ensures
        input.bias.change != Some(SyncAction::DraftFromNotes) ==> drafted_after(
            draft,
            input,
            path,
            k,
        ) == drafted_on(draft, path, k) && noted_after(draft, input, path, k) == Some(
            CommentView {
                body: drafted_on(draft, path, k)->0,
                resolved: false,
                snippet_hash: present_hash(input, path, k),
            },
        ),
        input.bias.change == Some(SyncAction::DraftFromNotes) ==> drafted_after(
            draft,
            input,
            path,
            k,
        ) is None && noted_after(draft, input, path, k) == noted_on(input.notes, path, k),
{
    lemma_line_after(draft, input, path, k);
}

/// A comment that only the notes have comes into the draft, unless the draft alone
/// changed: there it was taken out, and leaves the notes.
pub proof fn law_new_comment_of_the_notes_is_drafted(
    draft: DraftView,
    input: SyncInput,
    path: Seq<char>,
    k: LineKey,
)
    requires
        drafted_on(draft, path, k) is None,
        is_live(noted_on(input.notes, path, k)),
    ensures
        input.bias.change == Some(SyncAction::NotesFromDraft) ==> drafted_after(
            draft,
            input,
            path,
            k,
        ) is None && noted_after(draft, input, path, k) is None,
        input.bias.change != Some(SyncAction::NotesFromDraft) && is_about_present_code(
            draft,
            input,
            path,
            k,
        ) ==> drafted_after(draft, input, path, k) == Some(
            noted_on(input.notes, path, k)->0.body,
        ) && is_live(noted_after(draft, input, path, k)) && noted_after(
            draft,
            input,
            path,
            k,
        )->0.body == noted_on(input.notes, path, k)->0.body,
{
    lemma_line_after(draft, input, path, k);
}

/// A comment on code that changed or is gone leaves the draft, and in the notes it is
/// resolved and else as it was.
pub proof fn law_comment_on_lost_code_is_resolved(
    draft: DraftView,
    input: SyncInput,
    path: Seq<char>,
    k: LineKey,
)
    requires
        !is_about_present_code(draft, input, path, k),
        drafted_on(draft, path, k) is Some || (is_live(noted_on(input.notes, path, k))
            && input.bias.change != Some(SyncAction::NotesFromDraft)),
    ensures
        drafted_after(draft, input, path, k) is None,
        is_live(noted_on(input.notes, path, k)) ==> noted_after(draft, input, path, k) == Some(
            CommentView { resolved: true, ..noted_on(input.notes, path, k)->0 },
        ),
        !is_live(noted_on(input.notes, path, k)) ==> noted_after(draft, input, path, k)
            == noted_on(input.notes, path, k),
{
    lemma_line_after(draft, input, path, k);
}

/// Where no hash is kept beside the draft, what the notes say about the present code
/// stands on both sides.
pub proof fn law_notes_stand_where_no_hash_is_kept(
    draft: DraftView,
    input: SyncInput,
    path: Seq<char>,
    k: LineKey,
)
    requires
        drafted_on(draft, path, k) is Some,
        is_live(noted_on(input.notes, path, k)),
        kept_hash(input, path, k) is None,
        is_about_present_code(draft, input, path, k),
    ensures
        drafted_after(draft, input, path, k) == Some(noted_on(input.notes, path, k)->0.body),
        is_live(noted_after(draft, input, path, k)),
        noted_after(draft, input, path, k)->0.body == noted_on(input.notes, path, k)->0.body,
{
    lemma_line_after(draft, input, path, k);
}

/// A line that neither side has an open comment on is left alone: what was resolved stays
/// as it was.
pub proof fn law_silent_line_is_left_alone(
    draft: DraftView,
    input: SyncInput,
    path: Seq<char>,
    k: LineKey,
)
    requires
        drafted_on(draft, path, k) is None,
        !is_live(noted_on(input.notes, path, k)),
    ensures
        drafted_after(draft, input, path, k) is None,
        noted_after(draft, input, path, k) == noted_on(input.notes, path, k),
{
    lemma_line_after(draft, input, path, k);
}

/// The comment on a file that the draft has.
pub open spec fn drafted_on_file(d: DraftView, path: Seq<char>) -> Option<Seq<char>> {
    if d.contains_key(path) {
        d[path].file_comment
    } else {
        None
    }
}

/// The comment on a file that the notes have.
pub open spec fn noted_on_file(m: Map<Seq<char>, FileReviewView>, path: Seq<char>) -> Option<
    CommentView,
> {
    if m.contains_key(path) {
        m[path].file_comment
    } else {
        None
    }
}

/// What the notes have on a file and is not resolved.
pub open spec fn open_on_file(m: Map<Seq<char>, FileReviewView>, path: Seq<char>) -> Option<
    Seq<char>,
> {
    if is_live(noted_on_file(m, path)) {
        Some(noted_on_file(m, path)->0.body)
    } else {
        None
    }
}

/// Where the two sides differ about a file, the side that leads has its way: the notes
/// get the comment of the draft, or lose theirs with it; or the draft gets that of the
/// notes. Where they do not, nothing changes. The marks of the file stay as they were.
pub proof fn law_the_side_that_leads_has_its_way_about_a_file(
    draft: DraftView,
    input: SyncInput,
    path: Seq<char>,
)
    ensures
        ({
            let d = drafted_on_file(draft, path);
            let n = noted_on_file(input.notes, path);
            let open = open_on_file(input.notes, path);
            let after = sync::notes_after(draft, input, true, path);
            let left = match sync::draft_after(draft, input, true, path) {
                Some(f) => f.file_comment,
                None => None,
            };
            &&& d == open ==> left == d && after.file_comment == n
            &&& d != open && draft_leads(input.bias) ==> left == d && (match d {
                Some(b) => is_live(after.file_comment) && after.file_comment->0.body == b,
                None => after.file_comment is None,
            })
            &&& d != open && notes_lead(input.bias) ==> left == open && after.file_comment == n
            &&& after.reviewed == review::file_or_blank(input.notes, path).reviewed
            &&& after.reviewed_hash == review::file_or_blank(input.notes, path).reviewed_hash
        }),
{
    let r = sync::path_result(draft, input, path);
    let before = draft::draft_or_blank(draft, path);
    let old = review::file_or_blank(input.notes, path);
    assert(before.file_comment == drafted_on_file(draft, path));
    assert(old.file_comment == noted_on_file(input.notes, path));
}

/// A file that is not visited keeps its draft, and nothing is stored for it.
pub proof fn law_other_files_are_left_alone(draft: DraftView, input: SyncInput, path: Seq<char>)
    ensures
        sync::draft_after(draft, input, false, path) == (if draft.contains_key(path) {
            Some(draft[path])
        } else {
            None
        }),
        sync::dirty_after(draft, input, false, path) is None,
{
}

/// One side alone leads where it changed and the other did not: the draft where its text
/// is not that which was kept and the notes are at the commit that was kept, the notes
/// where it is the other way round. Else the later one leads, and the draft where the two
/// times are the same.
pub proof fn law_the_side_that_changed_leads(
    kept_draft: Option<Seq<char>>,
    kept_commit: Option<Seq<char>>,
    mtime: i64,
    draft: Seq<char>,
    commit: Seq<char>,
    time: i64,
)
    ensures
        ({
            let bias = sync::bias_of(
                kept_draft,
                kept_commit,
                Some(mtime),
                draft,
                Some(commit),
                Some(time),
            );
            let draft_same = kept_draft == Some(draft);
            let notes_same = kept_commit == Some(commit);
            &&& !draft_same && notes_same ==> draft_leads(bias) && bias.change is Some
            &&& draft_same && !notes_same ==> notes_lead(bias) && bias.change is Some
            &&& draft_same == notes_same ==> bias.change is None && draft_leads(bias) == (mtime
                >= time) && notes_lead(bias) == (mtime < time)
            &&& !(draft_leads(bias) && notes_lead(bias))
        }),
        sync::bias_of(kept_draft, kept_commit, None, draft, Some(commit), Some(time))
            == sync::bias_of(kept_draft, kept_commit, Some(0), draft, Some(commit), Some(time)),
        kept_draft == Some(draft) ==> notes_lead(
            sync::bias_of(kept_draft, kept_commit, Some(mtime), draft, None, None),
        ),
        kept_draft != Some(draft) ==> draft_leads(
            sync::bias_of(kept_draft, kept_commit, Some(mtime), draft, None, None),
        ) == (mtime >= 0),
{
}

} // verus!
