//! Keeping the draft and the stored notes in step: what each side holds after
//! a synchronisation, file by file and line by line.
use crate::draft::{DraftFileReview, DraftFileView, DraftReview, DraftView};
use crate::draft;
use crate::hash;
use crate::ordmap;
use crate::ordmap::{Duplicate, OrdMap};
use crate::review;
use crate::review::{
    Comment, CommentView, FileReview, FileReviewView, LineKey, LineSide, Review, ReviewView,
};
use crate::text;
use vstd::prelude::*;

verus! {

/// Which side follows the other.
#[derive(Debug, Clone, Copy, PartialEq, Eq, Structural)]
pub enum SyncAction {
    Keep,
    DraftFromNotes,
    NotesFromDraft,
}

/// What led to a synchronisation.
#[derive(Debug, Clone, Copy, PartialEq, Eq, Structural)]
pub enum DraftSyncMode {
    Passive,
    OnSave,
}

/// The commit that the notes are at, and its time in seconds.
#[derive(Debug)]
pub struct NotesRefInfo {
    pub oid: String,
    pub time: i64,
}

/// The hash of the code on a line that a draft comments on.
#[derive(Debug)]
pub struct DraftLineMeta {
    pub file: String,
    pub side: String,
    pub line: u32,
    pub hash: String,
}

/// What is kept beside a draft: the state of both sides when they were last in
/// step, and the hashes of the code that it comments on.
#[derive(Debug)]
pub struct DraftMeta {
    pub notes_ref_oid: Option<String>,
    pub notes_ref_time: Option<i64>,
    pub draft_mtime: Option<i64>,
    pub draft_hash: Option<String>,
    pub lines: Vec<DraftLineMeta>,
}

impl Default for DraftMeta {
    fn default() -> (r: Self)
        ensures
            r.notes_ref_oid is None,
            r.notes_ref_time is None,
            r.draft_mtime is None,
            r.draft_hash is None,
            r.lines@.len() == 0,
    {
        DraftMeta {
            notes_ref_oid: None,
            notes_ref_time: None,
            draft_mtime: None,
            draft_hash: None,
            lines: Vec::new(),
        }
    }
}

/// The hashes of some lines by their keys; of two for one line the later stands.
pub open spec fn meta_map(lines: Seq<DraftLineMeta>) -> Map<Seq<char>, Seq<char>>
    decreases lines.len(),
{
    if lines.len() == 0 {
        Map::empty()
    } else {
        let l = lines.last();
        meta_map(lines.drop_last()).insert(
            hash::meta_key_text(l.file@, l.side@, l.line as nat),
            l.hash@,
        )
    }
}

/// The hashes of the lines of `meta` by their keys.
pub fn meta_hash_map(meta: &DraftMeta) -> (out: OrdMap<String, String>)
    ensures
        out@ == meta_map(meta.lines@),
{
    let mut out = OrdMap::<String, String>::new();
    let mut i: usize = 0;
    assert(meta.lines@.take(0) =~= Seq::empty());
    while i < meta.lines.len()
        invariant
            i <= meta.lines.len(),
            out@ == meta_map(meta.lines@.take(i as int)),
        decreases meta.lines.len() - i,
    {
        assert(meta.lines@.take(i + 1).drop_last() =~= meta.lines@.take(i as int));
        let l = &meta.lines[i];
        out.insert(hash::meta_key(l.file.as_str(), l.side.as_str(), l.line), l.hash.clone());
        i += 1;
    }
    assert(meta.lines@.take(i as int) =~= meta.lines@);
    out
}

/// Which side changed since the two were last in step, where one alone did,
/// and whether the draft is no older than the notes.
#[derive(Debug, Clone, Copy, PartialEq, Eq, Structural)]
pub struct SyncBias {
    pub change: Option<SyncAction>,
    pub draft_newer: bool,
}

impl SyncBias {
    /// Whether the draft is preferred where the two sides differ.
    pub open spec fn wants_draft(self) -> bool {
        match self.change {
            Some(a) => a is NotesFromDraft,
            None => self.draft_newer,
        }
    }

    /// Whether the draft is preferred where the two sides differ.
    pub fn prefers_draft(&self) -> (r: bool)
        ensures
            r == self.wants_draft(),
    {
        match self.change {
            Some(SyncAction::NotesFromDraft) => true,
            Some(_) => false,
            None => self.draft_newer,
        }
    }
}

/// Which side changed, from what was kept when they were last in step.
pub open spec fn bias_of(
    meta_draft_hash: Option<Seq<char>>,
    meta_oid: Option<Seq<char>>,
    draft_mtime: Option<i64>,
    draft_hash: Seq<char>,
    oid: Option<Seq<char>>,
    time: Option<i64>,
) -> SyncBias {
    let draft_changed = meta_draft_hash != Some(draft_hash);
    let notes_changed = meta_oid is None || meta_oid != oid;
    let mtime = match draft_mtime {
        Some(t) => t,
        None => 0,
    };
    let notes_time = match time {
        Some(t) => t,
        None => 0,
    };
    SyncBias {
        change: if draft_changed && !notes_changed {
            Some(SyncAction::NotesFromDraft)
        } else if notes_changed && !draft_changed {
            Some(SyncAction::DraftFromNotes)
        } else {
            None
        },
        draft_newer: mtime >= notes_time,
    }
}

/// The commit of the notes, if there is one.
pub open spec fn info_oid(info: Option<NotesRefInfo>) -> Option<Seq<char>> {
    match info {
        Some(i) => Some(i.oid@),
        None => None,
    }
}

/// The time of the notes, if there is one.
pub open spec fn info_time(info: Option<NotesRefInfo>) -> Option<i64> {
    match info {
        Some(i) => Some(i.time),
        None => None,
    }
}

/// Which side changed since `meta` was written.
pub fn sync_bias(
    meta: &DraftMeta,
    draft_mtime: Option<i64>,
    draft_hash: &str,
    info: &Option<NotesRefInfo>,
) -> (r: SyncBias)
    ensures
        r == bias_of(
            text::opt_view(meta.draft_hash),
            text::opt_view(meta.notes_ref_oid),
            draft_mtime,
            draft_hash@,
            info_oid(*info),
            info_time(*info),
        ),
{
    let mtime: i64 = match draft_mtime {
        Some(t) => t,
        None => 0,
    };
    let notes_time: i64 = match info {
        Some(i) => i.time,
        None => 0,
    };
    let draft_changed = match &meta.draft_hash {
        Some(h) => !text::same(h.as_str(), draft_hash),
        None => true,
    };
    let notes_changed = match (&meta.notes_ref_oid, info) {
        (Some(oid), Some(i)) => !text::same(oid.as_str(), i.oid.as_str()),
        _ => true,
    };
    let change = if draft_changed && !notes_changed {
        Some(SyncAction::NotesFromDraft)
    } else if notes_changed && !draft_changed {
        Some(SyncAction::DraftFromNotes)
    } else {
        None
    };
    SyncBias { change, draft_newer: mtime >= notes_time }
}

/// What the two sides hold about one line, or about a file, and which of them changed.
pub struct LineSyncView {
    pub draft: Option<Seq<char>>,
    pub note: Option<CommentView>,
    pub draft_changed: bool,
    pub note_changed: bool,
}

/// The body of a comment that is not resolved.
pub open spec fn live_body(note: Option<CommentView>) -> Option<Seq<char>> {
    match note {
        Some(c) => if c.resolved {
            None
        } else {
            Some(c.body)
        },
        None => None,
    }
}

/// The hash of a comment that is not resolved.
pub open spec fn live_hash(note: Option<CommentView>) -> Option<Seq<char>> {
    match note {
        Some(c) => if c.resolved {
            None
        } else {
            c.snippet_hash
        },
        None => None,
    }
}

/// The first of two where it is there, else the second.
pub open spec fn either(a: Option<Seq<char>>, b: Option<Seq<char>>) -> Option<Seq<char>> {
    if a is Some {
        a
    } else {
        b
    }
}

/// What the two sides hold about a file after they were brought in step.
pub open spec fn synced_file_comment(
    draft: Option<Seq<char>>,
    note: Option<CommentView>,
    bias: SyncBias,
) -> LineSyncView {
    let body = live_body(note);
    if draft == body {
        LineSyncView { draft, note, draft_changed: false, note_changed: false }
    } else if bias.wants_draft() {
        LineSyncView {
            draft,
            note: match draft {
                Some(b) => Some(
                    CommentView { body: b, resolved: false, snippet_hash: None },
                ),
                None => None,
            },
            draft_changed: false,
            note_changed: true,
        }
    } else {
        LineSyncView { draft: body, note, draft_changed: true, note_changed: false }
    }
}

/// Whether a line that is commented on is out of date: the code is gone, or is
/// not the code that the comment was written about.
pub open spec fn is_stale(
    draft: Option<Seq<char>>,
    note: Option<CommentView>,
    meta_hash: Option<Seq<char>>,
    current: Option<Seq<char>>,
) -> bool {
    let stored = either(live_hash(note), meta_hash);
    if current is Some {
        stored is Some && stored != current
    } else {
        draft is Some || live_body(note) is Some
    }
}

/// Which side follows the other about a line that is not out of date.
pub open spec fn line_winner(
    draft: Option<Seq<char>>,
    note: Option<CommentView>,
    meta_hash: Option<Seq<char>>,
    current: Option<Seq<char>>,
    bias: SyncBias,
) -> SyncAction {
    let body = live_body(note);
    let draft_valid = draft is Some && current is Some && !(meta_hash is None && body is Some);
    let notes_valid = body is Some && current is Some;
    if draft_valid && !notes_valid {
        if bias.change == Some(SyncAction::DraftFromNotes) {
            SyncAction::DraftFromNotes
        } else {
            SyncAction::NotesFromDraft
        }
    } else if notes_valid && !draft_valid {
        SyncAction::DraftFromNotes
    } else if draft_valid && notes_valid && draft == body {
        SyncAction::Keep
    } else {
        match bias.change {
            Some(a) => a,
            None => if bias.draft_newer {
                SyncAction::NotesFromDraft
            } else {
                SyncAction::DraftFromNotes
            },
        }
    }
}

/// What the two sides hold about a line after they were brought in step.
/// `meta_hash` is the hash that was kept beside the draft, `current` that of
/// the code on the line now, where there is code.
pub open spec fn synced_line(
    draft: Option<Seq<char>>,
    note: Option<CommentView>,
    meta_hash: Option<Seq<char>>,
    current: Option<Seq<char>>,
    bias: SyncBias,
) -> LineSyncView {
    let body = live_body(note);
    if draft is None && bias.change == Some(SyncAction::NotesFromDraft) {
        LineSyncView {
            draft: None,
            note: if body is Some {
                None
            } else {
                note
            },
            draft_changed: false,
            note_changed: body is Some,
        }
    } else if is_stale(draft, note, meta_hash, current) {
        LineSyncView {
            draft: None,
            note: if body is Some {
                Some(CommentView { resolved: true, ..note->0 })
            } else {
                note
            },
            draft_changed: draft is Some,
            note_changed: body is Some,
        }
    } else {
        let adopts = body is Some && live_hash(note) is None && current is Some;
        let kept = if adopts {
            Some(CommentView { snippet_hash: either(meta_hash, current), ..note->0 })
        } else {
            note
        };
        match line_winner(draft, note, meta_hash, current, bias) {
            SyncAction::Keep => LineSyncView {
                draft,
                note: kept,
                draft_changed: false,
                note_changed: adopts,
            },
            SyncAction::NotesFromDraft => LineSyncView {
                draft,
                note: match draft {
                    Some(b) => Some(
                        CommentView {
                            body: b,
                            resolved: false,
                            snippet_hash: either(meta_hash, current),
                        },
                    ),
                    None => if body is Some {
                        None
                    } else {
                        note
                    },
                },
                draft_changed: false,
                note_changed: adopts || draft is Some || body is Some,
            },
            SyncAction::DraftFromNotes => LineSyncView {
                draft: body,
                note: kept,
                draft_changed: body is Some || draft is Some,
                note_changed: adopts,
            },
        }
    }
}

/// After a line was brought in step, the draft holds the body of the comment
/// in the notes that is not resolved, or neither holds one.
pub proof fn law_line_in_step(
    draft: Option<Seq<char>>,
    note: Option<CommentView>,
    meta_hash: Option<Seq<char>>,
    current: Option<Seq<char>>,
    bias: SyncBias,
)
    requires
        bias.change != Some(SyncAction::Keep),
    ensures
        ({
            let r = synced_line(draft, note, meta_hash, current, bias);
            r.draft == live_body(r.note)
        }),
{
}

/// After the comment on a file was brought in step, the draft holds the body
/// of the one in the notes that is not resolved, or neither holds one.
pub proof fn law_file_comment_in_step(
    draft: Option<Seq<char>>,
    note: Option<CommentView>,
    bias: SyncBias,
)
    ensures
        ({
            let r = synced_file_comment(draft, note, bias);
            r.draft == live_body(r.note)
        }),
{
}

/// Whether a line is given the hash of code that is not there any more: the notes
/// follow the draft, beside which a hash of older code is kept.
pub open spec fn takes_old_hash(
    draft: Option<Seq<char>>,
    note: Option<CommentView>,
    meta_hash: Option<Seq<char>>,
    current: Option<Seq<char>>,
    bias: SyncBias,
) -> bool {
    &&& draft is Some
    &&& current is Some
    &&& meta_hash is Some
    &&& meta_hash != current
    &&& line_winner(draft, note, meta_hash, current, bias) is NotesFromDraft
}

/// Bringing a line in step a second time changes neither side.
pub proof fn law_line_synced_twice(
    draft: Option<Seq<char>>,
    note: Option<CommentView>,
    meta_hash: Option<Seq<char>>,
    current: Option<Seq<char>>,
    bias: SyncBias,
)
    requires
        bias.change != Some(SyncAction::Keep),
        !takes_old_hash(draft, note, meta_hash, current, bias),
    ensures
        ({
            let r = synced_line(draft, note, meta_hash, current, bias);
            let again = synced_line(r.draft, r.note, meta_hash, current, bias);
            again.draft == r.draft && again.note == r.note
        }),
{
}

/// Bringing the comment on a file in step a second time changes neither side.
pub proof fn law_file_comment_synced_twice(
    draft: Option<Seq<char>>,
    note: Option<CommentView>,
    bias: SyncBias,
)
    ensures
        ({
            let r = synced_file_comment(draft, note, bias);
            let again = synced_file_comment(r.draft, r.note, bias);
            again.draft == r.draft && again.note == r.note && !again.draft_changed
                && !again.note_changed
        }),
{
}

/// Where the two sides are in step and the hashes are those of the code, a
/// synchronisation changes neither.
pub proof fn law_in_step_stays(
    note: CommentView,
    current: Option<Seq<char>>,
    bias: SyncBias,
)
    requires
        !note.resolved,
        note.snippet_hash is Some,
        note.snippet_hash == current,
    ensures
        synced_line(Some(note.body), Some(note), current, current, bias) == (LineSyncView {
            draft: Some(note.body),
            note: Some(note),
            draft_changed: false,
            note_changed: false,
        }),
        synced_file_comment(Some(note.body), Some(note), bias) == (LineSyncView {
            draft: Some(note.body),
            note: Some(note),
            draft_changed: false,
            note_changed: false,
        }),
{
}

/// What the two sides hold about one line, or about a file.
struct LineSync {
    draft: Option<String>,
    note: Option<Comment>,
    draft_changed: bool,
    note_changed: bool,
}

impl View for LineSync {
    type V = LineSyncView;

    closed spec fn view(&self) -> LineSyncView {
        LineSyncView {
            draft: text::opt_view(self.draft),
            note: review::opt_comment(self.note),
            draft_changed: self.draft_changed,
            note_changed: self.note_changed,
        }
    }
}

fn either_of(a: &Option<String>, b: &Option<String>) -> (r: Option<String>)
    ensures
        text::opt_view(r) == either(text::opt_view(*a), text::opt_view(*b)),
{
    match a {
        Some(s) => Some(s.clone()),
        None => review::copy_opt(b),
    }
}

fn same_opt(a: &Option<String>, b: &Option<String>) -> (r: bool)
    ensures
        r == (text::opt_view(*a) == text::opt_view(*b)),
{
    match (a, b) {
        (Some(x), Some(y)) => text::same(x.as_str(), y.as_str()),
        (None, None) => true,
        _ => false,
    }
}

/// The body and the hash of a comment that is not resolved.
fn live_parts(note: &Option<Comment>) -> (r: (Option<String>, Option<String>))
    ensures
        text::opt_view(r.0) == live_body(review::opt_comment(*note)),
        text::opt_view(r.1) == live_hash(review::opt_comment(*note)),
{
    match note {
        Some(c) => if c.resolved {
            (None, None)
        } else {
            (Some(c.body.clone()), review::copy_opt(&c.snippet_hash))
        },
        None => (None, None),
    }
}

/// Brings the comment on a file in step.
fn sync_file_comment(draft: Option<String>, note: Option<Comment>, bias: SyncBias) -> (r: LineSync)
    ensures
        r@ == synced_file_comment(text::opt_view(draft), review::opt_comment(note), bias),
{
    let (body, hash) = live_parts(&note);
    if same_opt(&draft, &body) {
        LineSync { draft, note, draft_changed: false, note_changed: false }
    } else if bias.prefers_draft() {
        let note = match &draft {
            Some(b) => Some(Comment { body: b.clone(), resolved: false, snippet_hash: None }),
            None => None,
        };
        LineSync { draft, note, draft_changed: false, note_changed: true }
    } else {
        LineSync { draft: body, note, draft_changed: true, note_changed: false }
    }
}

/// Which side follows the other about a line that is not out of date.
fn winner(
    draft: &Option<String>,
    note: &Option<Comment>,
    meta_hash: &Option<String>,
    current: &Option<String>,
    bias: SyncBias,
) -> (r: SyncAction)
    ensures
        r == line_winner(
            text::opt_view(*draft),
            review::opt_comment(*note),
            text::opt_view(*meta_hash),
            text::opt_view(*current),
            bias,
        ),
{
    let (body, hash) = live_parts(note);
    let draft_valid = draft.is_some() && current.is_some() && !(meta_hash.is_none()
        && body.is_some());
    let notes_valid = body.is_some() && current.is_some();
    if draft_valid && !notes_valid {
        match bias.change {
            Some(SyncAction::DraftFromNotes) => SyncAction::DraftFromNotes,
            _ => SyncAction::NotesFromDraft,
        }
    } else if notes_valid && !draft_valid {
        SyncAction::DraftFromNotes
    } else if draft_valid && notes_valid && same_opt(draft, &body) {
        SyncAction::Keep
    } else {
        match bias.change {
            Some(a) => a,
            None => if bias.draft_newer {
                SyncAction::NotesFromDraft
            } else {
                SyncAction::DraftFromNotes
            },
        }
    }
}

/// Brings a line in step.
fn sync_line(
    draft: Option<String>,
    note: Option<Comment>,
    meta_hash: Option<String>,
    current: Option<String>,
    bias: SyncBias,
) -> (r: LineSync)
    ensures
        r@ == synced_line(
            text::opt_view(draft),
            review::opt_comment(note),
            text::opt_view(meta_hash),
            text::opt_view(current),
            bias,
        ),
{
    let (body, hash) = live_parts(&note);
    let drops = match bias.change {
        Some(SyncAction::NotesFromDraft) => draft.is_none(),
        _ => false,
    };
    if drops {
        return if body.is_some() {
            LineSync { draft: None, note: None, draft_changed: false, note_changed: true }
        } else {
            LineSync { draft: None, note, draft_changed: false, note_changed: false }
        };
    }
    let stored = either_of(&hash, &meta_hash);
    let stale = if current.is_some() {
        stored.is_some() && !same_opt(&stored, &current)
    } else {
        draft.is_some() || body.is_some()
    };
    if stale {
        let draft_changed = draft.is_some();
        return match note {
            Some(c) => {
                if c.resolved {
                    LineSync { draft: None, note: Some(c), draft_changed, note_changed: false }
                } else {
                    LineSync {
                        draft: None,
                        note: Some(
                            Comment {
                                body: c.body,
                                resolved: true,
                                snippet_hash: c.snippet_hash,
                            },
                        ),
                        draft_changed,
                        note_changed: true,
                    }
                }
            },
            None => LineSync { draft: None, note: None, draft_changed, note_changed: false },
        };
    }
    let adopts = body.is_some() && hash.is_none() && current.is_some();
    let action = winner(&draft, &note, &meta_hash, &current, bias);
    let kept = if adopts {
        match note {
            Some(c) => Some(
                Comment {
                    body: c.body,
                    resolved: c.resolved,
                    snippet_hash: either_of(&meta_hash, &current),
                },
            ),
            None => None,
        }
    } else {
        note
    };
    match action {
        SyncAction::Keep => LineSync {
            draft,
            note: kept,
            draft_changed: false,
            note_changed: adopts,
        },
        SyncAction::NotesFromDraft => {
            let note_changed = adopts || draft.is_some() || body.is_some();
            let note = match &draft {
                Some(b) => Some(
                    Comment {
                        body: b.clone(),
                        resolved: false,
                        snippet_hash: either_of(&meta_hash, &current),
                    },
                ),
                None => if body.is_some() {
                    None
                } else {
                    kept
                },
            };
            LineSync { draft, note, draft_changed: false, note_changed }
        },
        SyncAction::DraftFromNotes => {
            let draft_changed = body.is_some() || draft.is_some();
            LineSync { draft: body, note: kept, draft_changed, note_changed: adopts }
        },
    }
}

/// The value of a map under a key, if there is one.
pub open spec fn at<A, B>(m: Map<A, B>, k: A) -> Option<B> {
    if m.contains_key(k) {
        Some(m[k])
    } else {
        None
    }
}

/// The hash of the code on the line `k` of `path`, where there is code.
pub open spec fn code_hash(
    path: Seq<char>,
    k: LineKey,
    snippets: Map<LineKey, Seq<char>>,
) -> Option<Seq<char>> {
    if snippets.contains_key(k) {
        hash::text_hash(hash::snippet_preimage(path, k, snippets[k]))
    } else {
        None
    }
}

/// What a synchronisation goes by, for one file: the hashes that were kept
/// beside the draft, the code on its lines, and which side changed.
pub struct SyncContext {
    pub path: Seq<char>,
    pub hashes: Map<Seq<char>, Seq<char>>,
    pub snippets: Map<LineKey, Seq<char>>,
    pub bias: SyncBias,
}

/// What the two sides hold about the line `k` after they were brought in step.
pub open spec fn line_result(
    draft: DraftFileView,
    notes: FileReviewView,
    ctx: SyncContext,
    k: LineKey,
) -> LineSyncView {
    synced_line(
        at(draft.comments, k),
        at(notes.comments, k),
        at(ctx.hashes, hash::meta_key_text(ctx.path, hash::side_name(k.side), k.line as nat)),
        code_hash(ctx.path, k, ctx.snippets),
        ctx.bias,
    )
}

/// What the two sides hold about a file after they were brought in step, and
/// which of them changed.
#[verifier::ext_equal]
pub struct FileSyncView {
    pub draft: DraftFileView,
    pub notes: FileReviewView,
    pub draft_updated: bool,
    pub notes_dirty: bool,
}

/// What the two sides hold about a file after they were brought in step: its
/// comment, and each of its lines.
pub open spec fn synced_file(
    draft: DraftFileView,
    notes: FileReviewView,
    ctx: SyncContext,
) -> FileSyncView {
    let whole = synced_file_comment(draft.file_comment, notes.file_comment, ctx.bias);
    FileSyncView {
        draft: DraftFileView {
            file_comment: whole.draft,
            comments: Map::new(
                |k: LineKey| line_result(draft, notes, ctx, k).draft is Some,
                |k: LineKey| line_result(draft, notes, ctx, k).draft->0,
            ),
        },
        notes: FileReviewView {
            file_comment: whole.note,
            comments: Map::new(
                |k: LineKey| line_result(draft, notes, ctx, k).note is Some,
                |k: LineKey| line_result(draft, notes, ctx, k).note->0,
            ),
            ..notes
        },
        draft_updated: whole.draft_changed || exists|k: LineKey|
            (#[trigger] line_result(draft, notes, ctx, k)).draft_changed,
        notes_dirty: whole.note_changed || exists|k: LineKey|
            (#[trigger] line_result(draft, notes, ctx, k)).note_changed,
    }
}

/// After a file was brought in step, the draft holds exactly what is not
/// resolved in the notes.
pub proof fn law_file_in_step(draft: DraftFileView, notes: FileReviewView, ctx: SyncContext)
    requires
        ctx.bias.change != Some(SyncAction::Keep),
    ensures
        ({
            let r = synced_file(draft, notes, ctx);
            &&& r.draft.file_comment == live_body(r.notes.file_comment)
            &&& forall|k: LineKey|
                #[trigger] at(r.draft.comments, k) == live_body(at(r.notes.comments, k))
        }),
{
    let r = synced_file(draft, notes, ctx);
    assert forall|k: LineKey| #[trigger] at(r.draft.comments, k) == live_body(
        at(r.notes.comments, k),
    ) by {
        let l = line_result(draft, notes, ctx, k);
        assert(at(r.draft.comments, k) == l.draft);
        assert(at(r.notes.comments, k) == l.note);
    }
}

/// Bringing a file in step a second time changes neither side.
pub proof fn law_file_synced_twice(draft: DraftFileView, notes: FileReviewView, ctx: SyncContext)
    requires
        ctx.bias.change != Some(SyncAction::Keep),
        forall|k: LineKey|
            !takes_old_hash(
                #[trigger] at(draft.comments, k),
                at(notes.comments, k),
                at(
                    ctx.hashes,
                    hash::meta_key_text(ctx.path, hash::side_name(k.side), k.line as nat),
                ),
                code_hash(ctx.path, k, ctx.snippets),
                ctx.bias,
            ),
    ensures
        ({
            let r = synced_file(draft, notes, ctx);
            let again = synced_file(r.draft, r.notes, ctx);
            again.draft == r.draft && again.notes == r.notes
        }),
{
    let r = synced_file(draft, notes, ctx);
    let again = synced_file(r.draft, r.notes, ctx);
    law_file_comment_synced_twice(draft.file_comment, notes.file_comment, ctx.bias);
    assert forall|k: LineKey|
        line_result(r.draft, r.notes, ctx, k).draft == line_result(draft, notes, ctx, k).draft
            && line_result(r.draft, r.notes, ctx, k).note == line_result(
            draft,
            notes,
            ctx,
            k,
        ).note by {
        let l = line_result(draft, notes, ctx, k);
        assert(at(r.draft.comments, k) == l.draft);
        assert(at(r.notes.comments, k) == l.note);
        assert(!takes_old_hash(
            at(draft.comments, k),
            at(notes.comments, k),
            at(ctx.hashes, hash::meta_key_text(ctx.path, hash::side_name(k.side), k.line as nat)),
            code_hash(ctx.path, k, ctx.snippets),
            ctx.bias,
        ));
        law_line_synced_twice(
            at(draft.comments, k),
            at(notes.comments, k),
            at(ctx.hashes, hash::meta_key_text(ctx.path, hash::side_name(k.side), k.line as nat)),
            code_hash(ctx.path, k, ctx.snippets),
            ctx.bias,
        );
    }
    assert(again.draft.comments =~= r.draft.comments);
    assert(again.notes.comments =~= r.notes.comments);
}

/// Whether one of the two sides has a live comment on the line `k`.
pub open spec fn is_spoken_of(draft: DraftFileView, notes: FileReviewView, k: LineKey) -> bool {
    draft.comments.contains_key(k) || live_body(at(notes.comments, k)) is Some
}

/// The lines about which one of the two sides says something: those whose code
/// a synchronisation needs.
pub fn sync_keys(draft: &DraftFileReview, notes: &FileReview) -> (keys: Vec<LineKey>)
    ensures
        forall|k: LineKey| #[trigger] keys@.contains(k) == is_spoken_of(draft@, notes@, k),
{
    let mut keys: Vec<LineKey> = Vec::new();
    let n: usize = draft.comments.len();
    let ghost e = ordmap::ordered::<LineKey, Seq<char>>(draft.comments@);
    let mut i: usize = 0;
    while i < n
        invariant
            i <= n == e.len(),
            e == ordmap::ordered::<LineKey, Seq<char>>(draft.comments@),
            keys@ =~= Seq::new(i as nat, |j: int| e[j].0),
        decreases n - i,
    {
        keys.push(*draft.comments.key_at(i));
        i += 1;
    }
    let ghost first = keys@;
    assert forall|k: LineKey| #[trigger] first.contains(k) == draft@.comments.contains_key(k) by {
        if first.contains(k) {
            let j = choose|j: int| 0 <= j < first.len() && first[j] == k;
            ordmap::lemma_map_of_at::<LineKey, Seq<char>>(e, j);
        }
        if draft@.comments.contains_key(k) {
            let j = ordmap::index_of_key(e, k);
            assert(e[j].0 == k);
            assert(first[j] == k);
        }
    }
    let m: usize = notes.comments.len();
    let ghost c = ordmap::ordered::<LineKey, CommentView>(notes.comments@);
    i = 0;
    while i < m
        invariant
            i <= m == c.len(),
            c == ordmap::ordered::<LineKey, CommentView>(notes.comments@),
            forall|k: LineKey| #[trigger]
                keys@.contains(k) == (first.contains(k) || exists|j: int|
                    0 <= j < i && (#[trigger] c[j]).0 == k && !c[j].1.resolved),
        decreases m - i,
    {
        let ghost before = keys@;
        if !notes.comments.val_at(i).resolved {
            keys.push(*notes.comments.key_at(i));
        }
        assert forall|k: LineKey| #[trigger]
            keys@.contains(k) == (first.contains(k) || exists|j: int|
                0 <= j < i + 1 && (#[trigger] c[j]).0 == k && !c[j].1.resolved) by {
            if !c[i as int].1.resolved {
                assert(keys@ =~= before.push(c[i as int].0));
                if before.contains(k) {
                    let j = choose|j: int| 0 <= j < before.len() && before[j] == k;
                    assert(keys@[j] == k);
                }
                if k == c[i as int].0 {
                    assert(keys@[before.len() as int] == k);
                }
                if keys@.contains(k) && k != c[i as int].0 {
                    let j = choose|j: int| 0 <= j < keys@.len() && keys@[j] == k;
                    assert(before[j] == k);
                }
            }
        }
        i += 1;
    }
    assert forall|k: LineKey| #[trigger] keys@.contains(k) == is_spoken_of(draft@, notes@, k) by {
        if exists|j: int| 0 <= j < m && (#[trigger] c[j]).0 == k && !c[j].1.resolved {
            let j = choose|j: int| 0 <= j < m && (#[trigger] c[j]).0 == k && !c[j].1.resolved;
            ordmap::lemma_map_of_at::<LineKey, CommentView>(c, j);
        }
        if live_body(at(notes@.comments, k)) is Some {
            let j = ordmap::index_of_key(c, k);
            ordmap::lemma_map_of_at::<LineKey, CommentView>(c, j);
            assert(c[j].0 == k);
        }
    }
    keys
}

/// The two sides of a file after they were brought in step.
pub struct FileSync {
    pub draft: DraftFileReview,
    pub notes: FileReview,
    pub draft_updated: bool,
    pub notes_dirty: bool,
}

impl View for FileSync {
    type V = FileSyncView;

    open spec fn view(&self) -> FileSyncView {
        FileSyncView {
            draft: self.draft@,
            notes: self.notes@,
            draft_updated: self.draft_updated,
            notes_dirty: self.notes_dirty,
        }
    }
}

fn get_copy<K: ordmap::Key, V: Duplicate>(m: &OrdMap<K, V>, k: &K) -> (r: Option<V>)
    ensures
        match r {
            Some(v) => at(m@, k@) == Some(v@),
            None => at(m@, k@) is None,
        },
{
    match m.get(k) {
        Some(v) => Some(v.duplicate()),
        None => None,
    }
}

fn put_or_remove<V: View>(m: &mut OrdMap<LineKey, V>, k: LineKey, v: Option<V>)
    ensures
        final(m)@ == (match v {
            Some(v) => old(m)@.insert(k, v@),
            None => old(m)@.remove(k),
        }),
{
    match v {
        Some(v) => {
            m.insert(k, v);
        },
        None => {
            m.remove(&k);
        },
    }
}

/// Brings one file in step. `hashes` holds the hashes kept beside the draft,
/// `snippets` the code on the lines that are spoken of, where there is code.
pub fn sync_file(
    path: &str,
    draft: &DraftFileReview,
    notes: &FileReview,
    hashes: &OrdMap<String, String>,
    snippets: &OrdMap<LineKey, String>,
    bias: SyncBias,
) -> (r: FileSync)
    ensures
        r@ == synced_file(
            draft@,
            notes@,
            (SyncContext { path: path@, hashes: hashes@, snippets: snippets@, bias }),
        ),
{
    let ghost ctx = SyncContext { path: path@, hashes: hashes@, snippets: snippets@, bias };
    let whole = sync_file_comment(
        review::copy_opt(&draft.file_comment),
        review::copy_comment(&notes.file_comment),
        bias,
    );
    let keys = sync_keys(draft, notes);
    let mut draft_lines = draft.comments.duplicate();
    let mut note_lines = notes.comments.duplicate();
    let mut draft_updated = whole.draft_changed;
    let mut notes_dirty = whole.note_changed;
    let mut i: usize = 0;
    while i < keys.len()
        invariant
            i <= keys.len(),
            ctx == (SyncContext { path: path@, hashes: hashes@, snippets: snippets@, bias }),
            forall|k: LineKey| #[trigger]
                at(draft_lines@, k) == (if keys@.take(i as int).contains(k) {
                    line_result(draft@, notes@, ctx, k).draft
                } else {
                    at(draft@.comments, k)
                }),
            forall|k: LineKey| #[trigger]
                at(note_lines@, k) == (if keys@.take(i as int).contains(k) {
                    line_result(draft@, notes@, ctx, k).note
                } else {
                    at(notes@.comments, k)
                }),
            draft_updated == (whole.draft_changed || exists|j: int|
                0 <= j < i && line_result(draft@, notes@, ctx, #[trigger] keys@[j]).draft_changed),
            notes_dirty == (whole.note_changed || exists|j: int|
                0 <= j < i && line_result(draft@, notes@, ctx, #[trigger] keys@[j]).note_changed),
        decreases keys.len() - i,
    {
        let key = keys[i];
        let meta_key = hash::meta_key(path, hash::side_label(key.side), key.line);
        let current = match snippets.get(&key) {
            Some(code) => hash::snippet_hash(path, key, code.as_str()),
            None => None,
        };
        let line = sync_line(
            get_copy(&draft.comments, &key),
            get_copy(&notes.comments, &key),
            get_copy(hashes, &meta_key),
            current,
            bias,
        );
        let ghost result = line_result(draft@, notes@, ctx, key);
        assert(line@ == result);
        let ghost draft_before = draft_lines@;
        let ghost notes_before = note_lines@;
        draft_updated = draft_updated || line.draft_changed;
        notes_dirty = notes_dirty || line.note_changed;
        put_or_remove(&mut draft_lines, key, line.draft);
        put_or_remove(&mut note_lines, key, line.note);
        proof {
            let seen = keys@.take(i as int);
            let next = keys@.take(i + 1);
            assert(next =~= seen.push(key));
            assert forall|k: LineKey| next.contains(k) == (seen.contains(k) || k == key) by {
                if seen.contains(k) {
                    let j = choose|j: int| 0 <= j < seen.len() && seen[j] == k;
                    assert(next[j] == k);
                }
                if k == key {
                    assert(next[i as int] == k);
                }
                if next.contains(k) && k != key {
                    let j = choose|j: int| 0 <= j < next.len() && next[j] == k;
                    assert(seen[j] == k);
                }
            }
            assert forall|k: LineKey| #[trigger]
                at(draft_lines@, k) == (if next.contains(k) {
                    line_result(draft@, notes@, ctx, k).draft
                } else {
                    at(draft@.comments, k)
                }) by {
                if k != key {
                    assert(at(draft_lines@, k) == at(draft_before, k));
                }
            }
            assert forall|k: LineKey| #[trigger]
                at(note_lines@, k) == (if next.contains(k) {
                    line_result(draft@, notes@, ctx, k).note
                } else {
                    at(notes@.comments, k)
                }) by {
                if k != key {
                    assert(at(note_lines@, k) == at(notes_before, k));
                }
            }
            assert(keys@[i as int] == key);
        }
        i += 1;
    }
    proof {
        assert(keys@.take(i as int) =~= keys@);
        assert forall|k: LineKey| !keys@.contains(k) implies line_result(draft@, notes@, ctx, k)
            == (LineSyncView {
            draft: None,
            note: at(notes@.comments, k),
            draft_changed: false,
            note_changed: false,
        }) by {
            assert(!is_spoken_of(draft@, notes@, k));
        }
        let want = synced_file(draft@, notes@, ctx);
        assert forall|k: LineKey| #[trigger]
            at(draft_lines@, k) == at(want.draft.comments, k) by {}
        assert forall|k: LineKey| #[trigger]
            at(note_lines@, k) == at(want.notes.comments, k) by {}
        lemma_same_map(draft_lines@, want.draft.comments);
        lemma_same_map(note_lines@, want.notes.comments);
        assert forall|k: LineKey|
            (#[trigger] line_result(draft@, notes@, ctx, k)).draft_changed implies draft_updated by {
            if keys@.contains(k) {
                let j = choose|j: int| 0 <= j < keys@.len() && keys@[j] == k;
                assert(line_result(draft@, notes@, ctx, keys@[j]).draft_changed);
            }
        }
        assert forall|k: LineKey|
            (#[trigger] line_result(draft@, notes@, ctx, k)).note_changed implies notes_dirty by {
            if keys@.contains(k) {
                let j = choose|j: int| 0 <= j < keys@.len() && keys@[j] == k;
                assert(line_result(draft@, notes@, ctx, keys@[j]).note_changed);
            }
        }
    }
    FileSync {
        draft: DraftFileReview { file_comment: whole.draft, comments: draft_lines },
        notes: FileReview {
            file_comment: whole.note,
            comments: note_lines,
            reviewed: notes.reviewed,
            reviewed_hash: review::copy_opt(&notes.reviewed_hash),
        },
        draft_updated,
        notes_dirty,
    }
}

/// Two maps that hold the same under each key are the same.
proof fn lemma_same_map<A, B>(a: Map<A, B>, b: Map<A, B>)
    requires
        forall|k: A| #[trigger] at(a, k) == at(b, k),
    ensures
        a == b,
{
    assert forall|k: A| a.contains_key(k) == b.contains_key(k) by {
        assert(at(a, k) == at(b, k));
    }
    assert forall|k: A| a.contains_key(k) implies a[k] == b[k] by {
        assert(at(a, k) == at(b, k));
    }
    assert(a =~= b);
}

/// The key under which the hash of the line `k` of `path` is kept.
pub open spec fn line_meta_key(path: Seq<char>, k: LineKey) -> Seq<char> {
    hash::meta_key_text(path, hash::side_name(k.side), k.line as nat)
}

/// Adds the hashes of the comments of a file that are not resolved.
fn collect_hashes(m: &mut OrdMap<String, String>, path: &str, notes: &FileReview)
    ensures
        forall|p: Seq<char>, k: LineKey| #[trigger]
            at(final(m)@, line_meta_key(p, k)) == (if p == path@ {
                either(live_hash(at(notes@.comments, k)), at(old(m)@, line_meta_key(p, k)))
            } else {
                at(old(m)@, line_meta_key(p, k))
            }),
        forall|x: Seq<char>| #[trigger]
            final(m)@.contains_key(x) ==> old(m)@.contains_key(x) || exists|k: LineKey|
                x == #[trigger] line_meta_key(path@, k),
{
    let n: usize = notes.comments.len();
    let ghost e = ordmap::ordered::<LineKey, CommentView>(notes.comments@);
    let ghost start = m@;
    let mut i: usize = 0;
    proof {
        ordmap::lemma_map_of_empty::<LineKey, CommentView>();
        assert(e.take(0) =~= Seq::empty());
    }
    while i < n
        invariant
            i <= n == e.len(),
            e == ordmap::ordered::<LineKey, CommentView>(notes.comments@),
            ordmap::increasing::<LineKey, CommentView>(e),
            start == old(m)@,
            forall|p: Seq<char>, k: LineKey| #[trigger]
                at(m@, line_meta_key(p, k)) == (if p == path@ {
                    either(
                        live_hash(at(ordmap::map_of(e.take(i as int)), k)),
                        at(start, line_meta_key(p, k)),
                    )
                } else {
                    at(start, line_meta_key(p, k))
                }),
            forall|x: Seq<char>| #[trigger]
                m@.contains_key(x) ==> start.contains_key(x) || exists|k: LineKey|
                    x == #[trigger] line_meta_key(path@, k),
        decreases n - i,
    {
        let ghost seen = ordmap::map_of(e.take(i as int));
        let ghost next = ordmap::map_of(e.take(i + 1));
        proof {
            ordmap::lemma_take_next::<LineKey, CommentView>(e, i as int);
        }
        let key = *notes.comments.key_at(i);
        let c = notes.comments.val_at(i);
        let ghost before = m@;
        if !c.resolved {
            match &c.snippet_hash {
                Some(h) => {
                    m.insert(
                        hash::meta_key(path, hash::side_label(key.side), key.line),
                        h.clone(),
                    );
                    assert(m@ == before.insert(line_meta_key(path@, key), h@));
                },
                None => {},
            }
        }
        proof {
            assert forall|p: Seq<char>, k: LineKey| #[trigger]
                at(m@, line_meta_key(p, k)) == (if p == path@ {
                    either(live_hash(at(next, k)), at(start, line_meta_key(p, k)))
                } else {
                    at(start, line_meta_key(p, k))
                }) by {
                assert(at(before, line_meta_key(p, k)) == (if p == path@ {
                    either(live_hash(at(seen, k)), at(start, line_meta_key(p, k)))
                } else {
                    at(start, line_meta_key(p, k))
                }));
                if line_meta_key(p, k) == line_meta_key(path@, key) {
                    hash::law_meta_key_tells_lines_apart(p, k, path@, key);
                }
                if k != key {
                    assert(at(next, k) == at(seen, k));
                }
            }
            assert forall|x: Seq<char>| #[trigger] m@.contains_key(x) implies start.contains_key(x)
                || exists|k: LineKey| x == #[trigger] line_meta_key(path@, k) by {
                if x == line_meta_key(path@, key) {
                } else {
                    assert(before.contains_key(x));
                }
            }
        }
        i += 1;
    }
    assert(e.take(n as int) =~= e);
}

/// Whether a synchronisation visits `path`: it is in the work tree, or the draft speaks of it.
pub open spec fn is_visited(in_tree: Seq<Seq<char>>, draft: DraftView, path: Seq<char>) -> bool {
    in_tree.contains(path) || draft.contains_key(path)
}

/// The paths that a synchronisation visits, in order, each once.
pub fn sync_paths(in_tree: &Vec<String>, draft: &DraftReview) -> (out: Vec<String>)
    ensures
        forall|p: Seq<char>| #[trigger]
            text::views(out@).contains(p) == is_visited(text::views(in_tree@), draft@, p),
        forall|i: int, j: int|
            0 <= i < j < out@.len() ==> text::lex_before(
                (#[trigger] out@[i])@,
                (#[trigger] out@[j])@,
            ),
{
    let mut all = OrdMap::<String, String>::new();
    let mut i: usize = 0;
    while i < in_tree.len()
        invariant
            i <= in_tree.len(),
            forall|p: Seq<char>| #[trigger]
                all@.contains_key(p) == exists|j: int| 0 <= j < i && (#[trigger] in_tree@[j])@ == p,
        decreases in_tree.len() - i,
    {
        let ghost before = all@;
        all.insert(in_tree[i].clone(), in_tree[i].clone());
        assert forall|p: Seq<char>| #[trigger]
            all@.contains_key(p) == exists|j: int|
                0 <= j < i + 1 && (#[trigger] in_tree@[j])@ == p by {
            if before.contains_key(p) {
                let j = choose|j: int| 0 <= j < i && (#[trigger] in_tree@[j])@ == p;
                assert(in_tree@[j]@ == p);
            }
        }
        i += 1;
    }
    let n: usize = draft.files.len();
    let ghost e = ordmap::ordered::<String, DraftFileView>(draft@);
    let ghost named = all@;
    i = 0;
    while i < n
        invariant
            i <= n == e.len(),
            e == ordmap::ordered::<String, DraftFileView>(draft@),
            forall|p: Seq<char>| #[trigger]
                all@.contains_key(p) == (named.contains_key(p) || exists|j: int|
                    0 <= j < i && (#[trigger] e[j]).0 == p),
        decreases n - i,
    {
        let ghost before = all@;
        all.insert(draft.files.key_at(i).clone(), draft.files.key_at(i).clone());
        assert forall|p: Seq<char>| #[trigger]
            all@.contains_key(p) == (named.contains_key(p) || exists|j: int|
                0 <= j < i + 1 && (#[trigger] e[j]).0 == p) by {
            assert(all@.contains_key(p) == (before.contains_key(p) || p == e[i as int].0));
        }
        i += 1;
    }
    let m: usize = all.len();
    let ghost o = ordmap::ordered::<String, Seq<char>>(all@);
    let mut out: Vec<String> = Vec::new();
    i = 0;
    while i < m
        invariant
            i <= m == o.len(),
            o == ordmap::ordered::<String, Seq<char>>(all@),
            text::views(out@) =~= Seq::new(i as nat, |j: int| o[j].0),
        decreases m - i,
    {
        let ghost before = text::views(out@);
        out.push(all.key_at(i).clone());
        assert(text::views(out@) =~= before.push(o[i as int].0));
        i += 1;
    }
    proof {
        let t = text::views(in_tree@);
        assert forall|p: Seq<char>| #[trigger]
            text::views(out@).contains(p) == is_visited(t, draft@, p) by {
            assert(all@.contains_key(p) == ordmap::has_key(o, p));
            if text::views(out@).contains(p) {
                let j = choose|j: int|
                    0 <= j < text::views(out@).len() && text::views(out@)[j] == p;
                assert(o[j].0 == p);
            }
            if ordmap::has_key(o, p) {
                let j = ordmap::index_of_key(o, p);
                assert(text::views(out@)[j] == p);
            }
            if t.contains(p) {
                let j = choose|j: int| 0 <= j < t.len() && t[j] == p;
                assert(in_tree@[j]@ == p);
            }
            if named.contains_key(p) {
                let j = choose|j: int|
                    0 <= j < in_tree@.len() && (#[trigger] in_tree@[j])@ == p;
                assert(t[j] == p);
            }
            if draft@.contains_key(p) {
                let j = ordmap::index_of_key(e, p);
                assert(e[j].0 == p);
            }
            if exists|j: int| 0 <= j < n && (#[trigger] e[j]).0 == p {
                let j = choose|j: int| 0 <= j < n && (#[trigger] e[j]).0 == p;
                ordmap::lemma_map_of_at::<String, DraftFileView>(e, j);
            }
        }
        assert forall|x: int, y: int| 0 <= x < y < out@.len() implies text::lex_before(
            (#[trigger] out@[x])@,
            (#[trigger] out@[y])@,
        ) by {
            assert(text::views(out@)[x] == o[x].0);
            assert(text::views(out@)[y] == o[y].0);
        }
    }
    out
}

/// What a synchronisation of all files goes by: the notes, the hashes kept
/// beside the draft, the code on the lines, and which side changed.
pub struct SyncInput {
    pub notes: ReviewView,
    pub hashes: Map<Seq<char>, Seq<char>>,
    pub snippets: Map<Seq<char>, Map<LineKey, Seq<char>>>,
    pub bias: SyncBias,
}

/// The code on the lines of `path`.
pub open spec fn snippets_of(
    m: Map<Seq<char>, Map<LineKey, Seq<char>>>,
    path: Seq<char>,
) -> Map<LineKey, Seq<char>> {
    if m.contains_key(path) {
        m[path]
    } else {
        Map::empty()
    }
}

/// What the two sides hold about `path` after they were brought in step.
pub open spec fn path_result(draft: DraftView, input: SyncInput, path: Seq<char>) -> FileSyncView {
    synced_file(
        draft::draft_or_blank(draft, path),
        review::file_or_blank(input.notes, path),
        SyncContext {
            path,
            hashes: input.hashes,
            snippets: snippets_of(input.snippets, path),
            bias: input.bias,
        },
    )
}

/// The outcome of a synchronisation: the draft, the notes that have to be
/// stored, the hashes of the comments that are not resolved, and whether the
/// draft has to be written.
pub struct SyncOutcome {
    pub draft: DraftReview,
    pub dirty: OrdMap<String, FileReview>,
    pub preferred: OrdMap<String, String>,
    pub draft_updated: bool,
}

/// Whether the draft changes by what was found about `path`.
pub open spec fn draft_moves(draft: DraftView, input: SyncInput, path: Seq<char>) -> bool {
    let r = path_result(draft, input, path);
    r.draft_updated || (draft.contains_key(path) && r.draft.is_bare())
}

/// What the draft has under `path` after a synchronisation that has visited `paths`.
pub open spec fn draft_after(
    draft: DraftView,
    input: SyncInput,
    visited: bool,
    path: Seq<char>,
) -> Option<DraftFileView> {
    if visited {
        let r = path_result(draft, input, path);
        if r.draft.is_bare() {
            None
        } else {
            Some(r.draft)
        }
    } else {
        at(draft, path)
    }
}

/// What has to be stored under `path` after a synchronisation.
pub open spec fn dirty_after(
    draft: DraftView,
    input: SyncInput,
    visited: bool,
    path: Seq<char>,
) -> Option<FileReviewView> {
    let r = path_result(draft, input, path);
    if visited && r.notes_dirty {
        Some(r.notes)
    } else {
        None
    }
}

/// The hash of the comment on the line `k` of `path` after a synchronisation,
/// where it is not resolved and has one.
pub open spec fn preferred_after(
    draft: DraftView,
    input: SyncInput,
    visited: bool,
    path: Seq<char>,
    k: LineKey,
) -> Option<Seq<char>> {
    if visited {
        live_hash(at(path_result(draft, input, path).notes.comments, k))
    } else {
        None
    }
}

/// The notes of a file as they are stored after a synchronisation.
pub open spec fn notes_after(
    draft: DraftView,
    input: SyncInput,
    visited: bool,
    path: Seq<char>,
) -> FileReviewView {
    match dirty_after(draft, input, visited, path) {
        Some(f) => f,
        None => review::file_or_blank(input.notes, path),
    }
}

/// After a synchronisation, the draft and the stored notes of a file that was visited
/// are in step: the draft holds exactly what is not resolved in the notes.
pub proof fn law_all_in_step(draft: DraftView, input: SyncInput, path: Seq<char>)
    requires
        input.bias.change != Some(SyncAction::Keep),
    ensures
        ({
            let d = match draft_after(draft, input, true, path) {
                Some(f) => f,
                None => DraftFileView::blank(),
            };
            let n = notes_after(draft, input, true, path);
            &&& d.file_comment == live_body(n.file_comment)
            &&& forall|k: LineKey| #[trigger] at(d.comments, k) == live_body(at(n.comments, k))
        }),
{
    let r = path_result(draft, input, path);
    let old = review::file_or_blank(input.notes, path);
    let before = draft::draft_or_blank(draft, path);
    let ctx = SyncContext {
        path,
        hashes: input.hashes,
        snippets: snippets_of(input.snippets, path),
        bias: input.bias,
    };
    law_file_in_step(before, old, ctx);
    let n = notes_after(draft, input, true, path);
    assert forall|k: LineKey| at(n.comments, k) == at(r.notes.comments, k) by {
        let l = line_result(before, old, ctx, k);
        assert(at(r.notes.comments, k) == l.note);
        if !r.notes_dirty {
            assert(!l.note_changed);
        }
    }
}

/// Brings the draft and the notes in step. `notes` holds the stored reviews,
/// `in_tree` the paths in the work tree, and `snippets` the code on the lines
/// that are spoken of. What led to it makes no difference.
pub fn sync_draft_notes_with_mode(
    draft: DraftReview,
    in_tree: &Vec<String>,
    notes: &OrdMap<String, FileReview>,
    hashes: &OrdMap<String, String>,
    snippets: &OrdMap<String, OrdMap<LineKey, String>>,
    bias: SyncBias,
    mode: DraftSyncMode,
) -> (out: SyncOutcome)
    ensures
        ({
            let input = SyncInput {
                notes: notes@,
                hashes: hashes@,
                snippets: snippets@,
                bias,
            };
            let t = text::views(in_tree@);
            let d = draft@;
            &&& forall|p: Seq<char>| #[trigger]
                at(out.draft@, p) == draft_after(d, input, is_visited(t, d, p), p)
            &&& forall|p: Seq<char>| #[trigger]
                at(out.dirty@, p) == dirty_after(d, input, is_visited(t, d, p), p)
            &&& forall|p: Seq<char>, k: LineKey| #[trigger]
                at(out.preferred@, line_meta_key(p, k)) == preferred_after(
                    d,
                    input,
                    is_visited(t, d, p),
                    p,
                    k,
                )
            &&& forall|x: Seq<char>| #[trigger]
                out.preferred@.contains_key(x) ==> exists|p: Seq<char>, k: LineKey|
                    x == #[trigger] line_meta_key(p, k)
            &&& out.draft_updated == exists|p: Seq<char>|
                is_visited(t, d, p) && #[trigger] draft_moves(d, input, p)
        }),
{
    let ghost input = SyncInput { notes: notes@, hashes: hashes@, snippets: snippets@, bias };
    let ghost d = draft@;
    let paths = sync_paths(in_tree, &draft);
    let ghost all = text::views(paths@);
    let mut out = draft;
    let mut dirty = OrdMap::<String, FileReview>::new();
    let mut preferred = OrdMap::<String, String>::new();
    let mut draft_updated = false;
    let none = OrdMap::<LineKey, String>::new();
    let mut i: usize = 0;
    while i < paths.len()
        invariant
            i <= paths.len() == all.len(),
            all == text::views(paths@),
            forall|x: int, y: int|
                0 <= x < y < paths@.len() ==> text::lex_before(
                    (#[trigger] paths@[x])@,
                    (#[trigger] paths@[y])@,
                ),
            input == (SyncInput { notes: notes@, hashes: hashes@, snippets: snippets@, bias }),
            none@ == Map::<LineKey, Seq<char>>::empty(),
            forall|p: Seq<char>| #[trigger]
                at(out@, p) == draft_after(d, input, all.take(i as int).contains(p), p),
            forall|p: Seq<char>| #[trigger]
                at(dirty@, p) == dirty_after(d, input, all.take(i as int).contains(p), p),
            forall|p: Seq<char>, k: LineKey| #[trigger]
                at(preferred@, line_meta_key(p, k)) == preferred_after(
                    d,
                    input,
                    all.take(i as int).contains(p),
                    p,
                    k,
                ),
            forall|x: Seq<char>| #[trigger]
                preferred@.contains_key(x) ==> exists|p: Seq<char>, k: LineKey|
                    x == #[trigger] line_meta_key(p, k),
            draft_updated == exists|j: int| 0 <= j < i && draft_moves(d, input, #[trigger] all[j]),
        decreases paths.len() - i,
    {
        let path = &paths[i];
        let ghost seen = all.take(i as int);
        let ghost next = all.take(i + 1);
        proof {
            assert(all[i as int] == path@);
            assert(!seen.contains(path@)) by {
                if seen.contains(path@) {
                    let j = choose|j: int| 0 <= j < seen.len() && seen[j] == path@;
                    assert(paths@[j]@ == path@);
                    assert(text::lex_before(paths@[j]@, paths@[i as int]@));
                    text::lemma_lex_irreflexive(path@);
                }
            }
            assert forall|p: Seq<char>| next.contains(p) == (seen.contains(p) || p == path@) by {
                if seen.contains(p) {
                    let j = choose|j: int| 0 <= j < seen.len() && seen[j] == p;
                    assert(next[j] == p);
                }
                if p == path@ {
                    assert(next[i as int] == p);
                }
                if next.contains(p) && p != path@ {
                    let j = choose|j: int| 0 <= j < next.len() && next[j] == p;
                    assert(seen[j] == p);
                }
            }
            assert(at(out@, path@) == at(d, path@));
        }
        let draft_part = match out.files.get(path) {
            Some(f) => f.duplicate(),
            None => DraftFileReview::default(),
        };
        let notes_part = match notes.get(path) {
            Some(f) => f.duplicate(),
            None => FileReview::default(),
        };
        let code = match snippets.get(path) {
            Some(m) => m,
            None => &none,
        };
        let r = sync_file(path.as_str(), &draft_part, &notes_part, hashes, code, bias);
        let ghost result = path_result(d, input, path@);
        assert(r@ == result);
        let was_there = out.files.contains_key(path);
        let bare = r.draft.file_comment.is_none() && r.draft.comments.is_empty();
        let ghost out_before = out@;
        let ghost dirty_before = dirty@;
        let ghost preferred_before = preferred@;
        collect_hashes(&mut preferred, path.as_str(), &r.notes);
        draft_updated = draft_updated || r.draft_updated || (was_there && bare);
        if bare {
            out.files.remove(path);
        } else {
            out.files.insert(path.clone(), r.draft);
        }
        if r.notes_dirty {
            dirty.insert(path.clone(), r.notes);
        }
        proof {
            assert forall|p: Seq<char>| #[trigger]
                at(out@, p) == draft_after(d, input, next.contains(p), p) by {
                if p != path@ {
                    assert(at(out@, p) == at(out_before, p));
                }
            }
            assert forall|p: Seq<char>| #[trigger]
                at(dirty@, p) == dirty_after(d, input, next.contains(p), p) by {
                assert(at(dirty_before, p) == dirty_after(d, input, seen.contains(p), p));
                if p != path@ {
                    assert(at(dirty@, p) == at(dirty_before, p));
                }
            }
            assert forall|p: Seq<char>, k: LineKey| #[trigger]
                at(preferred@, line_meta_key(p, k)) == preferred_after(
                    d,
                    input,
                    next.contains(p),
                    p,
                    k,
                ) by {
                assert(at(preferred_before, line_meta_key(p, k)) == preferred_after(
                    d,
                    input,
                    seen.contains(p),
                    p,
                    k,
                ));
            }
            assert(draft_moves(d, input, path@) == (r.draft_updated || (was_there && bare)));
            if draft_moves(d, input, path@) {
                assert(draft_moves(d, input, all[i as int]));
            }
        }
        i += 1;
    }
    proof {
        assert(all.take(i as int) =~= all);
        let t = text::views(in_tree@);
        assert forall|p: Seq<char>| all.contains(p) == is_visited(t, d, p) by {}
        assert forall|p: Seq<char>| is_visited(t, d, p) && #[trigger] draft_moves(d, input, p)
            implies draft_updated by {
            assert(all.contains(p));
            let j = choose|j: int| 0 <= j < all.len() && all[j] == p;
            assert(draft_moves(d, input, all[j]));
        }
        if draft_updated {
            let j = choose|j: int| 0 <= j < i && draft_moves(d, input, #[trigger] all[j]);
            assert(all.contains(all[j]));
            assert(is_visited(t, d, all[j]) && draft_moves(d, input, all[j]));
        }
    }
    SyncOutcome { draft: out, dirty, preferred, draft_updated }
}

} // verus!
