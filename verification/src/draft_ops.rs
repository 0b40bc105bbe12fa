//! What is done with a draft: starting a comment in it, taking one out,
//! storing its comments in the notes, and keeping the hashes of the code that
//! it comments on.
use crate::draft;
use crate::draft::{DraftFileReview, DraftFileView, DraftReview, DraftView};
use crate::hash;
use crate::ordmap;
use crate::ordmap::{Duplicate, OrdMap};
use crate::review;
use crate::review::{
    Comment, CommentView, FileReview, FileReviewView, LineKey, LineSide, Review, ReviewView,
};
use crate::sync;
use crate::sync::{DraftLineMeta, DraftMeta, NotesRefInfo};
use crate::text;
use vstd::prelude::*;

verus! {

/// What is kept of a line that a draft comments on.
pub struct LineMetaView {
    pub file: Seq<char>,
    pub side: Seq<char>,
    pub line: u32,
    pub hash: Seq<char>,
}

impl View for DraftLineMeta {
    type V = LineMetaView;

    open spec fn view(&self) -> LineMetaView {
        LineMetaView {
            file: self.file@,
            side: self.side@,
            line: self.line,
            hash: self.hash@,
        }
    }
}

/// What is kept of some lines.
pub open spec fn meta_views(v: Seq<DraftLineMeta>) -> Seq<LineMetaView> {
    v.map_values(|l: DraftLineMeta| l@)
}

/// What the hashes that are kept beside a draft are taken from: those kept
/// before, those of the notes, and the code on the lines.
pub struct MetaSources {
    pub kept: Map<Seq<char>, Seq<char>>,
    pub preferred: Map<Seq<char>, Seq<char>>,
    pub snippets: Map<Seq<char>, Map<LineKey, Seq<char>>>,
}

/// The hash to keep of the line `k` of `path`: the one kept before, else that
/// of the notes, else that of the code.
pub open spec fn hash_to_keep(path: Seq<char>, k: LineKey, src: MetaSources) -> Option<Seq<char>> {
    let key = sync::line_meta_key(path, k);
    sync::either(
        sync::at(src.kept, key),
        sync::either(
            sync::at(src.preferred, key),
            sync::code_hash(path, k, sync::snippets_of(src.snippets, path)),
        ),
    )
}

/// What is kept of the lines of one file.
pub open spec fn file_meta_lines(
    path: Seq<char>,
    e: Seq<(LineKey, Seq<char>)>,
    src: MetaSources,
) -> Seq<LineMetaView>
    decreases e.len(),
{
    if e.len() == 0 {
        seq![]
    } else {
        let front = file_meta_lines(path, e.drop_last(), src);
        let k = e.last().0;
        match hash_to_keep(path, k, src) {
            Some(h) => front.push(
                LineMetaView {
                    file: path,
                    side: hash::side_name(k.side),
                    line: k.line,
                    hash: h,
                },
            ),
            None => front,
        }
    }
}

/// What is kept of the lines of some files.
pub open spec fn all_meta_lines(
    e: Seq<(Seq<char>, DraftFileView)>,
    src: MetaSources,
) -> Seq<LineMetaView>
    decreases e.len(),
{
    if e.len() == 0 {
        seq![]
    } else {
        all_meta_lines(e.drop_last(), src) + file_meta_lines(
            e.last().0,
            ordmap::ordered::<LineKey, Seq<char>>(e.last().1.comments),
            src,
        )
    }
}

/// What an optional map holds; nothing where there is none.
pub open spec fn opt_map(o: Option<&OrdMap<String, String>>) -> Map<Seq<char>, Seq<char>> {
    match o {
        Some(m) => m@,
        None => Map::empty(),
    }
}

/// The hash to keep of a line.
fn keep_hash(
    path: &str,
    key: LineKey,
    kept: &OrdMap<String, String>,
    preferred: Option<&OrdMap<String, String>>,
    snippets: &OrdMap<String, OrdMap<LineKey, String>>,
) -> (r: Option<String>)
    ensures
        text::opt_view(r) == hash_to_keep(
            path@,
            key,
            (MetaSources { kept: kept@, preferred: opt_map(preferred), snippets: snippets@ }),
        ),
{
    let meta_key = hash::meta_key(path, hash::side_label(key.side), key.line);
    match kept.get(&meta_key) {
        Some(h) => {
            return Some(h.clone());
        },
        None => {},
    }
    match preferred {
        Some(m) => match m.get(&meta_key) {
            Some(h) => {
                return Some(h.clone());
            },
            None => {},
        },
        None => {},
    }
    match snippets.get(&path.to_owned()) {
        Some(m) => match m.get(&key) {
            Some(code) => hash::snippet_hash(path, key, code.as_str()),
            None => None,
        },
        None => None,
    }
}

/// What is kept beside `draft`: where the notes are, when and as what the
/// draft was written, and the hashes of the code that it comments on.
/// `existing` is what was kept before; `content` is the draft as a text.
pub fn rebuild_draft_meta(
    draft: &DraftReview,
    existing: &DraftMeta,
    preferred: Option<&OrdMap<String, String>>,
    snippets: &OrdMap<String, OrdMap<LineKey, String>>,
    info: &Option<NotesRefInfo>,
    draft_mtime: Option<i64>,
    content: Option<&str>,
) -> (out: DraftMeta)
    ensures
        text::opt_view(out.notes_ref_oid) == sync::info_oid(*info),
        out.notes_ref_time == sync::info_time(*info),
        out.draft_mtime == draft_mtime,
        text::opt_view(out.draft_hash) == (match content {
            Some(c) => hash::text_hash(hash::draft_preimage(c@)),
            None => None,
        }),
        meta_views(out.lines@) == all_meta_lines(
            ordmap::ordered::<String, DraftFileView>(draft@),
            (MetaSources {
                kept: sync::meta_map(existing.lines@),
                preferred: opt_map(preferred),
                snippets: snippets@,
            }),
        ),
{
    let kept = sync::meta_hash_map(existing);
    let ghost src = MetaSources {
        kept: kept@,
        preferred: opt_map(preferred),
        snippets: snippets@,
    };
    let n: usize = draft.files.len();
    let ghost e = ordmap::ordered::<String, DraftFileView>(draft@);
    let mut lines: Vec<DraftLineMeta> = Vec::new();
    let mut i: usize = 0;
    assert(e.take(0) =~= Seq::empty());
    while i < n
        invariant
            i <= n == e.len(),
            e == ordmap::ordered::<String, DraftFileView>(draft@),
            src == (MetaSources {
                kept: kept@,
                preferred: opt_map(preferred),
                snippets: snippets@,
            }),
            meta_views(lines@) == all_meta_lines(e.take(i as int), src),
        decreases n - i,
    {
        let path = draft.files.key_at(i);
        let file = draft.files.val_at(i);
        let m: usize = file.comments.len();
        let ghost c = ordmap::ordered::<LineKey, Seq<char>>(file.comments@);
        let ghost base = meta_views(lines@);
        let mut j: usize = 0;
        assert(c.take(0) =~= Seq::empty());
        while j < m
            invariant
                j <= m == c.len(),
                c == ordmap::ordered::<LineKey, Seq<char>>(file.comments@),
                src == (MetaSources {
                    kept: kept@,
                    preferred: opt_map(preferred),
                    snippets: snippets@,
                }),
                meta_views(lines@) == base + file_meta_lines(path@, c.take(j as int), src),
            decreases m - j,
        {
            assert(c.take(j + 1).drop_last() =~= c.take(j as int));
            let ghost before = meta_views(lines@);
            let key = *file.comments.key_at(j);
            match keep_hash(path.as_str(), key, &kept, preferred, snippets) {
                Some(hash) => {
                    let l = DraftLineMeta {
                        file: path.clone(),
                        side: hash::side_label(key.side).to_owned(),
                        line: key.line,
                        hash,
                    };
                    lines.push(l);
                    assert(meta_views(lines@) =~= before.push(l@));
                    assert(meta_views(lines@) =~= base + file_meta_lines(path@, c.take(j + 1), src));
                },
                None => {},
            }
            j += 1;
        }
        assert(c.take(m as int) =~= c);
        assert(e.take(i + 1).drop_last() =~= e.take(i as int));
        i += 1;
    }
    assert(e.take(n as int) =~= e);
    let (oid, time) = match info {
        Some(i) => (Some(i.oid.clone()), Some(i.time)),
        None => (None, None),
    };
    DraftMeta {
        notes_ref_oid: oid,
        notes_ref_time: time,
        draft_mtime,
        draft_hash: match content {
            Some(c) => hash::draft_content_hash(c),
            None => None,
        },
        lines,
    }
}

/// Why a comment of a draft was not stored.
#[derive(Debug, Clone, Copy, PartialEq, Eq, Structural)]
pub enum SkipReason {
    NoSnippet,
    MissingChecksum,
    OutOfDate,
}

impl SkipReason {
    /// The reason in words.
    pub open spec fn text(self) -> Seq<char> {
        match self {
            SkipReason::NoSnippet => "no snippet available"@,
            SkipReason::MissingChecksum => "missing checksum"@,
            SkipReason::OutOfDate => "draft out of date"@,
        }
    }

    /// The reason in words.
    pub fn message(&self) -> (r: &'static str)
        ensures
            r@ == self.text(),
    {
        match self {
            SkipReason::NoSnippet => "no snippet available",
            SkipReason::MissingChecksum => "missing checksum",
            SkipReason::OutOfDate => "draft out of date",
        }
    }
}

/// A comment of a draft that was not stored, and why.
#[derive(Debug, Clone, Copy, PartialEq, Eq, Structural)]
pub struct ApplySkip {
    pub line: u32,
    pub side: LineSide,
    pub reason: SkipReason,
}

/// What becomes of a line comment of a draft: stored with the given hash, or skipped.
pub enum LineFate {
    Stored(Seq<char>),
    Skipped(SkipReason),
}

/// What becomes of the comment on the line `k`: it is stored where the code is
/// still the code that it was written about.
pub open spec fn line_fate(
    path: Seq<char>,
    k: LineKey,
    hashes: Map<Seq<char>, Seq<char>>,
    snippets: Map<LineKey, Seq<char>>,
) -> LineFate {
    if !snippets.contains_key(k) {
        LineFate::Skipped(SkipReason::NoSnippet)
    } else {
        match sync::at(hashes, sync::line_meta_key(path, k)) {
            None => LineFate::Skipped(SkipReason::MissingChecksum),
            Some(stored) => if Some(stored) == sync::code_hash(path, k, snippets) {
                LineFate::Stored(stored)
            } else {
                LineFate::Skipped(SkipReason::OutOfDate)
            },
        }
    }
}

/// The review of a file while a draft is stored in it.
pub struct ApplyState {
    pub review: ReviewView,
    pub stored: nat,
    pub skipped: Seq<ApplySkip>,
}

/// What stands after the line comments `e` of a draft were stored or skipped.
pub open spec fn applied_lines(
    m: ReviewView,
    path: Seq<char>,
    e: Seq<(LineKey, Seq<char>)>,
    hashes: Map<Seq<char>, Seq<char>>,
    snippets: Map<LineKey, Seq<char>>,
) -> ApplyState
    decreases e.len(),
{
    if e.len() == 0 {
        ApplyState { review: m, stored: 0, skipped: seq![] }
    } else {
        let st = applied_lines(m, path, e.drop_last(), hashes, snippets);
        let (k, body) = e.last();
        match line_fate(path, k, hashes, snippets) {
            LineFate::Stored(h) => ApplyState {
                review: review::with_line_hash(
                    review::with_line_comment(st.review, path, k, body),
                    path,
                    k,
                    Some(h),
                ),
                stored: st.stored + 1,
                ..st
            },
            LineFate::Skipped(reason) => ApplyState {
                skipped: st.skipped.push(ApplySkip { line: k.line, side: k.side, reason }),
                ..st
            },
        }
    }
}

/// The line comments of `comments` on lines that the draft speaks of too.
pub open spec fn kept_lines(
    comments: Map<LineKey, CommentView>,
    draft: Map<LineKey, Seq<char>>,
) -> Map<LineKey, CommentView> {
    Map::new(
        |k: LineKey| comments.contains_key(k) && draft.contains_key(k),
        |k: LineKey| comments[k],
    )
}

/// `m` without the comments on lines of `path` that the draft does not speak of.
pub open spec fn without_dropped(
    m: ReviewView,
    path: Seq<char>,
    draft: Map<LineKey, Seq<char>>,
) -> ReviewView {
    if !m.contains_key(path) || kept_lines(m[path].comments, draft) == m[path].comments {
        m
    } else {
        review::settled(
            m,
            path,
            FileReviewView { comments: kept_lines(m[path].comments, draft), ..m[path] },
        )
    }
}

/// What stands of a file before the line comments of a draft are stored: what
/// the draft does not speak of is gone, and its comment on the file is set.
pub open spec fn applied_start(
    existing: Option<FileReviewView>,
    path: Seq<char>,
    draft: DraftFileView,
) -> ReviewView {
    let m0 = match existing {
        Some(f) => ReviewView::empty().insert(path, f),
        None => ReviewView::empty(),
    };
    let m1 = if draft.file_comment is None {
        review::without_file_comment(m0, path)
    } else {
        m0
    };
    let m2 = without_dropped(m1, path, draft.comments);
    match draft.file_comment {
        Some(body) => review::with_file_comment(m2, path, body),
        None => m2,
    }
}

/// What stands after a draft of one file was stored.
pub open spec fn applied_file(
    existing: Option<FileReviewView>,
    path: Seq<char>,
    draft: DraftFileView,
    hashes: Map<Seq<char>, Seq<char>>,
    snippets: Map<LineKey, Seq<char>>,
) -> ApplyState {
    applied_lines(
        applied_start(existing, path, draft),
        path,
        ordmap::ordered::<LineKey, Seq<char>>(draft.comments),
        hashes,
        snippets,
    )
}

/// No comment of a draft is lost: one that says something is in the review afterwards,
/// with the hash of the code that it is about, or is said to have been skipped, and why.
pub proof fn law_no_drafted_comment_is_lost(
    m: ReviewView,
    path: Seq<char>,
    e: Seq<(LineKey, Seq<char>)>,
    hashes: Map<Seq<char>, Seq<char>>,
    snippets: Map<LineKey, Seq<char>>,
    i: int,
)
    requires
        ordmap::increasing::<LineKey, Seq<char>>(e),
        0 <= i < e.len(),
        !text::is_blank(e[i].1),
    ensures
        ({
            let st = applied_lines(m, path, e, hashes, snippets);
            let (k, body) = e[i];
            let comments = review::file_or_blank(st.review, path).comments;
            match line_fate(path, k, hashes, snippets) {
                LineFate::Stored(h) => {
                    &&& comments.contains_key(k)
                    &&& comments[k].body == body
                    &&& comments[k].snippet_hash == Some(h)
                },
                LineFate::Skipped(reason) => st.skipped.contains(
                    ApplySkip { line: k.line, side: k.side, reason },
                ),
            }
        }),
    decreases e.len(),
{
    let rest = e.drop_last();
    let before = applied_lines(m, path, rest, hashes, snippets);
    let st = applied_lines(m, path, e, hashes, snippets);
    let (k, body) = e[i];
    let (last, said) = e.last();
    if i < e.len() - 1 {
        assert(rest[i] == e[i]);
        assert(ordmap::increasing::<LineKey, Seq<char>>(rest));
        law_no_drafted_comment_is_lost(m, path, rest, hashes, snippets, i);
        assert(<LineKey as ordmap::Key>::precedes(k, last));
        match line_fate(path, k, hashes, snippets) {
            LineFate::Stored(_) => {},
            LineFate::Skipped(reason) => {
                let skip = ApplySkip { line: k.line, side: k.side, reason };
                let j = choose|j: int| 0 <= j < before.skipped.len() && before.skipped[j] == skip;
                assert(st.skipped[j] == skip);
            },
        }
    } else {
        match line_fate(path, k, hashes, snippets) {
            LineFate::Stored(_) => {},
            LineFate::Skipped(_) => {
                assert(st.skipped.last() == st.skipped[st.skipped.len() - 1]);
            },
        }
    }
}

/// Whether the hash of the code on a line of the draft could not be computed.
pub open spec fn hash_fails(
    path: Seq<char>,
    draft: DraftFileView,
    snippets: Map<LineKey, Seq<char>>,
) -> bool {
    exists|k: LineKey| #[trigger]
        draft.comments.contains_key(k) && snippets.contains_key(k) && sync::code_hash(
            path,
            k,
            snippets,
        ) is None
}

/// The outcome of storing a draft of one file: what to store of the file, if
/// anything, how many of its comments were stored, and which were not.
pub struct FileApply {
    pub file: Option<FileReview>,
    pub applied: u64,
    pub skipped: Vec<ApplySkip>,
}

/// What an optional review of a file holds.
pub open spec fn opt_file(o: Option<FileReview>) -> Option<FileReviewView> {
    match o {
        Some(f) => Some(f@),
        None => None,
    }
}

/// Takes the comments on lines away that the draft does not speak of.
fn drop_lines(r: &mut Review, path: &str, draft: &DraftFileReview)
    ensures
        final(r)@ == without_dropped(old(r)@, path@, draft@.comments),
{
    let key = path.to_owned();
    let ghost m = r@;
    let ghost d = draft@.comments;
    if !r.files.contains_key(&key) {
        return;
    }
    let mut f = match r.files.remove(&key) {
        Some(f) => f,
        None => FileReview::default(),
    };
    let n: usize = f.comments.len();
    let ghost e = ordmap::ordered::<LineKey, CommentView>(f.comments@);
    let mut kept = OrdMap::<LineKey, Comment>::new();
    let mut changed = false;
    let mut i: usize = 0;
    proof {
        ordmap::lemma_map_of_empty::<LineKey, CommentView>();
        assert(e.take(0) =~= Seq::empty());
        assert(kept@ =~= kept_lines(ordmap::map_of(e.take(0)), d));
    }
    while i < n
        invariant
            i <= n == e.len(),
            d == draft@.comments,
            e == ordmap::ordered::<LineKey, CommentView>(f.comments@),
            ordmap::increasing::<LineKey, CommentView>(e),
            kept@ == kept_lines(ordmap::map_of(e.take(i as int)), d),
            changed == (kept@ != ordmap::map_of(e.take(i as int))),
        decreases n - i,
    {
        let ghost seen = ordmap::map_of(e.take(i as int));
        let ghost next = ordmap::map_of(e.take(i + 1));
        let ghost kept_before = kept@;
        let k = *f.comments.key_at(i);
        proof {
            ordmap::lemma_take_next::<LineKey, CommentView>(e, i as int);
            assert(next == seen.insert(k, e[i as int].1));
            assert(!kept@.contains_key(k));
        }
        if draft.comments.contains_key(&k) {
            kept.insert(k, f.comments.val_at(i).duplicate());
            assert(kept@ =~= kept_lines(next, d));
            proof {
                if kept@ == next {
                    assert(kept_before =~= kept@.remove(k));
                    assert(seen =~= next.remove(k));
                }
            }
        } else {
            changed = true;
            assert(kept@ =~= kept_lines(next, d));
            assert(next.contains_key(k));
        }
        i += 1;
    }
    assert(e.take(n as int) =~= e);
    assert(f@ == m[path@]);
    f.comments = kept;
    if changed && f.file_comment.is_none() && f.comments.is_empty() && !f.reviewed {
        assert(r@ =~= review::settled(m, path@, f@));
    } else {
        r.files.insert(key, f);
        proof {
            if changed {
                assert(r@ =~= review::settled(m, path@, f@));
            } else {
                assert(r@ =~= m);
            }
        }
    }
}

/// How many lines can come before a line, of both sides.
spec fn lines_before(k: LineKey) -> int {
    k.line + (if k.side is New {
        0x1_0000_0000int
    } else {
        0
    })
}

/// There are not more lines in order than lines can be told apart.
proof fn lemma_few_lines(e: Seq<(LineKey, Seq<char>)>, i: int)
    requires
        ordmap::increasing::<LineKey, Seq<char>>(e),
        0 <= i < e.len(),
    ensures
        i <= lines_before(e[i].0) < 0x2_0000_0000,
    decreases i,
{
    if i > 0 {
        lemma_few_lines(e, i - 1);
        assert(<LineKey as ordmap::Key>::precedes(e[i - 1].0, e[i].0));
    }
}

/// Stores the draft of one file in what the notes hold of it. A line comment
/// is stored where the hash kept beside the draft is that of the code on the
/// line. Nothing is stored where a hash could not be computed.
pub fn apply_file(
    path: &str,
    draft: &DraftFileReview,
    existing: Option<FileReview>,
    hashes: &OrdMap<String, String>,
    snippets: &OrdMap<LineKey, String>,
) -> (r: Option<FileApply>)
    ensures
        r is None == hash_fails(path@, draft@, snippets@),
        r matches Some(a) ==> {
            let st = applied_file(opt_file(existing), path@, draft@, hashes@, snippets@);
            &&& opt_file(a.file) == sync::at(st.review, path@)
            &&& a.applied == st.stored + (if draft@.file_comment is Some {
                1nat
            } else {
                0
            })
            &&& a.skipped@ == st.skipped
        },
{
    let mut updated = Review::new();
    let ghost before = opt_file(existing);
    match existing {
        Some(f) => {
            updated.files.insert(path.to_owned(), f);
        },
        None => {},
    }
    if draft.file_comment.is_none() {
        updated.remove_file_comment(path);
    }
    drop_lines(&mut updated, path, draft);
    match &draft.file_comment {
        Some(body) => {
            updated.set_file_comment(path, body.clone());
        },
        None => {},
    }
    let ghost start = updated@;
    assert(start == applied_start(before, path@, draft@));
    let n: usize = draft.comments.len();
    let ghost e = ordmap::ordered::<LineKey, Seq<char>>(draft.comments@);
    let mut stored: u64 = 0;
    let mut skipped: Vec<ApplySkip> = Vec::new();
    let mut i: usize = 0;
    assert(e.take(0) =~= Seq::empty());
    while i < n
        invariant
            stored <= i <= n == e.len(),
            e == ordmap::ordered::<LineKey, Seq<char>>(draft.comments@),
            ordmap::increasing::<LineKey, Seq<char>>(e),
            ordmap::map_of(e) == draft.comments@,
            ({
                let st = applied_lines(start, path@, e.take(i as int), hashes@, snippets@);
                updated@ == st.review && stored == st.stored && skipped@ == st.skipped
            }),
            forall|j: int|
                0 <= j < i && snippets@.contains_key((#[trigger] e[j]).0) ==> sync::code_hash(
                    path@,
                    e[j].0,
                    snippets@,
                ) is Some,
        decreases n - i,
    {
        proof {
            assert(e.take(i + 1).drop_last() =~= e.take(i as int));
            ordmap::lemma_map_of_at::<LineKey, Seq<char>>(e, i as int);
        }
        let key = *draft.comments.key_at(i);
        let code = match snippets.get(&key) {
            Some(code) => code,
            None => {
                skipped.push(
                    ApplySkip { line: key.line, side: key.side, reason: SkipReason::NoSnippet },
                );
                i += 1;
                continue;
            },
        };
        let hash = match hash::snippet_hash(path, key, code.as_str()) {
            Some(h) => h,
            None => {
                assert(draft@.comments.contains_key(key));
                return None;
            },
        };
        let meta_key = hash::meta_key(path, hash::side_label(key.side), key.line);
        match hashes.get(&meta_key) {
            None => {
                skipped.push(
                    ApplySkip {
                        line: key.line,
                        side: key.side,
                        reason: SkipReason::MissingChecksum,
                    },
                );
            },
            Some(kept) => {
                if text::same(kept.as_str(), hash.as_str()) {
                    updated.set_line_comment(
                        path,
                        key.side,
                        key.line,
                        draft.comments.val_at(i).clone(),
                    );
                    updated.set_line_comment_snippet_hash(
                        path,
                        key.side,
                        key.line,
                        Some(kept.clone()),
                    );
                    proof {
                        lemma_few_lines(e, i as int);
                    }
                    stored += 1;
                } else {
                    skipped.push(
                        ApplySkip {
                            line: key.line,
                            side: key.side,
                            reason: SkipReason::OutOfDate,
                        },
                    );
                }
            },
        }
        i += 1;
    }
    proof {
        assert(e.take(n as int) =~= e);
        assert forall|k: LineKey|
            #[trigger] draft@.comments.contains_key(k) && snippets@.contains_key(k)
            implies sync::code_hash(path@, k, snippets@) is Some by {
            let j = ordmap::index_of_key(e, k);
            assert(e[j].0 == k);
        }
    }
    let file = updated.files.remove(&path.to_owned());
    let mut applied: u64 = stored;
    if draft.file_comment.is_some() {
        proof {
            if n > 0 {
                lemma_few_lines(e, n - 1);
            }
        }
        applied += 1;
    }
    Some(FileApply { file, applied, skipped })
}

/// What a draft is stored with: what the notes hold of its files, the hashes that were
/// kept beside it, and the code on its lines.
pub struct ApplySources {
    pub notes: ReviewView,
    pub hashes: Map<Seq<char>, Seq<char>>,
    pub snippets: Map<Seq<char>, Map<LineKey, Seq<char>>>,
}

/// The code on the lines of a file.
pub open spec fn code_in(
    snippets: Map<Seq<char>, Map<LineKey, Seq<char>>>,
    path: Seq<char>,
) -> Map<LineKey, Seq<char>> {
    match sync::at(snippets, path) {
        Some(code) => code,
        None => Map::empty(),
    }
}

/// What storing a draft comes to: what to store of each file, the comments that were
/// not stored, and whether no hash was missing.
#[verifier::ext_equal]
pub struct ReportView {
    pub files: Seq<(Seq<char>, Option<FileReviewView>)>,
    pub skipped: Seq<(Seq<char>, ApplySkip)>,
    pub complete: bool,
}

/// What storing the files `e` of a draft comes to. It ends at the first file in which
/// a hash could not be computed.
pub open spec fn applied_files(e: Seq<(Seq<char>, DraftFileView)>, x: ApplySources) -> ReportView
    decreases e.len(),
{
    if e.len() == 0 {
        ReportView { files: seq![], skipped: seq![], complete: true }
    } else {
        let r = applied_files(e.drop_last(), x);
        let (path, draft) = e.last();
        let code = code_in(x.snippets, path);
        if !r.complete || hash_fails(path, draft, code) {
            ReportView { complete: false, ..r }
        } else {
            let st = applied_file(sync::at(x.notes, path), path, draft, x.hashes, code);
            ReportView {
                files: r.files.push((path, sync::at(st.review, path))),
                skipped: r.skipped + st.skipped.map_values(|s: ApplySkip| (path, s)),
                complete: true,
            }
        }
    }
}

/// What storing a draft comes to: what to store of each file, if anything, and the
/// comments that were not stored, each with its file. Where `complete` is not set, a
/// hash could not be computed in the file behind the last.
pub struct ApplyReport {
    pub files: Vec<(String, Option<FileReview>)>,
    pub skipped: Vec<(String, ApplySkip)>,
    pub complete: bool,
}

/// What is said of the comments that were not stored.
pub open spec fn skip_views(v: Seq<(String, ApplySkip)>) -> Seq<(Seq<char>, ApplySkip)> {
    v.map_values(|s: (String, ApplySkip)| (s.0@, s.1))
}

impl View for ApplyReport {
    type V = ReportView;

    open spec fn view(&self) -> ReportView {
        ReportView {
            files: self.files@.map_values(|f: (String, Option<FileReview>)| (f.0@, opt_file(f.1))),
            skipped: skip_views(self.skipped@),
            complete: self.complete,
        }
    }
}

/// Adds the comments of a file that were not stored.
fn add_skipped(out: &mut Vec<(String, ApplySkip)>, path: &str, skipped: &Vec<ApplySkip>)
    ensures
        skip_views(final(out)@) == skip_views(old(out)@) + skipped@.map_values(
            |s: ApplySkip| (path@, s),
        ),
{
    let ghost before = skip_views(out@);
    let ghost all = skipped@.map_values(|s: ApplySkip| (path@, s));
    let mut i: usize = 0;
    assert(all.take(0) =~= Seq::empty());
    while i < skipped.len()
        invariant
            i <= skipped.len() == all.len(),
            all == skipped@.map_values(|s: ApplySkip| (path@, s)),
            skip_views(out@) == before + all.take(i as int),
        decreases skipped.len() - i,
    {
        let ghost said = skip_views(out@);
        out.push((path.to_owned(), skipped[i]));
        assert(skip_views(out@) =~= said.push(all[i as int]));
        assert(before + all.take(i + 1) =~= (before + all.take(i as int)).push(all[i as int]));
        i += 1;
    }
    assert(all.take(i as int) =~= all);
}

/// Stores a draft in what the notes hold of its files, in order.
pub fn apply_draft(
    draft: &DraftReview,
    notes: &OrdMap<String, FileReview>,
    hashes: &OrdMap<String, String>,
    snippets: &OrdMap<String, OrdMap<LineKey, String>>,
) -> (r: ApplyReport)
    ensures
        r@ == applied_files(
            ordmap::ordered::<String, DraftFileView>(draft@),
            (ApplySources { notes: notes@, hashes: hashes@, snippets: snippets@ }),
        ),
{
    let ghost x = ApplySources { notes: notes@, hashes: hashes@, snippets: snippets@ };
    let ghost e = ordmap::ordered::<String, DraftFileView>(draft@);
    let no_code = OrdMap::<LineKey, String>::new();
    let n: usize = draft.files.len();
    let mut r = ApplyReport { files: Vec::new(), skipped: Vec::new(), complete: true };
    let mut i: usize = 0;
    assert(e.take(0) =~= Seq::empty());
    assert(r@ =~= applied_files(e.take(0), x));
    while i < n
        invariant
            i <= n == e.len(),
            e == ordmap::ordered::<String, DraftFileView>(draft@),
            x == (ApplySources { notes: notes@, hashes: hashes@, snippets: snippets@ }),
            no_code@ == Map::<LineKey, Seq<char>>::empty(),
            r@ == applied_files(e.take(i as int), x),
        decreases n - i,
    {
        let ghost before = r@;
        let path = draft.files.key_at(i);
        assert(e.take(i + 1).drop_last() =~= e.take(i as int));
        if r.complete {
            let existing = match notes.get(path) {
                Some(f) => Some(f.duplicate()),
                None => None,
            };
            let code = match snippets.get(path) {
                Some(code) => code,
                None => &no_code,
            };
            assert(code@ == code_in(x.snippets, path@));
            assert(opt_file(existing) == sync::at(x.notes, path@));
            match apply_file(path.as_str(), draft.files.val_at(i), existing, hashes, code) {
                Some(a) => {
                    r.files.push((path.clone(), a.file));
                    add_skipped(&mut r.skipped, path.as_str(), &a.skipped);
                    assert(r@ =~= applied_files(e.take(i + 1), x));
                },
                None => {
                    r.complete = false;
                    assert(r@ =~= applied_files(e.take(i + 1), x));
                },
            }
        } else {
            assert(r@ =~= applied_files(e.take(i + 1), x));
        }
        i += 1;
    }
    assert(e.take(n as int) =~= e);
    r
}

} // verus!
