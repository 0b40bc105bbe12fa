//! What an editor is told: that every comment is shown, once, on its own line.
use crate::lsp;
use crate::lsp::{ActionView, DiagnosticSeverity, DiagnosticView, HintView, RemarkCommand};
use crate::ordmap;
use crate::review::{CommentView, FileReviewView, LineKey, LineSide};
use crate::text;
use vstd::prelude::*;

verus! {

/// Whether a number is the index of the line with the number `line`, which counts from
/// one.
pub open spec fn is_index_of(index: u32, line: u32) -> bool {
    if line == 0 {
        index == 0
    } else {
        index + 1 == line
    }
}

/// What a comment on the old version is marked with.
pub open spec fn mark_of(side: LineSide) -> Seq<char> {
    match side {
        LineSide::Old => "[old] "@,
        LineSide::New => seq![],
    }
}

/// Whether a diagnostic is that of the comment on a line: it stands at the start of the
/// line, warns of what is not resolved, and reads as the comment with its line.
pub open spec fn is_diagnostic_of(d: DiagnosticView, k: LineKey, c: CommentView) -> bool {
    &&& is_index_of(d.range.start.line, k.line)
    &&& d.range.start.character == 0
    &&& d.range.end == d.range.start
    &&& d.severity == Some(
        if c.resolved {
            DiagnosticSeverity::Hint
        } else {
            DiagnosticSeverity::Warning
        },
    )
    &&& d.source == Some("remark"@)
    &&& d.message == mark_of(k.side) + text::trimmed(c.body) + " (line "@ + text::decimal(
        k.line as nat,
    ) + ")"@
}

/// The entries of a map in order are as many as it has keys.
proof fn lemma_ordered_len(m: Map<LineKey, CommentView>)
    requires
        m.dom().finite(),
    ensures
        ordmap::ordered::<LineKey, CommentView>(m).len() == m.dom().len(),
        ordmap::increasing::<LineKey, CommentView>(ordmap::ordered::<LineKey, CommentView>(m)),
        ordmap::map_of(ordmap::ordered::<LineKey, CommentView>(m)) == m,
{
    ordmap::lemma_ordered_exists::<LineKey, CommentView>(m);
    let e = ordmap::ordered::<LineKey, CommentView>(m);
    let keys = e.map_values(|p: (LineKey, CommentView)| p.0);
    assert(keys.no_duplicates()) by {
        assert forall|i: int, j: int| 0 <= i < keys.len() && 0 <= j < keys.len() && i != j implies
            keys[i] != keys[j] by {
            ordmap::lemma_map_of_at::<LineKey, CommentView>(e, i);
            ordmap::lemma_map_of_at::<LineKey, CommentView>(e, j);
        }
    }
    assert(keys.to_set() =~= m.dom()) by {
        assert forall|k: LineKey| keys.to_set().contains(k) == m.dom().contains(k) by {
            if keys.contains(k) {
                let i = choose|i: int| 0 <= i < keys.len() && keys[i] == k;
                ordmap::lemma_map_of_at::<LineKey, CommentView>(e, i);
            }
            if m.dom().contains(k) {
                let i = ordmap::index_of_key(e, k);
                assert(keys[i] == k);
            }
        }
    }
    keys.unique_seq_to_set();
}

proof fn lemma_diags_for_lines(e: Seq<(LineKey, CommentView)>)
    ensures
        lsp::diags_for_lines(e).len() == e.len(),
        forall|i: int|
            0 <= i < e.len() ==> is_diagnostic_of(
                #[trigger] lsp::diags_for_lines(e)[i],
                e[i].0,
                e[i].1,
            ),
    decreases e.len(),
{
    if e.len() > 0 {
        let front = e.drop_last();
        lemma_diags_for_lines(front);
        let (k, c) = e.last();
        let d = lsp::diag_for(k.line, Some(k.side), c, Some(k));
        assert(d.message =~= mark_of(k.side) + text::trimmed(c.body) + " (line "@ + text::decimal(
            k.line as nat,
        ) + ")"@);
        assert forall|i: int| 0 <= i < e.len() implies is_diagnostic_of(
            #[trigger] lsp::diags_for_lines(e)[i],
            e[i].0,
            e[i].1,
        ) by {
            if i < front.len() {
                assert(lsp::diags_for_lines(e)[i] == lsp::diags_for_lines(front)[i]);
                assert(front[i] == e[i]);
            }
        }
    }
}

/// How many diagnostics stand before those of the lines: that of the file, if it has one.
pub open spec fn file_part(f: FileReviewView) -> int {
    if f.file_comment is Some {
        1
    } else {
        0
    }
}

/// Each comment on a line has a diagnostic, which stands on its line; that on the file
/// stands on the first line; and there are no more than there are comments.
#[verifier::rlimit(40)]
pub proof fn law_each_comment_has_its_diagnostic(f: FileReviewView)
    requires
        f.comments.dom().finite(),
    ensures
        ({
            let d = lsp::diags_for(f);
            &&& d.len() == file_part(f) + f.comments.dom().len()
            &&& forall|k: LineKey| #[trigger]
                f.comments.contains_key(k) ==> exists|i: int|
                    file_part(f) <= i < d.len() && is_diagnostic_of(
                        #[trigger] d[i],
                        k,
                        f.comments[k],
                    )
            &&& f.file_comment is Some ==> d[0].range.start.line == 0 && d[0].range.end
                == d[0].range.start && d[0].message == text::trimmed(f.file_comment->0.body)
                && d[0].severity == Some(
                if f.file_comment->0.resolved {
                    DiagnosticSeverity::Hint
                } else {
                    DiagnosticSeverity::Warning
                },
            )
        }),
{
    let e = ordmap::ordered::<LineKey, CommentView>(f.comments);
    lemma_ordered_len(f.comments);
    lemma_diags_for_lines(e);
    let d = lsp::diags_for(f);
    assert forall|k: LineKey| #[trigger] f.comments.contains_key(k) implies exists|i: int|
        file_part(f) <= i < d.len() && is_diagnostic_of(#[trigger] d[i], k, f.comments[k]) by {
        let i = lemma_diagnostic_of(f, k);
        assert(is_diagnostic_of(d[i], k, f.comments[k]));
    }
    if f.file_comment is Some {
        assert(d[0] == lsp::diag_for(1, None, f.file_comment->0, None));
        assert(d[0].message =~= text::trimmed(f.file_comment->0.body));
    }
}

/// Each diagnostic on a line is that of a comment on that line.
#[verifier::rlimit(40)]
pub proof fn law_each_diagnostic_has_its_comment(f: FileReviewView, i: int)
    requires
        f.comments.dom().finite(),
        file_part(f) <= i < lsp::diags_for(f).len(),
    ensures
        exists|k: LineKey| #[trigger]
            f.comments.contains_key(k) && is_diagnostic_of(
                lsp::diags_for(f)[i],
                k,
                f.comments[k],
            ),
{
    let k = lemma_comment_of(f, i);
    assert(f.comments.contains_key(k));
}

/// The diagnostic of the comment on a line.
proof fn lemma_diagnostic_of(f: FileReviewView, k: LineKey) -> (i: int)
    requires
        f.comments.dom().finite(),
        f.comments.contains_key(k),
    ensures
        file_part(f) <= i < lsp::diags_for(f).len(),
        is_diagnostic_of(lsp::diags_for(f)[i], k, f.comments[k]),
{
    let e = ordmap::ordered::<LineKey, CommentView>(f.comments);
    lemma_ordered_len(f.comments);
    lemma_diags_for_lines(e);
    let j = ordmap::index_of_key(e, k);
    ordmap::lemma_map_of_at::<LineKey, CommentView>(e, j);
    assert(lsp::diags_for(f)[file_part(f) + j] == lsp::diags_for_lines(e)[j]);
    file_part(f) + j
}

/// The line whose comment has a diagnostic.
proof fn lemma_comment_of(f: FileReviewView, i: int) -> (k: LineKey)
    requires
        f.comments.dom().finite(),
        file_part(f) <= i < lsp::diags_for(f).len(),
    ensures
        f.comments.contains_key(k),
        is_diagnostic_of(lsp::diags_for(f)[i], k, f.comments[k]),
{
    let e = ordmap::ordered::<LineKey, CommentView>(f.comments);
    lemma_ordered_len(f.comments);
    lemma_diags_for_lines(e);
    let j = i - file_part(f);
    ordmap::lemma_map_of_at::<LineKey, CommentView>(e, j);
    assert(lsp::diags_for(f)[i] == lsp::diags_for_lines(e)[j]);
    e[j].0
}

/// What is shown of the comment on one side of a line: nothing where there is none, or
/// where it is resolved and those are not asked for.
pub open spec fn shown_on(
    f: Map<LineKey, CommentView>,
    line: u32,
    side: LineSide,
    include_resolved: bool,
) -> Seq<Seq<char>> {
    let k = LineKey { side, line };
    if f.contains_key(k) && (include_resolved || !f[k].resolved) {
        seq![mark_of(side) + f[k].body]
    } else {
        seq![]
    }
}

#[verifier::rlimit(40)]
proof fn lemma_hover_lines(e: Seq<(LineKey, CommentView)>, line: u32, include_resolved: bool)
    requires
        ordmap::increasing::<LineKey, CommentView>(e),
    ensures
        lsp::hover_lines(e, line, include_resolved) == shown_on(
            ordmap::map_of(e),
            line,
            LineSide::Old,
            include_resolved,
        ) + shown_on(ordmap::map_of(e), line, LineSide::New, include_resolved),
    decreases e.len(),
{
    let m = ordmap::map_of(e);
    if e.len() == 0 {
        ordmap::lemma_map_of_empty::<LineKey, CommentView>();
        assert(e =~= Seq::empty());
        assert(lsp::hover_lines(e, line, include_resolved) =~= seq![]);
    } else {
        let n = e.len() - 1;
        let front = e.drop_last();
        assert(front =~= e.take(n));
        assert(e.take(n + 1) =~= e);
        ordmap::lemma_take_next::<LineKey, CommentView>(e, n);
        lemma_hover_lines(front, line, include_resolved);
        let before = ordmap::map_of(front);
        let (k, c) = e.last();
        assert(e[n] == (k, c));
        assert(m == before.insert(k, c));
        let other = LineKey { side: LineSide::New, line };
        if k.side is Old && before.contains_key(other) {
            let j = ordmap::index_of_key(front, other);
            assert(front[j] == e[j]);
            assert(<LineKey as ordmap::Key>::precedes(e[j].0, e[n].0));
        }
        if before.contains_key(k) {
            let j = ordmap::index_of_key(front, k);
            assert(front[j] == e[j]);
            assert(<LineKey as ordmap::Key>::precedes(e[j].0, e[n].0));
        }
        if k.side is New {
            assert(c.body =~= mark_of(k.side) + c.body);
        }
        assert(lsp::hover_lines(e, line, include_resolved) =~= shown_on(
            m,
            line,
            LineSide::Old,
            include_resolved,
        ) + shown_on(m, line, LineSide::New, include_resolved));
    }
}

/// Where the pointer rests, the comments on that very line are shown, that on the old
/// version first; where the line has none, the one on the file. Comments that are
/// resolved are shown only where they are asked for.
#[verifier::rlimit(40)]
pub proof fn law_pointer_shows_the_comments_of_its_line(
    f: FileReviewView,
    index: u32,
    include_resolved: bool,
)
    requires
        f.comments.dom().finite(),
        index < u32::MAX,
    ensures
        ({
            let line = (index + 1) as u32;
            let here = shown_on(f.comments, line, LineSide::Old, include_resolved) + shown_on(
                f.comments,
                line,
                LineSide::New,
                include_resolved,
            );
            lsp::hover_texts(f, lsp::line_of(index), include_resolved) == (if here.len() > 0 {
                here
            } else if f.file_comment is Some && (include_resolved || !f.file_comment->0.resolved) {
                seq![f.file_comment->0.body]
            } else {
                seq![]
            })
        }),
{
    let e = ordmap::ordered::<LineKey, CommentView>(f.comments);
    ordmap::lemma_ordered_exists::<LineKey, CommentView>(f.comments);
    lemma_hover_lines(e, (index + 1) as u32, include_resolved);
}

/// Whether a hint is that of the comment on a line: it stands behind the line, and shows
/// which version it is on.
pub open spec fn is_hint_of(
    h: HintView,
    content: Option<Seq<char>>,
    k: LineKey,
    c: CommentView,
) -> bool {
    &&& is_index_of(h.line, k.line)
    &&& h.character == lsp::line_end(content, h.line)
    &&& h.label == "remark: "@ + mark_of(k.side) + lsp::cut_hint(lsp::first_line(c.body))
}

proof fn lemma_hint_for(content: Option<Seq<char>>, k: LineKey, c: CommentView)
    ensures
        is_hint_of(
            lsp::hint_for(content, lsp::index_of_line(k.line), c, Some(k.side)),
            content,
            k,
            c,
        ),
{
    let h = lsp::hint_for(content, lsp::index_of_line(k.line), c, Some(k.side));
    assert(h.label =~= "remark: "@ + mark_of(k.side) + lsp::cut_hint(lsp::first_line(c.body)));
}

proof fn lemma_line_is_hinted(
    content: Option<Seq<char>>,
    e: Seq<(LineKey, CommentView)>,
    start: u32,
    end: u32,
    j: int,
) -> (i: int)
    requires
        0 <= j < e.len(),
        start <= lsp::index_of_line(e[j].0.line) <= end,
    ensures
        0 <= i < lsp::hints_for_lines(content, e, start, end).len(),
        is_hint_of(
            lsp::hints_for_lines(content, e, start, end)[i],
            content,
            e[j].0,
            e[j].1,
        ),
    decreases e.len(),
{
    let front = e.drop_last();
    if j < e.len() - 1 {
        assert(front[j] == e[j]);
        lemma_line_is_hinted(content, front, start, end, j)
    } else {
        lemma_hint_for(content, e[j].0, e[j].1);
        lsp::hints_for_lines(content, front, start, end).len() as int
    }
}

proof fn lemma_hint_is_of_line(
    content: Option<Seq<char>>,
    e: Seq<(LineKey, CommentView)>,
    start: u32,
    end: u32,
    i: int,
) -> (j: int)
    requires
        0 <= i < lsp::hints_for_lines(content, e, start, end).len(),
    ensures
        0 <= j < e.len(),
        start <= lsp::hints_for_lines(content, e, start, end)[i].line <= end,
        is_hint_of(
            lsp::hints_for_lines(content, e, start, end)[i],
            content,
            e[j].0,
            e[j].1,
        ),
    decreases e.len(),
{
    let front = e.drop_last();
    if i < lsp::hints_for_lines(content, front, start, end).len() {
        let j = lemma_hint_is_of_line(content, front, start, end, i);
        assert(front[j] == e[j]);
        j
    } else {
        lemma_hint_for(content, e.last().0, e.last().1);
        e.len() - 1
    }
}

proof fn lemma_hints_len(
    content: Option<Seq<char>>,
    e: Seq<(LineKey, CommentView)>,
    start: u32,
    end: u32,
)
    ensures
        lsp::hints_for_lines(content, e, start, end).len() <= e.len(),
        start == 0 && end == u32::MAX ==> lsp::hints_for_lines(content, e, start, end).len()
            == e.len(),
    decreases e.len(),
{
    if e.len() > 0 {
        lemma_hints_len(content, e.drop_last(), start, end);
    }
}

/// Each comment on a line in the range that is looked at has a hint behind its line.
#[verifier::rlimit(40)]
pub proof fn law_each_comment_has_its_hint(
    content: Option<Seq<char>>,
    f: FileReviewView,
    start: u32,
    end: u32,
    k: LineKey,
)
    requires
        f.comments.dom().finite(),
        f.comments.contains_key(k),
        start < k.line <= end,
    ensures
        ({
            let h = lsp::hints_for(content, f, start, end);
            exists|i: int|
                0 <= i < h.len() && is_hint_of(#[trigger] h[i], content, k, f.comments[k])
        }),
{
    let e = ordmap::ordered::<LineKey, CommentView>(f.comments);
    lemma_ordered_len(f.comments);
    let g = lsp::hints_for_lines(content, e, start, end);
    let h = lsp::hints_for(content, f, start, end);
    let off: int = h.len() - g.len();
    let j = ordmap::index_of_key(e, k);
    ordmap::lemma_map_of_at::<LineKey, CommentView>(e, j);
    assert(start <= lsp::index_of_line(e[j].0.line) <= end);
    let i = lemma_line_is_hinted(content, e, start, end, j);
    assert(h[off + i] == g[i]);
}

/// Every hint is on a line that is looked at and is that of a comment there, and where the
/// whole file is looked at there are as many as there are comments. The comment on the
/// file has its hint on the first line, where that is looked at.
#[verifier::rlimit(40)]
pub proof fn law_each_hint_has_its_comment(
    content: Option<Seq<char>>,
    f: FileReviewView,
    start: u32,
    end: u32,
)
    requires
        f.comments.dom().finite(),
    ensures
        ({
            let h = lsp::hints_for(content, f, start, end);
            let off: int = if start == 0 {
                file_part(f)
            } else {
                0
            };
            &&& off <= h.len() <= off + f.comments.dom().len()
            &&& start == 0 && end == u32::MAX ==> h.len() == off + f.comments.dom().len()
            &&& forall|i: int|
                off <= i < h.len() ==> start <= (#[trigger] h[i]).line <= end && exists|k: LineKey|
                    #[trigger] f.comments.contains_key(k) && is_hint_of(
                        h[i],
                        content,
                        k,
                        f.comments[k],
                    )
            &&& off == 1 ==> h[0].line == 0 && h[0].label == "remark: "@ + lsp::cut_hint(
                lsp::first_line(f.file_comment->0.body),
            )
        }),
{
    let e = ordmap::ordered::<LineKey, CommentView>(f.comments);
    lemma_ordered_len(f.comments);
    lemma_hints_len(content, e, start, end);
    let g = lsp::hints_for_lines(content, e, start, end);
    let h = lsp::hints_for(content, f, start, end);
    let off: int = if start == 0 {
        file_part(f)
    } else {
        0
    };
    assert forall|i: int| off <= i < h.len() implies start <= (#[trigger] h[i]).line <= end
        && exists|k: LineKey| #[trigger]
        f.comments.contains_key(k) && is_hint_of(h[i], content, k, f.comments[k]) by {
        assert(h[i] == g[i - off]);
        let j = lemma_hint_is_of_line(content, e, start, end, i - off);
        ordmap::lemma_map_of_at::<LineKey, CommentView>(e, j);
        assert(f.comments.contains_key(e[j].0));
    }
    if off == 1 {
        assert(h[0].label =~= "remark: "@ + lsp::cut_hint(
            lsp::first_line(f.file_comment->0.body),
        ));
    }
}

/// A hint shows no more of a line than fits, and all of it where it does.
pub proof fn law_hint_is_a_start_of_the_line(s: Seq<char>)
    ensures
        ({
            let n = lsp::fitting_bytes(s, lsp::MAX_HINT_BYTES as int);
            &&& n <= s.len()
            &&& lsp::cut_hint(s) == s || lsp::cut_hint(s) == s.take(n as int).push('…')
            &&& s.len() <= 20 ==> lsp::cut_hint(s) == s
            &&& s.len() > 80 ==> n <= 80 && lsp::cut_hint(s) == s.take(n as int).push('…')
        }),
{
    lemma_fitting(s, lsp::MAX_HINT_BYTES as int);
}

proof fn lemma_fitting(s: Seq<char>, room: int)
    requires
        room >= 0,
    ensures
        lsp::fitting_bytes(s, room) <= s.len(),
        lsp::fitting_bytes(s, room) <= room,
        4 * s.len() <= room ==> lsp::fitting_bytes(s, room) == s.len(),
    decreases s.len(),
{
    if s.len() > 0 && lsp::utf8_size(s[0]) <= room {
        lemma_fitting(s.drop_first(), room - lsp::utf8_size(s[0]));
    }
}

/// Whether an offer is one to resolve a comment or to take it up again.
pub open spec fn is_toggle(a: ActionView) -> bool {
    a.command == RemarkCommand::Resolve || a.command == RemarkCommand::Unresolve
}

/// Whether an offer is made about one side of a line.
pub open spec fn is_about_line(a: ActionView, line: u32, side: LineSide) -> bool {
    a.place is Some && a.place->0.line == Some(line) && a.place->0.side == Some(side)
        && !a.place->0.file_comment
}

/// Whether an offer is made about the file.
pub open spec fn is_about_file(a: ActionView) -> bool {
    a.place is Some && a.place->0.line is None && a.place->0.side is None
        && a.place->0.file_comment
}

/// On a line, a comment can be started on it and on the file. Of each comment on the line
/// and of that on the file it is offered to resolve it, or to take it up again where it is
/// resolved, and of no other.
#[verifier::rlimit(40)]
pub proof fn law_offers_are_about_the_comments_there(f: FileReviewView, index: u32)
    requires
        index < u32::MAX,
    ensures
        ({
            let line = (index + 1) as u32;
            let a = lsp::actions_for(f, lsp::line_of(index));
            &&& exists|i: int|
                0 <= i < a.len() && (#[trigger] a[i]).command == RemarkCommand::AddDraftComment
                    && is_about_line(a[i], line, LineSide::New)
            &&& exists|i: int|
                0 <= i < a.len() && (#[trigger] a[i]).command == RemarkCommand::AddDraftComment
                    && is_about_file(a[i])
            &&& exists|i: int|
                0 <= i < a.len() && (#[trigger] a[i]).command == RemarkCommand::OpenPrompt
            &&& forall|side: LineSide|
                #![trigger f.comments.contains_key(LineKey { side, line })]
                f.comments.contains_key(LineKey { side, line }) ==> exists|i: int|
                    0 <= i < a.len() && is_toggle(#[trigger] a[i]) && is_about_line(
                        a[i],
                        line,
                        side,
                    )
            &&& f.file_comment is Some ==> exists|i: int|
                0 <= i < a.len() && is_toggle(#[trigger] a[i]) && is_about_file(a[i])
            &&& forall|i: int|
                0 <= i < a.len() && is_toggle(#[trigger] a[i]) ==> {
                    let take_up = a[i].command == RemarkCommand::Unresolve;
                    ||| is_about_file(a[i]) && f.file_comment is Some
                        && f.file_comment->0.resolved == take_up
                    ||| exists|side: LineSide|
                        #![trigger f.comments.contains_key(LineKey { side, line })]
                        is_about_line(a[i], line, side) && f.comments.contains_key(
                            LineKey { side, line },
                        ) && f.comments[LineKey { side, line }].resolved == take_up
                }
        }),
{
    let line = (index + 1) as u32;
    let a = lsp::actions_for(f, lsp::line_of(index));
    let new = lsp::line_action(f, line, LineSide::New);
    let old = lsp::line_action(f, line, LineSide::Old);
    assert(is_about_line(a[0], line, LineSide::New));
    assert(is_about_file(a[1]));
    assert(a[2].command == RemarkCommand::OpenPrompt);
    let k_new = LineKey { side: LineSide::New, line };
    let k_old = LineKey { side: LineSide::Old, line };
    assert forall|side: LineSide|
        #![trigger f.comments.contains_key(LineKey { side, line })]
        f.comments.contains_key(LineKey { side, line }) implies exists|i: int|
        0 <= i < a.len() && is_toggle(#[trigger] a[i]) && is_about_line(a[i], line, side) by {
        if side is New {
            assert(a[3] == new[0]);
            assert(is_toggle(a[3]));
        } else {
            assert(a[3 + new.len() as int] == old[0]);
            assert(is_toggle(a[3 + new.len() as int]));
        }
    }
    let tail = 3 + new.len() + old.len();
    if f.file_comment is Some {
        assert(a[tail as int] == lsp::file_comment_action(f.file_comment->0.resolved));
        assert(is_toggle(a[tail as int]));
    }
    assert forall|i: int| 0 <= i < a.len() && is_toggle(#[trigger] a[i]) implies ({
        let take_up = a[i].command == RemarkCommand::Unresolve;
        ||| is_about_file(a[i]) && f.file_comment is Some && f.file_comment->0.resolved == take_up
        ||| exists|side: LineSide|
            #![trigger f.comments.contains_key(LineKey { side, line })]
            is_about_line(a[i], line, side) && f.comments.contains_key(LineKey { side, line })
                && f.comments[LineKey { side, line }].resolved == take_up
    }) by {
        if i < 3 {
        } else if i < 3 + new.len() {
            assert(a[i] == new[i - 3]);
            assert(f.comments.contains_key(k_new));
        } else if i < tail {
            assert(a[i] == old[i - 3 - new.len()]);
            assert(f.comments.contains_key(k_old));
        }
    }
}

} // verus!
