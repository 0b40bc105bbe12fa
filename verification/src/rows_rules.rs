//! What the rows of the diff pane are for: each shows a line by its own numbers, in its
//! own place and with its own code.
use crate::diff;
use crate::diff::{DecoratedView, Kind, LineView};
use crate::rows;
use crate::rows::{PairView, RowView};
use crate::style::SpanView;
use vstd::prelude::*;

verus! {

/// What some pieces read as.
pub open spec fn reads(spans: Seq<SpanView>, s: Seq<char>) -> bool {
    spans.len() == 1 && spans[0].content == s
}

/// In the unified view each line of a diff has its own row, in the same order. The row
/// shows what became of the line and its numbers; a line of a version as it is
/// highlighted, and where it is not, with its own text.
pub proof fn law_unified_row_shows_its_line(
    lines: Seq<LineView>,
    hl: Seq<Seq<SpanView>>,
    i: int,
)
    requires
        0 <= i < lines.len(),
    ensures
        ({
            let rows = rows::unified_rows(lines, hl);
            let l = lines[i];
            let k = rows::code_count(lines.take(i)) as int;
            &&& rows.len() == lines.len()
            &&& l.kind is HunkHeader ==> rows[i] == (RowView::Section { text: l.text })
            &&& !(l.kind is HunkHeader) ==> (rows[i] matches RowView::Unified {
                kind,
                old_line,
                new_line,
                spans,
            } && {
                &&& kind == l.kind && old_line == l.old_line && new_line == l.new_line
                &&& l.kind is FileHeader ==> reads(spans, l.text)
                &&& !(l.kind is FileHeader) && k < hl.len() ==> spans == hl[k]
                &&& !(l.kind is FileHeader) && k >= hl.len() ==> reads(
                    spans,
                    if l.spans is Some && !(l.kind is Context) {
                        diff::spans_text(l.spans->0)
                    } else {
                        rows::behind_prefix(l.text)
                    },
                )
            })
        }),
{
}

/// The numbers on a side that has no line are left out, and so is its code.
pub open spec fn is_blank_side(kind: Option<Kind>, line: Option<u32>, spans: Seq<SpanView>) -> bool {
    kind is None && line is None && reads(spans, seq![])
}

/// Side by side, a row has on its left the line of the old version that stands there and
/// on its right that of the new one, each with its own number and as it is highlighted,
/// or else with its own text. A side without a line is blank.
pub proof fn law_side_by_side_row_shows_its_lines(
    pairs: Seq<PairView>,
    left: Seq<Seq<SpanView>>,
    right: Seq<Seq<SpanView>>,
    i: int,
)
    requires
        0 <= i < pairs.len(),
    ensures
        ({
            let rows = rows::side_by_side_rows(pairs, left, right);
            let l = rows::side_line(pairs[i], true);
            let r = rows::side_line(pairs[i], false);
            let a = rows::side_count(pairs.take(i), true) as int;
            let b = rows::side_count(pairs.take(i), false) as int;
            &&& rows.len() == pairs.len()
            &&& pairs[i] is Section ==> rows[i] is Section
            &&& !(pairs[i] is Section) ==> (rows[i] matches RowView::SideBySide {
                left_kind,
                right_kind,
                old_line,
                new_line,
                left: ls,
                right: rs,
            } && {
                &&& l is None ==> is_blank_side(left_kind, old_line, ls)
                &&& r is None ==> is_blank_side(right_kind, new_line, rs)
                &&& l is Some ==> old_line == l->0.old_line && left_kind is Some
                &&& r is Some ==> new_line == r->0.new_line && right_kind is Some
                &&& l is Some ==> (left_kind == Some(Kind::Context) <==> pairs[i] is Same)
                &&& r is Some ==> (right_kind == Some(Kind::Context) <==> pairs[i] is Same)
                &&& left_kind != Some(Kind::Add) && right_kind != Some(Kind::Remove)
                &&& l is Some && a < left.len() ==> ls == left[a]
                &&& r is Some && b < right.len() ==> rs == right[b]
                &&& l is Some && a >= left.len() ==> reads(ls, rows::behind_prefix(l->0.text))
                &&& r is Some && b >= right.len() ==> reads(rs, rows::behind_prefix(r->0.text))
            })
        }),
{
}

proof fn lemma_run_of_changes(lines: Seq<LineView>)
    requires
        forall|i: int|
            0 <= i < lines.len() ==> (#[trigger] lines[i]).kind is Remove || lines[i].kind is Add,
    ensures
        rows::change_run(lines) == lines.len(),
    decreases lines.len(),
{
    if lines.len() > 0 {
        let rest = lines.drop_first();
        assert forall|i: int| 0 <= i < rest.len() implies (#[trigger] rest[i]).kind is Remove
            || rest[i].kind is Add by {
            assert(rest[i] == lines[i + 1]);
        }
        lemma_run_of_changes(rest);
    }
}

proof fn lemma_kind_add(a: Seq<LineView>, b: Seq<LineView>, kind: Kind)
    ensures
        rows::lines_of_kind(a + b, kind) == rows::lines_of_kind(a, kind) + rows::lines_of_kind(
            b,
            kind,
        ),
    decreases b.len(),
{
    if b.len() == 0 {
        assert(a + b =~= a);
        assert(rows::lines_of_kind(a, kind) + rows::lines_of_kind(b, kind)
            =~= rows::lines_of_kind(a, kind));
    } else {
        assert((a + b).drop_last() =~= a + b.drop_last());
        lemma_kind_add(a, b.drop_last(), kind);
        assert(rows::lines_of_kind(a + b, kind) =~= rows::lines_of_kind(a, kind)
            + rows::lines_of_kind(b, kind));
    }
}

proof fn lemma_all_of_kind(a: Seq<LineView>, kind: Kind, other: Kind)
    requires
        forall|i: int| 0 <= i < a.len() ==> (#[trigger] a[i]).kind == kind,
        other != kind,
    ensures
        rows::lines_of_kind(a, kind) == a,
        rows::lines_of_kind(a, other) == Seq::<LineView>::empty(),
    decreases a.len(),
{
    if a.len() > 0 {
        let front = a.drop_last();
        assert forall|i: int| 0 <= i < front.len() implies (#[trigger] front[i]).kind == kind by {
            assert(front[i] == a[i]);
        }
        lemma_all_of_kind(front, kind, other);
        assert(a[a.len() - 1] == a.last());
        assert(front.push(a.last()) =~= a);
    }
}

/// Where some lines took the place of others, the first of the removed lines stands
/// beside the first of the added ones, the second beside the second, and so on; what is
/// left over stands alone.
pub proof fn law_replaced_lines_stand_beside_each_other(
    removed: Seq<LineView>,
    added: Seq<LineView>,
    j: int,
)
    requires
        forall|i: int| 0 <= i < removed.len() ==> (#[trigger] removed[i]).kind is Remove,
        forall|i: int| 0 <= i < added.len() ==> (#[trigger] added[i]).kind is Add,
        0 <= j < removed.len() || 0 <= j < added.len(),
    ensures
        ({
            let pairs = rows::pairs_of(removed + added);
            &&& pairs.len() == (if removed.len() >= added.len() {
                removed.len()
            } else {
                added.len()
            })
            &&& rows::side_line(pairs[j], true) == (if j < removed.len() {
                Some(removed[j])
            } else {
                None
            })
            &&& rows::side_line(pairs[j], false) == (if j < added.len() {
                Some(added[j])
            } else {
                None
            })
            &&& pairs[j] is Changed
        }),
{
    let all = removed + added;
    assert forall|i: int| 0 <= i < all.len() implies (#[trigger] all[i]).kind is Remove
        || all[i].kind is Add by {
        if i < removed.len() {
            assert(all[i] == removed[i]);
        } else {
            assert(all[i] == added[i - removed.len()]);
        }
    }
    lemma_run_of_changes(all);
    lemma_kind_add(removed, added, Kind::Remove);
    lemma_kind_add(removed, added, Kind::Add);
    lemma_all_of_kind(removed, Kind::Remove, Kind::Add);
    lemma_all_of_kind(added, Kind::Add, Kind::Remove);
    assert(rows::lines_of_kind(all, Kind::Remove) =~= removed);
    assert(rows::lines_of_kind(all, Kind::Add) =~= added);
    assert(all[0].kind is Remove || all[0].kind is Add);
    assert(all.take(all.len() as int) =~= all);
    let none: Seq<LineView> = seq![];
    assert(all.skip(all.len() as int) =~= none);
    assert(rows::pairs_of(none) =~= seq![]);
    assert(rows::pairs_of(all) =~= rows::zipped(removed, added));
}

/// In the view of the whole file a line is shown by its number and its status, with the
/// line of the highlighted file that has that number, which for a deleted file is the
/// number in the old version; where the file is not highlighted, with its own text.
pub proof fn law_whole_file_row_shows_its_line(l: DecoratedView, hl: Seq<Seq<SpanView>>)
    ensures
        ({
            let n: int = if l.line_number > 0 {
                l.line_number as int
            } else if l.old_line_number is Some {
                l.old_line_number->0 as int
            } else {
                0
            };
            rows::decorated_row(l, hl) matches RowView::Decorated {
                status,
                line_number,
                old_line_number,
                spans,
            } && {
                &&& status == l.status && line_number == l.line_number && old_line_number
                    == l.old_line_number
                &&& 1 <= n <= hl.len() ==> spans == hl[n - 1]
                &&& !(1 <= n <= hl.len()) ==> reads(spans, l.text)
            }
        }),
{
}

} // verus!
