//! What the hunks of a diff say and in what order.
use crate::diff;
use crate::diff::{ChangeView, Kind, LineView, Op};
use crate::text;
use vstd::prelude::*;

verus! {

/// The numbers of a hunk reach to the end of its last range in either version. They start
/// at the first range where that stands at the top or has nothing in the other version, and
/// one line above it elsewhere.
pub proof fn law_hunk_reaches_to_its_end(ops: Seq<Op>)
    requires
        ops.len() > 0,
        ops[0].old_start() <= ops.last().old_start() + ops.last().old_count(),
        ops[0].new_start() <= ops.last().new_start() + ops.last().new_count(),
    ensures
        ({
            let (old_from, old_len, new_from, new_len) = diff::hunk_bounds(ops);
            let first = ops[0];
            let last = ops.last();
            &&& old_from >= 1 && new_from >= 1 && old_len >= 0 && new_len >= 0
            &&& old_from - 1 + old_len == last.old_start() + last.old_count()
            &&& new_from - 1 + new_len == last.new_start() + last.new_count()
            &&& old_from == first.old_start() + (if first.old_start() == 0 || first.new_count()
                == 0 {
                1int
            } else {
                0
            })
            &&& new_from == first.new_start() + (if first.new_start() == 0 || first.old_count()
                == 0 {
                1int
            } else {
                0
            })
        }),
{
}

/// A hunk starts with a header, and then has a line for each of its changes, in their
/// order. Its header tells its numbers.
pub proof fn law_hunk_lists_its_changes(ops: Seq<Op>, h: Seq<Seq<ChangeView>>, i: int)
    requires
        0 <= i < diff::flat_changes(h).len(),
    ensures
        ({
            let l = diff::hunk_lines(ops, h);
            let (old_from, old_len, new_from, new_len) = diff::hunk_bounds(ops);
            &&& l.len() == diff::flat_changes(h).len() + 1
            &&& l[0].kind is HunkHeader
            &&& l[0].old_line is None && l[0].new_line is None
            &&& ("@@ -"@ + text::decimal(old_from as nat) + seq![','] + text::decimal(
                old_len as nat,
            ) + " +"@ + text::decimal(new_from as nat) + seq![','] + text::decimal(new_len as nat)
                + " @@"@).is_prefix_of(l[0].text)
            &&& l[i + 1] == diff::diff_line(diff::flat_changes(h)[i])
        }),
{
    let l = diff::hunk_lines(ops, h);
    let (old_from, old_len, new_from, new_len) = diff::hunk_bounds(ops);
    let head = "@@ -"@ + text::decimal(old_from as nat) + seq![','] + text::decimal(old_len as nat)
        + " +"@ + text::decimal(new_from as nat) + seq![','] + text::decimal(new_len as nat)
        + " @@"@;
    assert(l[0].text.subrange(0, head.len() as int) =~= head);
}

/// The changes of a hunk are those of its ranges, one range after the other.
pub proof fn law_changes_of_a_range_stand_together(h: Seq<Seq<ChangeView>>, g: int)
    requires
        0 <= g < h.len(),
    ensures
        (diff::flat_changes(h.take(g)) + h[g]).is_prefix_of(diff::flat_changes(h)),
    decreases h.len(),
{
    let front = h.drop_last();
    let part = diff::flat_changes(h.take(g)) + h[g];
    let all = diff::flat_changes(h);
    if g < h.len() - 1 {
        law_changes_of_a_range_stand_together(front, g);
        assert(front.take(g) =~= h.take(g));
        assert(all.subrange(0, part.len() as int) =~= part);
    } else {
        assert(h.take(g) =~= front);
        assert(all.subrange(0, part.len() as int) =~= part);
    }
}

/// The lines of a diff are those of its hunks, one hunk after the other.
pub proof fn law_hunks_follow_on_each_other(
    groups: Seq<Seq<Op>>,
    hunks: Seq<Seq<Seq<ChangeView>>>,
    g: int,
)
    requires
        0 <= g < groups.len(),
    ensures
        (diff::all_hunk_lines(groups.take(g), hunks) + diff::hunk_lines(
            groups[g],
            hunks[g],
        )).is_prefix_of(diff::all_hunk_lines(groups, hunks)),
    decreases groups.len(),
{
    let front = groups.drop_last();
    let part = diff::all_hunk_lines(groups.take(g), hunks) + diff::hunk_lines(groups[g], hunks[g]);
    let all = diff::all_hunk_lines(groups, hunks);
    if g < groups.len() - 1 {
        law_hunks_follow_on_each_other(front, hunks, g);
        assert(front.take(g) =~= groups.take(g));
        assert(all.subrange(0, part.len() as int) =~= part);
    } else {
        assert(groups.take(g) =~= front);
        assert(all.subrange(0, part.len() as int) =~= part);
    }
}

/// A diff names the old version and then the new one, and has its hunks behind that.
pub proof fn law_diff_names_both_versions(
    before_label: Seq<char>,
    after_label: Seq<char>,
    groups: Seq<Seq<Op>>,
    hunks: Seq<Seq<Seq<ChangeView>>>,
)
    ensures
        ({
            let l: Seq<LineView> = diff::unified_lines(before_label, after_label, groups, hunks);
            &&& l.len() >= 2
            &&& l[0].kind is FileHeader && l[0].text == "--- "@ + before_label
            &&& l[1].kind is FileHeader && l[1].text == "+++ "@ + after_label
            &&& l[0].old_line is None && l[0].new_line is None
            &&& l[1].old_line is None && l[1].new_line is None
            &&& l.skip(2) == diff::all_hunk_lines(groups, hunks)
            &&& groups.len() == 0 ==> l.len() == 2
        }),
{
    let l = diff::unified_lines(before_label, after_label, groups, hunks);
    assert(l.skip(2) =~= diff::all_hunk_lines(groups, hunks));
}

/// Whether the line of a change can stand in the header of its hunk.
pub open spec fn can_stand_in_header(c: ChangeView, equal_only: bool) -> bool {
    (!equal_only || c.tag is Equal) && !text::is_blank(diff::spans_text(c.spans))
}

proof fn lemma_first_hint(c: Seq<ChangeView>, equal_only: bool)
    ensures
        match diff::first_hint(c, equal_only) {
            Some(t) => exists|i: int|
                0 <= i < c.len() && can_stand_in_header(#[trigger] c[i], equal_only) && t
                    == text::trimmed(diff::spans_text(c[i].spans)) && forall|j: int|
                    0 <= j < i ==> !can_stand_in_header(#[trigger] c[j], equal_only),
            None => forall|i: int|
                0 <= i < c.len() ==> !can_stand_in_header(#[trigger] c[i], equal_only),
        },
    decreases c.len(),
{
    if c.len() > 0 {
        let rest = c.drop_first();
        lemma_first_hint(rest, equal_only);
        if can_stand_in_header(c[0], equal_only) {
            assert(can_stand_in_header(c[0], equal_only));
        } else {
            match diff::first_hint(rest, equal_only) {
                Some(t) => {
                    let i = choose|i: int|
                        0 <= i < rest.len() && can_stand_in_header(#[trigger] rest[i], equal_only)
                            && t == text::trimmed(diff::spans_text(rest[i].spans)) && forall|
                            j: int,
                        |
                            0 <= j < i ==> !can_stand_in_header(#[trigger] rest[j], equal_only);
                    assert(c[i + 1] == rest[i]);
                    assert forall|j: int| 0 <= j < i + 1 implies !can_stand_in_header(
                        #[trigger] c[j],
                        equal_only,
                    ) by {
                        if j > 0 {
                            assert(c[j] == rest[j - 1]);
                        }
                    }
                },
                None => {
                    assert forall|j: int| 0 <= j < c.len() implies !can_stand_in_header(
                        #[trigger] c[j],
                        equal_only,
                    ) by {
                        if j > 0 {
                            assert(c[j] == rest[j - 1]);
                        }
                    }
                },
            }
        }
    }
}

/// The header of a hunk shows the first line that both versions have and that is not
/// blank; where there is none, the first line of the hunk that is not blank; and nothing
/// where all are blank.
pub proof fn law_header_shows_where_the_hunk_stands(h: Seq<Seq<ChangeView>>)
    ensures
        ({
            let c = diff::flat_changes(h);
            let kept = exists|i: int| 0 <= i < c.len() && can_stand_in_header(#[trigger] c[i], true);
            match diff::context_hint(h) {
                Some(t) => exists|i: int|
                    0 <= i < c.len() && can_stand_in_header(#[trigger] c[i], kept) && t
                        == text::trimmed(diff::spans_text(c[i].spans)) && forall|j: int|
                        0 <= j < i ==> !can_stand_in_header(#[trigger] c[j], kept),
                None => forall|i: int|
                    0 <= i < c.len() ==> text::is_blank(
                        diff::spans_text((#[trigger] c[i]).spans),
                    ),
            }
        }),
{
    let c = diff::flat_changes(h);
    lemma_first_hint(c, true);
    lemma_first_hint(c, false);
    if diff::context_hint(h) is None {
        assert forall|i: int| 0 <= i < c.len() implies text::is_blank(
            diff::spans_text((#[trigger] c[i]).spans),
        ) by {
            assert(!can_stand_in_header(c[i], false));
        }
    }
}

/// The signs of a diff: a line that both versions have stands behind a blank, a removed one
/// behind a minus and an added one behind a plus.
pub proof fn law_sign_tells_the_version(c: ChangeView)
    ensures
        ({
            let l = diff::diff_line(c);
            &&& l.text.len() > 0
            &&& (l.kind is Context) == (c.tag is Equal)
            &&& (l.kind is Remove) == (c.tag is Delete)
            &&& (l.kind is Add) == (c.tag is Insert)
            &&& (l.text[0] == ' ') == (c.tag is Equal)
            &&& (l.text[0] == '-') == (c.tag is Delete)
            &&& (l.text[0] == '+') == (c.tag is Insert)
        }),
{
    reveal_strlit(" ");
    reveal_strlit("-");
    reveal_strlit("+");
    assert(diff::kind_prefix(Kind::Context).len() > 0);
}

} // verus!
