//! How files, refs, lines and states are told by their names, numbers and marks.
use crate::draft_text;
use crate::git;
use crate::git::{StatusItemView, UnstagedStatus, WorktreeChange, WorktreeItem};
use crate::hash;
use crate::lsp;
use crate::lsp::{WatchInput, WatchPhase};
use crate::metrics;
use crate::notes;
use crate::probe;
use crate::probe::{AnswerView, Probe, StepView};
use crate::prompt_code;
use crate::review::{LineKey, LineSide};
use crate::rows::RowView;
use crate::session;
use crate::sync;
use crate::sync::DraftLineMeta;
use crate::text;
use vstd::prelude::*;

verus! {

proof fn lemma_last_dot(stem: Seq<char>, ext: Seq<char>)
    requires
        hash::is_free_of(ext, '.'),
    ensures
        prompt_code::last_dot(stem + seq!['.'] + ext) == stem.len(),
        prompt_code::last_dot(ext) == -1,
    decreases ext.len(),
{
    let s = stem + seq!['.'] + ext;
    if ext.len() > 0 {
        let front = ext.drop_last();
        lemma_last_dot(stem, front);
        assert(s.drop_last() =~= stem + seq!['.'] + front);
        assert(s.last() == ext.last());
        assert(ext[ext.len() - 1] != '.');
    } else {
        assert(s.last() == '.');
    }
}

proof fn lemma_last_part(dir: Seq<char>, name: Seq<char>)
    requires
        hash::is_free_of(name, '/'),
    ensures
        text::split_of(dir + seq!['/'] + name, '/').len() > 1,
        text::split_of(dir + seq!['/'] + name, '/').last() == name,
        text::split_of(name, '/') == seq![name],
    decreases dir.len(),
{
    let s = dir + seq!['/'] + name;
    text::lemma_is_first_index(name, '/', name.len() as int);
    text::lemma_first_index(dir, '/');
    let n = text::first_index(dir, '/');
    if n < dir.len() {
        assert forall|k: int| 0 <= k < n implies s[k] != '/' by {
            assert(s[k] == dir[k]);
        }
        assert(s[n] == dir[n]);
        text::lemma_is_first_index(s, '/', n);
        let rest = dir.skip(n + 1);
        lemma_last_part(rest, name);
        assert(s.skip(n + 1) =~= rest + seq!['/'] + name);
    } else {
        assert forall|k: int| 0 <= k < n implies s[k] != '/' by {
            assert(s[k] == dir[k]);
        }
        assert(s[n] == '/');
        text::lemma_is_first_index(s, '/', n);
        assert(s.skip(n + 1) =~= name);
        assert(text::split_of(name, '/') == seq![name]);
        assert(text::split_of(s, '/') == seq![s.take(n)] + text::split_of(s.skip(n + 1), '/'));
    }
}

/// The ending of a file is what stands behind the last dot of its name, whatever directory
/// it lies in; a name without a dot, or with none but the first character, has none.
pub proof fn law_ending_stands_behind_the_last_dot(
    dir: Seq<char>,
    stem: Seq<char>,
    ext: Seq<char>,
)
    requires
        hash::is_free_of(stem, '/'),
        hash::is_free_of(ext, '/'),
        hash::is_free_of(ext, '.'),
        ext.len() > 0,
    ensures
        stem.len() > 0 ==> prompt_code::ending_of(dir + seq!['/'] + (stem + seq!['.'] + ext))
            == ext,
        stem.len() > 0 ==> prompt_code::ending_of(stem + seq!['.'] + ext) == ext,
        prompt_code::ending_of(dir + seq!['/'] + (seq!['.'] + ext)).len() == 0,
        prompt_code::ending_of(dir + seq!['/'] + ext).len() == 0,
        prompt_code::ending_of(ext).len() == 0,
{
    reveal_strlit(".");
    reveal_strlit("..");
    let name = stem + seq!['.'] + ext;
    let hidden = seq!['.'] + ext;
    let none: Seq<char> = seq![];
    assert(hidden =~= none + seq!['.'] + ext);
    lemma_last_part(dir, name);
    lemma_last_part(dir, hidden);
    lemma_last_part(dir, ext);
    lemma_last_dot(stem, ext);
    lemma_last_dot(none, ext);
    assert(name.skip(stem.len() as int + 1) =~= ext);
    assert(ext[0] != '.');
    assert(name.last() == ext.last());
    assert(hidden.last() == ext.last());
    assert(ext[ext.len() - 1] != '.');
    assert(name != "."@ && name != ".."@);
    assert(hidden != "."@ && hidden != ".."@);
    assert(ext != "."@ && ext != ".."@);
}

/// New notes get a ref of their own: it tells when they were started and, after the first of
/// one moment, its number, and is known as one of these refs.
pub proof fn law_new_ref_is_told_apart(seconds: nat, number: nat, other: nat)
    ensures
        notes::new_ref_text(seconds, number) == notes::new_ref_text(seconds, other) ==> number
            == other,
        (git::default_notes_ref_text() + "-"@ + text::decimal(seconds)).is_prefix_of(
            notes::new_ref_text(seconds, number),
        ),
        notes::is_remark_ref(notes::new_ref_text(seconds, number)),
{
    let name = git::default_notes_ref_text() + "-"@ + text::decimal(seconds);
    let a = notes::new_ref_text(seconds, number);
    let b = notes::new_ref_text(seconds, other);
    reveal_strlit("-");
    text::lemma_decimal_parses(number);
    text::lemma_decimal_parses(other);
    assert(a.subrange(0, name.len() as int) =~= name);
    if number > 0 {
        assert(a.skip(name.len() as int + 1) =~= text::decimal(number));
    }
    if other > 0 {
        assert(b.skip(name.len() as int + 1) =~= text::decimal(other));
    }
    reveal_strlit("refs/notes/remark");
    reveal_strlit("refs/notes/remark-");
    let tag = "refs/notes/remark-"@;
    assert(tag =~= git::default_notes_ref_text() + "-"@);
    assert(a.subrange(0, tag.len() as int) =~= tag);
    assert(text::occurs_at(a, tag, 0));
}

/// What is told last of a file in the work tree is what is shown of it.
pub proof fn law_last_state_of_a_file_is_shown(
    items: Seq<StatusItemView>,
    include_ignored: bool,
    i: int,
)
    requires
        0 <= i < items.len(),
        git::item_status_of(items[i], include_ignored) is Some,
        forall|j: int|
            i < j < items.len() && git::item_status_of(#[trigger] items[j], include_ignored)
                is Some ==> items[j].path != items[i].path,
    ensures
        ({
            let m = git::unstaged_of(items, include_ignored);
            &&& m.contains_key(items[i].path)
            &&& Some(m[items[i].path]) == git::item_status_of(items[i], include_ignored)
        }),
    decreases items.len(),
{
    if i < items.len() - 1 {
        let front = items.drop_last();
        assert forall|j: int|
            i < j < front.len() && git::item_status_of(#[trigger] front[j], include_ignored)
                is Some implies front[j].path != front[i].path by {
            assert(front[j] == items[j]);
        }
        law_last_state_of_a_file_is_shown(front, include_ignored, i);
        assert(items[items.len() - 1] == items.last());
    }
}

/// Only what is told of a file in the work tree is shown of it.
pub proof fn law_only_told_states_are_shown(
    items: Seq<StatusItemView>,
    include_ignored: bool,
    path: Seq<char>,
)
    requires
        git::unstaged_of(items, include_ignored).contains_key(path),
    ensures
        exists|i: int|
            0 <= i < items.len() && (#[trigger] items[i]).path == path && git::item_status_of(
                items[i],
                include_ignored,
            ) == Some(git::unstaged_of(items, include_ignored)[path]),
    decreases items.len(),
{
    let front = items.drop_last();
    let n = items.len() - 1;
    assert(items[n] == items.last());
    if !(git::item_status_of(items.last(), include_ignored) is Some && items.last().path == path) {
        law_only_told_states_are_shown(front, include_ignored, path);
        let i = choose|i: int|
            0 <= i < front.len() && (#[trigger] front[i]).path == path && git::item_status_of(
                front[i],
                include_ignored,
            ) == Some(git::unstaged_of(front, include_ignored)[path]);
        assert(items[i] == front[i]);
    }
}

/// A directory is never listed, an ignored file only where that is asked for, an untracked
/// one always, and a tracked one just where it changed.
pub proof fn law_state_of_a_file_is_told(item: StatusItemView, include_ignored: bool)
    ensures
        ({
            let s = git::item_status_of(item, include_ignored);
            &&& item.is_dir ==> s is None
            &&& !item.is_dir && item.item is Untracked ==> s == Some(UnstagedStatus::Untracked)
            &&& !item.is_dir && item.item is Ignored ==> (s is Some) == include_ignored
            &&& s == Some(UnstagedStatus::Ignored) ==> item.item is Ignored
            &&& !item.is_dir && item.item is Known ==> (s is Some) == (item.item->Known_0 is Some)
            &&& item.item == WorktreeItem::Known(Some(WorktreeChange::Removed)) && !item.is_dir
                ==> s == Some(UnstagedStatus::Changed('D'))
            &&& item.item == WorktreeItem::Known(Some(WorktreeChange::Modified)) && !item.is_dir
                ==> s == Some(UnstagedStatus::Changed('M'))
        }),
{
}

/// The letter of a change in the work tree tells what happened; a file that is to be added
/// reads as an added one.
pub proof fn law_letter_of_the_work_tree_tells_the_change(a: WorktreeChange, b: WorktreeChange)
    ensures
        (git::change_letter(a) == git::change_letter(b)) == (a == b || ((a is Added || a
            is IntentToAdd) && (b is Added || b is IntentToAdd))),
        git::change_letter(a) == 'D' <==> a is Removed,
        git::change_letter(a) == 'M' <==> a is Modified,
        git::change_letter(a) == 'U' <==> a is Conflict,
        git::change_letter(a) == 'R' <==> a is Renamed,
        git::change_letter(a) == 'C' <==> a is Copied,
        git::change_letter(a) == 'T' <==> a is TypeChange,
{
}

proof fn lemma_decimal_grows(m: nat, n: nat)
    requires
        m <= n,
    ensures
        text::decimal(m).len() <= text::decimal(n).len(),
    decreases n,
{
    if m >= 10 {
        lemma_decimal_grows(m / 10, n / 10);
    } else {
        text::lemma_decimal_parses(n);
    }
}

/// The gutter has room for every number up to the greatest, and is never narrower than four
/// columns.
pub proof fn law_gutter_has_room(m: u32, n: u32)
    requires
        m <= n,
    ensures
        text::decimal(m as nat).len() <= metrics::gutter(n),
        metrics::gutter(n) >= 4,
        metrics::gutter(n) > 4 ==> metrics::gutter(n) == text::decimal(n as nat).len(),
{
    lemma_decimal_grows(m as nat, n as nat);
}

/// The watcher reads the draft only for a change: at the first one, and again when it has
/// grown quiet after more of them. It ends just when the source of events is closed, and
/// comes to rest when it is quiet and nothing is left to read.
pub proof fn law_watcher_reads_only_for_a_change(phase: WatchPhase, input: WatchInput)
    ensures
        ({
            let (next, action) = lsp::watched(phase, input);
            &&& (action is Stop) == (input is Closed)
            &&& action is Sync ==> (phase is Waiting && input is Change) || (phase
                == (WatchPhase::Draining { pending: true }) && input is Quiet)
            &&& phase is Waiting && input is Change ==> action is Sync
            &&& phase == (WatchPhase::Draining { pending: true }) && input is Quiet ==> action
                is Sync
            &&& action is Sync ==> next == (WatchPhase::Draining { pending: false })
            &&& phase == (WatchPhase::Draining { pending: false }) && input is Quiet ==> next
                is Waiting && action is Wait
            &&& input is Problem ==> next == phase
            &&& phase is Draining && input is Change ==> next == (WatchPhase::Draining {
                pending: true,
            })
        }),
{
}

/// The cursor stops at the rows that a comment can be written on.
pub proof fn law_cursor_stops_where_a_comment_can_stand(r: RowView)
    requires
        !(r is SideBySide),
    ensures
        session::is_commentable(r) == (session::row_locator(r) is Some),
{
}

/// The language of a name is asked for by the name itself, then as the ending of a file; a
/// file is made only where the question failed, with the ending of what was asked.
pub proof fn law_name_is_asked_for_first(raw: Seq<char>, answer: AnswerView)
    requires
        raw.len() > 0,
        !(answer is Language),
    ensures
        probe::probe_after(raw, None) == (StepView::Ask { probe: Probe::Name, path: raw }),
        !(answer is Failed) ==> probe::probe_after(raw, Some((Probe::Name, answer)))
            == (StepView::Ask { probe: Probe::Ending, path: "file."@ + raw }),
        probe::probe_after(raw, Some((Probe::NameFile, answer))) == (StepView::Ask {
            probe: Probe::Ending,
            path: "file."@ + raw,
        }),
        probe::probe_after(raw, Some((Probe::Name, answer))) matches StepView::Make { ending, .. }
            ==> answer is Failed && ending == text::lowered(prompt_code::ending_of(raw)),
        probe::probe_after(raw, Some((Probe::EndingFile, answer))) == StepView::Done(None),
        !(answer is Failed) ==> probe::probe_after(raw, Some((Probe::Ending, answer)))
            == StepView::Done(None),
{
}

/// The hash that is kept beside a draft for a line is the last one that was written for it.
pub proof fn law_last_hash_of_a_line_is_kept(lines: Seq<DraftLineMeta>, i: int)
    requires
        0 <= i < lines.len(),
        forall|j: int|
            i < j < lines.len() ==> hash::meta_key_text(
                (#[trigger] lines[j]).file@,
                lines[j].side@,
                lines[j].line as nat,
            ) != hash::meta_key_text(lines[i].file@, lines[i].side@, lines[i].line as nat),
    ensures
        ({
            let key = hash::meta_key_text(lines[i].file@, lines[i].side@, lines[i].line as nat);
            sync::meta_map(lines).contains_key(key) && sync::meta_map(lines)[key] == lines[i].hash@
        }),
    decreases lines.len(),
{
    if i < lines.len() - 1 {
        let front = lines.drop_last();
        assert(lines[lines.len() - 1] == lines.last());
        assert forall|j: int| i < j < front.len() implies hash::meta_key_text(
            (#[trigger] front[j]).file@,
            front[j].side@,
            front[j].line as nat,
        ) != hash::meta_key_text(front[i].file@, front[i].side@, front[i].line as nat) by {
            assert(front[j] == lines[j]);
        }
        law_last_hash_of_a_line_is_kept(front, i);
    }
}

proof fn lemma_digits_len(d: Seq<char>, rest: Seq<char>)
    requires
        text::all_digits(d),
        rest.len() > 0 ==> !text::is_digit(rest[0]),
    ensures
        draft_text::digits_len(d + rest) == d.len(),
    decreases d.len(),
{
    let s = d + rest;
    if d.len() > 0 {
        assert(s[0] == d[0]);
        assert(text::is_digit(d[0]));
        let later = d.drop_first();
        assert forall|i: int| 0 <= i < later.len() implies text::is_digit(#[trigger] later[i]) by {
            assert(later[i] == d[i + 1]);
        }
        lemma_digits_len(later, rest);
        assert(s.drop_first() =~= later + rest);
    } else {
        assert(s =~= rest);
    }
}

/// A line of a draft is told by its number, and by the word for the old version behind it
/// where it is a line of that.
pub proof fn law_line_is_told_by_its_number(line: u32, rest: Seq<char>)
    requires
        rest.len() > 0 ==> !text::is_digit(rest[0]),
    ensures
        draft_text::marked_line(text::decimal(line as nat) + rest) == Some(
            LineKey {
                side: if text::occurs(rest, "old"@) {
                    LineSide::Old
                } else {
                    LineSide::New
                },
                line,
            },
        ),
{
    let d = text::decimal(line as nat);
    text::lemma_decimal_parses(line as nat);
    lemma_digits_len(d, rest);
    assert((d + rest).take(d.len() as int) =~= d);
    assert((d + rest).skip(d.len() as int) =~= rest);
}

/// Columns are counted in units of sixteen bits: a text takes as many as its parts, and a
/// character one, or two where it stands beyond the basic plane.
pub proof fn law_columns_are_counted_in_units(a: Seq<char>, b: Seq<char>, c: char)
    ensures
        lsp::utf16_units(a + b) == lsp::utf16_units(a) + lsp::utf16_units(b),
        lsp::utf16_units(seq![c]) == (if c as int <= 0xffff {
            1nat
        } else {
            2nat
        }),
    decreases b.len(),
{
    assert(seq![c].drop_last() =~= seq![]);
    assert(lsp::utf16_units(seq![]) == 0);
    reveal_with_fuel(lsp::utf16_units, 2);
    if b.len() == 0 {
        assert(a + b =~= a);
    } else {
        law_columns_are_counted_in_units(a, b.drop_last(), c);
        assert((a + b).drop_last() =~= a + b.drop_last());
    }
}

} // verus!
