//! Reading the files and the diff of the selected file again.
use crate::diff;
use crate::diff::{ChangeView, InlineSpan, Kind, Line, LineView};
use crate::git::ViewKind;
use crate::hash;
use crate::highlight;
use crate::highlight::Highlighter;
use crate::ordmap;
use crate::ordmap::OrdMap;
use crate::panes;
use crate::review;
use crate::review::{FileReview, FileReviewView, Review, ReviewView};
use crate::rows;
use crate::rows::{RenderRow, RowView};
use crate::session::DiffViewMode;
use crate::style;
use crate::style::{Span, SpanView};
use crate::text;
use std::collections::HashSet;
use vstd::prelude::*;

verus! {

/// What there is to show after the files of a view were listed.
#[derive(Debug, Clone, Copy, PartialEq, Eq, Structural)]
pub enum Listed {
    NoBase,
    NoChanges,
    Files,
}

/// What there is to show after the files of a view were listed.
pub fn after_listing(view: ViewKind, has_base: bool, count: usize) -> (r: Listed)
    ensures
        r == (if view == ViewKind::Base && !has_base {
            Listed::NoBase
        } else if count == 0 {
            Listed::NoChanges
        } else {
            Listed::Files
        }),
{
    if view == ViewKind::Base && !has_base {
        Listed::NoBase
    } else if count == 0 {
        Listed::NoChanges
    } else {
        Listed::Files
    }
}

/// The files that are marked as reviewed.
pub open spec fn reviewed_set(m: ReviewView) -> Map<Seq<char>, Seq<char>> {
    Map::new(|p: Seq<char>| m.contains_key(p) && m[p].reviewed, |p: Seq<char>| p)
}

/// The files that are marked as reviewed.
pub fn reviewed_files(r: &Review) -> (out: OrdMap<String, String>)
    ensures
        out@ == reviewed_set(r@),
{
    let n: usize = r.files.len();
    let ghost e = ordmap::ordered::<String, FileReviewView>(r@);
    let mut out = OrdMap::<String, String>::new();
    let mut i: usize = 0;
    proof {
        ordmap::lemma_map_of_empty::<String, FileReviewView>();
        assert(e.take(0) =~= Seq::empty());
        assert(out@ =~= reviewed_set(ordmap::map_of(e.take(0))));
    }
    while i < n
        invariant
            i <= n == e.len(),
            e == ordmap::ordered::<String, FileReviewView>(r@),
            ordmap::increasing::<String, FileReviewView>(e),
            out@ == reviewed_set(ordmap::map_of(e.take(i as int))),
        decreases n - i,
    {
        proof {
            ordmap::lemma_take_next::<String, FileReviewView>(e, i as int);
        }
        if r.files.val_at(i).reviewed {
            out.insert(r.files.key_at(i).clone(), r.files.key_at(i).clone());
        }
        assert(out@ =~= reviewed_set(ordmap::map_of(e.take(i + 1))));
        i += 1;
    }
    assert(e.take(n as int) =~= e);
    out
}

/// The fingerprints of a file that was marked as reviewed, as it is now: in the
/// present view, and in the view of the work tree where the present one is that of
/// the base.
#[derive(Debug)]
pub struct ReviewCheck {
    pub path: String,
    pub current: Option<String>,
    pub all: Option<String>,
}

/// What becomes of a file that was marked as reviewed: a mark without a fingerprint
/// is given the present one, and a mark whose fingerprint is neither of the two is
/// taken away.
pub open spec fn checked_file(
    f: FileReviewView,
    current: Option<Seq<char>>,
    all: Option<Seq<char>>,
) -> FileReviewView {
    match f.reviewed_hash {
        None => FileReviewView { reviewed_hash: current, ..f },
        Some(h) => if current == Some(h) || all == Some(h) {
            f
        } else {
            FileReviewView { reviewed: false, reviewed_hash: None, ..f }
        },
    }
}

/// `m` after a file was checked.
pub open spec fn checked(
    m: ReviewView,
    path: Seq<char>,
    current: Option<Seq<char>>,
    all: Option<Seq<char>>,
) -> ReviewView {
    if m.contains_key(path) {
        m.insert(path, checked_file(m[path], current, all))
    } else {
        m
    }
}

/// Whether an optional text is the text `s`.
fn is_text(o: &Option<String>, s: &str) -> (r: bool)
    ensures
        r == (text::opt_view(*o) == Some(s@)),
{
    match o {
        Some(t) => text::same(t.as_str(), s),
        None => false,
    }
}

/// Checks a file that was marked as reviewed against what it is now, and says
/// whether anything changed.
pub fn check_reviewed(r: &mut Review, check: &ReviewCheck) -> (changed: bool)
    ensures
        final(r)@ == checked(
            old(r)@,
            check.path@,
            text::opt_view(check.current),
            text::opt_view(check.all),
        ),
        changed == (final(r)@ != old(r)@),
{
    let ghost m = r@;
    let mut f = match r.files.remove(&check.path) {
        Some(f) => f,
        None => {
            return false;
        },
    };
    let ghost before = f@;
    let mut changed = false;
    match &f.reviewed_hash {
        None => match &check.current {
            Some(h) => {
                f.reviewed_hash = Some(h.clone());
                changed = true;
            },
            None => {},
        },
        Some(h) => {
            if !is_text(&check.current, h.as_str()) && !is_text(&check.all, h.as_str()) {
                f.reviewed = false;
                f.reviewed_hash = None;
                changed = true;
            }
        },
    }
    proof {
        assert(f@ =~= checked_file(
            before,
            text::opt_view(check.current),
            text::opt_view(check.all),
        ));
        assert(changed == (f@ != before));
        assert(m.remove(check.path@).insert(check.path@, f@) =~= m.insert(check.path@, f@));
        if !changed {
            assert(m.insert(check.path@, f@) =~= m);
        } else {
            assert(m.insert(check.path@, f@)[check.path@] != m[check.path@]);
        }
    }
    r.files.insert(check.path.clone(), f);
    changed
}

/// A mark that is left after a check is that of what the file is now.
pub proof fn law_mark_is_of_present_file(
    m: ReviewView,
    path: Seq<char>,
    current: Option<Seq<char>>,
    all: Option<Seq<char>>,
)
    requires
        m.contains_key(path),
    ensures
        ({
            let f = checked(m, path, current, all)[path];
            f.reviewed ==> f.reviewed_hash == current || f.reviewed_hash == all
        }),
        checked(m, path, current, all)[path].file_comment == m[path].file_comment,
        checked(m, path, current, all)[path].comments == m[path].comments,
{
}

/// `m` after some files were checked.
pub open spec fn all_checked(m: ReviewView, checks: Seq<ReviewCheck>) -> ReviewView
    decreases checks.len(),
{
    if checks.len() == 0 {
        m
    } else {
        let c = checks.last();
        checked(
            all_checked(m, checks.drop_last()),
            c.path@,
            text::opt_view(c.current),
            text::opt_view(c.all),
        )
    }
}

/// The files that checking changed, in the order of the checks.
pub open spec fn changed_files(m: ReviewView, checks: Seq<ReviewCheck>) -> Seq<Seq<char>>
    decreases checks.len(),
{
    if checks.len() == 0 {
        seq![]
    } else {
        let front = changed_files(m, checks.drop_last());
        if all_checked(m, checks) != all_checked(m, checks.drop_last()) {
            front.push(checks.last().path@)
        } else {
            front
        }
    }
}

/// Checks the files that were marked as reviewed against what they are now, and
/// returns those that changed, whose notes have to be written.
pub fn apply_reviewed_invalidation(r: &mut Review, checks: &Vec<ReviewCheck>) -> (out: Vec<String>)
    ensures
        final(r)@ == all_checked(old(r)@, checks@),
        text::views(out@) == changed_files(old(r)@, checks@),
{
    let ghost m = r@;
    let mut out: Vec<String> = Vec::new();
    let mut i: usize = 0;
    while i < checks.len()
        invariant
            i <= checks.len(),
            r@ == all_checked(m, checks@.take(i as int)),
            text::views(out@) =~= changed_files(m, checks@.take(i as int)),
        decreases checks.len() - i,
    {
        proof {
            assert(checks@.take(i + 1).drop_last() =~= checks@.take(i as int));
        }
        let ghost before = text::views(out@);
        let changed = check_reviewed(r, &checks[i]);
        if changed {
            out.push(checks[i].path.clone());
            assert(text::views(out@) =~= before.push(checks@[i as int].path@));
        }
        i += 1;
    }
    assert(checks@.take(i as int) =~= checks@);
    out
}

/// How a version of a file is named in the header of its diff.
pub open spec fn version_label(prefix: Seq<char>, path: Seq<char>, there: bool) -> Seq<char> {
    if there {
        prefix + path
    } else {
        "/dev/null"@
    }
}

/// How a version of a file is named in the header of its diff.
fn label_of(prefix: &str, path: &str, there: bool) -> (out: String)
    ensures
        out@ == version_label(prefix@, path@, there),
{
    if there {
        let mut out = String::new();
        out.append(prefix);
        out.append(path);
        assert(out@ =~= prefix@ + path@);
        out
    } else {
        "/dev/null".to_string()
    }
}

/// The lines of a diff that are shown: all but those of the header.
pub open spec fn shown_lines(v: Seq<LineView>) -> Seq<LineView>
    decreases v.len(),
{
    if v.len() == 0 {
        seq![]
    } else if v.last().kind == Kind::FileHeader {
        shown_lines(v.drop_last())
    } else {
        shown_lines(v.drop_last()).push(v.last())
    }
}

/// The lines of the old version that can have a comment.
pub open spec fn old_anchors(v: Seq<LineView>) -> Set<u32> {
    Set::new(
        |n: u32|
            exists|i: int|
                0 <= i < v.len() && (#[trigger] v[i]).kind == Kind::Remove && v[i].old_line == Some(
                    n,
                ),
    )
}

/// The lines of the new version that can have a comment.
pub open spec fn new_anchors(v: Seq<LineView>) -> Set<u32> {
    Set::new(
        |n: u32|
            exists|i: int|
                0 <= i < v.len() && ((#[trigger] v[i]).kind == Kind::Add || v[i].kind
                    == Kind::Context) && v[i].new_line == Some(n),
    )
}

/// A copy of the pieces of a line.
fn copy_pieces(v: &Vec<InlineSpan>) -> (out: Vec<InlineSpan>)
    ensures
        diff::span_views(out@) == diff::span_views(v@),
{
    let mut out: Vec<InlineSpan> = Vec::new();
    let mut i: usize = 0;
    while i < v.len()
        invariant
            i <= v.len(),
            diff::span_views(out@) =~= diff::span_views(v@).take(i as int),
        decreases v.len() - i,
    {
        let ghost before = diff::span_views(out@);
        out.push(InlineSpan { text: v[i].text.clone(), emphasized: v[i].emphasized });
        assert(diff::span_views(out@) =~= before.push(diff::span_views(v@)[i as int]));
        i += 1;
    }
    out
}

/// A copy of a line.
fn copy_line(l: &Line) -> (out: Line)
    ensures
        out@ == l@,
{
    Line {
        kind: l.kind,
        text: l.text.clone(),
        old_line: l.old_line,
        new_line: l.new_line,
        inline_spans: match &l.inline_spans {
            Some(v) => Some(copy_pieces(v)),
            None => None,
        },
    }
}

/// The lines of a diff that are shown: all but those of the header.
pub fn without_header(lines: &Vec<Line>) -> (out: Vec<Line>)
    ensures
        diff::line_views(out@) == shown_lines(diff::line_views(lines@)),
{
    let ghost all = diff::line_views(lines@);
    let mut out: Vec<Line> = Vec::new();
    let mut i: usize = 0;
    while i < lines.len()
        invariant
            i <= lines.len() == all.len(),
            all == diff::line_views(lines@),
            diff::line_views(out@) =~= shown_lines(all.take(i as int)),
        decreases lines.len() - i,
    {
        proof {
            assert(all.take(i + 1).drop_last() =~= all.take(i as int));
        }
        let ghost before = diff::line_views(out@);
        if lines[i].kind != Kind::FileHeader {
            out.push(copy_line(&lines[i]));
            assert(diff::line_views(out@) =~= before.push(all[i as int]));
        }
        i += 1;
    }
    assert(all.take(i as int) =~= all);
    out
}

/// The lines of the old and of the new version that can have a comment.
pub fn anchors(lines: &Vec<Line>) -> (r: (HashSet<u32>, HashSet<u32>))
    ensures
        r.0@ == old_anchors(diff::line_views(lines@)),
        r.1@ == new_anchors(diff::line_views(lines@)),
{
    broadcast use vstd::std_specs::hash::group_hash_axioms;

    let ghost all = diff::line_views(lines@);
    let mut old_lines: HashSet<u32> = HashSet::new();
    let mut new_lines: HashSet<u32> = HashSet::new();
    let mut i: usize = 0;
    assert(old_lines@ =~= old_anchors(all.take(0)));
    assert(new_lines@ =~= new_anchors(all.take(0)));
    while i < lines.len()
        invariant
            i <= lines.len() == all.len(),
            all == diff::line_views(lines@),
            old_lines@ == old_anchors(all.take(i as int)),
            new_lines@ == new_anchors(all.take(i as int)),
        decreases lines.len() - i,
    {
        let ghost old_before = old_lines@;
        let ghost new_before = new_lines@;
        let line = &lines[i];
        assert(all[i as int] == line@);
        match line.kind {
            Kind::Remove => match line.old_line {
                Some(n) => {
                    old_lines.insert(n);
                },
                None => {},
            },
            Kind::Add | Kind::Context => match line.new_line {
                Some(n) => {
                    new_lines.insert(n);
                },
                None => {},
            },
            _ => {},
        }
        proof {
            let a = all.take(i as int);
            let b = all.take(i + 1);
            let l = all[i as int];
            assert forall|n: u32| #[trigger]
                old_anchors(b).contains(n) == (old_anchors(a).contains(n) || (l.kind == Kind::Remove
                    && l.old_line == Some(n))) by {
                if old_anchors(a).contains(n) {
                    let j = choose|j: int|
                        0 <= j < a.len() && (#[trigger] a[j]).kind == Kind::Remove && a[j].old_line
                            == Some(n);
                    assert(b[j] == a[j]);
                }
                if l.kind == Kind::Remove && l.old_line == Some(n) {
                    assert(b[i as int] == l);
                }
                if old_anchors(b).contains(n) && !(l.kind == Kind::Remove && l.old_line == Some(
                    n,
                )) {
                    let j = choose|j: int|
                        0 <= j < b.len() && (#[trigger] b[j]).kind == Kind::Remove && b[j].old_line
                            == Some(n);
                    assert(a[j] == b[j]);
                }
            }
            assert forall|n: u32| #[trigger]
                new_anchors(b).contains(n) == (new_anchors(a).contains(n) || ((l.kind == Kind::Add
                    || l.kind == Kind::Context) && l.new_line == Some(n))) by {
                if new_anchors(a).contains(n) {
                    let j = choose|j: int|
                        0 <= j < a.len() && ((#[trigger] a[j]).kind == Kind::Add || a[j].kind
                            == Kind::Context) && a[j].new_line == Some(n);
                    assert(b[j] == a[j]);
                }
                if (l.kind == Kind::Add || l.kind == Kind::Context) && l.new_line == Some(n) {
                    assert(b[i as int] == l);
                }
                if new_anchors(b).contains(n) && !((l.kind == Kind::Add || l.kind == Kind::Context)
                    && l.new_line == Some(n)) {
                    let j = choose|j: int|
                        0 <= j < b.len() && ((#[trigger] b[j]).kind == Kind::Add || b[j].kind
                            == Kind::Context) && b[j].new_line == Some(n);
                    assert(a[j] == b[j]);
                }
            }
            assert(old_lines@ =~= old_anchors(b));
            assert(new_lines@ =~= new_anchors(b));
        }
        i += 1;
    }
    assert(all.take(i as int) =~= all);
    (old_lines, new_lines)
}

/// The diff of the selected file, and whether comments went that it has no line
/// for.
#[derive(Debug)]
pub struct FileDiff {
    pub lines: Vec<Line>,
    pub shown: Vec<Line>,
    pub pruned: bool,
}

/// An optional text, empty where there is none.
pub open spec fn or_empty(o: Option<Seq<char>>) -> Seq<char> {
    match o {
        Some(s) => s,
        None => seq![],
    }
}

/// Whether lines are those of the diff of two versions of the file of a path.
pub open spec fn is_file_diff(
    v: Seq<LineView>,
    path: Seq<char>,
    before: Option<Seq<char>>,
    after: Option<Seq<char>>,
    context: nat,
) -> bool {
    let b = or_empty(before);
    let a = or_empty(after);
    exists|hunks: Seq<Seq<Seq<ChangeView>>>| #[trigger]
        diff::is_diff_of(hunks, or_empty(before), or_empty(after), context) && v == diff::unified_lines(
            version_label("a/"@, path, before is Some),
            version_label("b/"@, path, after is Some),
            diff::grouped_ops_of(b, a, context),
            hunks,
        )
}

/// The diff of two versions of a file, after which the file has comments only on
/// lines that the diff shows.
pub fn load_diff(
    r: &mut Review,
    path: &str,
    before: Option<&str>,
    after: Option<&str>,
    context: u32,
) -> (d: FileDiff)
    requires
        diff::is_comparable(diff::text_or_empty(before), diff::text_or_empty(after)),
        2 * context <= usize::MAX,
    ensures
        is_file_diff(
            diff::line_views(d.lines@),
            path@,
            hash::opt_str(before),
            hash::opt_str(after),
            context as nat,
        ),
        diff::line_views(d.shown@) == shown_lines(diff::line_views(d.lines@)),
        final(r)@ == review::pruned(
            old(r)@,
            path@,
            old_anchors(diff::line_views(d.shown@)),
            new_anchors(diff::line_views(d.shown@)),
        ),
        d.pruned == (final(r)@ != old(r)@),
{
    proof {
        assert(diff::text_or_empty(before) == or_empty(hash::opt_str(before)));
        assert(diff::text_or_empty(after) == or_empty(hash::opt_str(after)));
    }
    let before_label = label_of("a/", path, before.is_some());
    let after_label = label_of("b/", path, after.is_some());
    let lines = diff::unified_file_diff(
        before_label.as_str(),
        after_label.as_str(),
        before,
        after,
        context,
    );
    let shown = without_header(&lines);
    let (old_lines, new_lines) = anchors(&shown);
    let pruned = r.prune_line_comments(path, &old_lines, &new_lines);
    FileDiff { lines, shown, pruned }
}

/// After a diff was loaded, each line comment of its file stands on a line that the
/// diff shows.
pub proof fn law_comments_stand_on_shown_lines(m: ReviewView, path: Seq<char>, v: Seq<LineView>)
    ensures
        ({
            let f = review::file_or_blank(
                review::pruned(m, path, old_anchors(v), new_anchors(v)),
                path,
            );
            forall|k: review::LineKey| #[trigger]
                f.comments.contains_key(k) ==> match k.side {
                    review::LineSide::Old => old_anchors(v).contains(k.line),
                    review::LineSide::New => new_anchors(v).contains(k.line),
                }
        }),
{
}

/// Lines of code in colour, where the language of the file is known.
pub open spec fn colored_code(lang: Option<Seq<char>>, code: Seq<char>) -> Option<
    Seq<Seq<SpanView>>,
> {
    match lang {
        None => Some(seq![]),
        Some(l) => match highlight::chunks_of(l, code) {
            Some(c) => Some(highlight::shown_code(c)),
            None => None,
        },
    }
}

/// Lines of code in colour, where the language of the file is known.
fn color_code(h: &Highlighter, lang: Option<&str>, code: &str) -> (r: Option<Vec<Vec<Span>>>)
    ensures
        match r {
            Some(v) => colored_code(hash::opt_str(lang), code@) == Some(style::line_views(v@)),
            None => colored_code(hash::opt_str(lang), code@) is None,
        },
{
    match lang {
        None => {
            let v: Vec<Vec<Span>> = Vec::new();
            assert(style::line_views(v@) =~= seq![]);
            Some(v)
        },
        Some(l) => h.highlight_lang(l, code),
    }
}

/// The row above the diff of a file.
pub open spec fn with_file_header(path: Seq<char>, r: Seq<RowView>) -> Seq<RowView> {
    seq![RowView::FileHeader { path }] + r
}

/// Puts the row above the diff of a file.
fn add_file_header(path: &str, r: Vec<RenderRow>) -> (out: Vec<RenderRow>)
    ensures
        rows::row_views(out@) == with_file_header(path@, rows::row_views(r@)),
{
    let mut out = r;
    let ghost before = rows::row_views(out@);
    out.insert(0, RenderRow::FileHeader { path: path.to_string() });
    assert(rows::row_views(out@) =~= with_file_header(path@, before));
    out
}

/// The rows of the unified view of a diff; nothing where its code could not be
/// read in the language of the file.
pub fn unified_rows(h: &Highlighter, path: &str, lang: Option<&str>, shown: &Vec<Line>) -> (r:
    Option<Vec<RenderRow>>)
    ensures
        ({
            let v = diff::line_views(shown@);
            let hl = colored_code(hash::opt_str(lang), rows::code_block(v));
            match r {
                Some(out) => hl is Some && rows::row_views(out@) == with_file_header(
                    path@,
                    rows::unified_rows(v, hl->0),
                ),
                None => hl is None,
            }
        }),
{
    let code = rows::unified_code(shown);
    match color_code(h, lang, code.as_str()) {
        Some(hl) => Some(add_file_header(path, rows::build_unified_rows(shown, &hl))),
        None => None,
    }
}

/// The rows of the view of a diff with the two versions side by side; nothing where
/// the code of either could not be read in the language of the file.
pub fn side_by_side_rows(h: &Highlighter, path: &str, lang: Option<&str>, shown: &Vec<Line>) -> (r:
    Option<Vec<RenderRow>>)
    ensures
        ({
            let pairs = rows::pairs_of(diff::line_views(shown@));
            let left = colored_code(hash::opt_str(lang), rows::side_code(pairs, true));
            let right = colored_code(hash::opt_str(lang), rows::side_code(pairs, false));
            match r {
                Some(out) => left is Some && right is Some && rows::row_views(out@)
                    == with_file_header(path@, rows::side_by_side_rows(pairs, left->0, right->0)),
                None => left is None || right is None,
            }
        }),
{
    let left_code = rows::side_by_side_code(shown, true);
    let right_code = rows::side_by_side_code(shown, false);
    match color_code(h, lang, left_code.as_str()) {
        Some(left) => match color_code(h, lang, right_code.as_str()) {
            Some(right) => Some(
                add_file_header(path, rows::build_side_by_side_rows(shown, &left, &right)),
            ),
            None => None,
        },
        None => None,
    }
}

/// The version of a file that is shown as a whole: the new one, or the old one of a
/// deleted file.
pub open spec fn whole_text(before: Option<Seq<char>>, after: Option<Seq<char>>) -> Seq<char> {
    match (before, after) {
        (_, Some(a)) => a,
        (Some(b), None) => b,
        (None, None) => seq![],
    }
}

/// Whether lines are those of the view of a whole file.
pub open spec fn is_whole_file(
    v: Seq<diff::DecoratedView>,
    before: Option<Seq<char>>,
    after: Option<Seq<char>>,
) -> bool {
    let b = or_empty(before);
    let a = or_empty(after);
    if before is Some && after is None {
        v == diff::deleted_file_lines(b)
    } else if b.len() == 0 {
        v == diff::new_file_lines(a, |i: int| diff::LineStatus::Added)
    } else {
        exists|changes: Seq<Seq<ChangeView>>| #[trigger]
            diff::all_filled(
                changes,
                diff::ops_of(or_empty(before), or_empty(after)),
                or_empty(before),
                or_empty(after),
            ) && v == diff::new_file_lines(
                a,
                |i: int| diff::status_at(diff::flat_changes(changes), i),
            )
    }
}

/// The rows of the view of a whole file; nothing where it could not be read in its
/// language.
pub fn decorated_rows(
    h: &Highlighter,
    path: &str,
    lang: Option<&str>,
    before: Option<&str>,
    after: Option<&str>,
) -> (r: Option<Vec<RenderRow>>)
    requires
        diff::is_comparable(diff::text_or_empty(before), diff::text_or_empty(after)),
    ensures
        ({
            let b = hash::opt_str(before);
            let a = hash::opt_str(after);
            let hl = colored_code(hash::opt_str(lang), whole_text(b, a));
            match r {
                Some(out) => hl is Some && exists|v: Seq<diff::DecoratedView>| #[trigger]
                    is_whole_file(v, b, a) && rows::row_views(out@) == with_file_header(
                        path@,
                        v.map_values(|l: diff::DecoratedView| rows::decorated_row(l, hl->0)),
                    ),
                None => hl is None,
            }
        }),
{
    proof {
        assert(diff::text_or_empty(before) == or_empty(hash::opt_str(before)));
        assert(diff::text_or_empty(after) == or_empty(hash::opt_str(after)));
    }
    let lines = diff::decorated_file_diff(before, after);
    let content = match after {
        Some(a) => a,
        None => match before {
            Some(b) => b,
            None => "",
        },
    };
    proof {
        reveal_strlit("");
        assert(""@ =~= Seq::<char>::empty());
        assert(content@ == whole_text(hash::opt_str(before), hash::opt_str(after)));
    }
    match color_code(h, lang, content) {
        Some(hl) => {
            let out = rows::build_decorated_rows(&lines, &hl);
            proof {
                let v = diff::decorated_views(lines@);
                assert(is_whole_file(v, hash::opt_str(before), hash::opt_str(after)));
            }
            Some(add_file_header(path, out))
        },
        None => None,
    }
}

/// What the rows of a file are built from.
pub struct RowSources<'a> {
    pub path: &'a str,
    pub lang: Option<&'a str>,
    pub before: Option<&'a str>,
    pub after: Option<&'a str>,
}

/// The rows of a file, and the row that the cursor is on.
#[derive(Debug)]
pub struct ShownFile {
    pub rows: Vec<RenderRow>,
    pub cursor: usize,
}

/// The rows of the selected file in a diff mode, and the row that the cursor starts
/// on; nothing where its code could not be read in its language.
pub fn build_rows(h: &Highlighter, mode: DiffViewMode, s: &RowSources<'_>, shown: &Vec<Line>) -> (r:
    Option<ShownFile>)
    requires
        diff::is_comparable(diff::text_or_empty(s.before), diff::text_or_empty(s.after)),
    ensures
        ({
            let v = diff::line_views(shown@);
            let lang = hash::opt_str(s.lang);
            let b = hash::opt_str(s.before);
            let a = hash::opt_str(s.after);
            match mode {
                DiffViewMode::Unified => {
                    let hl = colored_code(lang, rows::code_block(v));
                    (r is Some) == (hl is Some) && (r is Some ==> rows::row_views(r->0.rows@)
                        == with_file_header(s.path@, rows::unified_rows(v, hl->0)))
                },
                DiffViewMode::SideBySide => {
                    let pairs = rows::pairs_of(v);
                    let left = colored_code(lang, rows::side_code(pairs, true));
                    let right = colored_code(lang, rows::side_code(pairs, false));
                    (r is Some) == (left is Some && right is Some) && (r is Some
                        ==> rows::row_views(r->0.rows@) == with_file_header(
                        s.path@,
                        rows::side_by_side_rows(pairs, left->0, right->0),
                    ))
                },
                DiffViewMode::Decorated => {
                    let hl = colored_code(lang, whole_text(b, a));
                    (r is Some) == (hl is Some) && (r is Some ==> exists|
                        v: Seq<diff::DecoratedView>,
                    | #[trigger]
                        is_whole_file(v, b, a) && rows::row_views(r->0.rows@) == with_file_header(
                            s.path@,
                            v.map_values(|l: diff::DecoratedView| rows::decorated_row(l, hl->0)),
                        ))
                },
            }
        }),
        r is Some ==> r->0.cursor == panes::start_row(rows::row_views(r->0.rows@)),
{
    let built = match mode {
        DiffViewMode::Decorated => decorated_rows(h, s.path, s.lang, s.before, s.after),
        DiffViewMode::Unified => unified_rows(h, s.path, s.lang, shown),
        DiffViewMode::SideBySide => side_by_side_rows(h, s.path, s.lang, shown),
    };
    match built {
        Some(all) => {
            let cursor: usize = panes::first_code_row(&all);
            Some(ShownFile { rows: all, cursor })
        },
        None => None,
    }
}

} // verus!
