//! The rows of the diff pane: unified, side by side, or the whole file with
//! its lines decorated.
use crate::diff;
use crate::diff::{
    ChangeView, DecoratedLine, DecoratedView, InlineSpan, Kind, Line, LineStatus, LineView, Op,
};
use crate::style;
use crate::style::{Color, Span, SpanView, Style};
use crate::text;
use vstd::prelude::*;

verus! {

/// A row of the unified view.
#[derive(Debug)]
pub struct DiffRow {
    pub kind: Kind,
    pub old_line: Option<u32>,
    pub new_line: Option<u32>,
    pub spans: Vec<Span>,
}

/// A row of the view of the whole file.
#[derive(Debug)]
pub struct DecoratedRow {
    pub status: LineStatus,
    pub line_number: u32,
    pub old_line_number: Option<u32>,
    pub spans: Vec<Span>,
}

/// A row of the view with the two versions side by side.
#[derive(Debug)]
pub struct SideBySideRow {
    pub left_kind: Option<Kind>,
    pub right_kind: Option<Kind>,
    pub old_line: Option<u32>,
    pub new_line: Option<u32>,
    pub left_spans: Vec<Span>,
    pub right_spans: Vec<Span>,
}

/// A row of the diff pane.
#[derive(Debug)]
pub enum RenderRow {
    FileHeader { path: String },
    Section { text: String },
    Unified(DiffRow),
    SideBySide(SideBySideRow),
    Decorated(DecoratedRow),
}

/// What a row of the diff pane holds.
pub enum RowView {
    FileHeader { path: Seq<char> },
    Section { text: Seq<char> },
    Unified { kind: Kind, old_line: Option<u32>, new_line: Option<u32>, spans: Seq<SpanView> },
    SideBySide {
        left_kind: Option<Kind>,
        right_kind: Option<Kind>,
        old_line: Option<u32>,
        new_line: Option<u32>,
        left: Seq<SpanView>,
        right: Seq<SpanView>,
    },
    Decorated {
        status: LineStatus,
        line_number: u32,
        old_line_number: Option<u32>,
        spans: Seq<SpanView>,
    },
}

impl View for RenderRow {
    type V = RowView;

    open spec fn view(&self) -> RowView {
        match self {
            RenderRow::FileHeader { path } => RowView::FileHeader { path: path@ },
            RenderRow::Section { text } => RowView::Section { text: text@ },
            RenderRow::Unified(r) => RowView::Unified {
                kind: r.kind,
                old_line: r.old_line,
                new_line: r.new_line,
                spans: style::views(r.spans@),
            },
            RenderRow::SideBySide(r) => RowView::SideBySide {
                left_kind: r.left_kind,
                right_kind: r.right_kind,
                old_line: r.old_line,
                new_line: r.new_line,
                left: style::views(r.left_spans@),
                right: style::views(r.right_spans@),
            },
            RenderRow::Decorated(r) => RowView::Decorated {
                status: r.status,
                line_number: r.line_number,
                old_line_number: r.old_line_number,
                spans: style::views(r.spans@),
            },
        }
    }
}

/// What some rows of the diff pane hold.
pub open spec fn row_views(v: Seq<RenderRow>) -> Seq<RowView> {
    v.map_values(|r: RenderRow| r@)
}

/// What stands behind the one-byte prefix of a line of a diff.
pub open spec fn behind_prefix(s: Seq<char>) -> Seq<char> {
    if s.len() > 0 && (s[0] as int) < 0x80 {
        s.skip(1)
    } else {
        seq![]
    }
}

/// The code of a line of a diff, without its line ending: its pieces put together, and
/// what stands behind its prefix where the pieces are not known.
pub open spec fn code_of(l: LineView) -> Seq<char> {
    diff::unended(
        match l.spans {
            Some(spans) => diff::spans_text(spans),
            None => behind_prefix(l.text),
        },
    )
}

/// What stands behind the one-byte prefix of a line of a diff.
pub fn text_behind_prefix(s: &str) -> (out: String)
    ensures
        out@ == behind_prefix(s@),
{
    let v = text::chars(s);
    if v.len() > 0 && text::code(v[0]) < 0x80 {
        text::string_of(&v, 1, v.len())
    } else {
        String::new()
    }
}

/// The code of a line of a diff.
pub fn line_code(l: &Line) -> (out: String)
    ensures
        out@ == code_of(l@),
{
    match &l.inline_spans {
        Some(spans) => diff::without_ending(diff::join_spans(spans).as_str()),
        None => diff::without_ending(text_behind_prefix(l.text.as_str()).as_str()),
    }
}

/// Whether a line of a diff is a line of a version.
pub open spec fn is_code(kind: Kind) -> bool {
    kind is Context || kind is Add || kind is Remove
}

/// How many of the lines are lines of a version.
pub open spec fn code_count(lines: Seq<LineView>) -> nat
    decreases lines.len(),
{
    if lines.len() == 0 {
        0
    } else if is_code(lines.last().kind) {
        code_count(lines.drop_last()) + 1
    } else {
        code_count(lines.drop_last())
    }
}

/// The code of the lines of a diff, a line each: what is highlighted.
pub open spec fn code_block(lines: Seq<LineView>) -> Seq<char>
    decreases lines.len(),
{
    if lines.len() == 0 {
        seq![]
    } else if is_code(lines.last().kind) {
        code_block(lines.drop_last()) + code_of(lines.last()) + seq!['\n']
    } else {
        code_block(lines.drop_last())
    }
}

/// The code of the lines of a diff, a line each: what is highlighted.
pub fn unified_code(lines: &Vec<Line>) -> (out: String)
    ensures
        out@ == code_block(diff::line_views(lines@)),
{
    let mut out = String::new();
    let ghost v = diff::line_views(lines@);
    let mut i: usize = 0;
    assert(v.take(0) =~= Seq::empty());
    while i < lines.len()
        invariant
            i <= lines.len(),
            v == diff::line_views(lines@),
            out@ == code_block(v.take(i as int)),
        decreases lines.len() - i,
    {
        assert(v.take(i + 1).drop_last() =~= v.take(i as int));
        assert(v.take(i + 1).last() == lines@[i as int]@);
        match lines[i].kind {
            Kind::Context | Kind::Add | Kind::Remove => {
                let code = line_code(&lines[i]);
                let ghost before = out@;
                out.append(code.as_str());
                out.push('\n');
                assert(out@ =~= before + code@ + seq!['\n']);
            },
            _ => {},
        }
        i += 1;
    }
    assert(v.take(i as int) =~= v);
    out
}

/// How a changed line looks whose pieces are known: as it is highlighted, else in the
/// colour of what became of it. A line that was neither added nor removed has no such
/// look.
pub open spec fn merged_spans(
    inline: Seq<diff::SpanView>,
    syntax: Option<Seq<SpanView>>,
    kind: Kind,
) -> Seq<SpanView> {
    if !(kind is Remove || kind is Add) {
        seq![style::raw_view(seq![])]
    } else {
        match syntax {
            Some(s) => s,
            None => seq![
                SpanView {
                    content: diff::spans_text(inline),
                    style: style::colored(
                        if kind is Remove {
                            Color::Red
                        } else {
                            Color::Green
                        },
                    ),
                },
            ],
        }
    }
}

/// What an optional highlighted line holds.
pub open spec fn opt_spans(o: Option<&Vec<Span>>) -> Option<Seq<SpanView>> {
    match o {
        Some(v) => Some(style::views(v@)),
        None => None,
    }
}

/// How a line looks whose changed pieces are known.
pub fn merge_inline_with_syntax(
    inline_spans: &Vec<InlineSpan>,
    syntax_spans: Option<&Vec<Span>>,
    kind: Kind,
) -> (out: Vec<Span>)
    ensures
        style::views(out@) == merged_spans(
            diff::span_views(inline_spans@),
            opt_spans(syntax_spans),
            kind,
        ),
{
    let color = match kind {
        Kind::Remove => Color::Red,
        Kind::Add => Color::Green,
        _ => {
            return style::one(Span::raw(String::new()));
        },
    };
    match syntax_spans {
        Some(s) => style::copy_spans(s),
        None => style::one(
            Span { content: diff::join_spans(inline_spans), style: Style::of(color) },
        ),
    }
}

/// The highlighted line at `i`, where there is one.
pub open spec fn highlighted_at(hl: Seq<Seq<SpanView>>, i: int) -> Option<Seq<SpanView>> {
    if 0 <= i < hl.len() {
        Some(hl[i])
    } else {
        None
    }
}

/// The row of the unified view for the line `l`; `hl` is the line as it is
/// highlighted. A line that both versions have is shown as it is highlighted, else as
/// it stands behind its prefix.
pub open spec fn unified_row(l: LineView, hl: Option<Seq<SpanView>>) -> RowView {
    if l.kind is HunkHeader {
        RowView::Section { text: l.text }
    } else {
        RowView::Unified {
            kind: l.kind,
            old_line: l.old_line,
            new_line: l.new_line,
            spans: if !is_code(l.kind) {
                seq![style::raw_view(l.text)]
            } else {
                match l.spans {
                    Some(inline) if !(l.kind is Context) => merged_spans(inline, hl, l.kind),
                    _ => match hl {
                        Some(s) => s,
                        None => seq![style::raw_view(behind_prefix(l.text))],
                    },
                }
            },
        }
    }
}

/// The rows of the unified view; `hl` is their code as it is highlighted.
pub open spec fn unified_rows(lines: Seq<LineView>, hl: Seq<Seq<SpanView>>) -> Seq<RowView> {
    Seq::new(
        lines.len(),
        |i: int|
            unified_row(lines[i], highlighted_at(hl, code_count(lines.take(i)) as int)),
    )
}

/// The rows of the unified view; `highlighted` is their code as it is
/// highlighted, and empty where it is not.
pub fn build_unified_rows(lines: &Vec<Line>, highlighted: &Vec<Vec<Span>>) -> (out: Vec<RenderRow>)
    ensures
        row_views(out@) == unified_rows(
            diff::line_views(lines@),
            style::line_views(highlighted@),
        ),
{
    let ghost v = diff::line_views(lines@);
    let ghost hl = style::line_views(highlighted@);
    let mut out: Vec<RenderRow> = Vec::new();
    let mut code_idx: usize = 0;
    let mut i: usize = 0;
    assert(v.take(0) =~= Seq::empty());
    while i < lines.len()
        invariant
            i <= lines.len(),
            code_idx <= i,
            v == diff::line_views(lines@),
            hl == style::line_views(highlighted@),
            code_idx == code_count(v.take(i as int)),
            row_views(out@) =~= unified_rows(v, hl).take(i as int),
        decreases lines.len() - i,
    {
        proof {
            assert(v.take(i + 1).drop_last() =~= v.take(i as int));
            assert(v.take(i + 1).last() == lines@[i as int]@);
        }
        let ghost before = row_views(out@);
        let l = &lines[i];
        let syntax: Option<&Vec<Span>> = if code_idx < highlighted.len() {
            Some(&highlighted[code_idx])
        } else {
            None
        };
        assert(opt_spans(syntax) == highlighted_at(hl, code_idx as int));
        let row = match l.kind {
            Kind::HunkHeader => RenderRow::Section { text: l.text.clone() },
            Kind::Context | Kind::Add | Kind::Remove => {
                let spans = match &l.inline_spans {
                    Some(inline) if l.kind != Kind::Context => merge_inline_with_syntax(
                        inline,
                        syntax,
                        l.kind,
                    ),
                    _ => match syntax {
                        Some(s) => style::copy_spans(s),
                        None => style::one(Span::raw(text_behind_prefix(l.text.as_str()))),
                    },
                };
                code_idx += 1;
                RenderRow::Unified(
                    DiffRow { kind: l.kind, old_line: l.old_line, new_line: l.new_line, spans },
                )
            },
            Kind::FileHeader => RenderRow::Unified(
                DiffRow {
                    kind: l.kind,
                    old_line: l.old_line,
                    new_line: l.new_line,
                    spans: style::one(Span::raw(l.text.clone())),
                },
            ),
        };
        out.push(row);
        assert(row_views(out@) =~= before.push(row@));
        assert(row@ == unified_rows(v, hl)[i as int]);
        i += 1;
    }
    assert(unified_rows(v, hl).take(i as int) =~= unified_rows(v, hl));
    out
}

/// What stands in a row of the view with the two versions side by side: a
/// hunk header, a line that both versions have, or a removed line beside an
/// added one, of which one may be missing.
pub enum PairView {
    Section { text: Seq<char> },
    Same { line: LineView },
    Changed { left: Option<LineView>, right: Option<LineView> },
}

/// How many lines at the start were removed or added.
pub open spec fn change_run(lines: Seq<LineView>) -> nat
    decreases lines.len(),
{
    if lines.len() > 0 && (lines[0].kind is Remove || lines[0].kind is Add) {
        1 + change_run(lines.drop_first())
    } else {
        0
    }
}

/// The lines of the given kind.
pub open spec fn lines_of_kind(lines: Seq<LineView>, kind: Kind) -> Seq<LineView>
    decreases lines.len(),
{
    if lines.len() == 0 {
        seq![]
    } else if lines.last().kind == kind {
        lines_of_kind(lines.drop_last(), kind).push(lines.last())
    } else {
        lines_of_kind(lines.drop_last(), kind)
    }
}

/// The line at `i`, where there is one.
pub open spec fn line_at(lines: Seq<LineView>, i: int) -> Option<LineView> {
    if 0 <= i < lines.len() {
        Some(lines[i])
    } else {
        None
    }
}

/// The removed lines beside the added ones, from the first on.
pub open spec fn zipped(removes: Seq<LineView>, adds: Seq<LineView>) -> Seq<PairView> {
    Seq::new(
        if removes.len() >= adds.len() {
            removes.len()
        } else {
            adds.len()
        },
        |j: int| PairView::Changed { left: line_at(removes, j), right: line_at(adds, j) },
    )
}

/// What stands in the rows for the lines of a diff.
pub open spec fn pairs_of(lines: Seq<LineView>) -> Seq<PairView>
    decreases lines.len(),
    via pairs_of_decreases
{
    if lines.len() == 0 {
        seq![]
    } else {
        let l = lines[0];
        match l.kind {
            Kind::HunkHeader => seq![PairView::Section { text: l.text }] + pairs_of(
                lines.drop_first(),
            ),
            Kind::Context => seq![PairView::Same { line: l }] + pairs_of(lines.drop_first()),
            Kind::FileHeader => pairs_of(lines.drop_first()),
            _ => {
                let n = change_run(lines) as int;
                let block = lines.take(n);
                zipped(
                    lines_of_kind(block, Kind::Remove),
                    lines_of_kind(block, Kind::Add),
                ) + pairs_of(lines.skip(n))
            },
        }
    }
}

proof fn lemma_change_run(lines: Seq<LineView>)
    ensures
        change_run(lines) <= lines.len(),
        lines.len() > 0 && (lines[0].kind is Remove || lines[0].kind is Add) ==> change_run(lines)
            > 0,
    decreases lines.len(),
{
    if lines.len() > 0 {
        lemma_change_run(lines.drop_first());
    }
}

#[via_fn]
proof fn pairs_of_decreases(lines: Seq<LineView>) {
    lemma_change_run(lines);
}

/// What stands in a row, by the indices of the lines of the diff.
#[derive(Debug, Clone, Copy)]
enum Pair {
    Section(usize),
    Same(usize),
    Changed(Option<usize>, Option<usize>),
}

spec fn line_of(i: Option<usize>, lines: Seq<LineView>) -> Option<LineView> {
    match i {
        Some(i) => Some(lines[i as int]),
        None => None,
    }
}

spec fn pair_view(p: Pair, lines: Seq<LineView>) -> PairView {
    match p {
        Pair::Section(i) => PairView::Section { text: lines[i as int].text },
        Pair::Same(i) => PairView::Same { line: lines[i as int] },
        Pair::Changed(l, r) => PairView::Changed {
            left: line_of(l, lines),
            right: line_of(r, lines),
        },
    }
}

spec fn pair_views(p: Seq<Pair>, lines: Seq<LineView>) -> Seq<PairView> {
    p.map_values(|x: Pair| pair_view(x, lines))
}

spec fn pair_in(p: Pair, n: nat) -> bool {
    match p {
        Pair::Section(i) => i < n,
        Pair::Same(i) => i < n,
        Pair::Changed(l, r) => (l is Some ==> l->0 < n) && (r is Some ==> r->0 < n),
    }
}

spec fn pairs_in(p: Seq<Pair>, n: nat) -> bool {
    forall|i: int| 0 <= i < p.len() ==> pair_in(#[trigger] p[i], n)
}

spec fn picked(idx: Seq<usize>, lines: Seq<LineView>) -> Seq<LineView> {
    idx.map_values(|i: usize| lines[i as int])
}

spec fn indices_in(idx: Seq<usize>, n: nat) -> bool {
    forall|i: int| 0 <= i < idx.len() ==> #[trigger] idx[i] < n
}

fn zip_pairs(
    out: &mut Vec<Pair>,
    removes: &Vec<usize>,
    adds: &Vec<usize>,
    Ghost(lines): Ghost<Seq<LineView>>,
)
    requires
        indices_in(removes@, lines.len()),
        indices_in(adds@, lines.len()),
        pairs_in(old(out)@, lines.len()),
    ensures
        pairs_in(final(out)@, lines.len()),
        pair_views(final(out)@, lines) == pair_views(old(out)@, lines) + zipped(
            picked(removes@, lines),
            picked(adds@, lines),
        ),
{
    let ghost z = zipped(picked(removes@, lines), picked(adds@, lines));
    let ghost start = pair_views(out@, lines);
    let max: usize = if removes.len() >= adds.len() {
        removes.len()
    } else {
        adds.len()
    };
    let mut j: usize = 0;
    while j < max
        invariant
            j <= max == z.len(),
            max == (if removes@.len() >= adds@.len() {
                removes@.len()
            } else {
                adds@.len()
            }),
            z == zipped(picked(removes@, lines), picked(adds@, lines)),
            indices_in(removes@, lines.len()),
            indices_in(adds@, lines.len()),
            pairs_in(out@, lines.len()),
            pair_views(out@, lines) =~= start + z.take(j as int),
        decreases max - j,
    {
        let ghost before = out@;
        let left: Option<usize> = if j < removes.len() {
            Some(removes[j])
        } else {
            None
        };
        let right: Option<usize> = if j < adds.len() {
            Some(adds[j])
        } else {
            None
        };
        let p = Pair::Changed(left, right);
        out.push(p);
        proof {
            assert(pair_view(p, lines) == z[j as int]);
            assert(pair_views(out@, lines) =~= pair_views(before, lines).push(z[j as int]));
            assert(z.take(j + 1) =~= z.take(j as int).push(z[j as int]));
        }
        j += 1;
    }
    assert(z.take(j as int) =~= z);
}

/// What stands in the rows for the lines of a diff.
fn side_by_side_pairs(lines: &Vec<Line>) -> (out: Vec<Pair>)
    ensures
        pairs_in(out@, lines@.len()),
        pair_views(out@, diff::line_views(lines@)) == pairs_of(diff::line_views(lines@)),
{
    let ghost v = diff::line_views(lines@);
    let mut out: Vec<Pair> = Vec::new();
    let mut i: usize = 0;
    assert(v.skip(0) =~= v);
    assert(pair_views(out@, v) + pairs_of(v) =~= pairs_of(v));
    while i < lines.len()
        invariant
            i <= lines.len() == v.len(),
            v == diff::line_views(lines@),
            pairs_in(out@, v.len()),
            pair_views(out@, v) + pairs_of(v.skip(i as int)) == pairs_of(v),
        decreases lines.len() - i,
    {
        let ghost rest = v.skip(i as int);
        let ghost before = out@;
        assert(rest[0] == lines@[i as int]@);
        assert(rest.drop_first() =~= v.skip(i + 1));
        match lines[i].kind {
            Kind::HunkHeader => {
                out.push(Pair::Section(i));
                proof {
                    let p = PairView::Section { text: rest[0].text };
                    assert(pair_views(out@, v) =~= pair_views(before, v).push(p));
                    assert(pair_views(out@, v) + pairs_of(v.skip(i + 1)) =~= pair_views(before, v)
                        + (seq![p] + pairs_of(v.skip(i + 1))));
                }
                i += 1;
            },
            Kind::Context => {
                out.push(Pair::Same(i));
                proof {
                    let p = PairView::Same { line: rest[0] };
                    assert(pair_views(out@, v) =~= pair_views(before, v).push(p));
                    assert(pair_views(out@, v) + pairs_of(v.skip(i + 1)) =~= pair_views(before, v)
                        + (seq![p] + pairs_of(v.skip(i + 1))));
                }
                i += 1;
            },
            Kind::FileHeader => {
                i += 1;
            },
            _ => {
                let start: usize = i;
                let mut removes: Vec<usize> = Vec::new();
                let mut adds: Vec<usize> = Vec::new();
                assert(picked(removes@, v) =~= Seq::empty());
                assert(picked(adds@, v) =~= Seq::empty());
                assert(rest.take(0) =~= Seq::empty());
                while i < lines.len() && is_change(lines[i].kind)
                    invariant
                        start <= i <= lines.len() == v.len(),
                        v == diff::line_views(lines@),
                        rest == v.skip(start as int),
                        indices_in(removes@, v.len()),
                        indices_in(adds@, v.len()),
                        picked(removes@, v) == lines_of_kind(rest.take(i - start), Kind::Remove),
                        picked(adds@, v) == lines_of_kind(rest.take(i - start), Kind::Add),
                        change_run(rest) == (i - start) + change_run(v.skip(i as int)),
                    decreases lines.len() - i,
                {
                    let ghost t = rest.take(i - start + 1);
                    let ghost removes_before = picked(removes@, v);
                    let ghost adds_before = picked(adds@, v);
                    assert(t.drop_last() =~= rest.take(i - start));
                    assert(t.last() == lines@[i as int]@);
                    assert(v.skip(i as int)[0] == v[i as int]);
                    assert(v.skip(i as int).drop_first() =~= v.skip(i + 1));
                    match lines[i].kind {
                        Kind::Remove => {
                            removes.push(i);
                            assert(picked(removes@, v) =~= removes_before.push(v[i as int]));
                        },
                        _ => {
                            adds.push(i);
                            assert(picked(adds@, v) =~= adds_before.push(v[i as int]));
                        },
                    }
                    i += 1;
                }
                proof {
                    lemma_change_run(rest);
                    assert(change_run(v.skip(i as int)) == 0) by {
                        if i < v.len() {
                            assert(v.skip(i as int)[0] == lines@[i as int]@);
                        }
                    }
                    assert(rest.skip(i - start) =~= v.skip(i as int));
                }
                zip_pairs(&mut out, &removes, &adds, Ghost(v));
                proof {
                    let z = zipped(picked(removes@, v), picked(adds@, v));
                    assert(pairs_of(rest) == z + pairs_of(v.skip(i as int)));
                    assert(pair_views(before, v) + (z + pairs_of(v.skip(i as int)))
                        =~= pair_views(before, v) + z + pairs_of(v.skip(i as int)));
                }
            },
        }
    }
    assert(v.skip(i as int) =~= Seq::empty());
    assert(pair_views(out@, v) + Seq::<PairView>::empty() =~= pair_views(out@, v));
    out
}

/// Whether a line of a diff was removed or added.
fn is_change(kind: Kind) -> (r: bool)
    ensures
        r == (kind is Remove || kind is Add),
{
    match kind {
        Kind::Remove | Kind::Add => true,
        _ => false,
    }
}

/// The line on one side of a row, where there is one.
pub open spec fn side_line(p: PairView, left: bool) -> Option<LineView> {
    match p {
        PairView::Section { .. } => None,
        PairView::Same { line } => Some(line),
        PairView::Changed { left: l, right: r } => if left {
            l
        } else {
            r
        },
    }
}

/// The code on one side of some rows, a line each: what is highlighted.
pub open spec fn side_code(pairs: Seq<PairView>, left: bool) -> Seq<char>
    decreases pairs.len(),
{
    if pairs.len() == 0 {
        seq![]
    } else {
        match side_line(pairs.last(), left) {
            Some(l) => side_code(pairs.drop_last(), left) + code_of(l) + seq!['\n'],
            None => side_code(pairs.drop_last(), left),
        }
    }
}

/// How many of the rows have a line on one side.
pub open spec fn side_count(pairs: Seq<PairView>, left: bool) -> nat
    decreases pairs.len(),
{
    if pairs.len() == 0 {
        0
    } else if side_line(pairs.last(), left) is Some {
        side_count(pairs.drop_last(), left) + 1
    } else {
        side_count(pairs.drop_last(), left)
    }
}

/// What is shown on one side of a row: its line as it is highlighted, else as it stands
/// behind its prefix, with the marks around what changed in it.
pub open spec fn side_spans(line: Option<LineView>, hl: Option<Seq<SpanView>>) -> Seq<SpanView> {
    match line {
        Some(l) => match hl {
            Some(s) => s,
            None => seq![style::raw_view(behind_prefix(l.text))],
        },
        None => seq![style::raw_view(seq![])],
    }
}

/// The row of the side-by-side view for `p`; `left` and `right` are its lines
/// as they are highlighted.
pub open spec fn side_by_side_row(
    p: PairView,
    left: Option<Seq<SpanView>>,
    right: Option<Seq<SpanView>>,
) -> RowView {
    match p {
        PairView::Section { text } => RowView::Section { text },
        PairView::Same { line } => RowView::SideBySide {
            left_kind: Some(Kind::Context),
            right_kind: Some(Kind::Context),
            old_line: line.old_line,
            new_line: line.new_line,
            left: side_spans(Some(line), left),
            right: side_spans(Some(line), right),
        },
        PairView::Changed { left: l, right: r } => RowView::SideBySide {
            left_kind: if l is Some {
                Some(Kind::Remove)
            } else {
                None
            },
            right_kind: if r is Some {
                Some(Kind::Add)
            } else {
                None
            },
            old_line: match l {
                Some(l) => l.old_line,
                None => None,
            },
            new_line: match r {
                Some(r) => r.new_line,
                None => None,
            },
            left: side_spans(l, left),
            right: side_spans(r, right),
        },
    }
}

/// The rows of the side-by-side view; `left` and `right` are the code of the
/// two sides as it is highlighted.
pub open spec fn side_by_side_rows(
    pairs: Seq<PairView>,
    left: Seq<Seq<SpanView>>,
    right: Seq<Seq<SpanView>>,
) -> Seq<RowView> {
    Seq::new(
        pairs.len(),
        |i: int|
            side_by_side_row(
                pairs[i],
                highlighted_at(left, side_count(pairs.take(i), true) as int),
                highlighted_at(right, side_count(pairs.take(i), false) as int),
            ),
    )
}

spec fn opt_side(p: Pair, left: bool) -> Option<usize> {
    match p {
        Pair::Section(i) => None,
        Pair::Same(i) => Some(i),
        Pair::Changed(l, r) => if left {
            l
        } else {
            r
        },
    }
}

fn side_index(p: &Pair, left: bool) -> (r: Option<usize>)
    ensures
        r == opt_side(*p, left),
{
    match *p {
        Pair::Section(i) => None,
        Pair::Same(i) => Some(i),
        Pair::Changed(l, r) => if left {
            l
        } else {
            r
        },
    }
}

/// The code on one side of the side-by-side view, a line each: what is highlighted.
pub fn side_by_side_code(lines: &Vec<Line>, left: bool) -> (out: String)
    ensures
        out@ == side_code(pairs_of(diff::line_views(lines@)), left),
{
    let ghost v = diff::line_views(lines@);
    let pairs = side_by_side_pairs(lines);
    let ghost pv = pair_views(pairs@, v);
    let mut out = String::new();
    let mut i: usize = 0;
    assert(pv.take(0) =~= Seq::empty());
    while i < pairs.len()
        invariant
            i <= pairs.len() == pv.len(),
            v == diff::line_views(lines@),
            pv == pair_views(pairs@, v),
            pairs_in(pairs@, lines@.len()),
            out@ == side_code(pv.take(i as int), left),
        decreases pairs.len() - i,
    {
        assert(pv.take(i + 1).drop_last() =~= pv.take(i as int));
        assert(pair_in(pairs@[i as int], lines@.len()));
        match side_index(&pairs[i], left) {
            Some(k) => {
                let code = line_code(&lines[k]);
                let ghost before = out@;
                out.append(code.as_str());
                out.push('\n');
                assert(v[k as int] == lines@[k as int]@);
                assert(out@ =~= before + code@ + seq!['\n']);
            },
            None => {},
        }
        i += 1;
    }
    assert(pv.take(i as int) =~= pv);
    out
}

fn build_side(line: Option<usize>, lines: &Vec<Line>, hl: Option<&Vec<Span>>) -> (out: Vec<Span>)
    requires
        line is Some ==> line->0 < lines@.len(),
    ensures
        style::views(out@) == side_spans(
            line_of(line, diff::line_views(lines@)),
            opt_spans(hl),
        ),
{
    match line {
        Some(k) => {
            assert(diff::line_views(lines@)[k as int] == lines@[k as int]@);
            match hl {
                Some(s) => style::copy_spans(s),
                None => style::one(Span::raw(text_behind_prefix(lines[k].text.as_str()))),
            }
        },
        None => style::one(Span::raw(String::new())),
    }
}

fn hl_at(hl: &Vec<Vec<Span>>, i: usize) -> (r: Option<&Vec<Span>>)
    ensures
        opt_spans(r) == highlighted_at(style::line_views(hl@), i as int),
{
    if i < hl.len() {
        Some(&hl[i])
    } else {
        None
    }
}

/// The rows of the side-by-side view. `left` and `right` are the code of the
/// two sides as it is highlighted, and empty where it is not.
pub fn build_side_by_side_rows(
    lines: &Vec<Line>,
    left: &Vec<Vec<Span>>,
    right: &Vec<Vec<Span>>,
) -> (out: Vec<RenderRow>)
    ensures
        row_views(out@) == side_by_side_rows(
            pairs_of(diff::line_views(lines@)),
            style::line_views(left@),
            style::line_views(right@),
        ),
{
    let ghost v = diff::line_views(lines@);
    let pairs = side_by_side_pairs(lines);
    let ghost pv = pair_views(pairs@, v);
    let ghost lv = style::line_views(left@);
    let ghost rv = style::line_views(right@);
    let ghost want = side_by_side_rows(pv, lv, rv);
    let mut out: Vec<RenderRow> = Vec::new();
    let mut left_idx: usize = 0;
    let mut right_idx: usize = 0;
    let mut i: usize = 0;
    assert(pv.take(0) =~= Seq::empty());
    while i < pairs.len()
        invariant
            i <= pairs.len() == pv.len(),
            left_idx <= i,
            right_idx <= i,
            v == diff::line_views(lines@),
            pv == pair_views(pairs@, v),
            lv == style::line_views(left@),
            rv == style::line_views(right@),
            want == side_by_side_rows(pv, lv, rv),
            pairs_in(pairs@, lines@.len()),
            left_idx == side_count(pv.take(i as int), true),
            right_idx == side_count(pv.take(i as int), false),
            row_views(out@) =~= want.take(i as int),
        decreases pairs.len() - i,
    {
        proof {
            assert(pv.take(i + 1).drop_last() =~= pv.take(i as int));
            assert(pair_in(pairs@[i as int], lines@.len()));
        }
        let ghost before = row_views(out@);
        let p = pairs[i];
        let l = side_index(&p, true);
        let r = side_index(&p, false);
        let row = match p {
            Pair::Section(k) => {
                assert(v[k as int] == lines@[k as int]@);
                RenderRow::Section { text: lines[k].text.clone() }
            },
            _ => {
                let left_spans = build_side(l, lines, hl_at(left, left_idx));
                let right_spans = build_side(r, lines, hl_at(right, right_idx));
                let same = match p {
                    Pair::Same(_) => true,
                    _ => false,
                };
                proof {
                    if l is Some {
                        assert(v[l->0 as int] == lines@[l->0 as int]@);
                    }
                    if r is Some {
                        assert(v[r->0 as int] == lines@[r->0 as int]@);
                    }
                }
                RenderRow::SideBySide(
                    SideBySideRow {
                        left_kind: match l {
                            Some(_) => Some(
                                if same {
                                    Kind::Context
                                } else {
                                    Kind::Remove
                                },
                            ),
                            None => None,
                        },
                        right_kind: match r {
                            Some(_) => Some(
                                if same {
                                    Kind::Context
                                } else {
                                    Kind::Add
                                },
                            ),
                            None => None,
                        },
                        old_line: match l {
                            Some(k) => lines[k].old_line,
                            None => None,
                        },
                        new_line: match r {
                            Some(k) => lines[k].new_line,
                            None => None,
                        },
                        left_spans,
                        right_spans,
                    },
                )
            },
        };
        if l.is_some() {
            left_idx += 1;
        }
        if r.is_some() {
            right_idx += 1;
        }
        out.push(row);
        assert(row_views(out@) =~= before.push(row@));
        assert(row@ == want[i as int]);
        i += 1;
    }
    assert(want.take(i as int) =~= want);
    out
}

/// The row of the view of the whole file for a line of it; `hl` is the file as
/// it is highlighted.
pub open spec fn decorated_row(l: DecoratedView, hl: Seq<Seq<SpanView>>) -> RowView {
    let line = if l.line_number > 0 {
        highlighted_at(hl, l.line_number - 1)
    } else {
        match l.old_line_number {
            Some(n) => highlighted_at(hl, n - 1),
            None => None,
        }
    };
    RowView::Decorated {
        status: l.status,
        line_number: l.line_number,
        old_line_number: l.old_line_number,
        spans: match line {
            Some(s) => s,
            None => seq![style::raw_view(l.text)],
        },
    }
}

/// The rows of the view of the whole file. `highlighted` is the file as it is
/// highlighted, and empty where it is not.
pub fn build_decorated_rows(lines: &Vec<DecoratedLine>, highlighted: &Vec<Vec<Span>>) -> (out: Vec<
    RenderRow,
>)
    ensures
        row_views(out@) == diff::decorated_views(lines@).map_values(
            |l: DecoratedView| decorated_row(l, style::line_views(highlighted@)),
        ),
{
    let ghost v = diff::decorated_views(lines@);
    let ghost hl = style::line_views(highlighted@);
    let ghost want = v.map_values(|l: DecoratedView| decorated_row(l, hl));
    let mut out: Vec<RenderRow> = Vec::new();
    let mut i: usize = 0;
    while i < lines.len()
        invariant
            i <= lines.len() == want.len(),
            v == diff::decorated_views(lines@),
            hl == style::line_views(highlighted@),
            want == v.map_values(|l: DecoratedView| decorated_row(l, hl)),
            row_views(out@) =~= want.take(i as int),
        decreases lines.len() - i,
    {
        let ghost before = row_views(out@);
        let l = &lines[i];
        assert(v[i as int] == l@);
        let syntax = if l.line_number > 0 {
            hl_at(highlighted, (l.line_number - 1) as usize)
        } else {
            match l.old_line_number {
                Some(n) => if n > 0 {
                    hl_at(highlighted, (n - 1) as usize)
                } else {
                    None
                },
                None => None,
            }
        };
        let spans = match syntax {
            Some(s) => style::copy_spans(s),
            None => style::one(Span::raw(l.text.clone())),
        };
        let row = RenderRow::Decorated(
            DecoratedRow {
                status: l.status,
                line_number: l.line_number,
                old_line_number: l.old_line_number,
                spans,
            },
        );
        out.push(row);
        assert(row_views(out@) =~= before.push(row@));
        assert(row@ == want[i as int]);
        i += 1;
    }
    assert(want.take(i as int) =~= want);
    out
}

/// Whether a line of a diff is one of a version: of the old one on the left, or of the
/// new one on the right.
pub open spec fn is_on_side(l: LineView, left: bool) -> bool {
    l.kind is Context || (if left {
        l.kind is Remove
    } else {
        l.kind is Add
    })
}

/// The lines of a diff that are of one version.
pub open spec fn lines_on_side(lines: Seq<LineView>, left: bool) -> Seq<LineView>
    decreases lines.len(),
{
    if lines.len() == 0 {
        seq![]
    } else if is_on_side(lines.last(), left) {
        lines_on_side(lines.drop_last(), left).push(lines.last())
    } else {
        lines_on_side(lines.drop_last(), left)
    }
}

/// The lines on one side of some rows.
pub open spec fn side_lines(pairs: Seq<PairView>, left: bool) -> Seq<LineView>
    decreases pairs.len(),
{
    if pairs.len() == 0 {
        seq![]
    } else {
        match side_line(pairs.last(), left) {
            Some(l) => side_lines(pairs.drop_last(), left).push(l),
            None => side_lines(pairs.drop_last(), left),
        }
    }
}

proof fn lemma_on_side_add(a: Seq<LineView>, b: Seq<LineView>, left: bool)
    ensures
        lines_on_side(a + b, left) == lines_on_side(a, left) + lines_on_side(b, left),
    decreases b.len(),
{
    if b.len() == 0 {
        assert(a + b =~= a);
        assert(lines_on_side(a, left) + lines_on_side(b, left) =~= lines_on_side(a, left));
    } else {
        assert((a + b).drop_last() =~= a + b.drop_last());
        lemma_on_side_add(a, b.drop_last(), left);
        assert(lines_on_side(a + b, left) =~= lines_on_side(a, left) + lines_on_side(b, left));
    }
}

proof fn lemma_side_lines_add(a: Seq<PairView>, b: Seq<PairView>, left: bool)
    ensures
        side_lines(a + b, left) == side_lines(a, left) + side_lines(b, left),
    decreases b.len(),
{
    if b.len() == 0 {
        assert(a + b =~= a);
        assert(side_lines(a, left) + side_lines(b, left) =~= side_lines(a, left));
    } else {
        assert((a + b).drop_last() =~= a + b.drop_last());
        lemma_side_lines_add(a, b.drop_last(), left);
        assert(side_lines(a + b, left) =~= side_lines(a, left) + side_lines(b, left));
    }
}

/// The first rows of removed lines beside added ones.
proof fn lemma_zipped_side(removes: Seq<LineView>, adds: Seq<LineView>, left: bool, n: int)
    requires
        0 <= n <= zipped(removes, adds).len(),
    ensures
        ({
            let all = if left {
                removes
            } else {
                adds
            };
            side_lines(zipped(removes, adds).take(n), left) == all.take(
                if n <= all.len() {
                    n
                } else {
                    all.len() as int
                },
            )
        }),
    decreases n,
{
    let z = zipped(removes, adds);
    let all = if left {
        removes
    } else {
        adds
    };
    if n == 0 {
        assert(z.take(0) =~= seq![]);
        assert(all.take(0) =~= seq![]);
    } else {
        lemma_zipped_side(removes, adds, left, n - 1);
        assert(z.take(n).drop_last() =~= z.take(n - 1));
        assert(z.take(n).last() == z[n - 1]);
        if n <= all.len() {
            assert(all.take(n) =~= all.take(n - 1).push(all[n - 1]));
        } else {
            assert(all.take(all.len() as int) =~= all);
        }
    }
}

/// In a run of changes, the lines of a version are those of one kind.
proof fn lemma_run_on_side(block: Seq<LineView>, left: bool)
    requires
        forall|i: int|
            0 <= i < block.len() ==> (#[trigger] block[i]).kind is Remove || block[i].kind is Add,
    ensures
        lines_on_side(block, left) == lines_of_kind(
            block,
            if left {
                Kind::Remove
            } else {
                Kind::Add
            },
        ),
    decreases block.len(),
{
    if block.len() > 0 {
        let front = block.drop_last();
        assert forall|i: int| 0 <= i < front.len() implies (#[trigger] front[i]).kind is Remove
            || front[i].kind is Add by {
            assert(front[i] == block[i]);
        }
        assert(block[block.len() - 1] == block.last());
        lemma_run_on_side(front, left);
    }
}

/// A run of changes holds changes only.
proof fn lemma_run_kinds(lines: Seq<LineView>, i: int)
    requires
        0 <= i < change_run(lines),
    ensures
        i < lines.len(),
        lines[i].kind is Remove || lines[i].kind is Add,
    decreases lines.len(),
{
    if i > 0 {
        lemma_run_kinds(lines.drop_first(), i - 1);
        assert(lines.drop_first()[i - 1] == lines[i]);
    }
}

/// No line is lost side by side: the left side shows all lines of the old version in
/// their order, and the right side all of the new one.
pub proof fn law_side_by_side_keeps_lines(lines: Seq<LineView>, left: bool)
    ensures
        side_lines(pairs_of(lines), left) == lines_on_side(lines, left),
    decreases lines.len(),
{
    if lines.len() > 0 {
        let l = lines[0];
        let rest = lines.drop_first();
        assert(lines =~= seq![l] + rest);
        assert(seq![l].drop_last() =~= seq![]);
        assert(seq![l].last() == l);
        reveal_with_fuel(lines_on_side, 2);
        match l.kind {
            Kind::HunkHeader => {
                let p = PairView::Section { text: l.text };
                law_side_by_side_keeps_lines(rest, left);
                lemma_side_lines_add(seq![p], pairs_of(rest), left);
                lemma_on_side_add(seq![l], rest, left);
                assert(seq![p].drop_last() =~= seq![]);
                assert(side_lines(seq![p].drop_last(), left) =~= seq![]);
                assert(side_lines(seq![p], left) =~= seq![]);
                assert(lines_on_side(seq![l], left) =~= seq![]);
            },
            Kind::Context => {
                let p = PairView::Same { line: l };
                law_side_by_side_keeps_lines(rest, left);
                lemma_side_lines_add(seq![p], pairs_of(rest), left);
                lemma_on_side_add(seq![l], rest, left);
                assert(seq![p].drop_last() =~= seq![]);
                assert(side_lines(seq![p].drop_last(), left) =~= seq![]);
                assert(side_lines(seq![p], left) =~= seq![l]);
                assert(lines_on_side(seq![l], left) =~= seq![l]);
            },
            Kind::FileHeader => {
                law_side_by_side_keeps_lines(rest, left);
                lemma_on_side_add(seq![l], rest, left);
                assert(lines_on_side(seq![l], left) =~= seq![]);
                assert(lines_on_side(lines, left) =~= lines_on_side(rest, left));
            },
            _ => {
                let n = change_run(lines) as int;
                lemma_change_run(lines);
                let block = lines.take(n);
                let tail = lines.skip(n);
                assert(lines =~= block + tail);
                law_side_by_side_keeps_lines(tail, left);
                let removes = lines_of_kind(block, Kind::Remove);
                let adds = lines_of_kind(block, Kind::Add);
                let z = zipped(removes, adds);
                lemma_side_lines_add(z, pairs_of(tail), left);
                lemma_on_side_add(block, tail, left);
                assert forall|i: int| 0 <= i < block.len() implies (#[trigger] block[i]).kind is Remove
                    || block[i].kind is Add by {
                    lemma_run_kinds(lines, i);
                }
                lemma_run_on_side(block, left);
                lemma_zipped_side(removes, adds, left, z.len() as int);
                assert(z.take(z.len() as int) =~= z);
                if left {
                    assert(removes.take(removes.len() as int) =~= removes);
                } else {
                    assert(adds.take(adds.len() as int) =~= adds);
                }
            },
        }
    }
}

/// Whether the code of each line of a version is one line.
pub open spec fn are_one_line(lines: Seq<LineView>) -> bool {
    forall|i: int|
        0 <= i < lines.len() && is_code((#[trigger] lines[i]).kind) ==> diff::is_one_line(
            code_of(lines[i]),
        )
}

/// A line that is added to a block of whole lines is its last one.
proof fn lemma_block_push(block: Seq<char>, code: Seq<char>)
    requires
        block.len() > 0 ==> block.last() == '\n',
        diff::is_one_line(code),
    ensures
        text::lines_of(block + code + seq!['\n']) == text::lines_of(block).push(code),
{
    let tail = code + seq!['\n'];
    let nothing: Seq<char> = seq![];
    assert(text::lines_of(tail) == seq![code]) by {
        text::lemma_is_first_index(tail, '\n', code.len() as int);
        assert(tail.take(code.len() as int) =~= code);
        assert(tail.skip(code.len() as int + 1) =~= nothing);
        assert(text::lines_of(nothing) =~= seq![]);
        assert(text::lines_of(tail) =~= seq![code]);
    }
    assert(block + code + seq!['\n'] =~= block + tail);
    if block.len() == 0 {
        assert(block + tail =~= tail);
        assert(text::lines_of(block) =~= seq![]);
        assert(text::lines_of(block).push(code) =~= seq![code]);
    } else {
        let front = block.drop_last();
        assert(front + seq!['\n'] + tail =~= block + tail);
        assert(front + seq!['\n'] + nothing =~= block);
        text::lemma_lines_append(front, tail);
        text::lemma_lines_append(front, nothing);
        assert(text::lines_of(nothing) =~= seq![]);
        assert(text::lines_of(block + tail) =~= text::lines_of(block).push(code));
    }
}

/// The lines of the code of a diff.
proof fn lemma_code_block(lines: Seq<LineView>)
    requires
        are_one_line(lines),
    ensures
        text::lines_of(code_block(lines)).len() == code_count(lines),
        code_block(lines).len() > 0 ==> code_block(lines).last() == '\n',
        lines.len() > 0 && is_code(lines.last().kind) ==> text::lines_of(code_block(lines))
            == text::lines_of(code_block(lines.drop_last())).push(code_of(lines.last())),
    decreases lines.len(),
{
    if lines.len() > 0 {
        let front = lines.drop_last();
        assert(are_one_line(front)) by {
            assert forall|i: int| 0 <= i < front.len() && is_code((#[trigger] front[i]).kind)
                implies diff::is_one_line(code_of(front[i])) by {
                assert(front[i] == lines[i]);
            }
        }
        lemma_code_block(front);
        if is_code(lines.last().kind) {
            assert(lines[lines.len() - 1] == lines.last());
            lemma_block_push(code_block(front), code_of(lines.last()));
        }
    }
}

/// A line of the highlighted code is the code of the line that it is shown for: where
/// lines of versions stand before a line, it is the line of the code behind as many.
pub proof fn law_highlighted_line_is_its_own(lines: Seq<LineView>, i: int)
    requires
        are_one_line(lines),
        0 <= i < lines.len(),
        is_code(lines[i].kind),
    ensures
        code_count(lines.take(i)) < text::lines_of(code_block(lines)).len(),
        text::lines_of(code_block(lines))[code_count(lines.take(i)) as int] == code_of(lines[i]),
    decreases lines.len(),
{
    let front = lines.drop_last();
    assert(are_one_line(front)) by {
        assert forall|j: int| 0 <= j < front.len() && is_code((#[trigger] front[j]).kind)
            implies diff::is_one_line(code_of(front[j])) by {
            assert(front[j] == lines[j]);
        }
    }
    lemma_code_block(lines);
    lemma_code_block(front);
    if i == lines.len() - 1 {
        assert(lines.take(i) =~= front);
    } else {
        assert(front[i] == lines[i]);
        assert(front.take(i) =~= lines.take(i));
        law_highlighted_line_is_its_own(front, i);
    }
}

/// Whether the code on one side of each row is one line.
spec fn is_one_line_side(pairs: Seq<PairView>, left: bool) -> bool {
    forall|i: int|
        0 <= i < pairs.len() && side_line(#[trigger] pairs[i], left) is Some ==> diff::is_one_line(
            code_of(side_line(pairs[i], left)->0),
        )
}

/// The lines of the code on one side.
proof fn lemma_side_code(pairs: Seq<PairView>, left: bool)
    requires
        is_one_line_side(pairs, left),
    ensures
        text::lines_of(side_code(pairs, left)).len() == side_count(pairs, left),
        side_code(pairs, left).len() > 0 ==> side_code(pairs, left).last() == '\n',
        pairs.len() > 0 && side_line(pairs.last(), left) is Some ==> text::lines_of(
            side_code(pairs, left),
        ) == text::lines_of(side_code(pairs.drop_last(), left)).push(
            code_of(side_line(pairs.last(), left)->0),
        ),
    decreases pairs.len(),
{
    if pairs.len() > 0 {
        let front = pairs.drop_last();
        assert(is_one_line_side(front, left)) by {
            assert forall|i: int|
                0 <= i < front.len() && side_line(#[trigger] front[i], left) is Some implies
                diff::is_one_line(code_of(side_line(front[i], left)->0)) by {
                assert(front[i] == pairs[i]);
            }
        }
        lemma_side_code(front, left);
        if side_line(pairs.last(), left) is Some {
            assert(pairs[pairs.len() - 1] == pairs.last());
            lemma_block_push(side_code(front, left), code_of(side_line(pairs.last(), left)->0));
        }
    }
}

/// A line of the code on one side is the code of the line of its row.
proof fn lemma_side_code_at(pairs: Seq<PairView>, left: bool, i: int)
    requires
        is_one_line_side(pairs, left),
        0 <= i < pairs.len(),
        side_line(pairs[i], left) is Some,
    ensures
        side_count(pairs.take(i), left) < text::lines_of(side_code(pairs, left)).len(),
        text::lines_of(side_code(pairs, left))[side_count(pairs.take(i), left) as int] == code_of(
            side_line(pairs[i], left)->0,
        ),
    decreases pairs.len(),
{
    let front = pairs.drop_last();
    assert(is_one_line_side(front, left)) by {
        assert forall|j: int|
            0 <= j < front.len() && side_line(#[trigger] front[j], left) is Some implies
            diff::is_one_line(code_of(side_line(front[j], left)->0)) by {
            assert(front[j] == pairs[j]);
        }
    }
    lemma_side_code(pairs, left);
    lemma_side_code(front, left);
    if i == pairs.len() - 1 {
        assert(pairs.take(i) =~= front);
    } else {
        assert(front[i] == pairs[i]);
        assert(front.take(i) =~= pairs.take(i));
        lemma_side_code_at(front, left, i);
    }
}

/// The line on one side of a row is among the lines on that side.
proof fn lemma_side_line_listed(pairs: Seq<PairView>, left: bool, i: int)
    requires
        0 <= i < pairs.len(),
        side_line(pairs[i], left) is Some,
    ensures
        side_lines(pairs, left).contains(side_line(pairs[i], left)->0),
    decreases pairs.len(),
{
    let front = pairs.drop_last();
    let l = side_line(pairs[i], left)->0;
    let all = side_lines(pairs, left);
    if i == pairs.len() - 1 {
        assert(all[all.len() - 1] == l);
    } else {
        assert(front[i] == pairs[i]);
        lemma_side_line_listed(front, left, i);
        let k = choose|k: int| 0 <= k < side_lines(front, left).len() && side_lines(front, left)[k] == l;
        assert(all[k] == l);
    }
}

/// The lines of one version are lines of the diff.
proof fn lemma_on_side_listed(lines: Seq<LineView>, left: bool, l: LineView)
    requires
        lines_on_side(lines, left).contains(l),
    ensures
        lines.contains(l),
        is_on_side(l, left),
    decreases lines.len(),
{
    let on = lines_on_side(lines, left);
    let k = choose|k: int| 0 <= k < on.len() && on[k] == l;
    if lines.len() > 0 {
        let front = lines.drop_last();
        assert(lines[lines.len() - 1] == lines.last());
        if !(is_on_side(lines.last(), left) && k == on.len() - 1) {
            assert(lines_on_side(front, left)[k] == l);
            lemma_on_side_listed(front, left, l);
            let j = choose|j: int| 0 <= j < front.len() && front[j] == l;
            assert(lines[j] == l);
        }
    }
}

/// Side by side too, a line of the highlighted code is the code of the line that it is
/// shown for.
pub proof fn law_highlighted_side_is_its_own(lines: Seq<LineView>, left: bool, i: int)
    requires
        are_one_line(lines),
        0 <= i < pairs_of(lines).len(),
        side_line(pairs_of(lines)[i], left) is Some,
    ensures
        ({
            let pairs = pairs_of(lines);
            let code = text::lines_of(side_code(pairs, left));
            let k = side_count(pairs.take(i), left) as int;
            k < code.len() && code[k] == code_of(side_line(pairs[i], left)->0)
        }),
{
    let pairs = pairs_of(lines);
    law_side_by_side_keeps_lines(lines, left);
    assert forall|j: int| 0 <= j < pairs.len() && side_line(#[trigger] pairs[j], left) is Some
        implies diff::is_one_line(code_of(side_line(pairs[j], left)->0)) by {
        let l = side_line(pairs[j], left)->0;
        lemma_side_line_listed(pairs, left, j);
        lemma_on_side_listed(lines, left, l);
        let k = choose|k: int| 0 <= k < lines.len() && lines[k] == l;
        assert(is_code(lines[k].kind));
    }
    lemma_side_code_at(pairs, left, i);
}

/// The code of a line of a diff is the line of the version, without its line ending.
pub proof fn law_code_is_the_line(
    changes: Seq<ChangeView>,
    op: Op,
    before: Seq<char>,
    after: Seq<char>,
    i: int,
)
    requires
        diff::fills(changes, op, before, after),
        0 <= i < changes.len(),
    ensures
        code_of(diff::diff_line(changes[i])) == diff::unended(
            diff::line_at(op, i, diff::diff_lines(before), diff::diff_lines(after)),
        ),
        diff::is_one_line(code_of(diff::diff_line(changes[i]))),
{
    let old_lines = diff::diff_lines(before);
    let new_lines = diff::diff_lines(after);
    assert(diff::is_change_at(changes[i], op, i, old_lines, new_lines));
    if op is Equal || i < op.old_count() {
        diff::lemma_lines_unended(before, op.old_start() + i);
    } else {
        diff::lemma_lines_unended(after, op.new_start() + (i - op.old_count()));
    }
}

/// The code of each line of a hunk is one line.
proof fn lemma_hunk_one_line(
    h: Seq<Seq<ChangeView>>,
    ops: Seq<Op>,
    before: Seq<char>,
    after: Seq<char>,
    k: int,
)
    requires
        diff::all_filled(h, ops, before, after),
        0 <= k < diff::flat_changes(h).len(),
    ensures
        diff::is_one_line(code_of(diff::diff_line(diff::flat_changes(h)[k]))),
    decreases h.len(),
{
    let front = h.drop_last();
    let m = diff::flat_changes(front).len();
    assert(diff::fills(h[h.len() - 1], ops[h.len() - 1], before, after));
    if k >= m {
        law_code_is_the_line(h.last(), ops[h.len() - 1], before, after, k - m);
    } else {
        let front_ops = ops.drop_last();
        assert forall|i: int| 0 <= i < front.len() implies diff::fills(
            #[trigger] front[i],
            front_ops[i],
            before,
            after,
        ) by {
            assert(diff::fills(h[i], ops[i], before, after));
        }
        lemma_hunk_one_line(front, front_ops, before, after, k);
    }
}

/// The code of each line of some hunks is one line.
proof fn lemma_hunks_one_line(
    groups: Seq<Seq<Op>>,
    hunks: Seq<Seq<Seq<ChangeView>>>,
    before: Seq<char>,
    after: Seq<char>,
)
    requires
        groups.len() <= hunks.len(),
        forall|i: int|
            0 <= i < groups.len() ==> diff::all_filled(
                #[trigger] hunks[i],
                groups[i],
                before,
                after,
            ),
    ensures
        are_one_line(diff::all_hunk_lines(groups, hunks)),
    decreases groups.len(),
{
    if groups.len() > 0 {
        let front = groups.drop_last();
        let h = hunks[groups.len() - 1];
        assert forall|i: int| 0 <= i < front.len() implies diff::all_filled(
            #[trigger] hunks[i],
            front[i],
            before,
            after,
        ) by {
            assert(front[i] == groups[i]);
        }
        lemma_hunks_one_line(front, hunks, before, after);
        assert(diff::all_filled(h, groups.last(), before, after));
        let a = diff::all_hunk_lines(front, hunks);
        let b = diff::hunk_lines(groups.last(), h);
        let all = diff::all_hunk_lines(groups, hunks);
        assert(all == a + b);
        assert forall|i: int| 0 <= i < all.len() && is_code((#[trigger] all[i]).kind) implies
            diff::is_one_line(code_of(all[i])) by {
            if i < a.len() {
                assert(all[i] == a[i]);
            } else {
                assert(all[i] == b[i - a.len()]);
                assert(i > a.len());
                let k = i - a.len() - 1;
                assert(b[k + 1] == diff::diff_line(diff::flat_changes(h)[k]));
                lemma_hunk_one_line(h, groups.last(), before, after, k);
            }
        }
    }
}

/// In the diff of any two versions the code of each line is one line.
pub proof fn law_diff_shows_one_line_a_row(
    before_label: Seq<char>,
    after_label: Seq<char>,
    before: Seq<char>,
    after: Seq<char>,
    n: nat,
    hunks: Seq<Seq<Seq<ChangeView>>>,
)
    requires
        diff::is_diff_of(hunks, before, after, n),
    ensures
        are_one_line(
            diff::unified_lines(
                before_label,
                after_label,
                diff::grouped_ops_of(before, after, n),
                hunks,
            ),
        ),
{
    let groups = diff::grouped_ops_of(before, after, n);
    let all = diff::unified_lines(before_label, after_label, groups, hunks);
    let tail = diff::all_hunk_lines(groups, hunks);
    lemma_hunks_one_line(groups, hunks, before, after);
    assert forall|i: int| 0 <= i < all.len() && is_code((#[trigger] all[i]).kind) implies
        diff::is_one_line(code_of(all[i])) by {
        assert(i >= 2);
        assert(all[i] == tail[i - 2]);
    }
}

} // verus!
