//! The lines of a diff: of two versions of a file as hunks, and of a whole
//! file with the status of each line.
use crate::text;
use vstd::prelude::*;

verus! {

/// What a line of a diff is.
#[derive(Debug, Clone, Copy, PartialEq, Eq, Structural)]
pub enum Kind {
    FileHeader,
    HunkHeader,
    Context,
    Add,
    Remove,
}

/// What became of a line of a file.
#[derive(Debug, Clone, Copy, PartialEq, Eq, Structural)]
pub enum LineStatus {
    Unchanged,
    Added,
    Removed,
    Modified,
}

/// A piece of a line, and whether it is what changed in it.
#[derive(Debug)]
pub struct InlineSpan {
    pub text: String,
    pub emphasized: bool,
}

/// A line of a diff.
#[derive(Debug)]
pub struct Line {
    pub kind: Kind,
    pub text: String,
    pub old_line: Option<u32>,
    pub new_line: Option<u32>,
    pub inline_spans: Option<Vec<InlineSpan>>,
}

/// A line of a whole file: its status, its number in the new version (0 in a
/// deleted file), and in the old one of a deleted file.
#[derive(Debug)]
pub struct DecoratedLine {
    pub status: LineStatus,
    pub line_number: u32,
    pub old_line_number: Option<u32>,
    pub text: String,
}

/// What a piece of a line holds.
pub struct SpanView {
    pub text: Seq<char>,
    pub emphasized: bool,
}

impl View for InlineSpan {
    type V = SpanView;

    open spec fn view(&self) -> SpanView {
        SpanView { text: self.text@, emphasized: self.emphasized }
    }
}

/// What some pieces of a line hold.
pub open spec fn span_views(v: Seq<InlineSpan>) -> Seq<SpanView> {
    v.map_values(|s: InlineSpan| s@)
}

/// What a line of a diff holds.
pub struct LineView {
    pub kind: Kind,
    pub text: Seq<char>,
    pub old_line: Option<u32>,
    pub new_line: Option<u32>,
    pub spans: Option<Seq<SpanView>>,
}

impl View for Line {
    type V = LineView;

    open spec fn view(&self) -> LineView {
        LineView {
            kind: self.kind,
            text: self.text@,
            old_line: self.old_line,
            new_line: self.new_line,
            spans: match self.inline_spans {
                Some(v) => Some(span_views(v@)),
                None => None,
            },
        }
    }
}

/// What some lines of a diff hold.
pub open spec fn line_views(v: Seq<Line>) -> Seq<LineView> {
    v.map_values(|l: Line| l@)
}

/// How a range of the old lines relates to one of the new lines.
#[derive(Debug, Clone, Copy, PartialEq, Eq, Structural)]
pub enum Op {
    Equal { old_index: usize, new_index: usize, len: usize },
    Delete { old_index: usize, old_len: usize, new_index: usize },
    Insert { old_index: usize, new_index: usize, new_len: usize },
    Replace { old_index: usize, old_len: usize, new_index: usize, new_len: usize },
}

impl Op {
    /// Where the range of old lines starts.
    pub open spec fn old_start(self) -> int {
        match self {
            Op::Equal { old_index, .. } => old_index as int,
            Op::Delete { old_index, .. } => old_index as int,
            Op::Insert { old_index, .. } => old_index as int,
            Op::Replace { old_index, .. } => old_index as int,
        }
    }

    /// How many old lines are in the range.
    pub open spec fn old_count(self) -> int {
        match self {
            Op::Equal { len, .. } => len as int,
            Op::Delete { old_len, .. } => old_len as int,
            Op::Insert { .. } => 0,
            Op::Replace { old_len, .. } => old_len as int,
        }
    }

    /// Where the range of new lines starts.
    pub open spec fn new_start(self) -> int {
        match self {
            Op::Equal { new_index, .. } => new_index as int,
            Op::Delete { new_index, .. } => new_index as int,
            Op::Insert { new_index, .. } => new_index as int,
            Op::Replace { new_index, .. } => new_index as int,
        }
    }

    /// How many new lines are in the range.
    pub open spec fn new_count(self) -> int {
        match self {
            Op::Equal { len, .. } => len as int,
            Op::Delete { .. } => 0,
            Op::Insert { new_len, .. } => new_len as int,
            Op::Replace { new_len, .. } => new_len as int,
        }
    }

    /// Whether the ranges lie in two versions with as many lines.
    pub open spec fn fits(self, old_lines: nat, new_lines: nat) -> bool {
        &&& self.old_start() + self.old_count() <= old_lines
        &&& self.new_start() + self.new_count() <= new_lines
    }

    /// Where the ranges start and how many lines are in them: of the old
    /// lines, then of the new ones.
    pub fn ranges(&self) -> (r: (usize, usize, usize, usize))
        ensures
            r.0 == self.old_start(),
            r.1 == self.old_count(),
            r.2 == self.new_start(),
            r.3 == self.new_count(),
    {
        match *self {
            Op::Equal { old_index, new_index, len } => (old_index, len, new_index, len),
            Op::Delete { old_index, old_len, new_index } => (old_index, old_len, new_index, 0),
            Op::Insert { old_index, new_index, new_len } => (old_index, 0, new_index, new_len),
            Op::Replace { old_index, old_len, new_index, new_len } => (
                old_index,
                old_len,
                new_index,
                new_len,
            ),
        }
    }
}

/// What became of one line.
#[derive(Debug, Clone, Copy, PartialEq, Eq, Structural)]
pub enum ChangeTag {
    Equal,
    Delete,
    Insert,
}

/// One line of an old or a new version: what became of it, where it stands,
/// and the pieces it is made of.
#[derive(Debug)]
pub struct Change {
    pub tag: ChangeTag,
    pub old_index: Option<usize>,
    pub new_index: Option<usize>,
    pub spans: Vec<InlineSpan>,
}

/// What one line of an old or a new version holds.
pub struct ChangeView {
    pub tag: ChangeTag,
    pub old_index: Option<usize>,
    pub new_index: Option<usize>,
    pub spans: Seq<SpanView>,
}

impl View for Change {
    type V = ChangeView;

    open spec fn view(&self) -> ChangeView {
        ChangeView {
            tag: self.tag,
            old_index: self.old_index,
            new_index: self.new_index,
            spans: span_views(self.spans@),
        }
    }
}

/// What the lines of a range hold.
pub open spec fn change_views(v: Seq<Change>) -> Seq<ChangeView> {
    v.map_values(|c: Change| c@)
}

/// What the lines of each of some ranges hold.
pub open spec fn hunk_view(v: Seq<Vec<Change>>) -> Seq<Seq<ChangeView>> {
    v.map_values(|c: Vec<Change>| change_views(c@))
}

/// What the lines of each range of some hunks hold.
pub open spec fn hunk_views(v: Seq<Vec<Vec<Change>>>) -> Seq<Seq<Seq<ChangeView>>> {
    v.map_values(|h: Vec<Vec<Change>>| hunk_view(h@))
}

/// The ranges of each of some hunks.
pub open spec fn op_views(v: Seq<Vec<Op>>) -> Seq<Seq<Op>> {
    v.map_values(|g: Vec<Op>| g@)
}

/// The pieces of a line, put together.
pub open spec fn spans_text(spans: Seq<SpanView>) -> Seq<char>
    decreases spans.len(),
{
    if spans.len() == 0 {
        seq![]
    } else {
        spans_text(spans.drop_last()) + spans.last().text
    }
}

/// Whether `s` ends in a line ending.
pub open spec fn ends_line(s: Seq<char>) -> bool {
    s.len() > 0 && (s.last() == '\r' || s.last() == '\n')
}

/// `s` without the line ending that it ends in, if it does.
pub open spec fn unended(s: Seq<char>) -> Seq<char> {
    text::without_cr(
        if s.len() > 0 && s.last() == '\n' {
            s.drop_last()
        } else {
            s
        },
    )
}

/// Whether `s` holds no line ending.
pub open spec fn is_one_line(s: Seq<char>) -> bool {
    forall|i: int| 0 <= i < s.len() ==> #[trigger] s[i] != '\n' && s[i] != '\r'
}

/// `s` without the line ending that it ends in.
pub fn without_ending(s: &str) -> (out: String)
    ensures
        out@ == unended(s@),
{
    let v = text::chars(s);
    let mut n: usize = v.len();
    if n > 0 && v[n - 1] == '\n' {
        n -= 1;
    }
    let ghost bare = v@.take(n as int);
    assert(n < v@.len() ==> bare =~= v@.drop_last());
    assert(n == v@.len() ==> bare =~= v@);
    if n > 0 && v[n - 1] == '\r' {
        n -= 1;
        assert(v@.subrange(0, n as int) =~= bare.drop_last());
    }
    assert(v@.subrange(0, n as int) =~= unended(s@));
    text::string_of(&v, 0, n)
}

/// How long the first line of `s` is, with the line ending behind it: a line
/// feed, a carriage return, or the two together.
pub open spec fn first_line_len(s: Seq<char>) -> nat
    decreases s.len(),
{
    if s.len() == 0 {
        0
    } else if s[0] == '\n' {
        1
    } else if s[0] == '\r' {
        if s.len() > 1 && s[1] == '\n' {
            2
        } else {
            1
        }
    } else {
        1 + first_line_len(s.drop_first())
    }
}

/// The first line is not empty, and lies in the text.
pub proof fn lemma_first_line_len(s: Seq<char>)
    ensures
        first_line_len(s) <= s.len(),
        s.len() > 0 ==> first_line_len(s) > 0,
    decreases s.len(),
{
    if s.len() > 0 {
        lemma_first_line_len(s.drop_first());
    }
}

/// Before its end, the first line has no line feed.
proof fn lemma_first_line(s: Seq<char>)
    requires
        s.len() > 0,
    ensures
        0 < first_line_len(s) <= s.len(),
        forall|i: int| 0 <= i < first_line_len(s) - 1 ==> s[i] != '\n',
    decreases s.len(),
{
    lemma_first_line_len(s);
    if s[0] != '\n' && s[0] != '\r' && s.len() > 1 {
        let t = s.drop_first();
        lemma_first_line(t);
        assert forall|i: int| 0 <= i < first_line_len(s) - 1 implies s[i] != '\n' by {
            if i > 0 {
                assert(s[i] == t[i - 1]);
            }
        }
    }
}

/// The lines of `s`, each with its line ending.
pub open spec fn diff_lines(s: Seq<char>) -> Seq<Seq<char>>
    decreases s.len(),
    via diff_lines_decreases
{
    if s.len() == 0 {
        seq![]
    } else {
        let n = first_line_len(s) as int;
        seq![s.take(n)] + diff_lines(s.skip(n))
    }
}

#[via_fn]
proof fn diff_lines_decreases(s: Seq<char>) {
    lemma_first_line_len(s);
}

/// The first line without its ending is one line.
proof fn lemma_first_line_unended(s: Seq<char>)
    requires
        s.len() > 0,
    ensures
        is_one_line(unended(s.take(first_line_len(s) as int))),
    decreases s.len(),
{
    lemma_first_line_len(s);
    let n = first_line_len(s) as int;
    let line = s.take(n);
    if s[0] == '\n' {
        assert(unended(line) =~= Seq::empty());
    } else if s[0] == '\r' {
        if n == 2 {
            assert(line.drop_last().drop_last() =~= Seq::empty());
        } else {
            assert(unended(line) =~= Seq::empty());
        }
    } else if s.len() > 1 {
        let t = s.drop_first();
        lemma_first_line_len(t);
        lemma_first_line_unended(t);
        let rest = t.take(n - 1);
        assert(line =~= seq![s[0]] + rest);
        assert(rest.last() == line.last());
        let bare = if rest.last() == '\n' {
            rest.drop_last()
        } else {
            rest
        };
        if rest.last() == '\n' {
            assert(line.drop_last() =~= seq![s[0]] + bare);
        }
        assert(unended(line) =~= seq![s[0]] + unended(rest)) by {
            let l = seq![s[0]] + bare;
            if bare.len() > 0 {
                assert(l.last() == bare.last());
                if bare.last() == '\r' {
                    assert(l.drop_last() =~= seq![s[0]] + bare.drop_last());
                }
            } else {
                assert(l =~= seq![s[0]]);
            }
        }
    } else {
        assert(line =~= seq![s[0]]);
    }
}

/// Each line without its ending is one line.
pub proof fn lemma_lines_unended(s: Seq<char>, i: int)
    requires
        0 <= i < diff_lines(s).len(),
    ensures
        is_one_line(unended(diff_lines(s)[i])),
    decreases s.len(),
{
    lemma_first_line_len(s);
    let n = first_line_len(s) as int;
    if i == 0 {
        lemma_first_line_unended(s);
    } else {
        lemma_lines_unended(s.skip(n), i - 1);
    }
}

/// Whether two texts have few enough lines to be compared: all the lines together can
/// be numbered.
pub open spec fn is_comparable(before: Seq<char>, after: Seq<char>) -> bool {
    diff_lines(before).len() + diff_lines(after).len() < u32::MAX
}

/// Up to its first line feed, a text is one line.
proof fn lemma_lines_behind(s: Seq<char>, n: int)
    requires
        0 < n <= s.len(),
        forall|i: int| 0 <= i < n ==> s[i] != '\n',
    ensures
        text::lines_of(s).len() <= 1 + text::lines_of(s.skip(n)).len(),
{
    let rest = s.skip(n);
    let k = text::first_index(s, '\n');
    text::lemma_first_index(s, '\n');
    text::lemma_first_index(rest, '\n');
    let j = text::first_index(rest, '\n');
    if k < s.len() {
        assert(rest[k - n] == '\n');
        assert(s[n + j] == '\n');
        assert(j == k - n);
        assert(rest.skip(j + 1) =~= s.skip(k + 1));
    }
}

/// A text has no more lines that a line feed ends than it has lines.
proof fn lemma_few_lines(s: Seq<char>)
    ensures
        text::lines_of(s).len() <= diff_lines(s).len(),
    decreases s.len(),
{
    if s.len() > 0 {
        lemma_first_line(s);
        let n = first_line_len(s) as int;
        lemma_few_lines(s.skip(n));
        if s[n - 1] == '\n' {
            text::lemma_first_index(s, '\n');
            assert(text::first_index(s, '\n') == n - 1);
        } else {
            lemma_lines_behind(s, n);
        }
    }
}

/// Whether a line of a range is cut into some pieces: they make it up, and no line
/// ending is emphasized. Only where lines took the place of others is there more than
/// one piece, or anything emphasized.
pub open spec fn is_cut_into(line: Seq<char>, op: Op, spans: Seq<SpanView>) -> bool {
    &&& spans_text(spans) == line
    &&& !(op is Replace) ==> spans == seq![SpanView { text: line, emphasized: false }]
    &&& forall|k: int|
        0 <= k < spans.len() && (#[trigger] spans[k]).emphasized ==> !ends_line(spans[k].text)
}

/// Whether `c` is the `i`-th line of the range `op`: first those of the old
/// version, then those of the new one that are no copies of them.
pub open spec fn is_change_at(
    c: ChangeView,
    op: Op,
    i: int,
    old_lines: Seq<Seq<char>>,
    new_lines: Seq<Seq<char>>,
) -> bool {
    let o = op.old_start() + i;
    if op is Equal {
        &&& c.tag is Equal
        &&& c.old_index is Some && c.old_index->0 == o
        &&& c.new_index is Some && c.new_index->0 == op.new_start() + i
        &&& is_cut_into(old_lines[o], op, c.spans)
    } else if i < op.old_count() {
        &&& c.tag is Delete
        &&& c.old_index is Some && c.old_index->0 == o
        &&& c.new_index is None
        &&& is_cut_into(old_lines[o], op, c.spans)
    } else {
        let n = op.new_start() + (i - op.old_count());
        &&& c.tag is Insert
        &&& c.old_index is None
        &&& c.new_index is Some && c.new_index->0 == n
        &&& is_cut_into(new_lines[n], op, c.spans)
    }
}

/// Whether `changes` are all the lines of the range `op` of two texts.
pub open spec fn fills(
    changes: Seq<ChangeView>,
    op: Op,
    before: Seq<char>,
    after: Seq<char>,
) -> bool {
    let old_lines = diff_lines(before);
    let new_lines = diff_lines(after);
    &&& op.fits(old_lines.len(), new_lines.len())
    &&& changes.len() == (if op is Equal {
        op.old_count()
    } else {
        op.old_count() + op.new_count()
    })
    &&& forall|i: int|
        0 <= i < changes.len() ==> is_change_at(#[trigger] changes[i], op, i, old_lines, new_lines)
}

/// Whether each of some ranges is filled with the lines of two texts.
pub open spec fn all_filled(
    h: Seq<Seq<ChangeView>>,
    ops: Seq<Op>,
    before: Seq<char>,
    after: Seq<char>,
) -> bool {
    &&& h.len() == ops.len()
    &&& forall|i: int| 0 <= i < h.len() ==> fills(#[trigger] h[i], ops[i], before, after)
}

/// The ranges in which the lines of two texts relate.
pub uninterp spec fn ops_of(before: Seq<char>, after: Seq<char>) -> Seq<Op>;

/// The ranges in which the lines of two texts relate, in hunks with at most
/// `n` equal lines around what changed.
pub uninterp spec fn grouped_ops_of(before: Seq<char>, after: Seq<char>, n: nat) -> Seq<Seq<Op>>;

/// `similar::TextDiff::grouped_ops` of a diff by lines
/// (`similar::TextDiff::from_lines`): the operations of the diff in hunks,
/// which are a function of the two texts and of the number of context lines. The
/// lines are numbered with 32 bits, and twice the number of context lines is computed.
#[verifier::external_body]
fn grouped_ops(before: &str, after: &str, n: usize) -> (out: Vec<Vec<Op>>)
    requires
        is_comparable(before@, after@),
        2 * n <= usize::MAX,
    ensures
        op_views(out@) == grouped_ops_of(before@, after@, n as nat),
{
    let groups = similar::TextDiff::from_lines(before, after).grouped_ops(n);
    groups.iter().map(|g| g.iter().map(|op| match *op {
        similar::DiffOp::Equal { old_index, new_index, len } =>
            Op::Equal { old_index, new_index, len },
        similar::DiffOp::Delete { old_index, old_len, new_index } =>
            Op::Delete { old_index, old_len, new_index },
        similar::DiffOp::Insert { old_index, new_index, new_len } =>
            Op::Insert { old_index, new_index, new_len },
        similar::DiffOp::Replace { old_index, old_len, new_index, new_len } =>
            Op::Replace { old_index, old_len, new_index, new_len },
    }).collect()).collect()
}

/// `similar::TextDiff::iter_inline_changes` for each operation of
/// `similar::TextDiff::grouped_ops`: the lines of the operation, each in
/// pieces that make it up. Lines that took the place of others may be cut into
/// several, of which those that end a line are not emphasized; how they are cut, and
/// which pieces are emphasized, rests on a deadline, so nothing more is said of it.
#[verifier::external_body]
fn grouped_changes(before: &str, after: &str, n: usize) -> (out: Vec<Vec<Vec<Change>>>)
    requires
        is_comparable(before@, after@),
        2 * n <= usize::MAX,
    ensures
        out@.len() == grouped_ops_of(before@, after@, n as nat).len(),
        forall|i: int|
            0 <= i < out@.len() ==> all_filled(
                hunk_view((#[trigger] out@[i])@),
                grouped_ops_of(before@, after@, n as nat)[i],
                before@,
                after@,
            ),
{
    let diff = similar::TextDiff::from_lines(before, after);
    diff.grouped_ops(n).iter().map(|g| g.iter().map(|op| {
        diff.iter_inline_changes(op).map(|c| Change {
            tag: match c.tag() {
                similar::ChangeTag::Equal => ChangeTag::Equal,
                similar::ChangeTag::Delete => ChangeTag::Delete,
                similar::ChangeTag::Insert => ChangeTag::Insert,
            },
            old_index: c.old_index(),
            new_index: c.new_index(),
            spans: c.iter_strings_lossy().map(|(emphasized, t)| InlineSpan {
                text: t.into_owned(), emphasized }).collect(),
        }).collect()
    }).collect()).collect()
}

/// `similar::TextDiff::iter_inline_changes` for each operation of
/// `similar::TextDiff::ops`, which are a function of the two texts and lie in
/// them: the lines of the operation, each in pieces that make it up. Lines that took
/// the place of others may be cut into several, of which those that end a line are not
/// emphasized; how they are cut, and which pieces are emphasized, rests on a deadline,
/// so nothing more is said of it.
#[verifier::external_body]
fn all_changes(before: &str, after: &str) -> (out: Vec<Vec<Change>>)
    requires
        is_comparable(before@, after@),
    ensures
        all_filled(hunk_view(out@), ops_of(before@, after@), before@, after@),
{
    let diff = similar::TextDiff::from_lines(before, after);
    diff.ops().iter().map(|op| {
        diff.iter_inline_changes(op).map(|c| Change {
            tag: match c.tag() {
                similar::ChangeTag::Equal => ChangeTag::Equal,
                similar::ChangeTag::Delete => ChangeTag::Delete,
                similar::ChangeTag::Insert => ChangeTag::Insert,
            },
            old_index: c.old_index(),
            new_index: c.new_index(),
            spans: c.iter_strings_lossy().map(|(emphasized, t)| InlineSpan {
                text: t.into_owned(), emphasized }).collect(),
        }).collect()
    }).collect()
}

/// What stands on both sides of an emphasized piece when a line is shown as text.
pub open spec fn marker(tag: ChangeTag, emphasized: bool) -> Seq<char> {
    if !emphasized {
        seq![]
    } else {
        match tag {
            ChangeTag::Equal => seq![],
            ChangeTag::Delete => seq!['-'],
            ChangeTag::Insert => seq!['+'],
        }
    }
}

/// The pieces of a line as text, the emphasized ones marked.
pub open spec fn marked_text(tag: ChangeTag, spans: Seq<SpanView>) -> Seq<char>
    decreases spans.len(),
{
    if spans.len() == 0 {
        seq![]
    } else {
        let s = spans.last();
        marked_text(tag, spans.drop_last()) + marker(tag, s.emphasized) + s.text + marker(
            tag,
            s.emphasized,
        )
    }
}

/// A line as text: its pieces, the emphasized ones marked, and a line feed
/// where it has no line ending of its own.
pub open spec fn change_text(c: ChangeView) -> Seq<char> {
    marked_text(c.tag, c.spans) + (if c.spans.len() > 0 && !ends_line(c.spans.last().text) {
        seq!['\n']
    } else {
        seq![]
    })
}

/// The `i`-th line of the range `op`.
pub open spec fn line_at(
    op: Op,
    i: int,
    old_lines: Seq<Seq<char>>,
    new_lines: Seq<Seq<char>>,
) -> Seq<char> {
    if op is Equal || i < op.old_count() {
        old_lines[op.old_start() + i]
    } else {
        new_lines[op.new_start() + (i - op.old_count())]
    }
}

/// A line that did not take the place of another reads in a diff as it is, behind its
/// sign and with a line feed where it has no line ending.
pub proof fn law_lone_line_reads_as_it_is(
    changes: Seq<ChangeView>,
    op: Op,
    before: Seq<char>,
    after: Seq<char>,
    i: int,
)
    requires
        fills(changes, op, before, after),
        !(op is Replace),
        0 <= i < changes.len(),
    ensures
        ({
            let line = line_at(op, i, diff_lines(before), diff_lines(after));
            diff_line(changes[i]).text == kind_prefix(change_kind(changes[i].tag)) + line + (
            if ends_line(line) {
                seq![]
            } else {
                seq!['\n']
            })
        }),
{
    let c = changes[i];
    let line = line_at(op, i, diff_lines(before), diff_lines(after));
    assert(is_change_at(c, op, i, diff_lines(before), diff_lines(after)));
    assert(c.spans == seq![SpanView { text: line, emphasized: false }]);
    assert(c.spans.drop_last() =~= Seq::empty());
    assert(marked_text(c.tag, c.spans.drop_last()) =~= Seq::empty());
    assert(marked_text(c.tag, c.spans) =~= line);
    assert(diff_line(c).text =~= kind_prefix(change_kind(c.tag)) + line + (if ends_line(line) {
        seq![]
    } else {
        seq!['\n']
    }));
}

/// What a line of a version is in a diff.
pub open spec fn change_kind(tag: ChangeTag) -> Kind {
    match tag {
        ChangeTag::Equal => Kind::Context,
        ChangeTag::Delete => Kind::Remove,
        ChangeTag::Insert => Kind::Add,
    }
}

/// What the text of a line of a diff starts with.
pub open spec fn kind_prefix(kind: Kind) -> Seq<char> {
    match kind {
        Kind::Remove => seq!['-'],
        Kind::Add => seq!['+'],
        Kind::Context => seq![' '],
        _ => seq![],
    }
}

/// The number of the line at an index.
pub open spec fn line_number(index: Option<usize>) -> Option<u32> {
    match index {
        Some(i) => Some((i + 1) as u32),
        None => None,
    }
}

/// The line of a diff for a line of a version. Removed lines count in the old
/// version, added ones in the new one, and context lines in both.
pub open spec fn diff_line(c: ChangeView) -> LineView {
    let kind = change_kind(c.tag);
    LineView {
        kind,
        text: kind_prefix(kind) + change_text(c),
        old_line: if c.tag is Insert {
            None
        } else {
            line_number(c.old_index)
        },
        new_line: if c.tag is Delete {
            None
        } else {
            line_number(c.new_index)
        },
        spans: Some(c.spans),
    }
}

/// The numbers in the header of a hunk: where it starts and how long it is, in
/// the old version and in the new one.
pub open spec fn hunk_bounds(ops: Seq<Op>) -> (int, int, int, int) {
    let (before_start, after_start) = if ops.len() == 0 {
        (0, 0)
    } else {
        let first = ops[0];
        (
            if first.new_count() == 0 || first.old_start() == 0 {
                first.old_start()
            } else {
                first.old_start() - 1
            },
            if first.old_count() == 0 || first.new_start() == 0 {
                first.new_start()
            } else {
                first.new_start() - 1
            },
        )
    };
    let (before_end, after_end) = if ops.len() == 0 {
        (0, 0)
    } else {
        let last = ops.last();
        (last.old_start() + last.old_count(), last.new_start() + last.new_count())
    };
    (
        before_start + 1,
        if before_end > before_start {
            before_end - before_start
        } else {
            0
        },
        after_start + 1,
        if after_end > after_start {
            after_end - after_start
        } else {
            0
        },
    )
}

/// The lines of the ranges of a hunk, one after the other.
pub open spec fn flat_changes(h: Seq<Seq<ChangeView>>) -> Seq<ChangeView>
    decreases h.len(),
{
    if h.len() == 0 {
        seq![]
    } else {
        flat_changes(h.drop_last()) + h.last()
    }
}

/// The first line that is not blank, and equal in both versions where that is
/// asked for, without white space at either end.
pub open spec fn first_hint(c: Seq<ChangeView>, equal_only: bool) -> Option<Seq<char>>
    decreases c.len(),
{
    if c.len() == 0 {
        None
    } else if (equal_only ==> c[0].tag is Equal) && !text::is_blank(spans_text(c[0].spans)) {
        Some(text::trimmed(spans_text(c[0].spans)))
    } else {
        first_hint(c.drop_first(), equal_only)
    }
}

/// The hint behind the header of a hunk: its first context line that is not
/// blank, else its first line that is not blank.
pub open spec fn context_hint(h: Seq<Seq<ChangeView>>) -> Option<Seq<char>> {
    match first_hint(flat_changes(h), true) {
        Some(t) => Some(t),
        None => first_hint(flat_changes(h), false),
    }
}

/// The header of a hunk.
pub open spec fn hunk_header(ops: Seq<Op>, h: Seq<Seq<ChangeView>>) -> Seq<char> {
    let (bs, bl, a_s, al) = hunk_bounds(ops);
    "@@ -"@ + text::decimal(bs as nat) + seq![','] + text::decimal(bl as nat) + " +"@
        + text::decimal(a_s as nat) + seq![','] + text::decimal(al as nat) + " @@"@ + (
    match context_hint(h) {
        Some(t) => seq![' '] + t,
        None => seq![],
    })
}

/// A line of a diff that is no line of a version.
pub open spec fn header_line(kind: Kind, text: Seq<char>) -> LineView {
    LineView { kind, text, old_line: None, new_line: None, spans: None }
}

/// The lines of a diff for one hunk.
pub open spec fn hunk_lines(ops: Seq<Op>, h: Seq<Seq<ChangeView>>) -> Seq<LineView> {
    seq![header_line(Kind::HunkHeader, hunk_header(ops, h))] + flat_changes(h).map_values(
        |c: ChangeView| diff_line(c),
    )
}

/// The lines of a diff for some hunks.
pub open spec fn all_hunk_lines(
    groups: Seq<Seq<Op>>,
    hunks: Seq<Seq<Seq<ChangeView>>>,
) -> Seq<LineView>
    decreases groups.len(),
{
    if groups.len() == 0 {
        seq![]
    } else {
        all_hunk_lines(groups.drop_last(), hunks) + hunk_lines(
            groups.last(),
            hunks[groups.len() - 1],
        )
    }
}

/// The lines of a diff: its two headings and its hunks.
pub open spec fn unified_lines(
    before_label: Seq<char>,
    after_label: Seq<char>,
    groups: Seq<Seq<Op>>,
    hunks: Seq<Seq<Seq<ChangeView>>>,
) -> Seq<LineView> {
    seq![
        header_line(Kind::FileHeader, "--- "@ + before_label),
        header_line(Kind::FileHeader, "+++ "@ + after_label),
    ] + all_hunk_lines(groups, hunks)
}

/// Whether the numbers of a line can be written down.
pub open spec fn is_small_change(c: ChangeView) -> bool {
    &&& c.old_index is Some ==> c.old_index->0 < u32::MAX
    &&& c.new_index is Some ==> c.new_index->0 < u32::MAX
}

/// Whether the numbers of all lines of a range can be written down.
pub open spec fn are_small_changes(c: Seq<ChangeView>) -> bool {
    forall|i: int| 0 <= i < c.len() ==> is_small_change(#[trigger] c[i])
}

/// Whether the numbers of all lines of a hunk can be written down.
pub open spec fn is_small_hunk(h: Seq<Seq<ChangeView>>) -> bool {
    forall|i: int| 0 <= i < h.len() ==> are_small_changes(#[trigger] h[i])
}

/// Whether the numbers of all ranges can be written down.
pub open spec fn are_small_ops(ops: Seq<Op>) -> bool {
    forall|i: int|
        0 <= i < ops.len() ==> (#[trigger] ops[i]).fits(
            (u32::MAX - 1) as nat,
            (u32::MAX - 1) as nat,
        )
}

/// The pieces of a line, put together.
pub fn join_spans(spans: &Vec<InlineSpan>) -> (out: String)
    ensures
        out@ == spans_text(span_views(spans@)),
{
    let mut out = String::new();
    let ghost v = span_views(spans@);
    let mut i: usize = 0;
    assert(v.take(0) =~= Seq::empty());
    while i < spans.len()
        invariant
            i <= spans.len(),
            v == span_views(spans@),
            out@ == spans_text(v.take(i as int)),
        decreases spans.len() - i,
    {
        assert(v.take(i + 1).drop_last() =~= v.take(i as int));
        out.append(spans[i].text.as_str());
        i += 1;
    }
    assert(v.take(i as int) =~= v);
    out
}

fn push_marker(out: &mut String, tag: ChangeTag, emphasized: bool)
    ensures
        final(out)@ == old(out)@ + marker(tag, emphasized),
{
    if emphasized {
        match tag {
            ChangeTag::Equal => {},
            ChangeTag::Delete => {
                out.push('-');
            },
            ChangeTag::Insert => {
                out.push('+');
            },
        }
    }
    assert(out@ =~= old(out)@ + marker(tag, emphasized));
}

/// Writes a line as text.
fn push_change(out: &mut String, c: &Change)
    ensures
        final(out)@ == old(out)@ + change_text(c@),
{
    let ghost v = span_views(c.spans@);
    let ghost start = out@;
    let mut i: usize = 0;
    assert(v.take(0) =~= Seq::empty());
    assert(out@ =~= start + marked_text(c.tag, v.take(0)));
    while i < c.spans.len()
        invariant
            i <= c.spans.len(),
            v == span_views(c.spans@),
            out@ == start + marked_text(c.tag, v.take(i as int)),
        decreases c.spans.len() - i,
    {
        let ghost before = out@;
        push_marker(out, c.tag, c.spans[i].emphasized);
        out.append(c.spans[i].text.as_str());
        push_marker(out, c.tag, c.spans[i].emphasized);
        proof {
            assert(v.take(i + 1).drop_last() =~= v.take(i as int));
            assert(v.take(i + 1).last() == c.spans@[i as int]@);
            let m = marker(c.tag, c.spans@[i as int].emphasized);
            let t = c.spans@[i as int].text@;
            assert(out@ =~= start + (marked_text(c.tag, v.take(i as int)) + m + t + m));
        }
        i += 1;
    }
    assert(v.take(i as int) =~= v);
    if c.spans.len() > 0 && !ends_in_line_ending(c.spans[c.spans.len() - 1].text.as_str()) {
        out.push('\n');
    }
    assert(out@ =~= start + change_text(c@));
}

/// Whether `s` ends in a line ending.
fn ends_in_line_ending(s: &str) -> (r: bool)
    ensures
        r == ends_line(s@),
{
    let v = text::chars(s);
    v.len() > 0 && (v[v.len() - 1] == '\r' || v[v.len() - 1] == '\n')
}

fn copy_spans(spans: &Vec<InlineSpan>) -> (out: Vec<InlineSpan>)
    ensures
        span_views(out@) == span_views(spans@),
{
    let mut out: Vec<InlineSpan> = Vec::new();
    let ghost v = span_views(spans@);
    let mut i: usize = 0;
    while i < spans.len()
        invariant
            i <= spans.len(),
            v == span_views(spans@),
            span_views(out@) =~= v.take(i as int),
        decreases spans.len() - i,
    {
        let ghost before = span_views(out@);
        let s = InlineSpan { text: spans[i].text.clone(), emphasized: spans[i].emphasized };
        out.push(s);
        assert(span_views(out@) =~= before.push(s@));
        assert(v.take(i + 1) =~= v.take(i as int).push(v[i as int]));
        i += 1;
    }
    assert(v.take(i as int) =~= v);
    out
}

fn number_of_line(index: Option<usize>) -> (r: Option<u32>)
    requires
        index is Some ==> index->0 < u32::MAX,
    ensures
        r == line_number(index),
{
    match index {
        Some(i) => Some(i as u32 + 1),
        None => None,
    }
}

/// The line of a diff for a line of a version.
fn change_line(c: &Change) -> (l: Line)
    requires
        is_small_change(c@),
    ensures
        l@ == diff_line(c@),
{
    let (kind, old_line, new_line) = match c.tag {
        ChangeTag::Equal => (
            Kind::Context,
            number_of_line(c.old_index),
            number_of_line(c.new_index),
        ),
        ChangeTag::Delete => (Kind::Remove, number_of_line(c.old_index), None),
        ChangeTag::Insert => (Kind::Add, None, number_of_line(c.new_index)),
    };
    let mut text = String::new();
    match kind {
        Kind::Remove => {
            text.push('-');
        },
        Kind::Add => {
            text.push('+');
        },
        _ => {
            text.push(' ');
        },
    }
    push_change(&mut text, c);
    assert(text@ =~= kind_prefix(kind) + change_text(c@));
    Line { kind, text, old_line, new_line, inline_spans: Some(copy_spans(&c.spans)) }
}

/// The numbers in the header of a hunk.
pub fn calculate_hunk_bounds(group: &Vec<Op>) -> (r: (u32, u32, u32, u32))
    requires
        are_small_ops(group@),
    ensures
        (r.0 as int, r.1 as int, r.2 as int, r.3 as int) == hunk_bounds(group@),
{
    if group.len() == 0 {
        return (1, 0, 1, 0);
    }
    assert(group@[0].fits((u32::MAX - 1) as nat, (u32::MAX - 1) as nat));
    assert(group@[group@.len() - 1].fits((u32::MAX - 1) as nat, (u32::MAX - 1) as nat));
    let (first_old, first_old_len, first_new, first_new_len) = group[0].ranges();
    let (last_old, last_old_len, last_new, last_new_len) = group[group.len() - 1].ranges();
    let before_start: usize = if first_new_len == 0 || first_old == 0 {
        first_old
    } else {
        first_old - 1
    };
    let after_start: usize = if first_old_len == 0 || first_new == 0 {
        first_new
    } else {
        first_new - 1
    };
    let before_end: usize = last_old + last_old_len;
    let after_end: usize = last_new + last_new_len;
    let before_len: usize = if before_end > before_start {
        before_end - before_start
    } else {
        0
    };
    let after_len: usize = if after_end > after_start {
        after_end - after_start
    } else {
        0
    };
    (before_start as u32 + 1, before_len as u32, after_start as u32 + 1, after_len as u32)
}

proof fn lemma_flat_changes(h: Seq<Seq<ChangeView>>, i: int)
    requires
        0 <= i < h.len(),
    ensures
        flat_changes(h.take(i + 1)) == flat_changes(h.take(i)) + h[i],
{
    assert(h.take(i + 1).drop_last() =~= h.take(i));
}

proof fn lemma_first_hint_front(a: Seq<ChangeView>, b: Seq<ChangeView>, equal_only: bool)
    ensures
        first_hint(a + b, equal_only) == (match first_hint(a, equal_only) {
            Some(t) => Some(t),
            None => first_hint(b, equal_only),
        }),
    decreases a.len(),
{
    if a.len() == 0 {
        assert(a + b =~= b);
    } else {
        assert((a + b).drop_first() =~= a.drop_first() + b);
        lemma_first_hint_front(a.drop_first(), b, equal_only);
    }
}

/// The first line of a hunk that is not blank, and equal where that is asked for.
fn find_hint(h: &Vec<Vec<Change>>, equal_only: bool) -> (r: Option<String>)
    ensures
        text::opt_view(r) == first_hint(flat_changes(hunk_view(h@)), equal_only),
{
    let ghost v = hunk_view(h@);
    let mut i: usize = 0;
    assert(v.take(0) =~= Seq::empty());
    while i < h.len()
        invariant
            i <= h.len(),
            v == hunk_view(h@),
            first_hint(flat_changes(v.take(i as int)), equal_only) is None,
        decreases h.len() - i,
    {
        let ghost c = v[i as int];
        let mut j: usize = 0;
        assert(c.take(0) =~= Seq::empty());
        while j < h[i].len()
            invariant
                i < h.len(),
                v == hunk_view(h@),
                c == v[i as int],
                c == change_views(h@[i as int]@),
                j <= h@[i as int].len(),
                first_hint(flat_changes(v.take(i as int)), equal_only) is None,
                first_hint(c.take(j as int), equal_only) is None,
            decreases h@[i as int].len() - j,
        {
            let change = &h[i][j];
            let wanted = match change.tag {
                ChangeTag::Equal => true,
                _ => !equal_only,
            };
            assert(c[j as int] == change@);
            assert(c.take(j + 1) =~= c.take(j as int) + seq![c[j as int]]);
            proof {
                lemma_first_hint_front(c.take(j as int), seq![c[j as int]], equal_only);
                reveal_with_fuel(first_hint, 2);
                assert(seq![c[j as int]].drop_first() =~= Seq::empty());
            }
            if wanted {
                let line = join_spans(&change.spans);
                if !text::blank(line.as_str()) {
                    let out = text::trim(line.as_str());
                    proof {
                        let rest = c.skip(j + 1);
                        assert(c =~= c.take(j + 1) + rest);
                        lemma_first_hint_front(c.take(j + 1), rest, equal_only);
                        lemma_first_hint_front(flat_changes(v.take(i as int)), c, equal_only);
                        lemma_flat_changes(v, i as int);
                        lemma_flat_split(v, i + 1);
                        lemma_first_hint_front(
                            flat_changes(v.take(i + 1)),
                            flat_changes(v.skip(i + 1)),
                            equal_only,
                        );
                    }
                    return Some(out);
                }
            }
            j += 1;
        }
        proof {
            assert(c.take(j as int) =~= c);
            lemma_flat_changes(v, i as int);
            lemma_first_hint_front(flat_changes(v.take(i as int)), c, equal_only);
        }
        i += 1;
    }
    assert(v.take(i as int) =~= v);
    None
}

proof fn lemma_flat_split(h: Seq<Seq<ChangeView>>, i: int)
    requires
        0 <= i <= h.len(),
    ensures
        flat_changes(h) == flat_changes(h.take(i)) + flat_changes(h.skip(i)),
    decreases h.len() - i,
{
    if i == h.len() {
        assert(h.take(i) =~= h);
        assert(h.skip(i) =~= Seq::empty());
        assert(flat_changes(h) + Seq::<ChangeView>::empty() =~= flat_changes(h));
    } else {
        lemma_flat_split(h.drop_last(), i);
        assert(h.drop_last().take(i) =~= h.take(i));
        assert(h.drop_last().skip(i) =~= h.skip(i).drop_last());
        assert(h.skip(i).last() == h.last());
        assert(flat_changes(h.take(i)) + flat_changes(h.skip(i).drop_last()) + h.last()
            =~= flat_changes(h.take(i)) + (flat_changes(h.skip(i).drop_last()) + h.last()));
    }
}

/// The hint behind the header of a hunk.
pub fn find_context_hint(h: &Vec<Vec<Change>>) -> (r: Option<String>)
    ensures
        text::opt_view(r) == context_hint(hunk_view(h@)),
{
    match find_hint(h, true) {
        Some(t) => Some(t),
        None => find_hint(h, false),
    }
}

/// The header of a hunk.
pub fn generate_hunk_header_text(group: &Vec<Op>, h: &Vec<Vec<Change>>) -> (out: String)
    requires
        are_small_ops(group@),
    ensures
        out@ == hunk_header(group@, hunk_view(h@)),
{
    let (before_start, before_len, after_start, after_len) = calculate_hunk_bounds(group);
    let mut out = String::new();
    out.append("@@ -");
    text::push_decimal(&mut out, before_start as u64);
    out.push(',');
    text::push_decimal(&mut out, before_len as u64);
    out.append(" +");
    text::push_decimal(&mut out, after_start as u64);
    out.push(',');
    text::push_decimal(&mut out, after_len as u64);
    out.append(" @@");
    match find_context_hint(h) {
        Some(hint) => {
            out.push(' ');
            out.append(hint.as_str());
        },
        None => {},
    }
    assert(out@ =~= hunk_header(group@, hunk_view(h@)));
    out
}

/// The lines of a diff of which `groups` are the ranges, in hunks, and `hunks`
/// the lines of each of them.
pub fn lay_out_hunks(
    before_label: &str,
    after_label: &str,
    groups: &Vec<Vec<Op>>,
    hunks: &Vec<Vec<Vec<Change>>>,
) -> (out: Vec<Line>)
    requires
        groups@.len() == hunks@.len(),
        forall|i: int| 0 <= i < groups@.len() ==> are_small_ops(#[trigger] groups@[i]@),
        forall|i: int| 0 <= i < hunks@.len() ==> is_small_hunk(hunk_view(#[trigger] hunks@[i]@)),
    ensures
        line_views(out@) == unified_lines(
            before_label@,
            after_label@,
            op_views(groups@),
            hunk_views(hunks@),
        ),
{
    let mut out: Vec<Line> = Vec::new();
    let mut head = String::new();
    head.append("--- ");
    head.append(before_label);
    out.push(
        Line {
            kind: Kind::FileHeader,
            text: head,
            old_line: None,
            new_line: None,
            inline_spans: None,
        },
    );
    let mut head = String::new();
    head.append("+++ ");
    head.append(after_label);
    out.push(
        Line {
            kind: Kind::FileHeader,
            text: head,
            old_line: None,
            new_line: None,
            inline_spans: None,
        },
    );
    let ghost heads = line_views(out@);
    let ghost g = op_views(groups@);
    let ghost v = hunk_views(hunks@);
    assert(heads =~= seq![
        header_line(Kind::FileHeader, "--- "@ + before_label@),
        header_line(Kind::FileHeader, "+++ "@ + after_label@),
    ]);
    let mut i: usize = 0;
    assert(g.take(0) =~= Seq::empty());
    while i < groups.len()
        invariant
            i <= groups.len() == hunks@.len(),
            g == op_views(groups@),
            v == hunk_views(hunks@),
            forall|i: int| 0 <= i < groups@.len() ==> are_small_ops(#[trigger] groups@[i]@),
            forall|i: int|
                0 <= i < hunks@.len() ==> is_small_hunk(hunk_view(#[trigger] hunks@[i]@)),
            line_views(out@) =~= heads + all_hunk_lines(g.take(i as int), v),
        decreases groups.len() - i,
    {
        let ghost before = line_views(out@);
        push_hunk(&mut out, &groups[i], &hunks[i]);
        proof {
            assert(g.take(i + 1).drop_last() =~= g.take(i as int));
            assert(g.take(i + 1).last() == groups@[i as int]@);
            assert(v[i as int] == hunk_view(hunks@[i as int]@));
        }
        i += 1;
    }
    assert(g.take(i as int) =~= g);
    out
}

/// Adds the lines of a diff for one hunk.
fn push_hunk(out: &mut Vec<Line>, group: &Vec<Op>, h: &Vec<Vec<Change>>)
    requires
        are_small_ops(group@),
        is_small_hunk(hunk_view(h@)),
    ensures
        line_views(final(out)@) == line_views(old(out)@) + hunk_lines(group@, hunk_view(h@)),
{
    let ghost start = line_views(out@);
    let ghost v = hunk_view(h@);
    let ghost to_line = |c: ChangeView| diff_line(c);
    let head = Line {
        kind: Kind::HunkHeader,
        text: generate_hunk_header_text(group, h),
        old_line: None,
        new_line: None,
        inline_spans: None,
    };
    out.push(head);
    let ghost base = start.push(head@);
    assert(line_views(out@) =~= base);
    let mut i: usize = 0;
    assert(v.take(0) =~= Seq::empty());
    assert(base + flat_changes(v.take(0)).map_values(to_line) =~= base);
    while i < h.len()
        invariant
            i <= h.len(),
            v == hunk_view(h@),
            to_line == (|c: ChangeView| diff_line(c)),
            is_small_hunk(v),
            line_views(out@) == base + flat_changes(v.take(i as int)).map_values(to_line),
        decreases h.len() - i,
    {
        let ghost c = v[i as int];
        let ghost middle = line_views(out@);
        let changes = &h[i];
        let mut j: usize = 0;
        assert(are_small_changes(c));
        while j < changes.len()
            invariant
                j <= changes.len(),
                c == change_views(changes@),
                are_small_changes(c),
                to_line == (|c: ChangeView| diff_line(c)),
                line_views(out@) =~= middle + c.take(j as int).map_values(to_line),
            decreases changes.len() - j,
        {
            let ghost before = line_views(out@);
            assert(c[j as int] == changes@[j as int]@);
            let l = change_line(&changes[j]);
            out.push(l);
            assert(line_views(out@) =~= before.push(l@));
            assert(c.take(j + 1) =~= c.take(j as int).push(c[j as int]));
            j += 1;
        }
        proof {
            assert(c.take(j as int) =~= c);
            lemma_flat_changes(v, i as int);
            assert((flat_changes(v.take(i as int)) + c).map_values(to_line) =~= flat_changes(
                v.take(i as int),
            ).map_values(to_line) + c.map_values(to_line));
            assert(line_views(out@) =~= base + flat_changes(v.take(i + 1)).map_values(to_line));
        }
        i += 1;
    }
    assert(v.take(i as int) =~= v);
    assert(line_views(out@) =~= start + hunk_lines(group@, v));
}

/// What an optional text holds; nothing where there is none.
pub open spec fn text_or_empty(o: Option<&str>) -> Seq<char> {
    match o {
        Some(s) => s@,
        None => seq![],
    }
}

/// Whether `hunks` holds the lines of two texts in the ranges of their diff.
pub open spec fn is_diff_of(
    hunks: Seq<Seq<Seq<ChangeView>>>,
    before: Seq<char>,
    after: Seq<char>,
    n: nat,
) -> bool {
    let groups = grouped_ops_of(before, after, n);
    &&& hunks.len() == groups.len()
    &&& forall|i: int|
        0 <= i < hunks.len() ==> all_filled(#[trigger] hunks[i], groups[i], before, after)
}

proof fn lemma_filled_small(
    h: Seq<Seq<ChangeView>>,
    ops: Seq<Op>,
    before: Seq<char>,
    after: Seq<char>,
)
    requires
        all_filled(h, ops, before, after),
        is_comparable(before, after),
    ensures
        is_small_hunk(h),
        are_small_ops(ops),
{
    let old_lines = diff_lines(before);
    let new_lines = diff_lines(after);
    assert forall|i: int| 0 <= i < h.len() implies are_small_changes(#[trigger] h[i]) by {
        assert(fills(h[i], ops[i], before, after));
        assert forall|j: int| 0 <= j < h[i].len() implies is_small_change(#[trigger] h[i][j]) by {
            assert(is_change_at(h[i][j], ops[i], j, old_lines, new_lines));
        }
    }
    assert forall|i: int| 0 <= i < ops.len() implies (#[trigger] ops[i]).fits(
        (u32::MAX - 1) as nat,
        (u32::MAX - 1) as nat,
    ) by {
        assert(fills(h[i], ops[i], before, after));
    }
}

/// The lines of the diff of two versions of a file, of which one may be
/// missing, in hunks with `context_lines` equal lines around what changed.
pub fn unified_file_diff(
    before_label: &str,
    after_label: &str,
    before: Option<&str>,
    after: Option<&str>,
    context_lines: u32,
) -> (out: Vec<Line>)
    requires
        is_comparable(text_or_empty(before), text_or_empty(after)),
        2 * context_lines <= usize::MAX,
    ensures
        exists|hunks: Seq<Seq<Seq<ChangeView>>>|
            #[trigger] is_diff_of(
                hunks,
                text_or_empty(before),
                text_or_empty(after),
                context_lines as nat,
            ) && line_views(out@) == unified_lines(
                before_label@,
                after_label@,
                grouped_ops_of(
                    text_or_empty(before),
                    text_or_empty(after),
                    context_lines as nat,
                ),
                hunks,
            ),
{
    proof {
        reveal_strlit("");
        assert(""@ =~= Seq::<char>::empty());
    }
    let b = before.unwrap_or("");
    let a = after.unwrap_or("");
    let groups = grouped_ops(b, a, context_lines as usize);
    let hunks = grouped_changes(b, a, context_lines as usize);
    let ghost v = hunk_views(hunks@);
    proof {
        let g = grouped_ops_of(b@, a@, context_lines as nat);
        assert forall|i: int| 0 <= i < groups@.len() implies are_small_ops(
            #[trigger] groups@[i]@,
        ) && is_small_hunk(v[i]) by {
            assert(op_views(groups@)[i] == groups@[i]@);
            assert(v[i] == hunk_view(hunks@[i]@));
            assert(all_filled(hunk_view(hunks@[i]@), g[i], b@, a@));
            lemma_filled_small(v[i], g[i], b@, a@);
        }
        assert forall|i: int| 0 <= i < hunks@.len() implies is_small_hunk(
            hunk_view(#[trigger] hunks@[i]@),
        ) by {
            assert(are_small_ops(groups@[i]@));
            assert(v[i] == hunk_view(hunks@[i]@));
        }
        assert(is_diff_of(v, b@, a@, context_lines as nat)) by {
            assert forall|i: int| 0 <= i < v.len() implies all_filled(
                #[trigger] v[i],
                g[i],
                b@,
                a@,
            ) by {
                assert(all_filled(hunk_view(hunks@[i]@), g[i], b@, a@));
            }
        }
    }
    lay_out_hunks(before_label, after_label, &groups, &hunks)
}

/// What a line of a whole file holds.
pub struct DecoratedView {
    pub status: LineStatus,
    pub line_number: u32,
    pub old_line_number: Option<u32>,
    pub text: Seq<char>,
}

impl View for DecoratedLine {
    type V = DecoratedView;

    open spec fn view(&self) -> DecoratedView {
        DecoratedView {
            status: self.status,
            line_number: self.line_number,
            old_line_number: self.old_line_number,
            text: self.text@,
        }
    }
}

/// What some lines of a whole file hold.
pub open spec fn decorated_views(v: Seq<DecoratedLine>) -> Seq<DecoratedView> {
    v.map_values(|l: DecoratedLine| l@)
}

/// The status of the line at `idx` of the new version, by the lines of a diff.
pub open spec fn status_at(c: Seq<ChangeView>, idx: int) -> LineStatus
    decreases c.len(),
{
    if c.len() == 0 {
        LineStatus::Unchanged
    } else {
        let l = c.last();
        if !(l.tag is Delete) && l.new_index is Some && l.new_index->0 == idx {
            if l.tag is Equal {
                LineStatus::Unchanged
            } else {
                LineStatus::Added
            }
        } else {
            status_at(c.drop_last(), idx)
        }
    }
}

/// The lines of the new version of a file, each with its status by `status`.
pub open spec fn new_file_lines(
    content: Seq<char>,
    status: spec_fn(int) -> LineStatus,
) -> Seq<DecoratedView> {
    let lines = text::lines_of(content);
    Seq::new(
        lines.len(),
        |i: int|
            DecoratedView {
                status: status(i),
                line_number: (i + 1) as u32,
                old_line_number: None,
                text: lines[i],
            },
    )
}

/// The lines of a file that was deleted, all of them removed.
pub open spec fn deleted_file_lines(content: Seq<char>) -> Seq<DecoratedView> {
    let lines = text::lines_of(content);
    Seq::new(
        lines.len(),
        |i: int|
            DecoratedView {
                status: LineStatus::Removed,
                line_number: 0,
                old_line_number: Some((i + 1) as u32),
                text: lines[i],
            },
    )
}

/// The status of each of the first `n` lines of the new version, by the lines
/// of a diff.
pub fn line_statuses(changes: &Vec<Vec<Change>>, n: usize) -> (out: Vec<LineStatus>)
    ensures
        out@ == Seq::new(n as nat, |i: int| status_at(flat_changes(hunk_view(changes@)), i)),
{
    let mut out: Vec<LineStatus> = Vec::new();
    let mut i: usize = 0;
    while i < n
        invariant
            i <= n,
            out@ =~= Seq::new(i as nat, |k: int| LineStatus::Unchanged),
        decreases n - i,
    {
        out.push(LineStatus::Unchanged);
        i += 1;
    }
    let ghost v = hunk_view(changes@);
    i = 0;
    assert(v.take(0) =~= Seq::empty());
    while i < changes.len()
        invariant
            i <= changes.len(),
            v == hunk_view(changes@),
            out@.len() == n,
            forall|k: int|
                0 <= k < n ==> #[trigger] out@[k] == status_at(flat_changes(v.take(i as int)), k),
        decreases changes.len() - i,
    {
        let line_changes = &changes[i];
        let ghost c = v[i as int];
        let ghost base = flat_changes(v.take(i as int));
        let mut j: usize = 0;
        assert(base + c.take(0) =~= base);
        while j < line_changes.len()
            invariant
                j <= line_changes.len(),
                c == change_views(line_changes@),
                out@.len() == n,
                forall|k: int|
                    0 <= k < n ==> #[trigger] out@[k] == status_at(base + c.take(j as int), k),
            decreases line_changes.len() - j,
        {
            let change = &line_changes[j];
            let ghost before = out@;
            assert((base + c.take(j + 1)).drop_last() =~= base + c.take(j as int));
            assert((base + c.take(j + 1)).last() == change@);
            match (change.tag, change.new_index) {
                (ChangeTag::Delete, _) => {},
                (_, None) => {},
                (ChangeTag::Equal, Some(idx)) => {
                    if idx < n {
                        out.set(idx, LineStatus::Unchanged);
                    }
                },
                (ChangeTag::Insert, Some(idx)) => {
                    if idx < n {
                        out.set(idx, LineStatus::Added);
                    }
                },
            }
            j += 1;
        }
        proof {
            assert(c.take(j as int) =~= c);
            lemma_flat_changes(v, i as int);
        }
        i += 1;
    }
    assert(v.take(i as int) =~= v);
    out
}

fn decorate(lines: &Vec<String>, deleted: bool, statuses: &Vec<LineStatus>) -> (out: Vec<
    DecoratedLine,
>)
    requires
        lines@.len() <= u32::MAX,
        lines@.len() <= statuses@.len(),
    ensures
        decorated_views(out@) == Seq::new(
            lines@.len(),
            |i: int|
                DecoratedView {
                    status: statuses@[i],
                    line_number: if deleted {
                        0
                    } else {
                        (i + 1) as u32
                    },
                    old_line_number: if deleted {
                        Some((i + 1) as u32)
                    } else {
                        None
                    },
                    text: lines@[i]@,
                },
        ),
{
    let mut out: Vec<DecoratedLine> = Vec::new();
    let mut i: usize = 0;
    while i < lines.len()
        invariant
            i <= lines@.len() <= u32::MAX,
            lines@.len() <= statuses@.len(),
            decorated_views(out@) =~= Seq::new(
                i as nat,
                |i: int|
                    DecoratedView {
                        status: statuses@[i],
                        line_number: if deleted {
                            0
                        } else {
                            (i + 1) as u32
                        },
                        old_line_number: if deleted {
                            Some((i + 1) as u32)
                        } else {
                            None
                        },
                        text: lines@[i]@,
                    },
            ),
        decreases lines.len() - i,
    {
        let ghost before = decorated_views(out@);
        let number: u32 = (i + 1) as u32;
        let l = DecoratedLine {
            status: statuses[i],
            line_number: if deleted {
                0
            } else {
                number
            },
            old_line_number: if deleted {
                Some(number)
            } else {
                None
            },
            text: lines[i].clone(),
        };
        out.push(l);
        assert(decorated_views(out@) =~= before.push(l@));
        i += 1;
    }
    out
}

fn same_status(status: LineStatus, n: usize) -> (out: Vec<LineStatus>)
    ensures
        out@ == Seq::new(n as nat, |i: int| status),
{
    let mut out: Vec<LineStatus> = Vec::new();
    let mut i: usize = 0;
    while i < n
        invariant
            i <= n,
            out@ =~= Seq::new(i as nat, |k: int| status),
        decreases n - i,
    {
        out.push(status);
        i += 1;
    }
    out
}

/// The whole file, line by line, with what became of each line: the new
/// version, or of a deleted file the old one with all lines removed. All lines
/// of a new file are added.
pub fn decorated_file_diff(before: Option<&str>, after: Option<&str>) -> (out: Vec<DecoratedLine>)
    requires
        is_comparable(text_or_empty(before), text_or_empty(after)),
    ensures
        ({
            let b = text_or_empty(before);
            let a = text_or_empty(after);
            if before is Some && after is None {
                decorated_views(out@) == deleted_file_lines(b)
            } else if b.len() == 0 {
                decorated_views(out@) == new_file_lines(a, |i: int| LineStatus::Added)
            } else {
                exists|changes: Seq<Seq<ChangeView>>| #[trigger]
                    all_filled(changes, ops_of(b, a), b, a) && decorated_views(out@)
                        == new_file_lines(a, |i: int| status_at(flat_changes(changes), i))
            }
        }),
{
    proof {
        reveal_strlit("");
        assert(""@ =~= Seq::<char>::empty());
    }
    let b = before.unwrap_or("");
    let a = after.unwrap_or("");
    proof {
        lemma_few_lines(b@);
        lemma_few_lines(a@);
    }
    if before.is_some() && after.is_none() {
        let lines = text::lines(b);
        let statuses = same_status(LineStatus::Removed, lines.len());
        let out = decorate(&lines, true, &statuses);
        assert(decorated_views(out@) =~= deleted_file_lines(b@)) by {
            assert(forall|i: int|
                0 <= i < lines@.len() ==> text::views(lines@)[i] == (#[trigger] lines@[i])@);
        }
        return out;
    }
    let lines = text::lines(a);
    assert(forall|i: int| 0 <= i < lines@.len() ==> text::views(lines@)[i] == (#[trigger] lines@[i])@);
    if b.is_empty() {
        let statuses = same_status(LineStatus::Added, lines.len());
        let out = decorate(&lines, false, &statuses);
        assert(decorated_views(out@) =~= new_file_lines(a@, |i: int| LineStatus::Added));
        return out;
    }
    let changes = all_changes(b, a);
    let statuses = line_statuses(&changes, lines.len());
    let out = decorate(&lines, false, &statuses);
    proof {
        let c = hunk_view(changes@);
        assert(all_filled(c, ops_of(b@, a@), b@, a@));
        assert(decorated_views(out@) =~= new_file_lines(
            a@,
            |i: int| status_at(flat_changes(c), i),
        ));
    }
    out
}

/// Whether a line of a diff is the line `idx` of the new version.
pub open spec fn is_new_line(c: ChangeView, idx: int) -> bool {
    !(c.tag is Delete) && c.new_index is Some && c.new_index->0 == idx
}

/// The status of a line is that of a line of the diff that is it.
proof fn lemma_status_at(c: Seq<ChangeView>, idx: int)
    ensures
        (exists|j: int| 0 <= j < c.len() && is_new_line(#[trigger] c[j], idx)) ==> exists|j: int|
            0 <= j < c.len() && is_new_line(#[trigger] c[j], idx) && status_at(c, idx) == (
            if c[j].tag is Equal {
                LineStatus::Unchanged
            } else {
                LineStatus::Added
            }),
        !(exists|j: int| 0 <= j < c.len() && is_new_line(#[trigger] c[j], idx)) ==> status_at(
            c,
            idx,
        ) == LineStatus::Unchanged,
    decreases c.len(),
{
    if c.len() > 0 {
        let front = c.drop_last();
        let n = c.len() - 1;
        assert(c[n] == c.last());
        lemma_status_at(front, idx);
        if !is_new_line(c[n], idx) {
            if exists|j: int| 0 <= j < c.len() && is_new_line(#[trigger] c[j], idx) {
                let j = choose|j: int| 0 <= j < c.len() && is_new_line(#[trigger] c[j], idx);
                assert(front[j] == c[j]);
                let i = choose|i: int|
                    0 <= i < front.len() && is_new_line(#[trigger] front[i], idx) && status_at(
                        front,
                        idx,
                    ) == (if front[i].tag is Equal {
                        LineStatus::Unchanged
                    } else {
                        LineStatus::Added
                    });
                assert(c[i] == front[i]);
            } else {
                assert forall|j: int| 0 <= j < front.len() implies !is_new_line(
                    #[trigger] front[j],
                    idx,
                ) by {
                    assert(front[j] == c[j]);
                }
            }
        }
    }
}

/// In the view of the whole file a line is shown as added just where the diff has it
/// among the inserted lines, and as unchanged just where the diff has it as equal to one
/// of the old version, whatever the numbers of the two; that is, where the diff does not
/// have it as both.
pub proof fn law_status_is_that_of_the_diff(c: Seq<ChangeView>, idx: int)
    requires
        forall|i: int, j: int|
            0 <= i < c.len() && 0 <= j < c.len() && is_new_line(#[trigger] c[i], idx)
                && is_new_line(#[trigger] c[j], idx) ==> c[i].tag == c[j].tag,
    ensures
        status_at(c, idx) == LineStatus::Added <==> exists|j: int|
            0 <= j < c.len() && (#[trigger] c[j]).tag is Insert && c[j].new_index is Some
                && c[j].new_index->0 == idx,
        forall|j: int|
            0 <= j < c.len() && (#[trigger] c[j]).tag is Equal && c[j].new_index is Some
                && c[j].new_index->0 == idx ==> status_at(c, idx) == LineStatus::Unchanged,
        status_at(c, idx) == LineStatus::Added || status_at(c, idx) == LineStatus::Unchanged,
{
    lemma_status_at(c, idx);
    assert forall|j: int|
        0 <= j < c.len() && (#[trigger] c[j]).tag is Equal && c[j].new_index is Some
            && c[j].new_index->0 == idx implies status_at(c, idx) == LineStatus::Unchanged by {
        assert(is_new_line(c[j], idx));
    }
    if exists|j: int|
        0 <= j < c.len() && (#[trigger] c[j]).tag is Insert && c[j].new_index is Some
            && c[j].new_index->0 == idx {
        let j = choose|j: int|
            0 <= j < c.len() && (#[trigger] c[j]).tag is Insert && c[j].new_index is Some
                && c[j].new_index->0 == idx;
        assert(is_new_line(c[j], idx));
    }
}

/// A line of the hunks is one of the changes of a range.
proof fn lemma_flat_at(h: Seq<Seq<ChangeView>>, j: int) -> (p: (int, int))
    requires
        0 <= j < flat_changes(h).len(),
    ensures
        0 <= p.0 < h.len(),
        0 <= p.1 < h[p.0].len(),
        flat_changes(h)[j] == h[p.0][p.1],
    decreases h.len(),
{
    let front = flat_changes(h.drop_last());
    if j < front.len() {
        let p = lemma_flat_at(h.drop_last(), j);
        assert(h.drop_last()[p.0] == h[p.0]);
        p
    } else {
        (h.len() - 1, j - front.len())
    }
}

/// Each change of a range is a line of the hunks.
proof fn lemma_flat_has(h: Seq<Seq<ChangeView>>, r: int, i: int) -> (j: int)
    requires
        0 <= r < h.len(),
        0 <= i < h[r].len(),
    ensures
        0 <= j < flat_changes(h).len(),
        flat_changes(h)[j] == h[r][i],
    decreases h.len(),
{
    let front = flat_changes(h.drop_last());
    if r < h.len() - 1 {
        assert(h.drop_last()[r] == h[r]);
        lemma_flat_has(h.drop_last(), r, i)
    } else {
        front.len() + i
    }
}

/// Whether a range holds the line `idx` of the new version.
pub open spec fn holds_new(op: Op, idx: int) -> bool {
    op.new_start() <= idx < op.new_start() + op.new_count()
}

/// In the view of the whole file, every line of a range that is equal in both versions is
/// unchanged, wherever it stood before, and every line of one that was inserted or took
/// the place of others is added.
pub proof fn law_range_decides_the_status(
    changes: Seq<Seq<ChangeView>>,
    ops: Seq<Op>,
    before: Seq<char>,
    after: Seq<char>,
    r: int,
    idx: int,
)
    requires
        all_filled(changes, ops, before, after),
        0 <= r < ops.len(),
        holds_new(ops[r], idx),
        forall|s: int| 0 <= s < ops.len() && s != r ==> !holds_new(#[trigger] ops[s], idx),
    ensures
        ops[r] is Equal ==> status_at(flat_changes(changes), idx) == LineStatus::Unchanged,
        !(ops[r] is Equal) ==> status_at(flat_changes(changes), idx) == LineStatus::Added,
{
    let c = flat_changes(changes);
    let old_lines = diff_lines(before);
    let new_lines = diff_lines(after);
    let op = ops[r];
    assert(fills(changes[r], op, before, after));
    let i = if op is Equal {
        idx - op.new_start()
    } else {
        op.old_count() + (idx - op.new_start())
    };
    assert(is_change_at(changes[r][i], op, i, old_lines, new_lines));
    let at = lemma_flat_has(changes, r, i);
    assert(is_new_line(c[at], idx));
    assert forall|j: int| 0 <= j < c.len() && is_new_line(#[trigger] c[j], idx) implies c[j].tag
        == c[at].tag by {
        let p = lemma_flat_at(changes, j);
        assert(fills(changes[p.0], ops[p.0], before, after));
        assert(is_change_at(changes[p.0][p.1], ops[p.0], p.1, old_lines, new_lines));
        assert(holds_new(ops[p.0], idx));
    }
    law_status_is_that_of_the_diff(c, idx);
}

/// The view of the whole file lists every line of the file once, in its order and by its
/// number; that of a deleted file those of the old version.
pub proof fn law_whole_file_lists_every_line(
    content: Seq<char>,
    status: spec_fn(int) -> LineStatus,
    i: int,
)
    requires
        0 <= i < text::lines_of(content).len() < u32::MAX,
    ensures
        new_file_lines(content, status).len() == text::lines_of(content).len(),
        new_file_lines(content, status)[i].text == text::lines_of(content)[i],
        new_file_lines(content, status)[i].line_number == i + 1,
        new_file_lines(content, status)[i].status == status(i),
        deleted_file_lines(content).len() == text::lines_of(content).len(),
        deleted_file_lines(content)[i].text == text::lines_of(content)[i],
        deleted_file_lines(content)[i].line_number == 0,
        deleted_file_lines(content)[i].old_line_number is Some,
        deleted_file_lines(content)[i].old_line_number->0 == i + 1,
        deleted_file_lines(content)[i].status == LineStatus::Removed,
{
}

/// A line of a diff has the number that the line has in its version: a line that both
/// have has both numbers, a removed one that in the old version alone, and an added one
/// that in the new version alone.
pub proof fn law_diff_line_has_its_numbers(
    changes: Seq<ChangeView>,
    op: Op,
    before: Seq<char>,
    after: Seq<char>,
    i: int,
)
    requires
        fills(changes, op, before, after),
        is_comparable(before, after),
        0 <= i < changes.len(),
    ensures
        ({
            let l = diff_line(changes[i]);
            let o = op.old_start() + i + 1;
            let n = op.new_start() + (i - op.old_count()) + 1;
            if op is Equal {
                &&& l.kind is Context
                &&& l.old_line is Some && l.old_line->0 == o
                &&& l.new_line is Some && l.new_line->0 == op.new_start() + i + 1
            } else if i < op.old_count() {
                &&& l.kind is Remove
                &&& l.old_line is Some && l.old_line->0 == o
                &&& l.new_line is None
            } else {
                &&& l.kind is Add
                &&& l.old_line is None
                &&& l.new_line is Some && l.new_line->0 == n
            }
        }),
{
    assert(is_change_at(changes[i], op, i, diff_lines(before), diff_lines(after)));
}

} // verus!
