//! Reading a draft: a text in the format of the prompt, line by line.
use crate::draft;
use crate::draft::{DraftReview, DraftView};
use crate::review::{LineKey, LineSide};
use crate::text;
use vstd::prelude::*;

verus! {

/// The section of a file that the reader is in.
#[derive(Debug, Clone, Copy, PartialEq, Eq, Structural)]
pub enum DraftSection {
    Outside,
    FileComment,
    LineComments,
}

/// What a text block is a comment on.
pub enum TargetView {
    File(Seq<char>),
    Line(Seq<char>, LineKey),
}

/// The block that the reader is in.
pub enum BlockView {
    Outside,
    Text { fence: Seq<char>, target: Option<TargetView>, body: Seq<Seq<char>> },
    Skipped { fence: Seq<char> },
}

/// What the reader knows after some lines.
pub struct ReaderView {
    pub draft: DraftView,
    pub file: Option<Seq<char>>,
    pub section: DraftSection,
    pub line: Option<LineKey>,
    pub block: BlockView,
}

/// How many characters at the start of `s` are `c`.
pub open spec fn run_len(s: Seq<char>, c: char) -> nat
    decreases s.len(),
{
    if s.len() > 0 && s[0] == c {
        1 + run_len(s.drop_first(), c)
    } else {
        0
    }
}

/// How many characters at the start of `s` are decimal digits.
pub open spec fn digits_len(s: Seq<char>) -> nat
    decreases s.len(),
{
    if s.len() > 0 && text::is_digit(s[0]) {
        1 + digits_len(s.drop_first())
    } else {
        0
    }
}

/// The line that the rest of a line marker names: a number, and anything with
/// `old` in it for the old side.
pub open spec fn marked_line(s: Seq<char>) -> Option<LineKey> {
    let n = digits_len(s) as int;
    match text::parsed_u32(s.take(n)) {
        Some(line) => Some(
            LineKey {
                side: if text::occurs(s.skip(n), "old"@) {
                    LineSide::Old
                } else {
                    LineSide::New
                },
                line: line as u32,
            },
        ),
        None => None,
    }
}

/// What the text block that starts here is a comment on.
pub open spec fn next_target(st: ReaderView) -> Option<TargetView> {
    match st.section {
        DraftSection::FileComment => match st.file {
            Some(path) => Some(TargetView::File(path)),
            None => None,
        },
        DraftSection::LineComments => match (st.file, st.line) {
            (Some(path), Some(k)) => Some(TargetView::Line(path, k)),
            _ => None,
        },
        DraftSection::Outside => None,
    }
}

/// The draft with the comment that a closed text block holds. A blank one, and
/// one that is still to be written, is no comment.
pub open spec fn with_block(
    d: DraftView,
    target: Option<TargetView>,
    body: Seq<Seq<char>>,
) -> DraftView {
    let comment = text::trimmed_end(text::joined(body, seq!['\n']));
    if text::is_blank(comment) || text::trimmed(comment) == draft::placeholder() {
        d
    } else {
        match target {
            Some(TargetView::File(path)) => draft::with_draft_file_comment(d, path, comment),
            Some(TargetView::Line(path, k)) => draft::with_draft_line_comment(d, path, k, comment),
            None => d,
        }
    }
}

/// What the reader knows after one more line.
pub open spec fn read_line(st: ReaderView, line: Seq<char>) -> ReaderView {
    let t = text::trimmed_start(line);
    match st.block {
        BlockView::Text { fence, target, body } => if t == fence {
            ReaderView {
                draft: with_block(st.draft, target, body),
                block: BlockView::Outside,
                ..st
            }
        } else {
            ReaderView { block: BlockView::Text { fence, target, body: body.push(line) }, ..st }
        },
        BlockView::Skipped { fence } => if t == fence {
            ReaderView { block: BlockView::Outside, ..st }
        } else {
            st
        },
        BlockView::Outside => if "```"@.is_prefix_of(t) {
            let fence = text::repeated('`', run_len(t, '`'));
            if "text"@.is_prefix_of(text::trimmed(t.skip("```"@.len() as int))) {
                ReaderView {
                    line: if st.section is LineComments {
                        None
                    } else {
                        st.line
                    },
                    block: BlockView::Text { fence, target: next_target(st), body: seq![] },
                    ..st
                }
            } else {
                ReaderView { block: BlockView::Skipped { fence }, ..st }
            }
        } else if "## "@.is_prefix_of(t) {
            ReaderView {
                file: Some(text::trimmed(t.skip("## "@.len() as int))),
                section: DraftSection::Outside,
                line: None,
                ..st
            }
        } else if "### File comment"@.is_prefix_of(t) {
            ReaderView { section: DraftSection::FileComment, line: None, ..st }
        } else if "### Line comments"@.is_prefix_of(t) {
            ReaderView { section: DraftSection::LineComments, ..st }
        } else if st.section is LineComments && "- line "@.is_prefix_of(t) {
            ReaderView { line: marked_line(t.skip("- line "@.len() as int)), ..st }
        } else {
            st
        },
    }
}

/// What the reader knows after the lines `lines`.
pub open spec fn read_lines(st: ReaderView, lines: Seq<Seq<char>>) -> ReaderView
    decreases lines.len(),
{
    if lines.len() == 0 {
        st
    } else {
        read_line(read_lines(st, lines.drop_last()), lines.last())
    }
}

/// What the reader knows at the start.
pub open spec fn reader_start() -> ReaderView {
    ReaderView {
        draft: DraftView::empty(),
        file: None,
        section: DraftSection::Outside,
        line: None,
        block: BlockView::Outside,
    }
}

/// The draft that a text writes.
pub open spec fn parsed_draft(content: Seq<char>) -> DraftView {
    read_lines(reader_start(), text::lines_of(content)).draft
}

/// How many characters at the start of `v` are `c`.
fn run_of(v: &Vec<char>, c: char) -> (n: usize)
    ensures
        n == run_len(v@, c),
        n <= v.len(),
{
    let mut i: usize = 0;
    assert(v@.skip(0) =~= v@);
    while i < v.len() && v[i] == c
        invariant
            i <= v.len(),
            run_len(v@, c) == i + run_len(v@.skip(i as int), c),
        decreases v.len() - i,
    {
        assert(v@.skip(i as int).drop_first() =~= v@.skip(i + 1));
        i += 1;
    }
    i
}

/// The line that the rest of a line marker names.
pub fn parse_line_marker(input: &str) -> (r: Option<(u32, LineSide)>)
    ensures
        match r {
            Some((line, side)) => marked_line(input@) == Some(LineKey { side, line }),
            None => marked_line(input@) is None,
        },
{
    let v = text::chars(input);
    let mut i: usize = 0;
    assert(v@.skip(0) =~= v@);
    while i < v.len() && is_digit_char(v[i])
        invariant
            i <= v.len(),
            digits_len(v@) == i + digits_len(v@.skip(i as int)),
        decreases v.len() - i,
    {
        assert(v@.skip(i as int).drop_first() =~= v@.skip(i + 1));
        i += 1;
    }
    let digits = text::string_of(&v, 0, i);
    let rest = text::string_of(&v, i, v.len());
    assert(digits@ =~= input@.take(i as int));
    assert(rest@ =~= input@.skip(i as int));
    match text::parse_u32(digits.as_str()) {
        Some(line) => {
            let side = if text::contains(rest.as_str(), "old") {
                LineSide::Old
            } else {
                LineSide::New
            };
            Some((line, side))
        },
        None => None,
    }
}

/// Whether `c` is an ASCII decimal digit.
fn is_digit_char(c: char) -> (r: bool)
    ensures
        r == text::is_digit(c),
{
    let n: u32 = text::code(c);
    48 <= n && n <= 57
}

/// What a text block is a comment on.
enum DraftTarget {
    File(String),
    Line(String, LineKey),
}

impl View for DraftTarget {
    type V = TargetView;

    closed spec fn view(&self) -> TargetView {
        match self {
            DraftTarget::File(path) => TargetView::File(path@),
            DraftTarget::Line(path, k) => TargetView::Line(path@, *k),
        }
    }
}

spec fn opt_target(o: Option<DraftTarget>) -> Option<TargetView> {
    match o {
        Some(t) => Some(t@),
        None => None,
    }
}

enum Block {
    Outside,
    Text { fence: String, target: Option<DraftTarget>, body: Vec<String> },
    Skipped { fence: String },
}

impl View for Block {
    type V = BlockView;

    closed spec fn view(&self) -> BlockView {
        match self {
            Block::Outside => BlockView::Outside,
            Block::Text { fence, target, body } => BlockView::Text {
                fence: fence@,
                target: opt_target(*target),
                body: text::views(body@),
            },
            Block::Skipped { fence } => BlockView::Skipped { fence: fence@ },
        }
    }
}

struct Reader {
    draft: DraftReview,
    file: Option<String>,
    section: DraftSection,
    line: Option<LineKey>,
    block: Block,
}

impl View for Reader {
    type V = ReaderView;

    closed spec fn view(&self) -> ReaderView {
        ReaderView {
            draft: self.draft@,
            file: text::opt_view(self.file),
            section: self.section,
            line: self.line,
            block: self.block@,
        }
    }
}

impl Reader {
    /// What the text block that starts here is a comment on.
    fn target(&self) -> (r: Option<DraftTarget>)
        ensures
            opt_target(r) == next_target(self@),
    {
        match self.section {
            DraftSection::FileComment => match &self.file {
                Some(path) => Some(DraftTarget::File(path.clone())),
                None => None,
            },
            DraftSection::LineComments => match (&self.file, self.line) {
                (Some(path), Some(k)) => Some(DraftTarget::Line(path.clone(), k)),
                _ => None,
            },
            DraftSection::Outside => None,
        }
    }

    /// Adds the comment that a closed text block holds.
    fn close(&mut self, target: Option<DraftTarget>, body: &Vec<String>)
        ensures
            final(self)@ == (ReaderView {
                draft: with_block(old(self)@.draft, opt_target(target), text::views(body@)),
                ..old(self)@
            }),
    {
        proof {
            reveal_strlit("\n");
            assert("\n"@ =~= seq!['\n']);
        }
        let whole = text::join(body, "\n");
        let comment = text::trim_end(whole.as_str());
        let bare = text::trim(comment.as_str());
        if text::blank(comment.as_str()) || text::same(
            bare.as_str(),
            "<!-- remark:write comment -->",
        ) {
            return;
        }
        match target {
            Some(DraftTarget::File(path)) => {
                self.draft.set_file_comment(path.as_str(), comment);
            },
            Some(DraftTarget::Line(path, k)) => {
                self.draft.set_line_comment(path.as_str(), k.side, k.line, comment);
            },
            None => {},
        }
    }

    /// Reads a line outside of any block.
    fn outside(&mut self, t: &str)
        requires
            old(self)@.block is Outside,
            text::trimmed_start(t@) == t@,
        ensures
            final(self)@ == read_line(old(self)@, t@),
    {
        match text::strip_prefix(t, "```") {
            Some(rest) => {
                let v = text::chars(t);
                let n: usize = run_of(&v, '`');
                let fence = text::string_of(&v, 0, n);
                proof {
                    lemma_run(t@, '`');
                    assert(fence@ =~= text::repeated('`', run_len(t@, '`')));
                }
                let lang = text::trim(rest.as_str());
                if text::starts_with(lang.as_str(), "text") {
                    let target = self.target();
                    match self.section {
                        DraftSection::LineComments => {
                            self.line = None;
                        },
                        _ => {},
                    }
                    let body: Vec<String> = Vec::new();
                    assert(text::views(body@) =~= Seq::<Seq<char>>::empty());
                    self.block = Block::Text { fence, target, body };
                } else {
                    self.block = Block::Skipped { fence };
                }
                return;
            },
            None => {},
        }
        match text::strip_prefix(t, "## ") {
            Some(path) => {
                self.file = Some(text::trim(path.as_str()));
                self.section = DraftSection::Outside;
                self.line = None;
                return;
            },
            None => {},
        }
        if text::starts_with(t, "### File comment") {
            self.section = DraftSection::FileComment;
            self.line = None;
            return;
        }
        if text::starts_with(t, "### Line comments") {
            self.section = DraftSection::LineComments;
            return;
        }
        match self.section {
            DraftSection::LineComments => match text::strip_prefix(t, "- line ") {
                Some(rest) => {
                    self.line = match parse_line_marker(rest.as_str()) {
                        Some((line, side)) => Some(LineKey { side, line }),
                        None => None,
                    };
                },
                None => {},
            },
            _ => {},
        }
    }

    /// Reads a line.
    fn read(&mut self, line: &String)
        ensures
            final(self)@ == read_line(old(self)@, line@),
    {
        let t = text::trim_start(line.as_str());
        proof {
            lemma_trimmed_start_twice(line@);
        }
        let mut block = Block::Outside;
        std::mem::swap(&mut self.block, &mut block);
        match block {
            Block::Text { fence, target, mut body } => {
                if text::same(t.as_str(), fence.as_str()) {
                    self.close(target, &body);
                } else {
                    let ghost before = text::views(body@);
                    body.push(line.clone());
                    assert(text::views(body@) =~= before.push(line@));
                    self.block = Block::Text { fence, target, body };
                }
            },
            Block::Skipped { fence } => {
                if !text::same(t.as_str(), fence.as_str()) {
                    self.block = Block::Skipped { fence };
                }
            },
            Block::Outside => {
                self.outside(t.as_str());
            },
        }
    }
}

proof fn lemma_trimmed_start_twice(s: Seq<char>)
    ensures
        text::trimmed_start(text::trimmed_start(s)) == text::trimmed_start(s),
    decreases s.len(),
{
    if s.len() > 0 && text::is_space(s[0]) {
        lemma_trimmed_start_twice(s.drop_first());
    }
}

/// The characters of a run.
proof fn lemma_run(s: Seq<char>, c: char)
    ensures
        run_len(s, c) <= s.len(),
        forall|i: int| 0 <= i < run_len(s, c) ==> s[i] == c,
        run_len(s, c) < s.len() ==> s[run_len(s, c) as int] != c,
    decreases s.len(),
{
    if s.len() > 0 && s[0] == c {
        let t = s.drop_first();
        lemma_run(t, c);
        assert forall|i: int| 0 <= i < run_len(s, c) implies s[i] == c by {
            if i > 0 {
                assert(s[i] == t[i - 1]);
            }
        }
    }
}

/// The draft that a text writes.
pub fn parse_prompt_draft(content: &str) -> (out: DraftReview)
    ensures
        out@ == parsed_draft(content@),
{
    let lines = text::lines(content);
    let ghost all = text::views(lines@);
    let mut reader = Reader {
        draft: DraftReview::default(),
        file: None,
        section: DraftSection::Outside,
        line: None,
        block: Block::Outside,
    };
    let mut i: usize = 0;
    assert(all.take(0) =~= Seq::empty());
    while i < lines.len()
        invariant
            i <= lines.len() == all.len(),
            all == text::views(lines@),
            reader@ == read_lines(reader_start(), all.take(i as int)),
        decreases lines.len() - i,
    {
        assert(all.take(i + 1).drop_last() =~= all.take(i as int));
        reader.read(&lines[i]);
        i += 1;
    }
    assert(all.take(i as int) =~= all);
    reader.draft
}

} // verus!
