//! A prompt reads back: what is written into a draft is what is read from it.
use crate::draft;
use crate::draft::{DraftFileView, DraftView};
use crate::draft_text;
use crate::draft_text::{BlockView, DraftSection, ReaderView, TargetView};
use crate::hash;
use crate::ordmap;
use crate::review;
use crate::review::{CommentView, FileReviewView, LineKey, LineSide, ReviewView, SnippetView};
use crate::text;
use vstd::prelude::*;

verus! {

/// Whether a path can stand in a heading: in one line, with no white space around it.
pub open spec fn is_plain_path(path: Seq<char>) -> bool {
    hash::is_free_of(path, '\n') && text::trimmed(path) == path
}

/// Whether a comment can be told from what stands around it: it holds no fence and
/// no line that ends in a carriage return, and is not the mark of a place to write
/// in.
pub open spec fn is_plain_body(body: Seq<char>) -> bool {
    &&& !text::occurs(body, text::repeated('`', 3))
    &&& !text::occurs(body, seq!['\r', '\n'])
    &&& text::trimmed(body) != draft::placeholder()
}

/// Whether a text can be the name of a language: it stands in one line and does not
/// start with a backtick.
pub open spec fn is_language_name(lang: Seq<char>) -> bool {
    &&& hash::is_free_of(lang, '\n')
    &&& hash::is_free_of(lang, '\r')
    &&& lang.len() > 0 ==> lang[0] != '`'
}

/// Whether code is told from a comment: its language is not called text, or its
/// fence is longer than that of a comment.
pub open spec fn is_told_apart(s: SnippetView) -> bool {
    is_language_name(s.lang) && (review::fence_len(s.code, 3) > 3 || !("text"@).is_prefix_of(
        text::trimmed(s.lang),
    ))
}

/// What the reader knows after one more text.
spec fn read_text(st: ReaderView, s: Seq<char>) -> ReaderView {
    draft_text::read_lines(st, text::lines_of(s))
}

proof fn lemma_read_add(st: ReaderView, a: Seq<Seq<char>>, b: Seq<Seq<char>>)
    ensures
        draft_text::read_lines(st, a + b) == draft_text::read_lines(
            draft_text::read_lines(st, a),
            b,
        ),
    decreases b.len(),
{
    if b.len() == 0 {
        assert(a + b =~= a);
    } else {
        assert((a + b).drop_last() =~= a + b.drop_last());
        lemma_read_add(st, a, b.drop_last());
    }
}

/// Lines that are stripped of a carriage return.
spec fn stripped(p: Seq<Seq<char>>) -> Seq<Seq<char>> {
    p.map_values(|x: Seq<char>| text::without_cr(x))
}

/// The lines of a text that ends in a line feed, and of what comes behind it.
proof fn lemma_lines_concat(s: Seq<char>, tail: Seq<char>)
    requires
        s.len() > 0,
        s.last() == '\n',
    ensures
        text::lines_of(s + tail) == text::lines_of(s) + text::lines_of(tail),
{
    let p = s.drop_last();
    assert(s =~= p + seq!['\n']);
    assert(s + tail =~= p + seq!['\n'] + tail);
    assert(p + seq!['\n'] + Seq::<char>::empty() =~= s);
    text::lemma_lines_append(p, tail);
    text::lemma_lines_append(p, Seq::empty());
    assert(text::lines_of(Seq::empty()) =~= Seq::<Seq<char>>::empty());
    let front = text::split_of(p, '\n').map_values(|p: Seq<char>| text::without_cr(p));
    assert(front + Seq::<Seq<char>>::empty() =~= front);
}

/// Reading a text that ends in a line feed, and then what comes behind it.
proof fn lemma_read_concat(st: ReaderView, s: Seq<char>, tail: Seq<char>)
    requires
        s.len() > 0,
        s.last() == '\n',
    ensures
        read_text(st, s + tail) == read_text(read_text(st, s), tail),
{
    lemma_lines_concat(s, tail);
    lemma_read_add(st, text::lines_of(s), text::lines_of(tail));
}

/// A text without line feeds is one piece.
proof fn lemma_split_one(p: Seq<char>)
    requires
        hash::is_free_of(p, '\n'),
    ensures
        text::split_of(p, '\n') == seq![p],
{
    text::lemma_is_first_index(p, '\n', p.len() as int);
}

/// Reading one line.
proof fn lemma_read_one(st: ReaderView, p: Seq<char>)
    requires
        hash::is_free_of(p, '\n'),
        p.len() > 0 ==> p.last() != '\r',
    ensures
        read_text(st, p + seq!['\n']) == draft_text::read_line(st, p),
{
    lemma_split_one(p);
    text::lemma_lines_append(p, Seq::empty());
    assert(p + seq!['\n'] + Seq::<char>::empty() =~= p + seq!['\n']);
    assert(text::lines_of(Seq::empty()) =~= Seq::<Seq<char>>::empty());
    let l = text::lines_of(p + seq!['\n']);
    assert(l =~= seq![p]);
    assert(l.drop_last() =~= Seq::<Seq<char>>::empty());
    assert(draft_text::read_lines(st, l.drop_last()) == st);
}

/// A part of a part of a text is a part of it.
proof fn lemma_occurs_trans(s: Seq<char>, t: Seq<char>, u: Seq<char>)
    requires
        text::occurs(s, t),
        text::occurs(t, u),
    ensures
        text::occurs(s, u),
{
    let i = choose|i: int| text::occurs_at(s, t, i);
    let j = choose|j: int| text::occurs_at(t, u, j);
    assert(s.subrange(i + j, i + j + u.len()) =~= u) by {
        assert forall|k: int| 0 <= k < u.len() implies s.subrange(i + j, i + j + u.len())[k]
            == u[k] by {
            assert(t.subrange(j, j + u.len())[k] == u[k]);
            assert(s.subrange(i, i + t.len())[j + k] == t[j + k]);
        }
    }
    assert(text::occurs_at(s, u, i + j));
}

/// A piece of a text is a part of it.
proof fn lemma_piece_occurs(s: Seq<char>, c: char, i: int)
    requires
        0 <= i < text::split_of(s, c).len(),
    ensures
        text::occurs(s, text::split_of(s, c)[i]),
    decreases s.len(),
{
    let n = text::first_index(s, c);
    text::lemma_first_index(s, c);
    if n >= s.len() {
        assert(s.subrange(0, s.len() as int) =~= s);
        assert(text::occurs_at(s, s, 0));
    } else {
        let rest = s.skip(n + 1);
        let parts = text::split_of(rest, c);
        if i == 0 {
            assert(s.subrange(0, n) =~= s.take(n));
            assert(text::occurs_at(s, s.take(n), 0));
        } else {
            lemma_piece_occurs(rest, c, i - 1);
            assert(text::split_of(s, c)[i] == parts[i - 1]);
            assert(s.subrange(n + 1, n + 1 + rest.len()) =~= rest);
            assert(text::occurs_at(s, rest, n + 1));
            lemma_occurs_trans(s, rest, parts[i - 1]);
        }
    }
}

/// What is left after trimming is a part of a text.
proof fn lemma_trimmed_start_occurs(s: Seq<char>)
    ensures
        text::occurs(s, text::trimmed_start(s)),
    decreases s.len(),
{
    if s.len() > 0 && text::is_space(s[0]) {
        let t = s.drop_first();
        lemma_trimmed_start_occurs(t);
        assert(s.subrange(1, 1 + t.len() as int) =~= t);
        assert(text::occurs_at(s, t, 1));
        lemma_occurs_trans(s, t, text::trimmed_start(t));
    } else {
        assert(s.subrange(0, s.len() as int) =~= s);
        assert(text::occurs_at(s, s, 0));
    }
}

/// No line of a text that does not hold a fence closes a block with that fence.
proof fn lemma_no_line_closes(s: Seq<char>, fence: Seq<char>, i: int)
    requires
        !text::occurs(s, fence),
        0 <= i < text::split_of(s, '\n').len(),
    ensures
        text::trimmed_start(stripped(text::split_of(s, '\n'))[i]) != fence,
{
    let piece = text::split_of(s, '\n')[i];
    let line = text::without_cr(piece);
    lemma_piece_occurs(s, '\n', i);
    assert(piece.subrange(0, line.len() as int) =~= line);
    assert(text::occurs_at(piece, line, 0));
    lemma_occurs_trans(s, piece, line);
    lemma_trimmed_start_occurs(line);
    lemma_occurs_trans(s, line, text::trimmed_start(line));
}

/// The lines inside a block that is skipped.
proof fn lemma_read_skipped(st: ReaderView, fence: Seq<char>, lines: Seq<Seq<char>>)
    requires
        st.block == (BlockView::Skipped { fence }),
        forall|i: int|
            0 <= i < lines.len() ==> text::trimmed_start(#[trigger] lines[i]) != fence,
    ensures
        draft_text::read_lines(st, lines) == st,
    decreases lines.len(),
{
    if lines.len() > 0 {
        let front = lines.drop_last();
        assert forall|i: int| 0 <= i < front.len() implies text::trimmed_start(#[trigger] front[i])
            != fence by {
            assert(front[i] == lines[i]);
        }
        lemma_read_skipped(st, fence, front);
        assert(lines[lines.len() - 1] == lines.last());
    }
}

/// The lines inside a block of text.
proof fn lemma_read_body(
    st: ReaderView,
    fence: Seq<char>,
    target: Option<TargetView>,
    lines: Seq<Seq<char>>,
)
    requires
        st.block == (BlockView::Text { fence, target, body: seq![] }),
        forall|i: int|
            0 <= i < lines.len() ==> text::trimmed_start(#[trigger] lines[i]) != fence,
    ensures
        draft_text::read_lines(st, lines) == (ReaderView {
            block: BlockView::Text { fence, target, body: lines },
            ..st
        }),
    decreases lines.len(),
{
    if lines.len() == 0 {
        assert(lines =~= seq![]);
    } else {
        let front = lines.drop_last();
        assert forall|i: int| 0 <= i < front.len() implies text::trimmed_start(#[trigger] front[i])
            != fence by {
            assert(front[i] == lines[i]);
        }
        lemma_read_body(st, fence, target, front);
        assert(lines[lines.len() - 1] == lines.last());
        assert(front.push(lines.last()) =~= lines);
    }
}

/// The text of a block, with a line feed at its end.
spec fn block_body(s: Seq<char>) -> Seq<char> {
    if s.len() > 0 && s.last() == '\n' {
        s
    } else {
        s.push('\n')
    }
}

/// The lines of the text of a block: none closes it.
proof fn lemma_block_lines(s: Seq<char>, fence: Seq<char>)
    requires
        !text::occurs(s, fence),
        fence.len() > 0,
        fence[0] != '\n',
        forall|i: int| 0 <= i < fence.len() ==> fence[i] != '\n',
    ensures
        ({
            let lines = text::lines_of(block_body(s));
            forall|i: int|
                0 <= i < lines.len() ==> text::trimmed_start(#[trigger] lines[i]) != fence
        }),
        !(s.len() > 0 && s.last() == '\n') ==> text::lines_of(block_body(s)) == stripped(
            text::split_of(s, '\n'),
        ),
{
    let p = if s.len() > 0 && s.last() == '\n' {
        s.drop_last()
    } else {
        s
    };
    assert(block_body(s) =~= p + seq!['\n']);
    text::lemma_lines_append(p, Seq::empty());
    assert(p + seq!['\n'] + Seq::<char>::empty() =~= p + seq!['\n']);
    assert(text::lines_of(Seq::empty()) =~= Seq::<Seq<char>>::empty());
    let lines = text::lines_of(block_body(s));
    assert(lines =~= stripped(text::split_of(p, '\n')));
    assert(!text::occurs(p, fence)) by {
        if text::occurs(p, fence) {
            assert(s.subrange(0, p.len() as int) =~= p);
            assert(text::occurs_at(s, p, 0));
            lemma_occurs_trans(s, p, fence);
        }
    }
    assert forall|i: int| 0 <= i < lines.len() implies text::trimmed_start(#[trigger] lines[i])
        != fence by {
        lemma_no_line_closes(p, fence, i);
    }
}

/// The length of the run of backticks that a fence line starts with.
proof fn lemma_run_len(n: nat, rest: Seq<char>)
    requires
        rest.len() > 0 ==> rest[0] != '`',
    ensures
        draft_text::run_len(text::repeated('`', n) + rest, '`') == n,
    decreases n,
{
    let s = text::repeated('`', n) + rest;
    if n == 0 {
        assert(s =~= rest);
    } else {
        assert(s[0] == '`');
        assert(s.drop_first() =~= text::repeated('`', (n - 1) as nat) + rest);
        lemma_run_len((n - 1) as nat, rest);
    }
}

/// Trimming keeps the first character where it is no white space.
proof fn lemma_trimmed_keeps_first(s: Seq<char>)
    requires
        s.len() > 0,
        !text::is_space(s[0]),
    ensures
        text::trimmed_start(s) == s,
        text::trimmed_end(s).len() > 0,
        text::trimmed_end(s)[0] == s[0],
        text::trimmed(s).len() > 0,
        text::trimmed(s)[0] == s[0],
    decreases s.len(),
{
    if text::is_space(s.last()) {
        assert(s.len() > 1);
        lemma_trimmed_keeps_first(s.drop_last());
    }
}

/// What the reader makes of a line that opens a block.
proof fn lemma_fence_line(st: ReaderView, n: nat, lang: Seq<char>)
    requires
        n >= 3,
        is_language_name(lang),
        st.block is Outside,
    ensures
        ({
            let line = text::repeated('`', n) + lang;
            let fence = text::repeated('`', n);
            let opens = n == 3 && ("text"@).is_prefix_of(text::trimmed(lang));
            draft_text::read_line(st, line) == (if opens {
                ReaderView {
                    line: if st.section is LineComments {
                        None
                    } else {
                        st.line
                    },
                    block: BlockView::Text {
                        fence,
                        target: draft_text::next_target(st),
                        body: seq![],
                    },
                    ..st
                }
            } else {
                ReaderView { block: BlockView::Skipped { fence }, ..st }
            })
        }),
{
    reveal_strlit("```");
    reveal_strlit("text");
    let line = text::repeated('`', n) + lang;
    assert(line[0] == '`');
    lemma_trimmed_keeps_first(line);
    assert("```"@ =~= line.subrange(0, 3));
    lemma_run_len(n, lang);
    let rest = line.skip(3);
    if n == 3 {
        assert(rest =~= lang);
    } else {
        assert(rest[0] == '`');
        lemma_trimmed_keeps_first(rest);
        assert(text::trimmed(rest)[0] == '`');
        assert("text"@[0] == 't');
        assert(!("text"@).is_prefix_of(text::trimmed(rest))) by {
            if ("text"@).is_prefix_of(text::trimmed(rest)) {
                assert(text::trimmed(rest).subrange(0, 4)[0] == text::trimmed(rest)[0]);
            }
        }
    }
}

/// What the reader makes of the line that closes a block.
proof fn lemma_closing_line(st: ReaderView, n: nat)
    requires
        n >= 3,
    ensures
        ({
            let fence = text::repeated('`', n);
            &&& st.block == (BlockView::Skipped { fence }) ==> draft_text::read_line(st, fence) == (
            ReaderView { block: BlockView::Outside, ..st })
            &&& st.block is Text && st.block->Text_fence == fence ==> draft_text::read_line(
                st,
                fence,
            ) == (ReaderView {
                draft: draft_text::with_block(st.draft, st.block->target, st.block->body),
                block: BlockView::Outside,
                ..st
            })
        }),
{
    let fence = text::repeated('`', n);
    assert(fence[0] == '`');
    lemma_trimmed_keeps_first(fence);
}

/// A block in three parts.
proof fn lemma_fenced_parts(s: Seq<char>, lang: Seq<char>)
    ensures
        ({
            let f = review::fence(s);
            review::fenced(s, lang) == (f + lang + seq!['\n']) + (block_body(s) + (f + seq!['\n']))
        }),
        block_body(s).len() > 0,
        block_body(s).last() == '\n',
{
    let f = review::fence(s);
    assert(review::fenced(s, lang) =~= (f + lang + seq!['\n']) + (block_body(s) + (f + seq![
        '\n',
    ])));
}

/// Reading a block: its first line, its text, and the line that closes it.
proof fn lemma_read_fenced(st: ReaderView, s: Seq<char>, lang: Seq<char>)
    requires
        is_language_name(lang),
    ensures
        ({
            let f = review::fence(s);
            let opened = draft_text::read_line(st, f + lang);
            let inside = draft_text::read_lines(opened, text::lines_of(block_body(s)));
            read_text(st, review::fenced(s, lang)) == draft_text::read_line(inside, f)
        }),
{
    let f = review::fence(s);
    review::law_fence_is_free(s);
    lemma_fenced_parts(s, lang);
    let head = f + lang + seq!['\n'];
    let body = block_body(s);
    let end = f + seq!['\n'];
    assert(head.last() == '\n');
    lemma_read_concat(st, head, body + end);
    assert(hash::is_free_of(f + lang, '\n')) by {
        assert forall|i: int| 0 <= i < (f + lang).len() implies (f + lang)[i] != '\n' by {
            if i < f.len() {
                assert((f + lang)[i] == '`');
            } else {
                assert((f + lang)[i] == lang[i - f.len()]);
            }
        }
    }
    assert((f + lang).last() != '\r') by {
        if lang.len() > 0 {
            assert((f + lang).last() == lang[lang.len() - 1]);
        } else {
            assert((f + lang).last() == '`');
        }
    }
    lemma_read_one(st, f + lang);
    let opened = draft_text::read_line(st, f + lang);
    lemma_read_concat(opened, body, end);
    let inside = read_text(opened, body);
    assert(hash::is_free_of(f, '\n'));
    assert(f.last() == '`');
    lemma_read_one(inside, f);
}

/// A block of code leaves the reader where it was.
proof fn lemma_skip_block(st: ReaderView, s: SnippetView)
    requires
        st.block is Outside,
        is_told_apart(s),
    ensures
        read_text(st, review::fenced(s.code, s.lang)) == st,
{
    let n = review::fence_len(s.code, 3);
    let f = review::fence(s.code);
    review::law_fence_is_free(s.code);
    lemma_fence_line(st, n, s.lang);
    let opened = draft_text::read_line(st, f + s.lang);
    assert(opened == (ReaderView { block: BlockView::Skipped { fence: f }, ..st }));
    lemma_block_lines(s.code, f);
    lemma_read_skipped(opened, f, text::lines_of(block_body(s.code)));
    lemma_closing_line(opened, n);
    lemma_read_fenced(st, s.code, s.lang);
}

/// No piece of a text without carriage returns before line feeds ends in one.
proof fn lemma_nothing_stripped(s: Seq<char>)
    requires
        !text::occurs(s, seq!['\r', '\n']),
        s.len() > 0 ==> s.last() != '\r',
    ensures
        stripped(text::split_of(s, '\n')) == text::split_of(s, '\n'),
    decreases s.len(),
{
    let n = text::first_index(s, '\n');
    text::lemma_first_index(s, '\n');
    if n >= s.len() {
        assert(stripped(seq![s]) =~= seq![s]);
    } else {
        let piece = s.take(n);
        let rest = s.skip(n + 1);
        assert(text::without_cr(piece) == piece) by {
            if n > 0 && piece.last() == '\r' {
                assert(s.subrange(n - 1, n + 1) =~= seq!['\r', '\n']);
                assert(text::occurs_at(s, seq!['\r', '\n'], n - 1));
            }
        }
        assert(!text::occurs(rest, seq!['\r', '\n'])) by {
            if text::occurs(rest, seq!['\r', '\n']) {
                assert(s.subrange(n + 1, n + 1 + rest.len()) =~= rest);
                assert(text::occurs_at(s, rest, n + 1));
                lemma_occurs_trans(s, rest, seq!['\r', '\n']);
            }
        }
        if rest.len() > 0 {
            assert(rest.last() == s.last());
        }
        lemma_nothing_stripped(rest);
        let parts = text::split_of(rest, '\n');
        assert(stripped(seq![piece] + parts) =~= seq![text::without_cr(piece)] + stripped(parts));
    }
}

/// Whether a text is not blank and ends with no white space.
pub open spec fn is_trim(body: Seq<char>) -> bool {
    body.len() > 0 && !text::is_space(body.last())
}

/// What the reader knows after the block of a comment.
spec fn with_comment(st: ReaderView, body: Seq<char>) -> ReaderView {
    ReaderView {
        line: if st.section is LineComments {
            None
        } else {
            st.line
        },
        draft: match draft_text::next_target(st) {
            Some(TargetView::File(path)) => draft::with_draft_file_comment(st.draft, path, body),
            Some(TargetView::Line(path, k)) => draft::with_draft_line_comment(
                st.draft,
                path,
                k,
                body,
            ),
            None => st.draft,
        },
        ..st
    }
}

/// The block of a comment gives the reader that comment.
proof fn lemma_text_block(st: ReaderView, body: Seq<char>)
    requires
        st.block is Outside,
        is_trim(body),
        is_plain_body(body),
    ensures
        read_text(st, review::fenced(body, "text"@)) == with_comment(st, body),
{
    reveal_strlit("text");
    let f = text::repeated('`', 3);
    let lang = "text"@;
    assert(review::fence_len(body, 3) == 3);
    assert(lang[0] == 't' && lang[1] == 'e' && lang[2] == 'x' && lang[3] == 't');
    lemma_trimmed_keeps_first(lang);
    assert(text::trimmed(lang) == lang);
    assert(lang.is_prefix_of(text::trimmed(lang)));
    lemma_fence_line(st, 3, lang);
    let target = draft_text::next_target(st);
    let opened = draft_text::read_line(st, f + lang);
    assert(opened.block == (BlockView::Text { fence: f, target, body: seq![] }));
    lemma_block_lines(body, f);
    assert(body.last() != '\n' && body.last() != '\r');
    let lines = text::split_of(body, '\n');
    lemma_nothing_stripped(body);
    assert(text::lines_of(block_body(body)) == lines);
    lemma_read_body(opened, f, target, lines);
    let inside = ReaderView { block: BlockView::Text { fence: f, target, body: lines }, ..opened };
    lemma_closing_line(inside, 3);
    lemma_read_fenced(st, body, lang);
    text::lemma_split_joined(body, '\n');
    assert(text::trimmed_end(body) == body);
    assert(!text::is_blank(body)) by {
        assert(!text::is_space(body[body.len() - 1]));
    }
    assert(draft_text::with_block(inside.draft, target, lines) == with_comment(st, body).draft);
}

/// How many digits a number starts with before something else.
proof fn lemma_digits_len(d: Seq<char>, rest: Seq<char>)
    requires
        text::all_digits(d),
        rest.len() > 0 ==> !text::is_digit(rest[0]),
    ensures
        draft_text::digits_len(d + rest) == d.len(),
    decreases d.len(),
{
    let s = d + rest;
    if d.len() == 0 {
        assert(s =~= rest);
    } else {
        assert(text::is_digit(d[0]));
        assert(s[0] == d[0]);
        let t = d.drop_first();
        assert forall|i: int| 0 <= i < t.len() implies text::is_digit(#[trigger] t[i]) by {
            assert(t[i] == d[i + 1]);
        }
        assert(s.drop_first() =~= t + rest);
        lemma_digits_len(t, rest);
    }
}

/// The mark of a line in a draft.
spec fn line_mark(k: LineKey) -> Seq<char> {
    "- line "@ + text::decimal(k.line as nat) + (if k.side is Old {
        " (old)"@
    } else {
        seq![]
    })
}

/// A text that starts otherwise does not start with a given one.
proof fn lemma_no_prefix(s: Seq<char>, p: Seq<char>, i: int)
    requires
        0 <= i < p.len(),
        i < s.len() ==> s[i] != p[i],
    ensures
        !p.is_prefix_of(s),
{
    if p.is_prefix_of(s) {
        assert(s.subrange(0, p.len() as int)[i] == s[i]);
    }
}

/// What the reader makes of the mark of a line.
proof fn lemma_mark_line(st: ReaderView, k: LineKey)
    requires
        st.block is Outside,
        st.section is LineComments,
    ensures
        draft_text::read_line(st, line_mark(k)) == (ReaderView { line: Some(k), ..st }),
        hash::is_free_of(line_mark(k), '\n'),
        line_mark(k).last() != '\r',
{
    reveal_strlit("- line ");
    reveal_strlit(" (old)");
    reveal_strlit("old");
    reveal_strlit("```");
    reveal_strlit("## ");
    reveal_strlit("### File comment");
    reveal_strlit("### Line comments");
    let n = k.line as nat;
    let d = text::decimal(n);
    let suffix = if k.side is Old {
        " (old)"@
    } else {
        seq![]
    };
    let s = line_mark(k);
    text::lemma_decimal_parses(n);
    assert(s[0] == '-');
    lemma_trimmed_keeps_first(s);
    lemma_no_prefix(s, "```"@, 0);
    lemma_no_prefix(s, "## "@, 0);
    lemma_no_prefix(s, "### File comment"@, 0);
    lemma_no_prefix(s, "### Line comments"@, 0);
    assert("- line "@ =~= s.subrange(0, 7));
    let rest = s.skip(7);
    assert(rest =~= d + suffix);
    lemma_digits_len(d, suffix);
    assert(rest.take(d.len() as int) =~= d);
    assert(rest.skip(d.len() as int) =~= suffix);
    if k.side is Old {
        assert(suffix.subrange(2, 5) =~= "old"@);
        assert(text::occurs_at(suffix, "old"@, 2));
    } else {
        text::lemma_occurs_len(suffix, "old"@);
    }
    assert forall|i: int| 0 <= i < s.len() implies s[i] != '\n' by {
        if 7 <= i < 7 + d.len() {
            assert(s[i] == d[i - 7]);
            assert(text::is_digit(d[i - 7]));
        } else if i >= 7 + d.len() {
            assert(s[i] == suffix[i - 7 - d.len()]);
        }
    }
    if k.side is Old {
        assert(s.last() == suffix.last());
    } else {
        assert(s.last() == d[d.len() - 1]);
        assert(text::is_digit(d[d.len() - 1]));
    }
}

/// A comment of the prompt with the code on its line: the code is told from it.
spec fn is_plain_item(body: Seq<char>, code: Option<SnippetView>) -> bool {
    is_trim(body) && is_plain_body(body) && (code is Some ==> is_told_apart(code->0))
}

/// A block ends in a line feed.
proof fn lemma_fenced_ends(s: Seq<char>, lang: Seq<char>)
    ensures
        review::fenced(s, lang).len() > 0,
        review::fenced(s, lang).last() == '\n',
{
    lemma_fenced_parts(s, lang);
}

/// An item of the prompt gives the reader the comment on its line.
proof fn lemma_line_item(
    st: ReaderView,
    path: Seq<char>,
    k: LineKey,
    code: Option<SnippetView>,
    body: Seq<char>,
)
    requires
        st.block is Outside,
        st.section is LineComments,
        st.file == Some(path),
        is_plain_item(body, code),
    ensures
        read_text(st, review::line_item(k, code, body)) == (ReaderView {
            line: None,
            draft: draft::with_draft_line_comment(st.draft, path, k, body),
            ..st
        }),
        review::line_item(k, code, body).len() > 0,
        review::line_item(k, code, body).last() == '\n',
{
    let head = line_mark(k) + seq!['\n'];
    let snippet = match code {
        Some(s) => review::fenced(s.code, s.lang),
        None => seq![],
    };
    let block = review::fenced(body, "text"@);
    lemma_fenced_ends(body, "text"@);
    assert(review::line_item(k, code, body) =~= head + (snippet + block));
    lemma_mark_line(st, k);
    lemma_read_concat(st, head, snippet + block);
    lemma_read_one(st, line_mark(k));
    let marked = ReaderView { line: Some(k), ..st };
    match code {
        Some(s) => {
            lemma_fenced_ends(s.code, s.lang);
            lemma_read_concat(marked, snippet, block);
            lemma_skip_block(marked, s);
        },
        None => {
            assert(snippet + block =~= block);
        },
    }
    lemma_text_block(marked, body);
}

/// A draft with comments on lines of a file.
spec fn lines_into(d: DraftView, path: Seq<char>, shown: Seq<(LineKey, Seq<char>)>) -> DraftView
    decreases shown.len(),
{
    if shown.len() == 0 {
        d
    } else {
        draft::with_draft_line_comment(
            lines_into(d, path, shown.drop_last()),
            path,
            shown.last().0,
            shown.last().1,
        )
    }
}

/// Whether the comments of a file can be told from what stands around them.
pub open spec fn are_plain_lines(
    shown: Seq<(LineKey, Seq<char>)>,
    codes: Seq<Option<SnippetView>>,
) -> bool {
    forall|j: int|
        0 <= j < shown.len() ==> is_plain_body((#[trigger] shown[j]).1) && (codes[j] is Some
            ==> is_told_apart(codes[j]->0))
}

/// The items of the prompt give the reader the comments on their lines.
proof fn lemma_line_items(
    st: ReaderView,
    path: Seq<char>,
    shown: Seq<(LineKey, Seq<char>)>,
    codes: Seq<Option<SnippetView>>,
)
    requires
        st.block is Outside,
        st.section is LineComments,
        st.file == Some(path),
        are_plain_lines(shown, codes),
        forall|j: int| 0 <= j < shown.len() ==> is_trim((#[trigger] shown[j]).1),
    ensures
        ({
            let r = read_text(st, review::line_items(shown, codes));
            &&& r.block is Outside
            &&& r.section is LineComments
            &&& r.file == Some(path)
            &&& r.draft == lines_into(st.draft, path, shown)
        }),
        shown.len() > 0 ==> review::line_items(shown, codes).len() > 0 && review::line_items(
            shown,
            codes,
        ).last() == '\n',
    decreases shown.len(),
{
    if shown.len() == 0 {
        assert(text::lines_of(Seq::empty()) =~= Seq::<Seq<char>>::empty());
        assert(review::line_items(shown, codes) =~= Seq::<char>::empty());
    } else {
        let front = shown.drop_last();
        assert forall|j: int| 0 <= j < front.len() implies is_plain_body((#[trigger] front[j]).1)
            && (codes[j] is Some ==> is_told_apart(codes[j]->0)) && is_trim(front[j].1) by {
            assert(front[j] == shown[j]);
        }
        lemma_line_items(st, path, front, codes);
        let (k, body) = shown.last();
        let code = codes[shown.len() - 1];
        assert(shown[shown.len() - 1] == shown.last());
        let a = review::line_items(front, codes);
        let b = review::line_item(k, code, body);
        let mid = read_text(st, a);
        lemma_line_item(mid, path, k, code, body);
        if front.len() > 0 {
            lemma_read_concat(st, a, b);
        } else {
            assert(a =~= Seq::<char>::empty());
            assert(a + b =~= b);
            assert(text::lines_of(Seq::empty()) =~= Seq::<Seq<char>>::empty());
        }
        assert((a + b).last() == b.last());
    }
}

/// The comments on lines as a map.
spec fn lines_map(shown: Seq<(LineKey, Seq<char>)>) -> Map<LineKey, Seq<char>>
    decreases shown.len(),
{
    if shown.len() == 0 {
        Map::empty()
    } else {
        lines_map(shown.drop_last()).insert(shown.last().0, shown.last().1)
    }
}

/// What a draft says about a file after comments on its lines were put in.
proof fn lemma_lines_into(d: DraftView, path: Seq<char>, shown: Seq<(LineKey, Seq<char>)>)
    requires
        draft::draft_or_blank(d, path).comments == Map::<LineKey, Seq<char>>::empty(),
    ensures
        shown.len() > 0 ==> lines_into(d, path, shown) == d.insert(
            path,
            DraftFileView {
                file_comment: draft::draft_or_blank(d, path).file_comment,
                comments: lines_map(shown),
            },
        ),
        shown.len() == 0 ==> lines_into(d, path, shown) == d,
    decreases shown.len(),
{
    if shown.len() > 0 {
        let front = shown.drop_last();
        lemma_lines_into(d, path, front);
        let before = lines_into(d, path, front);
        let f = draft::draft_or_blank(before, path);
        assert(f.comments == lines_map(front));
        assert(f.file_comment == draft::draft_or_blank(d, path).file_comment);
        assert(lines_into(d, path, shown) =~= d.insert(
            path,
            DraftFileView {
                file_comment: draft::draft_or_blank(d, path).file_comment,
                comments: lines_map(shown),
            },
        ));
    }
}

/// What is left of a text that is not blank ends with no white space.
proof fn lemma_trimmed_end_is_trim(s: Seq<char>)
    requires
        !text::is_blank(s),
    ensures
        is_trim(text::trimmed_end(s)),
    decreases s.len(),
{
    if s.len() == 0 {
        assert(text::is_blank(s));
    } else if text::is_space(s.last()) {
        let t = s.drop_last();
        assert(!text::is_blank(t)) by {
            if text::is_blank(t) {
                assert forall|i: int| 0 <= i < s.len() implies text::is_space(#[trigger] s[i]) by {
                    if i < t.len() {
                        assert(t[i] == s[i]);
                    }
                }
            }
        }
        lemma_trimmed_end_is_trim(t);
    }
}

/// The line comments that are shown are those that go into a draft.
proof fn lemma_shown_lines(e: Seq<(LineKey, CommentView)>)
    requires
        ordmap::increasing::<LineKey, CommentView>(e),
    ensures
        lines_map(review::shown_lines(e)) == draft::drafted_lines(ordmap::map_of(e)),
        forall|j: int|
            0 <= j < review::shown_lines(e).len() ==> is_trim(
                (#[trigger] review::shown_lines(e)[j]).1,
            ),
        (review::shown_lines(e).len() == 0) == (draft::drafted_lines(ordmap::map_of(e)) == Map::<
            LineKey,
            Seq<char>,
        >::empty()),
    decreases e.len(),
{
    if e.len() == 0 {
        ordmap::lemma_map_of_empty::<LineKey, CommentView>();
        assert(e =~= Seq::empty());
        assert(draft::drafted_lines(ordmap::map_of(e)) =~= Map::empty());
    } else {
        let n = e.len() - 1;
        ordmap::lemma_take_next::<LineKey, CommentView>(e, n);
        assert(e.take(n) =~= e.drop_last());
        assert(e.take(n + 1) =~= e);
        lemma_shown_lines(e.drop_last());
        let (k, c) = e.last();
        assert(e[n] == (k, c));
        let front = review::shown_lines(e.drop_last());
        let shown = review::shown_lines(e);
        let before = ordmap::map_of(e.drop_last());
        let after = ordmap::map_of(e);
        if draft::is_open(c) {
            lemma_trimmed_end_is_trim(c.body);
            assert(shown.drop_last() =~= front);
            assert(draft::drafted_lines(after) =~= draft::drafted_lines(before).insert(
                k,
                text::trimmed_end(c.body),
            ));
            assert(draft::drafted_lines(after).contains_key(k));
            assert forall|j: int| 0 <= j < shown.len() implies is_trim((#[trigger] shown[j]).1) by {
                if j < front.len() {
                    assert(shown[j] == front[j]);
                }
            }
        } else {
            assert(draft::drafted_lines(after) =~= draft::drafted_lines(before));
        }
    }
}

/// What the reader makes of a line that is none of its marks.
proof fn lemma_empty_line(st: ReaderView)
    requires
        st.block is Outside,
    ensures
        read_text(st, seq!['\n']) == st,
{
    reveal_strlit("```");
    reveal_strlit("## ");
    reveal_strlit("### File comment");
    reveal_strlit("### Line comments");
    reveal_strlit("- line ");
    let s = Seq::<char>::empty();
    assert(s + seq!['\n'] =~= seq!['\n']);
    lemma_read_one(st, s);
    lemma_no_prefix(s, "```"@, 0);
    lemma_no_prefix(s, "## "@, 0);
    lemma_no_prefix(s, "### File comment"@, 0);
    lemma_no_prefix(s, "### Line comments"@, 0);
    lemma_no_prefix(s, "- line "@, 0);
}

/// What the reader makes of the heading of a file.
proof fn lemma_heading(st: ReaderView, path: Seq<char>)
    requires
        st.block is Outside,
        is_plain_path(path),
    ensures
        read_text(st, "## "@ + path + seq!['\n']) == (ReaderView {
            file: Some(path),
            section: DraftSection::Outside,
            line: None,
            ..st
        }),
{
    reveal_strlit("## ");
    reveal_strlit("```");
    let s = "## "@ + path;
    assert(s[0] == '#');
    lemma_trimmed_keeps_first(s);
    lemma_no_prefix(s, "```"@, 0);
    assert("## "@ =~= s.subrange(0, 3));
    assert(s.skip(3) =~= path);
    assert(hash::is_free_of(s, '\n')) by {
        assert forall|i: int| 0 <= i < s.len() implies s[i] != '\n' by {
            if i >= 3 {
                assert(s[i] == path[i - 3]);
            }
        }
    }
    assert(s.last() != '\r') by {
        if path.len() > 0 {
            lemma_trimmed_last(path);
            assert(s.last() == path.last());
        } else {
            assert(s.last() == ' ');
        }
    }
    lemma_read_one(st, s);
}

/// A text that trimming leaves as it is does not end in white space.
proof fn lemma_trimmed_last(s: Seq<char>)
    requires
        s.len() > 0,
        text::trimmed(s) == s,
    ensures
        !text::is_space(s.last()),
{
    let t = text::trimmed_start(s);
    lemma_trimmed_start_shorter(s);
    lemma_trimmed_end_shorter(t);
    if text::is_space(s.last()) {
        assert(t.len() == s.len());
        assert(t == s);
        lemma_trimmed_end_shorter(s.drop_last());
    }
}

proof fn lemma_trimmed_start_shorter(s: Seq<char>)
    ensures
        text::trimmed_start(s).len() <= s.len(),
        text::trimmed_start(s).len() == s.len() ==> text::trimmed_start(s) == s,
    decreases s.len(),
{
    if s.len() > 0 && text::is_space(s[0]) {
        lemma_trimmed_start_shorter(s.drop_first());
    }
}

proof fn lemma_trimmed_end_shorter(s: Seq<char>)
    ensures
        text::trimmed_end(s).len() <= s.len(),
    decreases s.len(),
{
    if s.len() > 0 && text::is_space(s.last()) {
        lemma_trimmed_end_shorter(s.drop_last());
    }
}

/// What the reader makes of the headings of the two parts of a file.
proof fn lemma_part_headings(st: ReaderView)
    requires
        st.block is Outside,
    ensures
        read_text(st, "### File comment\n"@) == (ReaderView {
            section: DraftSection::FileComment,
            line: None,
            ..st
        }),
        read_text(st, "### Line comments\n"@) == (ReaderView {
            section: DraftSection::LineComments,
            ..st
        }),
        "### File comment\n"@.len() > 0 && "### File comment\n"@.last() == '\n',
        "### Line comments\n"@.len() > 0 && "### Line comments\n"@.last() == '\n',
{
    reveal_strlit("### File comment\n");
    reveal_strlit("### Line comments\n");
    reveal_strlit("### File comment");
    reveal_strlit("### Line comments");
    reveal_strlit("```");
    reveal_strlit("## ");
    let a = "### File comment"@;
    let b = "### Line comments"@;
    assert("### File comment\n"@ =~= a + seq!['\n']);
    assert("### Line comments\n"@ =~= b + seq!['\n']);
    assert(a[0] == '#' && a[2] == '#' && a[4] == 'F' && a.last() == 't');
    assert(b[0] == '#' && b[2] == '#' && b[4] == 'L' && b.last() == 's');
    lemma_trimmed_keeps_first(a);
    lemma_trimmed_keeps_first(b);
    lemma_no_prefix(a, "```"@, 0);
    lemma_no_prefix(b, "```"@, 0);
    lemma_no_prefix(a, "## "@, 2);
    lemma_no_prefix(b, "## "@, 2);
    assert(a.is_prefix_of(a));
    assert(b.is_prefix_of(b));
    lemma_no_prefix(b, a, 4);
    lemma_read_one(st, a);
    lemma_read_one(st, b);
}

/// The part of the prompt with the comment on a file gives the reader that comment.
proof fn lemma_file_part(st: ReaderView, path: Seq<char>, body: Seq<char>)
    requires
        st.block is Outside,
        st.file == Some(path),
        is_trim(body),
        is_plain_body(body),
    ensures
        ({
            let part = "### File comment\n"@ + review::fenced(body, "text"@) + seq!['\n'];
            &&& read_text(st, part) == (ReaderView {
                section: DraftSection::FileComment,
                line: None,
                draft: draft::with_draft_file_comment(st.draft, path, body),
                ..st
            })
            &&& part.len() > 0
            &&& part.last() == '\n'
        }),
{
    let head = "### File comment\n"@;
    let block = review::fenced(body, "text"@);
    lemma_fenced_ends(body, "text"@);
    assert(head + block + seq!['\n'] =~= head + (block + seq!['\n']));
    lemma_part_headings(st);
    lemma_read_concat(st, head, block + seq!['\n']);
    let opened = read_text(st, head);
    lemma_read_concat(opened, block, seq!['\n']);
    lemma_text_block(opened, body);
    lemma_empty_line(with_comment(opened, body));
}

/// The part of the prompt with the comments on lines gives the reader those comments.
proof fn lemma_line_part(
    st: ReaderView,
    path: Seq<char>,
    shown: Seq<(LineKey, Seq<char>)>,
    codes: Seq<Option<SnippetView>>,
)
    requires
        st.block is Outside,
        st.file == Some(path),
        shown.len() > 0,
        are_plain_lines(shown, codes),
        forall|j: int| 0 <= j < shown.len() ==> is_trim((#[trigger] shown[j]).1),
    ensures
        ({
            let part = "### Line comments\n"@ + review::line_items(shown, codes);
            let r = read_text(st, part);
            &&& r.block is Outside
            &&& r.draft == lines_into(st.draft, path, shown)
            &&& part.len() > 0
            &&& part.last() == '\n'
        }),
{
    let head = "### Line comments\n"@;
    let items = review::line_items(shown, codes);
    lemma_part_headings(st);
    lemma_read_concat(st, head, items);
    let opened = read_text(st, head);
    lemma_line_items(opened, path, shown, codes);
    assert((head + items).last() == items.last());
}

/// Whether what the prompt shows of a file can be told from what stands around it.
pub open spec fn is_plain_file(
    path: Seq<char>,
    f: FileReviewView,
    codes: Seq<Option<SnippetView>>,
) -> bool {
    &&& is_plain_path(path)
    &&& review::shown_file_comment(f) is Some ==> is_plain_body(review::shown_file_comment(f)->0)
    &&& are_plain_lines(review::shown_of(f), codes)
}

/// The section of the prompt for a file gives the reader what goes into a draft of it.
proof fn lemma_file_section(
    st: ReaderView,
    path: Seq<char>,
    f: FileReviewView,
    codes: Seq<Option<SnippetView>>,
)
    requires
        st.block is Outside,
        !st.draft.contains_key(path),
        f.comments.dom().finite(),
        review::shows_any(f),
        is_plain_file(path, f, codes),
    ensures
        ({
            let part = review::file_section(path, f, codes);
            let r = read_text(st, part);
            &&& r.block is Outside
            &&& r.draft == st.draft.insert(path, draft::drafted(f))
            &&& part.len() > 0
            &&& part.last() == '\n'
        }),
        !draft::drafted(f).is_bare(),
{
    let shown = review::shown_of(f);
    let e = ordmap::ordered::<LineKey, CommentView>(f.comments);
    ordmap::lemma_ordered_exists::<LineKey, CommentView>(f.comments);
    lemma_shown_lines(e);
    let head = "## "@ + path + seq!['\n'];
    let nl = seq!['\n'];
    let file_part = match review::shown_file_comment(f) {
        Some(body) => "### File comment\n"@ + review::fenced(body, "text"@) + nl,
        None => seq![],
    };
    let line_part = if shown.len() > 0 {
        "### Line comments\n"@ + review::line_items(shown, codes)
    } else {
        seq![]
    };
    assert(review::file_section(path, f, codes) =~= head + (file_part + (line_part + nl)));
    lemma_heading(st, path);
    lemma_read_concat(st, head, file_part + (line_part + nl));
    let named = read_text(st, head);
    // The comment on the file.
    let filed = match review::shown_file_comment(f) {
        Some(body) => ReaderView {
            section: DraftSection::FileComment,
            line: None,
            draft: draft::with_draft_file_comment(st.draft, path, body),
            ..named
        },
        None => named,
    };
    match review::shown_file_comment(f) {
        Some(body) => {
            lemma_trimmed_end_is_trim(f.file_comment->0.body);
            lemma_file_part(named, path, body);
            lemma_read_concat(named, file_part, line_part + nl);
        },
        None => {
            assert(file_part + (line_part + nl) =~= line_part + nl);
        },
    }
    assert(read_text(named, file_part + (line_part + nl)) == read_text(filed, line_part + nl));
    // The comments on lines.
    assert(draft::draft_or_blank(filed.draft, path).comments =~= Map::<
        LineKey,
        Seq<char>,
    >::empty());
    assert(draft::draft_or_blank(filed.draft, path).file_comment == review::shown_file_comment(f));
    lemma_lines_into(filed.draft, path, shown);
    let done = read_text(filed, line_part);
    if shown.len() > 0 {
        lemma_line_part(filed, path, shown, codes);
        lemma_read_concat(filed, line_part, nl);
    } else {
        assert(line_part + nl =~= nl);
        assert(text::lines_of(Seq::empty()) =~= Seq::<Seq<char>>::empty());
        assert(done == filed);
    }
    lemma_empty_line(done);
    assert(done.draft =~= st.draft.insert(path, draft::drafted(f)));
    assert((head + (file_part + (line_part + nl))).last() == '\n');
}

/// A file of which nothing is shown has nothing that goes into a draft.
proof fn lemma_nothing_shown(f: FileReviewView)
    requires
        f.comments.dom().finite(),
    ensures
        review::shows_any(f) == !draft::drafted(f).is_bare(),
{
    ordmap::lemma_ordered_exists::<LineKey, CommentView>(f.comments);
    lemma_shown_lines(ordmap::ordered::<LineKey, CommentView>(f.comments));
}

/// The sections of the prompt give the reader what goes into a draft of their files.
proof fn lemma_sections(
    st: ReaderView,
    e: Seq<(Seq<char>, FileReviewView)>,
    codes: Seq<Seq<Option<SnippetView>>>,
)
    requires
        st.block is Outside,
        st.draft == DraftView::empty(),
        ordmap::increasing::<String, FileReviewView>(e),
        forall|i: int| 0 <= i < e.len() ==> (#[trigger] e[i]).1.comments.dom().finite(),
        forall|i: int|
            0 <= i < e.len() && review::shows_any((#[trigger] e[i]).1) ==> is_plain_file(
                e[i].0,
                e[i].1,
                codes[i],
            ),
    ensures
        ({
            let s = review::file_sections(e, codes);
            let r = read_text(st, s);
            &&& r.block is Outside
            &&& r.draft == draft::review_as_draft(ordmap::map_of(e))
            &&& s.len() > 0 ==> s.last() == '\n'
        }),
    decreases e.len(),
{
    if e.len() == 0 {
        ordmap::lemma_map_of_empty::<String, FileReviewView>();
        assert(e =~= Seq::empty());
        assert(text::lines_of(Seq::empty()) =~= Seq::<Seq<char>>::empty());
        assert(draft::review_as_draft(ordmap::map_of(e)) =~= DraftView::empty());
    } else {
        let n = e.len() - 1;
        let front = e.drop_last();
        ordmap::lemma_take_next::<String, FileReviewView>(e, n);
        assert(e.take(n) =~= front);
        assert(e.take(n + 1) =~= e);
        assert forall|i: int| 0 <= i < front.len() implies (#[trigger] front[i]).1.comments.dom().finite() && (
        review::shows_any(front[i].1) ==> is_plain_file(front[i].0, front[i].1, codes[i])) by {
            assert(front[i] == e[i]);
        }
        lemma_sections(st, front, codes);
        let (path, f) = e.last();
        assert(e[n] == (path, f));
        lemma_nothing_shown(f);
        let a = review::file_sections(front, codes);
        let b = review::file_section(path, f, codes[n]);
        let mid = read_text(st, a);
        let before = ordmap::map_of(front);
        let after = ordmap::map_of(e);
        if review::shows_any(f) {
            assert(!mid.draft.contains_key(path));
            lemma_file_section(mid, path, f, codes[n]);
            if a.len() > 0 {
                lemma_read_concat(st, a, b);
            } else {
                assert(a =~= Seq::<char>::empty());
                assert(a + b =~= b);
                assert(text::lines_of(Seq::empty()) =~= Seq::<Seq<char>>::empty());
            }
            assert((a + b).last() == b.last());
            assert(draft::review_as_draft(after) =~= draft::review_as_draft(before).insert(
                path,
                draft::drafted(f),
            ));
        } else {
            assert(a + b =~= a);
            assert(draft::review_as_draft(after) =~= draft::review_as_draft(before));
        }
    }
}

/// A line that is none of the reader's marks leaves it where it was.
proof fn lemma_other_line(st: ReaderView, s: Seq<char>)
    requires
        st.block is Outside,
        st.section is Outside,
        s.len() > 1,
        hash::is_free_of(s, '\n'),
        !text::is_space(s[0]),
        s[0] != '`',
        s[0] != '#' || s[1] != '#',
        s.last() != '\r',
    ensures
        read_text(st, s + seq!['\n']) == st,
{
    reveal_strlit("```");
    reveal_strlit("## ");
    reveal_strlit("### File comment");
    reveal_strlit("### Line comments");
    lemma_trimmed_keeps_first(s);
    lemma_no_prefix(s, "```"@, 0);
    if s[0] != '#' {
        lemma_no_prefix(s, "## "@, 0);
        lemma_no_prefix(s, "### File comment"@, 0);
        lemma_no_prefix(s, "### Line comments"@, 0);
    } else {
        lemma_no_prefix(s, "## "@, 1);
        lemma_no_prefix(s, "### File comment"@, 1);
        lemma_no_prefix(s, "### Line comments"@, 1);
    }
    lemma_read_one(st, s);
}

/// The heading of a prompt, and that there is no comment, tell the reader nothing.
proof fn lemma_prompt_frame()
    ensures
        read_text(draft_text::reader_start(), review::prompt_heading())
            == draft_text::reader_start(),
        forall|st: ReaderView|
            st.block is Outside && st.section is Outside ==> #[trigger] read_text(
                st,
                "No comments.\n"@,
            ) == st,
        review::prompt_heading().len() > 0,
        review::prompt_heading().last() == '\n',
{
    reveal_strlit("No comments.\n");
    reveal_strlit("No comments.");
    assert("No comments.\n"@ =~= "No comments."@ + seq!['\n']);
    assert forall|st: ReaderView| st.block is Outside && st.section is Outside implies #[trigger] read_text(
        st,
        "No comments.\n"@,
    ) == st by {
        lemma_other_line(st, "No comments."@);
    }
    let st = draft_text::reader_start();
    reveal_strlit(
        "# Review Notes\n\nThese notes are grouped by file. Every comment belongs to the file section it appears under.\n\n",
    );
    reveal_strlit("# Review Notes");
    reveal_strlit(
        "These notes are grouped by file. Every comment belongs to the file section it appears under.",
    );
    let a = "# Review Notes"@;
    let b =
        "These notes are grouped by file. Every comment belongs to the file section it appears under."@;
    let nl = seq!['\n'];
    let h = review::prompt_heading();
    assert(h =~= (a + nl) + (nl + ((b + nl) + nl)));
    lemma_read_concat(st, a + nl, nl + ((b + nl) + nl));
    lemma_other_line(st, a);
    lemma_read_concat(st, nl, (b + nl) + nl);
    lemma_empty_line(st);
    lemma_read_concat(st, b + nl, nl);
    lemma_other_line(st, b);
}

/// Whether what the prompt shows of a review can be told from what stands around it.
pub open spec fn is_plain_review(m: ReviewView, codes: Seq<Seq<Option<SnippetView>>>) -> bool {
    let e = ordmap::ordered::<String, FileReviewView>(m);
    forall|i: int|
        0 <= i < e.len() && review::shows_any((#[trigger] e[i]).1) ==> is_plain_file(
            e[i].0,
            e[i].1,
            codes[i],
        )
}

/// Whether a review is that of finitely many files, with finitely many comments each,
/// as all are that are held in memory.
pub open spec fn is_finite(m: ReviewView) -> bool {
    m.dom().finite() && forall|p: Seq<char>| #[trigger]
        m.contains_key(p) ==> m[p].comments.dom().finite()
}

/// A prompt reads back: reading what was written for a review gives the draft of that
/// review, whatever code stands beside the comments. A comment that holds three
/// backticks, or lines that end in a carriage return, is not read back, nor is one
/// beside code that is labelled as text.
pub proof fn law_prompt_reads_back(m: ReviewView, codes: Seq<Seq<Option<SnippetView>>>)
    requires
        is_finite(m),
        is_plain_review(m, codes),
    ensures
        draft_text::parsed_draft(review::prompt_text(m, codes)) == draft::review_as_draft(m),
{
    let e = ordmap::ordered::<String, FileReviewView>(m);
    ordmap::lemma_ordered_exists::<String, FileReviewView>(m);
    let start = draft_text::reader_start();
    lemma_prompt_frame();
    if m == ReviewView::empty() {
        assert(draft::review_as_draft(m) =~= DraftView::empty());
        assert(read_text(start, "No comments.\n"@) == start);
    } else {
        assert forall|i: int| 0 <= i < e.len() implies (#[trigger] e[i]).1.comments.dom().finite() by {
            ordmap::lemma_map_of_at::<String, FileReviewView>(e, i);
            assert(m.contains_key(e[i].0));
        }
        lemma_sections(start, e, codes);
        let h = review::prompt_heading();
        let s = review::file_sections(e, codes);
        let shows = exists|i: int| 0 <= i < e.len() && review::shows_any(#[trigger] e[i].1);
        let tail = if shows {
            Seq::<char>::empty()
        } else {
            "No comments.\n"@
        };
        assert(review::prompt_text(m, codes) =~= h + (s + tail));
        lemma_read_concat(start, h, s + tail);
        if shows {
            assert(s + tail =~= s);
        } else {
            lemma_no_sections(e, codes);
            assert(s + tail =~= tail);
            assert(read_text(start, tail) == start);
            assert(text::lines_of(Seq::empty()) =~= Seq::<Seq<char>>::empty());
            assert(read_text(start, s) == start);
        }
    }
}

/// Where nothing is shown of any file, there are no sections.
proof fn lemma_no_sections(
    e: Seq<(Seq<char>, FileReviewView)>,
    codes: Seq<Seq<Option<SnippetView>>>,
)
    requires
        forall|i: int| 0 <= i < e.len() ==> !review::shows_any(#[trigger] e[i].1),
    ensures
        review::file_sections(e, codes) == Seq::<char>::empty(),
    decreases e.len(),
{
    if e.len() > 0 {
        let front = e.drop_last();
        assert forall|i: int| 0 <= i < front.len() implies !review::shows_any(
            #[trigger] front[i].1,
        ) by {
            assert(front[i] == e[i]);
        }
        lemma_no_sections(front, codes);
        assert(e[e.len() - 1] == e.last());
        assert(review::file_sections(e, codes) =~= Seq::<char>::empty());
    }
}

/// Whether a draft holds what reading one can give: comments that are not blank and
/// end with no white space, and no file without any.
pub open spec fn is_tidy_draft(d: DraftView) -> bool {
    forall|p: Seq<char>| #[trigger]
        d.contains_key(p) ==> {
            let f = d[p];
            &&& !f.is_bare()
            &&& f.comments.dom().finite()
            &&& f.file_comment is Some ==> is_trim(f.file_comment->0)
            &&& forall|k: LineKey| #[trigger] f.comments.contains_key(k) ==> is_trim(f.comments[k])
        }
}

/// A text that ends with no white space is left as it is.
pub proof fn lemma_trim_stays(s: Seq<char>)
    requires
        is_trim(s),
    ensures
        text::trimmed_end(s) == s,
        !text::is_blank(s),
{
    assert(!text::is_space(s[s.len() - 1]));
}

/// What a draft says about a file, made a review and a draft again, is as it was.
proof fn lemma_file_there_and_back(f: DraftFileView)
    requires
        f.file_comment is Some ==> is_trim(f.file_comment->0),
        forall|k: LineKey| #[trigger] f.comments.contains_key(k) ==> is_trim(f.comments[k]),
    ensures
        draft::drafted(draft::lifted(f)) == f,
        draft::lifted(f).is_bare() == f.is_bare(),
{
    if f.file_comment is Some {
        lemma_trim_stays(f.file_comment->0);
    }
    let l = draft::lifted(f);
    assert forall|k: LineKey| f.comments.contains_key(k) implies !text::is_blank(f.comments[k])
        && text::trimmed_end(f.comments[k]) == f.comments[k] by {
        lemma_trim_stays(f.comments[k]);
    }
    assert(draft::drafted_lines(l.comments) =~= f.comments);
    assert(draft::drafted(l) =~= f);
    if f.comments == Map::<LineKey, Seq<char>>::empty() {
        assert(l.comments =~= Map::<LineKey, CommentView>::empty());
    }
    if l.comments == Map::<LineKey, CommentView>::empty() {
        assert(f.comments =~= Map::<LineKey, Seq<char>>::empty()) by {
            assert forall|k: LineKey| !f.comments.contains_key(k) by {
                if f.comments.contains_key(k) {
                    assert(l.comments.contains_key(k));
                }
            }
        }
    }
}

/// A draft that is made a review and a draft again is as it was.
pub proof fn law_draft_there_and_back(d: DraftView)
    requires
        is_tidy_draft(d),
    ensures
        draft::review_as_draft(draft::draft_as_review(d)) == d,
{
    let m = draft::draft_as_review(d);
    assert forall|p: Seq<char>| #[trigger] d.contains_key(p) implies draft::drafted(
        draft::lifted(d[p]),
    ) == d[p] && !draft::lifted(d[p]).is_bare() by {
        lemma_file_there_and_back(d[p]);
    }
    assert(draft::review_as_draft(m) =~= d);
}

/// A draft that was written is read as it was.
pub proof fn law_draft_reads_back(d: DraftView, codes: Seq<Seq<Option<SnippetView>>>)
    requires
        d.dom().finite(),
        is_tidy_draft(d),
        is_plain_review(draft::draft_as_review(d), codes),
    ensures
        draft_text::parsed_draft(review::prompt_text(draft::draft_as_review(d), codes)) == d,
{
    let m = draft::draft_as_review(d);
    assert(is_finite(m)) by {
        assert(m.dom().subset_of(d.dom()));
        vstd::set_lib::lemma_set_subset_finite(d.dom(), m.dom());
        assert forall|p: Seq<char>| #[trigger] m.contains_key(p) implies m[p].comments.dom().finite() by {
            assert(d.contains_key(p));
            assert(m[p].comments.dom().subset_of(d[p].comments.dom()));
            vstd::set_lib::lemma_set_subset_finite(d[p].comments.dom(), m[p].comments.dom());
        }
    }
    law_prompt_reads_back(m, codes);
    law_draft_there_and_back(d);
}

/// What one more comment leaves of a draft.
proof fn lemma_block_keeps_tidy(d: DraftView, target: Option<TargetView>, body: Seq<Seq<char>>)
    requires
        d.dom().finite(),
        is_tidy_draft(d),
    ensures
        draft_text::with_block(d, target, body).dom().finite(),
        is_tidy_draft(draft_text::with_block(d, target, body)),
{
    let whole = text::joined(body, seq!['\n']);
    let comment = text::trimmed_end(whole);
    let after = draft_text::with_block(d, target, body);
    if !text::is_blank(comment) {
        if text::is_blank(whole) {
            lemma_blank_end(whole);
        }
        lemma_trimmed_end_is_trim(whole);
        match target {
            Some(TargetView::File(path)) => {
                let f = draft::draft_or_blank(d, path);
                assert(d.contains_key(path) ==> f == d[path]);
                assert(f.comments.dom().finite());
            },
            Some(TargetView::Line(path, k)) => {
                let f = draft::draft_or_blank(d, path);
                let g = f.comments.insert(k, comment);
                assert(d.contains_key(path) ==> f == d[path]);
                assert(f.comments.dom().finite());
                assert(g.dom() =~= f.comments.dom().insert(k));
                assert(g.contains_key(k));
            },
            None => {},
        }
    }
}

/// Nothing is left of a blank text.
proof fn lemma_blank_end(s: Seq<char>)
    requires
        text::is_blank(s),
    ensures
        text::trimmed_end(s).len() == 0,
        text::is_blank(text::trimmed_end(s)),
    decreases s.len(),
{
    if s.len() > 0 {
        assert(text::is_space(s[s.len() - 1]));
        let t = s.drop_last();
        assert forall|i: int| 0 <= i < t.len() implies text::is_space(#[trigger] t[i]) by {
            assert(t[i] == s[i]);
        }
        lemma_blank_end(t);
    }
}

proof fn lemma_read_tidy(st: ReaderView, lines: Seq<Seq<char>>)
    requires
        st.draft.dom().finite(),
        is_tidy_draft(st.draft),
    ensures
        draft_text::read_lines(st, lines).draft.dom().finite(),
        is_tidy_draft(draft_text::read_lines(st, lines).draft),
    decreases lines.len(),
{
    if lines.len() > 0 {
        lemma_read_tidy(st, lines.drop_last());
        let before = draft_text::read_lines(st, lines.drop_last());
        match before.block {
            BlockView::Text { fence, target, body } => {
                lemma_block_keeps_tidy(before.draft, target, body);
            },
            _ => {},
        }
    }
}

/// Whatever text is read as a draft, the draft holds only comments that are not blank
/// and end with no white space, and no file without any.
pub proof fn law_read_draft_is_tidy(content: Seq<char>)
    ensures
        draft_text::parsed_draft(content).dom().finite(),
        is_tidy_draft(draft_text::parsed_draft(content)),
{
    lemma_read_tidy(draft_text::reader_start(), text::lines_of(content));
}

/// A draft that was read, written and read again is the same.
pub proof fn law_reading_again(content: Seq<char>, codes: Seq<Seq<Option<SnippetView>>>)
    requires
        is_plain_review(draft::draft_as_review(draft_text::parsed_draft(content)), codes),
    ensures
        ({
            let d = draft_text::parsed_draft(content);
            draft_text::parsed_draft(review::prompt_text(draft::draft_as_review(d), codes)) == d
        }),
{
    law_read_draft_is_tidy(content);
    law_draft_reads_back(draft_text::parsed_draft(content), codes);
}

} // verus!
