//! What the operations on a review change and what they leave, and what the prompt shows.
use crate::ordmap;
use crate::review;
use crate::review::{CommentView, FileReviewView, LineKey, LineSide, ReviewView, SnippetView};
use crate::text;
use vstd::prelude::*;

verus! {

/// The comment on the line `k` of `path`, if any.
pub open spec fn line_comment(m: ReviewView, path: Seq<char>, k: LineKey) -> Option<CommentView> {
    if m.contains_key(path) && m[path].comments.contains_key(k) {
        Some(m[path].comments[k])
    } else {
        None
    }
}

/// The comment on the file `path`, if any.
pub open spec fn file_comment(m: ReviewView, path: Seq<char>) -> Option<CommentView> {
    if m.contains_key(path) {
        m[path].file_comment
    } else {
        None
    }
}

/// Whether the file `path` is marked as reviewed.
pub open spec fn is_reviewed(m: ReviewView, path: Seq<char>) -> bool {
    m.contains_key(path) && m[path].reviewed
}

/// Whether `a` and `b` say the same about the file `path` and its mark.
pub open spec fn agree_on_file(a: ReviewView, b: ReviewView, path: Seq<char>) -> bool {
    file_comment(a, path) == file_comment(b, path) && is_reviewed(a, path) == is_reviewed(b, path)
}

/// Whether `a` and `b` say the same about every line but, perhaps, the line `k` of `path`.
pub open spec fn agree_but_on_line(
    a: ReviewView,
    b: ReviewView,
    path: Seq<char>,
    k: LineKey,
) -> bool {
    forall|p: Seq<char>, l: LineKey|
        p != path || l != k ==> #[trigger] line_comment(a, p, l) == line_comment(b, p, l)
}

/// Whether `a` and `b` say the same about every line.
pub open spec fn agree_on_lines(a: ReviewView, b: ReviewView) -> bool {
    forall|p: Seq<char>, l: LineKey| #[trigger]
        line_comment(a, p, l) == line_comment(b, p, l)
}

/// Whether `a` and `b` say the same about every file but, perhaps, `path`.
pub open spec fn agree_but_on_file(a: ReviewView, b: ReviewView, path: Seq<char>) -> bool {
    forall|p: Seq<char>| p != path ==> #[trigger] agree_on_file(a, b, p)
}

proof fn lemma_settled_reads(m: ReviewView, path: Seq<char>, f: FileReviewView)
    ensures
        ({
            let after = review::settled(m, path, f);
            &&& forall|l: LineKey| #[trigger]
                line_comment(after, path, l) == (if f.comments.contains_key(l) {
                    Some(f.comments[l])
                } else {
                    None
                })
            &&& file_comment(after, path) == f.file_comment
            &&& is_reviewed(after, path) == f.reviewed
            &&& forall|p: Seq<char>, l: LineKey|
                p != path ==> #[trigger] line_comment(after, p, l) == line_comment(m, p, l)
            &&& forall|p: Seq<char>| p != path ==> #[trigger] agree_on_file(after, m, p)
        }),
{
}

/// Writing on a line writes there alone: a comment that stood there keeps its state and
/// its hash under the new words, a new one is open, and blank words take it away.
pub proof fn law_line_comment_is_written(m: ReviewView, path: Seq<char>, k: LineKey, body: Seq<char>)
    ensures
        ({
            let after = review::with_line_comment(m, path, k, body);
            let before = line_comment(m, path, k);
            &&& line_comment(after, path, k) == (if text::is_blank(body) {
                None
            } else {
                Some(
                    CommentView {
                        body,
                        resolved: before is Some && before->0.resolved,
                        snippet_hash: if before is Some {
                            before->0.snippet_hash
                        } else {
                            None
                        },
                    },
                )
            })
            &&& agree_but_on_line(after, m, path, k)
            &&& forall|p: Seq<char>| #[trigger] agree_on_file(after, m, p)
        }),
{
    let f = review::file_or_blank(m, path);
    let comments = if text::is_blank(body) {
        f.comments.remove(k)
    } else if f.comments.contains_key(k) {
        f.comments.insert(k, CommentView { body, ..f.comments[k] })
    } else {
        f.comments.insert(k, CommentView { body, resolved: false, snippet_hash: None })
    };
    lemma_settled_reads(m, path, FileReviewView { comments, ..f });
}

/// Writing on a file writes there alone: a comment that stood there keeps its state.
pub proof fn law_file_comment_is_written(m: ReviewView, path: Seq<char>, body: Seq<char>)
    ensures
        ({
            let after = review::with_file_comment(m, path, body);
            let before = file_comment(m, path);
            &&& (file_comment(after, path) is Some) == !text::is_blank(body)
            &&& !text::is_blank(body) ==> file_comment(after, path)->0.body == body && file_comment(
                after,
                path,
            )->0.resolved == (before is Some && before->0.resolved)
            &&& agree_but_on_file(after, m, path)
            &&& is_reviewed(after, path) == is_reviewed(m, path)
            &&& agree_on_lines(after, m)
        }),
{
}

/// Resolving a comment on a line turns the state of that comment over and changes nothing
/// else; where there is none, nothing changes.
pub proof fn law_toggle_turns_a_line_over(m: ReviewView, path: Seq<char>, k: LineKey)
    ensures
        ({
            let after = review::with_line_toggled(m, path, k);
            let before = line_comment(m, path, k);
            let now = line_comment(after, path, k);
            &&& before is None ==> after == m
            &&& before is Some ==> now is Some && now->0.resolved == !before->0.resolved
                && now->0.body == before->0.body && now->0.snippet_hash == before->0.snippet_hash
            &&& agree_but_on_line(after, m, path, k)
            &&& forall|p: Seq<char>| #[trigger] agree_on_file(after, m, p)
        }),
{
}

/// Resolving the comment on a file turns the state of that comment over and changes
/// nothing else; where there is none, nothing changes.
pub proof fn law_toggle_turns_a_file_over(m: ReviewView, path: Seq<char>)
    ensures
        ({
            let after = review::with_file_toggled(m, path);
            let before = file_comment(m, path);
            let now = file_comment(after, path);
            &&& before is None ==> after == m
            &&& before is Some ==> now is Some && now->0.resolved == !before->0.resolved
                && now->0.body == before->0.body
            &&& agree_but_on_file(after, m, path)
            &&& is_reviewed(after, path) == is_reviewed(m, path)
            &&& agree_on_lines(after, m)
        }),
{
}

/// The hash of a comment is set on that comment alone.
pub proof fn law_hash_is_set_on_one_comment(
    m: ReviewView,
    path: Seq<char>,
    k: LineKey,
    hash: Option<Seq<char>>,
)
    ensures
        ({
            let after = review::with_line_hash(m, path, k, hash);
            let before = line_comment(m, path, k);
            let now = line_comment(after, path, k);
            &&& before is None ==> after == m
            &&& before is Some ==> now is Some && now->0.snippet_hash == hash && now->0.body
                == before->0.body && now->0.resolved == before->0.resolved
            &&& agree_but_on_line(after, m, path, k)
            &&& forall|p: Seq<char>| #[trigger] agree_on_file(after, m, p)
        }),
{
}

/// Taking a comment away takes that comment alone.
pub proof fn law_one_comment_is_taken_away(m: ReviewView, path: Seq<char>, k: LineKey)
    ensures
        ({
            let line = review::without_line_comment(m, path, k);
            let file = review::without_file_comment(m, path);
            &&& line_comment(line, path, k) is None
            &&& agree_but_on_line(line, m, path, k)
            &&& forall|p: Seq<char>| #[trigger] agree_on_file(line, m, p)
            &&& file_comment(file, path) is None
            &&& agree_but_on_file(file, m, path)
            &&& is_reviewed(file, path) == is_reviewed(m, path)
            &&& agree_on_lines(file, m)
        }),
{
    if m.contains_key(path) {
        let f = m[path];
        lemma_settled_reads(m, path, FileReviewView { comments: f.comments.remove(k), ..f });
        lemma_settled_reads(m, path, FileReviewView { file_comment: None, ..f });
    }
}

/// Pruning a file keeps, as they are, just the comments on lines that its version still
/// has: those of the old version for a comment on an old line, those of the new one for a
/// comment on a new line. What is said elsewhere stays.
pub proof fn law_pruning_keeps_the_lines_that_stand(
    m: ReviewView,
    path: Seq<char>,
    old_lines: Set<u32>,
    new_lines: Set<u32>,
    k: LineKey,
)
    ensures
        ({
            let after = review::pruned(m, path, old_lines, new_lines);
            &&& k.side is Old && old_lines.contains(k.line) ==> line_comment(after, path, k)
                == line_comment(m, path, k)
            &&& k.side is New && new_lines.contains(k.line) ==> line_comment(after, path, k)
                == line_comment(m, path, k)
            &&& k.side is Old && !old_lines.contains(k.line) ==> line_comment(after, path, k)
                is None
            &&& k.side is New && !new_lines.contains(k.line) ==> line_comment(after, path, k)
                is None
            &&& forall|p: Seq<char>| #[trigger] agree_on_file(after, m, p)
            &&& forall|p: Seq<char>, l: LineKey|
                p != path ==> #[trigger] line_comment(after, p, l) == line_comment(m, p, l)
        }),
{
    if m.contains_key(path) {
        let f = m[path];
        let comments = review::reachable(f.comments, old_lines, new_lines);
        lemma_settled_reads(m, path, FileReviewView { comments, ..f });
    }
}

proof fn lemma_occurs_between(a: Seq<char>, t: Seq<char>, b: Seq<char>)
    ensures
        text::occurs(a + t + b, t),
{
    assert((a + t + b).subrange(a.len() as int, (a.len() + t.len()) as int) =~= t);
    assert(text::occurs_at(a + t + b, t, a.len() as int));
}

proof fn lemma_occurs_deeper(s: Seq<char>, t: Seq<char>, u: Seq<char>)
    requires
        text::occurs(s, t),
        text::occurs(t, u),
    ensures
        text::occurs(s, u),
{
    let i = choose|i: int| text::occurs_at(s, t, i);
    let j = choose|j: int| text::occurs_at(t, u, j);
    assert(s.subrange(i + j, i + j + u.len()) =~= t.subrange(j, j + u.len()));
    assert(text::occurs_at(s, u, i + j));
}

proof fn lemma_item_occurs(
    shown: Seq<(LineKey, Seq<char>)>,
    codes: Seq<Option<SnippetView>>,
    j: int,
)
    requires
        0 <= j < shown.len(),
    ensures
        text::occurs(
            review::line_items(shown, codes),
            review::line_item(shown[j].0, codes[j], shown[j].1),
        ),
    decreases shown.len(),
{
    let front = review::line_items(shown.drop_last(), codes);
    let last = review::line_item(shown.last().0, codes[shown.len() - 1], shown.last().1);
    let all = review::line_items(shown, codes);
    if j == shown.len() - 1 {
        lemma_occurs_between(front, last, seq![]);
        assert(front + last + Seq::<char>::empty() =~= all);
    } else {
        lemma_item_occurs(shown.drop_last(), codes, j);
        lemma_occurs_between(seq![], front, last);
        assert(Seq::<char>::empty() + front + last =~= all);
        lemma_occurs_deeper(all, front, review::line_item(shown[j].0, codes[j], shown[j].1));
    }
}

proof fn lemma_section_occurs(
    e: Seq<(Seq<char>, FileReviewView)>,
    codes: Seq<Seq<Option<SnippetView>>>,
    i: int,
)
    requires
        0 <= i < e.len(),
    ensures
        text::occurs(
            review::file_sections(e, codes),
            review::file_section(e[i].0, e[i].1, codes[i]),
        ),
    decreases e.len(),
{
    let front = review::file_sections(e.drop_last(), codes);
    let last = review::file_section(e.last().0, e.last().1, codes[e.len() - 1]);
    let all = review::file_sections(e, codes);
    if i == e.len() - 1 {
        lemma_occurs_between(front, last, seq![]);
        assert(front + last + Seq::<char>::empty() =~= all);
    } else {
        lemma_section_occurs(e.drop_last(), codes, i);
        lemma_occurs_between(seq![], front, last);
        assert(Seq::<char>::empty() + front + last =~= all);
        lemma_occurs_deeper(all, front, review::file_section(e[i].0, e[i].1, codes[i]));
    }
}

/// A comment is listed for the prompt once, in the order of the lines, just where it is
/// unresolved and not blank.
#[verifier::rlimit(40)]
pub proof fn law_open_comments_are_shown(f: FileReviewView, k: LineKey)
    requires
        f.comments.dom().finite(),
    ensures
        ({
            let shown = review::shown_of(f);
            let is_shown = f.comments.contains_key(k) && !f.comments[k].resolved && !text::is_blank(
                f.comments[k].body,
            );
            &&& is_shown ==> exists|j: int|
                0 <= j < shown.len() && #[trigger] shown[j] == (
                    k,
                    text::trimmed_end(f.comments[k].body),
                )
            &&& !is_shown ==> forall|j: int| 0 <= j < shown.len() ==> (#[trigger] shown[j]).0 != k
            &&& forall|i: int, j: int|
                0 <= i < j < shown.len() ==> is_above((#[trigger] shown[i]).0, (
                #[trigger] shown[j]).0)
        }),
{
    let e = ordmap::ordered::<LineKey, CommentView>(f.comments);
    ordmap::lemma_ordered_exists::<LineKey, CommentView>(f.comments);
    lemma_shown_lines(e);
    let shown = review::shown_lines(e);
    let is_shown = f.comments.contains_key(k) && !f.comments[k].resolved && !text::is_blank(
        f.comments[k].body,
    );
    if is_shown {
        let j = ordmap::index_of_key(e, k);
        assert(e[j].0 == k);
        ordmap::lemma_map_of_at::<LineKey, CommentView>(e, j);
    } else {
        assert forall|j: int| 0 <= j < shown.len() implies (#[trigger] shown[j]).0 != k by {
            let i = choose|i: int|
                0 <= i < e.len() && (#[trigger] e[i]).0 == shown[j].0 && !e[i].1.resolved
                    && !text::is_blank(e[i].1.body);
            ordmap::lemma_map_of_at::<LineKey, CommentView>(e, i);
        }
    }
}

/// Whether the comment on `a` stands before that on `b`: old lines before new ones, and on
/// one side the lines as they are counted.
pub open spec fn is_above(a: LineKey, b: LineKey) -> bool {
    if a.side == b.side {
        a.line < b.line
    } else {
        a.side is Old
    }
}

#[verifier::rlimit(40)]
proof fn lemma_shown_lines(e: Seq<(LineKey, CommentView)>)
    requires
        ordmap::increasing::<LineKey, CommentView>(e),
    ensures
        ({
            let shown = review::shown_lines(e);
            &&& forall|i: int|
                0 <= i < e.len() && !(#[trigger] e[i]).1.resolved && !text::is_blank(e[i].1.body)
                    ==> exists|j: int|
                    0 <= j < shown.len() && #[trigger] shown[j] == (
                        e[i].0,
                        text::trimmed_end(e[i].1.body),
                    )
            &&& forall|j: int|
                0 <= j < shown.len() ==> exists|i: int|
                    0 <= i < e.len() && (#[trigger] e[i]).0 == (#[trigger] shown[j]).0
                        && !e[i].1.resolved && !text::is_blank(e[i].1.body)
            &&& forall|i: int, j: int|
                0 <= i < j < shown.len() ==> is_above((#[trigger] shown[i]).0, (
                #[trigger] shown[j]).0)
        }),
    decreases e.len(),
{
    if e.len() > 0 {
        let front = e.drop_last();
        let n = e.len() - 1;
        lemma_shown_lines(front);
        let g = review::shown_lines(front);
        let shown = review::shown_lines(e);
        assert(e[n] == e.last());
        assert forall|i: int|
            0 <= i < e.len() && !(#[trigger] e[i]).1.resolved && !text::is_blank(
                e[i].1.body,
            ) implies exists|j: int|
            0 <= j < shown.len() && #[trigger] shown[j] == (
                e[i].0,
                text::trimmed_end(e[i].1.body),
            ) by {
            if i < n {
                assert(front[i] == e[i]);
                let j = choose|j: int|
                    0 <= j < g.len() && #[trigger] g[j] == (
                        e[i].0,
                        text::trimmed_end(e[i].1.body),
                    );
                assert(shown[j] == g[j]);
            } else {
                assert(shown[g.len() as int] == (e[i].0, text::trimmed_end(e[i].1.body)));
            }
        }
        assert forall|j: int| 0 <= j < shown.len() implies exists|i: int|
            0 <= i < e.len() && (#[trigger] e[i]).0 == (#[trigger] shown[j]).0
                && !e[i].1.resolved && !text::is_blank(e[i].1.body) by {
            if j < g.len() {
                assert(shown[j] == g[j]);
                let i = choose|i: int|
                    0 <= i < front.len() && (#[trigger] front[i]).0 == g[j].0
                        && !front[i].1.resolved && !text::is_blank(front[i].1.body);
                assert(e[i] == front[i]);
            } else {
                assert(e[n].0 == shown[j].0);
            }
        }
        assert forall|i: int, j: int| 0 <= i < j < shown.len() implies is_above(
            (#[trigger] shown[i]).0,
            (#[trigger] shown[j]).0,
        ) by {
            assert(shown[i] == g[i]);
            if j < g.len() {
                assert(shown[j] == g[j]);
            } else {
                let a = choose|a: int|
                    0 <= a < front.len() && (#[trigger] front[a]).0 == g[i].0
                        && !front[a].1.resolved && !text::is_blank(front[a].1.body);
                assert(e[a] == front[a]);
                assert(<LineKey as ordmap::Key>::precedes(e[a].0, e[n].0));
            }
        }
    }
}

proof fn lemma_section_in_prompt(m: ReviewView, codes: Seq<Seq<Option<SnippetView>>>, i: int)
    requires
        m.dom().finite(),
        0 <= i < ordmap::ordered::<String, FileReviewView>(m).len(),
    ensures
        ({
            let (path, f) = ordmap::ordered::<String, FileReviewView>(m)[i];
            text::occurs(
                review::prompt_text(m, codes),
                review::file_section(path, f, codes[i]),
            )
        }),
{
    let e = ordmap::ordered::<String, FileReviewView>(m);
    let (path, f) = e[i];
    ordmap::lemma_ordered_exists::<String, FileReviewView>(m);
    ordmap::lemma_map_of_at::<String, FileReviewView>(e, i);
    assert(m.contains_key(path));
    let all = review::prompt_text(m, codes);
    let head = review::prompt_heading();
    let sections = review::file_sections(e, codes);
    let tail = all.skip((head + sections).len() as int);
    assert(head + sections + tail =~= all);
    lemma_occurs_between(head, sections, tail);
    lemma_section_occurs(e, codes, i);
    lemma_occurs_deeper(all, sections, review::file_section(path, f, codes[i]));
}

proof fn lemma_item_in_section(
    path: Seq<char>,
    f: FileReviewView,
    codes: Seq<Option<SnippetView>>,
    j: int,
)
    requires
        0 <= j < review::shown_of(f).len(),
    ensures
        ({
            let section = review::file_section(path, f, codes);
            let (k, body) = review::shown_of(f)[j];
            &&& ("## "@ + path + seq!['\n']).is_prefix_of(section)
            &&& text::occurs(section, review::line_item(k, codes[j], body))
        }),
{
    let shown = review::shown_of(f);
    let (k, body) = shown[j];
    let section = review::file_section(path, f, codes);
    let items = review::line_items(shown, codes);
    let head = "## "@ + path + seq!['\n'];
    assert(section.subrange(0, head.len() as int) =~= head);
    let before = section.take(section.len() - items.len() - 1);
    assert(before + items + seq!['\n'] =~= section);
    lemma_occurs_between(before, items, seq!['\n']);
    lemma_item_occurs(shown, codes, j);
    lemma_occurs_deeper(section, items, review::line_item(k, codes[j], body));
}

/// The prompt shows each open comment on a line under the path of its file: where it
/// stands, whether that is a line of the old version, the code there in a block of its
/// language where the code is known, and what was said.
#[verifier::rlimit(40)]
pub proof fn law_prompt_shows_each_line_comment(
    m: ReviewView,
    codes: Seq<Seq<Option<SnippetView>>>,
    i: int,
    j: int,
)
    requires
        m.dom().finite(),
        0 <= i < ordmap::ordered::<String, FileReviewView>(m).len(),
        0 <= j < review::shown_of(ordmap::ordered::<String, FileReviewView>(m)[i].1).len(),
    ensures
        ({
            let (path, f) = ordmap::ordered::<String, FileReviewView>(m)[i];
            let (k, body) = review::shown_of(f)[j];
            let place = "- line "@ + text::decimal(k.line as nat) + (match k.side {
                LineSide::Old => " (old)"@,
                LineSide::New => seq![],
            }) + seq!['\n'];
            let code = match codes[i][j] {
                Some(s) => review::fenced(s.code, s.lang),
                None => seq![],
            };
            exists|section: Seq<char>| #[trigger]
                text::occurs(review::prompt_text(m, codes), section) && ("## "@ + path + seq![
                    '\n',
                ]).is_prefix_of(section) && text::occurs(
                    section,
                    place + code + review::fenced(body, "text"@),
                )
        }),
{
    let (path, f) = ordmap::ordered::<String, FileReviewView>(m)[i];
    let (k, body) = review::shown_of(f)[j];
    let section = review::file_section(path, f, codes[i]);
    lemma_section_in_prompt(m, codes, i);
    lemma_item_in_section(path, f, codes[i], j);
    let place = "- line "@ + text::decimal(k.line as nat) + (match k.side {
        LineSide::Old => " (old)"@,
        LineSide::New => seq![],
    }) + seq!['\n'];
    let code = match codes[i][j] {
        Some(s) => review::fenced(s.code, s.lang),
        None => seq![],
    };
    assert(review::line_item(k, codes[i][j], body) =~= place + code + review::fenced(
        body,
        "text"@,
    ));
}

/// The prompt shows the comment on a file, where it is open and not blank, under the path
/// of the file.
#[verifier::rlimit(40)]
pub proof fn law_prompt_shows_each_file_comment(
    m: ReviewView,
    codes: Seq<Seq<Option<SnippetView>>>,
    i: int,
)
    requires
        m.dom().finite(),
        0 <= i < ordmap::ordered::<String, FileReviewView>(m).len(),
    ensures
        ({
            let (path, f) = ordmap::ordered::<String, FileReviewView>(m)[i];
            f.file_comment matches Some(c) && !c.resolved && !text::is_blank(c.body) ==> text::occurs(
                review::prompt_text(m, codes),
                "## "@ + path + seq!['\n'] + "### File comment\n"@ + review::fenced(
                    text::trimmed_end(f.file_comment->0.body),
                    "text"@,
                ),
            )
        }),
{
    let (path, f) = ordmap::ordered::<String, FileReviewView>(m)[i];
    let section = review::file_section(path, f, codes[i]);
    lemma_section_in_prompt(m, codes, i);
    if f.file_comment matches Some(c) && !c.resolved && !text::is_blank(c.body) {
        let part = "## "@ + path + seq!['\n'] + "### File comment\n"@ + review::fenced(
            text::trimmed_end(f.file_comment->0.body),
            "text"@,
        );
        let rest = section.skip(part.len() as int);
        assert(Seq::<char>::empty() + part + rest =~= section);
        lemma_occurs_between(seq![], part, rest);
        lemma_occurs_deeper(review::prompt_text(m, codes), section, part);
    }
}

} // verus!
