//! The note that is stored for a file: a JSON document in a fenced block, with
//! line keys as short texts. An older version of the document holds plain
//! comment texts.
use crate::ordmap;
use crate::ordmap::{Duplicate, OrdMap};
use crate::review::{Comment, CommentView, FileReview, FileReviewView, LineKey, LineSide};
use crate::text;
use vstd::prelude::*;

verus! {

/// The text of a line key: the side, and the line in decimal.
pub open spec fn line_key_text(k: LineKey) -> Seq<char> {
    (match k.side {
        LineSide::Old => "o:"@,
        LineSide::New => "n:"@,
    }) + text::decimal(k.line as nat)
}

/// The line key that a text writes. A plain number is a line of the new side.
pub open spec fn parsed_line_key(s: Seq<char>) -> Option<LineKey> {
    let (side, rest) = if "o:"@.is_prefix_of(s) {
        (LineSide::Old, s.skip("o:"@.len() as int))
    } else if "n:"@.is_prefix_of(s) {
        (LineSide::New, s.skip("n:"@.len() as int))
    } else {
        (LineSide::New, s)
    };
    match text::parsed_u32(rest) {
        Some(n) => Some(LineKey { side, line: n as u32 }),
        None => None,
    }
}

impl LineKey {
    /// The text of this key.
    pub fn encode(&self) -> (out: String)
        ensures
            out@ == line_key_text(*self),
    {
        let mut out = String::new();
        match self.side {
            LineSide::Old => {
                out.append("o:");
            },
            LineSide::New => {
                out.append("n:");
            },
        }
        text::push_decimal(&mut out, self.line as u64);
        assert(out@ =~= line_key_text(*self));
        out
    }

    /// The key that a text writes.
    pub fn decode(s: &str) -> (r: Option<LineKey>)
        ensures
            r == parsed_line_key(s@),
    {
        let (side, rest) = match text::strip_prefix(s, "o:") {
            Some(rest) => (LineSide::Old, rest),
            None => match text::strip_prefix(s, "n:") {
                Some(rest) => (LineSide::New, rest),
                None => (LineSide::New, s.to_owned()),
            },
        };
        match text::parse_u32(rest.as_str()) {
            Some(line) => Some(LineKey { side, line }),
            None => None,
        }
    }
}

/// A line key is read back from its text.
pub proof fn law_line_key_reads_back(k: LineKey)
    ensures
        parsed_line_key(line_key_text(k)) == Some(k),
{
    reveal_strlit("o:");
    reveal_strlit("n:");
    let s = line_key_text(k);
    text::lemma_decimal_parses(k.line as nat);
    match k.side {
        LineSide::Old => {
            assert(s.take(2) =~= "o:"@);
            assert(s.skip(2) =~= text::decimal(k.line as nat));
        },
        LineSide::New => {
            assert(s.take(2) =~= "n:"@);
            assert(s[0] == 'n');
            assert(!"o:"@.is_prefix_of(s)) by {
                assert("o:"@[0] == 'o');
                if "o:"@.is_prefix_of(s) {
                    assert(s.take(2)[0] == 'o');
                }
            }
            assert(s.skip(2) =~= text::decimal(k.line as nat));
        },
    }
}

/// The lines before the one that closes a block.
pub open spec fn block_lines(lines: Seq<Seq<char>>) -> Seq<Seq<char>>
    decreases lines.len(),
{
    if lines.len() == 0 || text::trimmed(lines[0]) == "```"@ {
        seq![]
    } else {
        seq![lines[0]] + block_lines(lines.drop_first())
    }
}

/// What the first JSON block among the lines holds.
pub open spec fn json_block(lines: Seq<Seq<char>>) -> Option<Seq<char>>
    decreases lines.len(),
{
    if lines.len() == 0 {
        None
    } else if text::trimmed(lines[0]) == "```json"@ {
        Some(text::joined(block_lines(lines.drop_first()), seq!['\n']))
    } else {
        json_block(lines.drop_first())
    }
}

/// The note that holds the document `json`.
pub open spec fn note_text(json: Seq<char>) -> Seq<char> {
    "<!-- remark-file:2 -->\n```json\n"@ + json + "\n```\n"@
}

/// The note that holds the document `json`.
pub fn encode_file_note(json: &str) -> (out: String)
    ensures
        out@ == note_text(json@),
{
    let mut out = String::new();
    out.append("<!-- remark-file:2 -->\n```json\n");
    out.append(json);
    out.append("\n```\n");
    assert(out@ =~= note_text(json@));
    out
}

/// The document in the first JSON block of a note.
pub fn note_json(note: &str) -> (r: Option<String>)
    ensures
        text::opt_view(r) == json_block(text::lines_of(note@)),
{
    let lines = text::lines(note);
    let ghost all = text::views(lines@);
    let mut i: usize = 0;
    assert(all.skip(0) =~= all);
    while i < lines.len()
        invariant
            i <= lines.len() == all.len(),
            all == text::views(lines@),
            all == text::lines_of(note@),
            json_block(all.skip(i as int)) == json_block(all),
        decreases lines.len() - i,
    {
        assert(all.skip(i as int).drop_first() =~= all.skip(i + 1));
        let head = text::trim(lines[i].as_str());
        i += 1;
        if text::same(head.as_str(), "```json") {
            let mut inner: Vec<String> = Vec::new();
            let ghost rest = all.skip(i as int);
            let mut j: usize = i;
            assert(text::views(inner@) + block_lines(all.skip(j as int)) =~= block_lines(rest));
            let mut open = true;
            while open && j < lines.len()
                invariant
                    i <= j <= lines.len() == all.len(),
                    all == text::views(lines@),
                    open ==> text::views(inner@) + block_lines(all.skip(j as int)) == block_lines(
                        rest,
                    ),
                    !open ==> text::views(inner@) == block_lines(rest),
                decreases lines.len() - j, open as int,
            {
                assert(all.skip(j as int).drop_first() =~= all.skip(j + 1));
                let line = text::trim(lines[j].as_str());
                if text::same(line.as_str(), "```") {
                    assert(text::views(inner@) + block_lines(all.skip(j as int)) =~= text::views(
                        inner@,
                    ));
                    open = false;
                } else {
                    let ghost before = text::views(inner@);
                    inner.push(lines[j].clone());
                    assert(text::views(inner@) =~= before + seq![all[j as int]]);
                    assert(before + (seq![all[j as int]] + block_lines(all.skip(j + 1)))
                        =~= text::views(inner@) + block_lines(all.skip(j + 1)));
                    j += 1;
                }
            }
            proof {
                if open {
                    assert(all.skip(j as int) =~= Seq::empty());
                    assert(text::views(inner@) + block_lines(all.skip(j as int)) =~= text::views(
                        inner@,
                    ));
                }
                reveal_strlit("\n");
                assert("\n"@ =~= seq!['\n']);
            }
            return Some(text::join(&inner, "\n"));
        }
    }
    assert(all.skip(i as int) =~= Seq::empty());
    None
}

/// Whether a document comes back whole out of a fenced block: none of its
/// lines ends in a carriage return or closes the block.
pub open spec fn fits_block(json: Seq<char>) -> bool {
    forall|i: int|
        0 <= i < text::split_of(json, '\n').len() ==> {
            let line = #[trigger] text::split_of(json, '\n')[i];
            text::without_cr(line) == line && text::trimmed(line) != "```"@
        }
}

proof fn lemma_block_lines_prefix(a: Seq<Seq<char>>, b: Seq<Seq<char>>)
    requires
        forall|i: int| 0 <= i < a.len() ==> text::trimmed(#[trigger] a[i]) != "```"@,
        b.len() > 0,
        text::trimmed(b[0]) == "```"@,
    ensures
        block_lines(a + b) == a,
    decreases a.len(),
{
    if a.len() == 0 {
        assert(a + b =~= b);
        assert(block_lines(b) =~= a);
    } else {
        let t = a.drop_first();
        assert forall|i: int| 0 <= i < t.len() implies text::trimmed(#[trigger] t[i]) != "```"@ by {
            assert(t[i] == a[i + 1]);
        }
        lemma_block_lines_prefix(t, b);
        assert((a + b).drop_first() =~= t + b);
        assert((a + b)[0] == a[0]);
        assert(seq![a[0]] + t =~= a);
    }
}

/// The document that was put in a note is read back from it.
pub proof fn law_note_reads_back(json: Seq<char>)
    requires
        fits_block(json),
    ensures
        json_block(text::lines_of(note_text(json))) == Some(json),
{
    let head = "<!-- remark-file:2 -->"@;
    let tail = "```\n"@;
    let inner = json + seq!['\n'] + tail;
    reveal_strlit("<!-- remark-file:2 -->\n```json\n");
    reveal_strlit("<!-- remark-file:2 -->");
    reveal_strlit("```json");
    reveal_strlit("```\n");
    reveal_strlit("```");
    reveal_strlit("\n```\n");
    let open = "```json"@;
    assert(note_text(json) =~= head + seq!['\n'] + (open + seq!['\n'] + inner));
    let strip = |p: Seq<char>| text::without_cr(p);
    text::lemma_lines_append(head, open + seq!['\n'] + inner);
    text::lemma_lines_append(open, inner);
    text::lemma_lines_append(json, tail);
    text::lemma_is_first_index(head, '\n', head.len() as int);
    text::lemma_is_first_index(open, '\n', open.len() as int);
    assert(text::split_of(head, '\n') =~= seq![head]);
    assert(text::split_of(open, '\n') =~= seq![open]);
    assert(seq![head].map_values(strip) =~= seq![head]);
    assert(seq![open].map_values(strip) =~= seq![open]);
    let close = "```"@;
    assert(tail =~= close + seq!['\n'] + Seq::<char>::empty());
    text::lemma_lines_append(close, Seq::<char>::empty());
    text::lemma_is_first_index(close, '\n', close.len() as int);
    assert(text::split_of(close, '\n') =~= seq![close]);
    assert(seq![close].map_values(strip) =~= seq![close]);
    assert(text::lines_of(tail) =~= seq![close]);
    let body = text::split_of(json, '\n');
    assert(body.map_values(strip) =~= body);
    let lines = text::lines_of(note_text(json));
    assert(lines =~= seq![head, open] + (body + seq![close]));
    lemma_trim_ends(head);
    lemma_trim_ends(open);
    lemma_trim_ends(close);
    assert(lines[0] == head);
    assert(text::trimmed(head) != open) by {
        assert(head[0] == '<');
        assert(open[0] == '`');
    }
    let l1 = lines.drop_first();
    assert(l1[0] == open);
    assert(l1.drop_first() =~= body + seq![close]);
    lemma_block_lines_prefix(body, seq![close]);
    text::lemma_split_joined(json, '\n');
    assert(json_block(lines) == json_block(l1));
    assert(json_block(l1) == Some(text::joined(block_lines(l1.drop_first()), seq!['\n'])));
}

/// Trimming leaves a text alone that neither starts nor ends with white space.
proof fn lemma_trim_ends(s: Seq<char>)
    requires
        s.len() > 0,
        !text::is_space(s[0]),
        !text::is_space(s.last()),
    ensures
        text::trimmed(s) == s,
{
}

/// A stored document of the current version.
pub struct FileNote {
    pub version: u8,
    pub file: FileReview,
}

/// A stored document of the first version, with comments as plain texts.
pub struct FileNoteV1 {
    pub version: u8,
    pub file_comment: Option<String>,
    pub comments: OrdMap<LineKey, String>,
}

/// A comment of the first version: unresolved, and about unknown code.
pub open spec fn upgraded(body: Seq<char>) -> CommentView {
    CommentView { body, resolved: false, snippet_hash: None }
}

/// The review that a document of the first version holds.
pub open spec fn upgraded_file(
    file_comment: Option<Seq<char>>,
    comments: Map<LineKey, Seq<char>>,
) -> FileReviewView {
    FileReviewView {
        file_comment: match file_comment {
            Some(body) => Some(upgraded(body)),
            None => None,
        },
        comments: comments.map_values(|body: Seq<char>| upgraded(body)),
        reviewed: false,
        reviewed_hash: None,
    }
}

/// The review in a stored document, of which `v2` and `v1` are the readings as
/// one of the current and of the first version, as far as it can be read so.
pub fn decode_file_note(v2: Option<FileNote>, v1: Option<FileNoteV1>) -> (r: Option<FileReview>)
    ensures
        ({
            let file = if v2 is Some && v2->0.version == 2 {
                Some(v2->0.file@)
            } else if v1 is Some && v1->0.version == 1 {
                Some(upgraded_file(text::opt_view(v1->0.file_comment), v1->0.comments@))
            } else {
                None
            };
            match r {
                Some(f) => file == Some(f@),
                None => file is None,
            }
        }),
{
    match v2 {
        Some(note) => {
            if note.version == 2 {
                return Some(note.file);
            }
        },
        None => {},
    }
    match v1 {
        Some(note) => if note.version == 1 {
            Some(upgrade_file_note(note))
        } else {
            None
        },
        None => None,
    }
}

/// The review that a document of the first version holds.
fn upgrade_file_note(note: FileNoteV1) -> (f: FileReview)
    ensures
        f@ == upgraded_file(text::opt_view(note.file_comment), note.comments@),
{
    let n: usize = note.comments.len();
    let ghost e = ordmap::ordered::<LineKey, Seq<char>>(note.comments@);
    let mut comments = OrdMap::<LineKey, Comment>::new();
    let ghost up = |body: Seq<char>| upgraded(body);
    let mut i: usize = 0;
    proof {
        ordmap::lemma_map_of_empty::<LineKey, Seq<char>>();
        assert(e.take(0) =~= Seq::empty());
        assert(comments@ =~= ordmap::map_of(e.take(0)).map_values(up));
    }
    while i < n
        invariant
            i <= n == e.len(),
            e == ordmap::ordered::<LineKey, Seq<char>>(note.comments@),
            ordmap::increasing::<LineKey, Seq<char>>(e),
            up == (|body: Seq<char>| upgraded(body)),
            comments@ == ordmap::map_of(e.take(i as int)).map_values(up),
        decreases n - i,
    {
        proof {
            ordmap::lemma_take_next::<LineKey, Seq<char>>(e, i as int);
        }
        comments.insert(
            *note.comments.key_at(i),
            Comment {
                body: note.comments.val_at(i).clone(),
                resolved: false,
                snippet_hash: None,
            },
        );
        assert(comments@ =~= ordmap::map_of(e.take(i + 1)).map_values(up));
        i += 1;
    }
    assert(e.take(n as int) =~= e);
    let file_comment = match &note.file_comment {
        Some(body) => Some(Comment { body: body.clone(), resolved: false, snippet_hash: None }),
        None => None,
    };
    FileReview { file_comment, comments, reviewed: false, reviewed_hash: None }
}

} // verus!
