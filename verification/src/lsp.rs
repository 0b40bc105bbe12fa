//! What the language server answers, and when it reads the draft again.
use crate::add_cmd;
use crate::config::ResolveCli;
use crate::hash;
use crate::ordmap;
use crate::ordmap::Duplicate;
use crate::review::{Comment, CommentView, FileReview, FileReviewView, LineKey, LineSide};
use crate::session;
use crate::text;
use vstd::prelude::*;

verus! {

/// What a client can ask the server to do.
#[derive(Debug, Clone, Copy, PartialEq, Eq, Structural)]
pub enum RemarkCommand {
    Resolve,
    Unresolve,
    AddDraftComment,
    OpenPrompt,
}

impl RemarkCommand {
    /// The name by which a client asks for it.
    pub open spec fn text(self) -> Seq<char> {
        match self {
            RemarkCommand::Resolve => "remark.resolve"@,
            RemarkCommand::Unresolve => "remark.unresolve"@,
            RemarkCommand::AddDraftComment => "remark.addDraftComment"@,
            RemarkCommand::OpenPrompt => "remark.openPrompt"@,
        }
    }

    /// The name by which a client asks for it.
    pub fn name(&self) -> (r: &'static str)
        ensures
            r@ == self.text(),
    {
        match self {
            RemarkCommand::Resolve => "remark.resolve",
            RemarkCommand::Unresolve => "remark.unresolve",
            RemarkCommand::AddDraftComment => "remark.addDraftComment",
            RemarkCommand::OpenPrompt => "remark.openPrompt",
        }
    }
}

/// What a client asks for by a name, where it is known.
pub open spec fn command_named(name: Seq<char>) -> Option<RemarkCommand> {
    if name == "remark.resolve"@ {
        Some(RemarkCommand::Resolve)
    } else if name == "remark.unresolve"@ {
        Some(RemarkCommand::Unresolve)
    } else if name == "remark.addDraftComment"@ {
        Some(RemarkCommand::AddDraftComment)
    } else if name == "remark.openPrompt"@ {
        Some(RemarkCommand::OpenPrompt)
    } else {
        None
    }
}

/// What a client asks for by a name, where it is known.
pub fn parse_command(name: &str) -> (r: Option<RemarkCommand>)
    ensures
        r == command_named(name@),
{
    if text::same(name, "remark.resolve") {
        Some(RemarkCommand::Resolve)
    } else if text::same(name, "remark.unresolve") {
        Some(RemarkCommand::Unresolve)
    } else if text::same(name, "remark.addDraftComment") {
        Some(RemarkCommand::AddDraftComment)
    } else if text::same(name, "remark.openPrompt") {
        Some(RemarkCommand::OpenPrompt)
    } else {
        None
    }
}

/// The names that the server gives out are those it knows.
pub proof fn law_command_reads_back(c: RemarkCommand)
    ensures
        command_named(c.text()) == Some(c),
{
    reveal_strlit("remark.resolve");
    reveal_strlit("remark.unresolve");
    reveal_strlit("remark.addDraftComment");
    reveal_strlit("remark.openPrompt");
    assert("remark.resolve"@.len() == 14 && "remark.unresolve"@.len() == 16
        && "remark.addDraftComment"@.len() == 22 && "remark.openPrompt"@.len() == 17);
}

/// What a client names with a command: a comment on a file or on a line of it.
#[derive(Debug)]
pub struct CommandArgs {
    pub file: String,
    pub line: Option<u32>,
    pub side: Option<String>,
    pub file_comment: bool,
}

/// The side of a name; nothing where there is no such side.
pub open spec fn side_named(name: Seq<char>) -> Option<LineSide> {
    if name == "old"@ {
        Some(LineSide::Old)
    } else if name == "new"@ {
        Some(LineSide::New)
    } else {
        None
    }
}

/// The side that a client names, if any; an error where there is no such side.
pub fn parse_side(side: Option<&str>) -> (r: Result<Option<LineSide>, ()>)
    ensures
        match side {
            None => r == Ok::<Option<LineSide>, ()>(None),
            Some(s) => match side_named(s@) {
                Some(l) => r == Ok::<Option<LineSide>, ()>(Some(l)),
                None => r is Err,
            },
        },
{
    match side {
        None => Ok(None),
        Some(s) => if text::same(s, "old") {
            Ok(Some(LineSide::Old))
        } else if text::same(s, "new") {
            Ok(Some(LineSide::New))
        } else {
            Err(())
        },
    }
}

/// What resolving or unresolving by a client comes to; an error where it names no
/// side that there is.
pub fn resolve_request(command: RemarkCommand, args: &CommandArgs) -> (r: Result<ResolveCli, ()>)
    ensures
        match r {
            Err(_) => args.side is Some && side_named(args.side->0@) is None,
            Ok(c) => {
                &&& args.side is Some ==> side_named(args.side->0@) is Some
                &&& c.side == (match args.side {
                    Some(s) => side_named(s@),
                    None => None,
                })
                &&& c.file is Some && c.file->0@ == args.file@
                &&& c.line == args.line
                &&& c.file_comment == args.file_comment
                &&& c.unresolve == (command == RemarkCommand::Unresolve)
            },
        },
{
    let side = match &args.side {
        Some(s) => match parse_side(Some(s.as_str())) {
            Ok(side) => side,
            Err(_) => {
                return Err(());
            },
        },
        None => None,
    };
    Ok(
        ResolveCli {
            file: Some(args.file.clone()),
            line: args.line,
            side,
            file_comment: args.file_comment,
            unresolve: command == RemarkCommand::Unresolve,
        },
    )
}

/// The comments of some notes of one file put together.
pub open spec fn merged_notes(found: Seq<FileReview>) -> Option<FileReviewView>
    decreases found.len(),
{
    if found.len() == 0 {
        None
    } else {
        match merged_notes(found.drop_last()) {
            None => Some(found.last()@),
            Some(m) => Some(session::merged_comments(m, found.last()@)),
        }
    }
}

/// The comments of the notes that were found of one file put together, in the order
/// in which the notes are given; nothing where none was found.
pub fn merge_notes(found: &Vec<FileReview>) -> (r: Option<FileReview>)
    ensures
        match r {
            Some(f) => merged_notes(found@) == Some(f@),
            None => merged_notes(found@) is None,
        },
{
    if found.len() == 0 {
        return None;
    }
    let mut out = found[0].duplicate();
    let mut i: usize = 1;
    proof {
        assert(found@.take(1).drop_last() =~= seq![]);
        assert(found@.take(1).last() == found@[0]);
        assert(merged_notes(found@.take(1).drop_last()) is None);
    }
    while i < found.len()
        invariant
            1 <= i <= found.len(),
            merged_notes(found@.take(i as int)) == Some(out@),
        decreases found.len() - i,
    {
        proof {
            assert(found@.take(i + 1).drop_last() =~= found@.take(i as int));
        }
        session::merge_comments(&mut out, &found[i]);
        i += 1;
    }
    assert(found@.take(i as int) =~= found@);
    Some(out)
}

/// The number of a line, counted from 1, by its index.
pub open spec fn line_of(index: u32) -> u32 {
    if index < u32::MAX {
        (index + 1) as u32
    } else {
        u32::MAX
    }
}

/// The index of a line by its number.
pub open spec fn index_of_line(line: u32) -> u32 {
    if line > 0 {
        (line - 1) as u32
    } else {
        0
    }
}

/// The texts of the comments on a line, those on the old version marked.
pub open spec fn hover_lines(e: Seq<(LineKey, CommentView)>, line: u32, include_resolved: bool) -> Seq<
    Seq<char>,
>
    decreases e.len(),
{
    if e.len() == 0 {
        seq![]
    } else {
        let front = hover_lines(e.drop_last(), line, include_resolved);
        let (k, c) = e.last();
        if k.line != line || (c.resolved && !include_resolved) {
            front
        } else if k.side == LineSide::Old {
            front.push("[old] "@ + c.body)
        } else {
            front.push(c.body)
        }
    }
}

/// The texts that are shown for a line: those of its comments, else that of the
/// comment on the file.
pub open spec fn hover_texts(f: FileReviewView, line: u32, include_resolved: bool) -> Seq<
    Seq<char>,
> {
    let on_line = hover_lines(
        ordmap::ordered::<LineKey, CommentView>(f.comments),
        line,
        include_resolved,
    );
    if on_line.len() > 0 {
        on_line
    } else {
        match f.file_comment {
            Some(c) => if include_resolved || !c.resolved {
                seq![c.body]
            } else {
                seq![]
            },
            None => seq![],
        }
    }
}

/// What is shown when the pointer rests on the line of an index: the comments on
/// the line, or the one on the file where there is none; nothing where there is
/// neither.
pub fn hover_text(f: &FileReview, line_index: u32, include_resolved: bool) -> (r: Option<String>)
    ensures
        ({
            let texts = hover_texts(f@, line_of(line_index), include_resolved);
            text::opt_view(r) == (if texts.len() == 0 {
                None
            } else {
                Some(text::joined(texts, "\n\n---\n\n"@))
            })
        }),
{
    let line: u32 = line_index.saturating_add(1);
    let mut out: Vec<String> = Vec::new();
    let n: usize = f.comments.len();
    let ghost e = ordmap::ordered::<LineKey, CommentView>(f.comments@);
    let mut i: usize = 0;
    while i < n
        invariant
            i <= n == e.len(),
            e == ordmap::ordered::<LineKey, CommentView>(f.comments@),
            text::views(out@) =~= hover_lines(e.take(i as int), line, include_resolved),
        decreases n - i,
    {
        proof {
            assert(e.take(i + 1).drop_last() =~= e.take(i as int));
        }
        let ghost before = text::views(out@);
        let k = *f.comments.key_at(i);
        let c = f.comments.val_at(i);
        if k.line == line && (include_resolved || !c.resolved) {
            match k.side {
                LineSide::New => {
                    out.push(c.body.clone());
                    assert(text::views(out@) =~= before.push(c.body@));
                },
                LineSide::Old => {
                    let mut s = "[old] ".to_string();
                    s.append(c.body.as_str());
                    assert(s@ =~= "[old] "@ + c.body@);
                    out.push(s);
                    assert(text::views(out@) =~= before.push("[old] "@ + c.body@));
                },
            }
        }
        i += 1;
    }
    assert(e.take(i as int) =~= e);
    if out.len() == 0 {
        assert(text::views(out@).len() == 0);
        match &f.file_comment {
            Some(c) => {
                if include_resolved || !c.resolved {
                    out.push(c.body.clone());
                    assert(text::views(out@) =~= seq![c.body@]);
                }
            },
            None => {},
        }
    }
    assert(text::views(out@) =~= hover_texts(f@, line, include_resolved));
    if out.len() == 0 {
        None
    } else {
        Some(text::join(&out, "\n\n---\n\n"))
    }
}

/// How many bytes a character takes in UTF-8.
pub open spec fn utf8_size(c: char) -> nat {
    if (c as int) < 0x80 {
        1
    } else if (c as int) < 0x800 {
        2
    } else if (c as int) < 0x10000 {
        3
    } else {
        4
    }
}

/// How many characters from the start of `s` fit in `room` bytes.
pub open spec fn fitting_bytes(s: Seq<char>, room: int) -> nat
    decreases s.len(),
{
    if s.len() == 0 || utf8_size(s[0]) > room {
        0
    } else {
        1 + fitting_bytes(s.drop_first(), room - utf8_size(s[0]))
    }
}

/// The longest text of a hint, in bytes.
pub const MAX_HINT_BYTES: u64 = 80;

/// `s`, cut to the longest text of a hint and marked as cut where it is longer.
pub open spec fn cut_hint(s: Seq<char>) -> Seq<char> {
    let n = fitting_bytes(s, MAX_HINT_BYTES as int);
    if n < s.len() {
        s.take(n as int).push('…')
    } else {
        s
    }
}

/// The mark of a comment on the old version.
pub open spec fn old_mark(side: Option<LineSide>) -> Seq<char> {
    if side == Some(LineSide::Old) {
        "[old] "@
    } else {
        seq![]
    }
}

/// The first line of `s`, without white space around it.
pub open spec fn first_line(s: Seq<char>) -> Seq<char> {
    let lines = text::lines_of(s);
    if lines.len() > 0 {
        text::trimmed(lines[0])
    } else {
        seq![]
    }
}

/// The text of the hint for a comment.
pub open spec fn hint_text(body: Seq<char>, side: Option<LineSide>) -> Seq<char> {
    "remark: "@ + old_mark(side) + cut_hint(first_line(body))
}

/// How many characters of `v` fit in the room of a hint.
fn hint_chars(v: &Vec<char>) -> (n: usize)
    ensures
        n == fitting_bytes(v@, MAX_HINT_BYTES as int),
        n <= v@.len(),
{
    let mut n: usize = 0;
    let mut used: u64 = 0;
    assert(v@.skip(0) =~= v@);
    while n < v.len()
        invariant
            n <= v.len(),
            used <= MAX_HINT_BYTES,
            n + fitting_bytes(v@.skip(n as int), MAX_HINT_BYTES - used) == fitting_bytes(
                v@,
                MAX_HINT_BYTES as int,
            ),
        decreases v.len() - n,
    {
        let c: u32 = text::code(v[n]);
        let size: u64 = if c < 0x80 {
            1
        } else if c < 0x800 {
            2
        } else if c < 0x10000 {
            3
        } else {
            4
        };
        assert(size == utf8_size(v@[n as int]));
        assert(v@.skip(n as int).drop_first() =~= v@.skip(n + 1));
        if used + size > MAX_HINT_BYTES {
            return n;
        }
        used += size;
        n += 1;
    }
    n
}

/// The text of the hint for a comment: its first line, cut where it is long. A cut
/// never parts a character.
pub fn inlay_label(comment: &Comment, side: Option<LineSide>) -> (out: String)
    ensures
        out@ == hint_text(comment.body@, side),
{
    let lines = text::lines(comment.body.as_str());
    let first = if lines.len() > 0 {
        assert(text::lines_of(comment.body@)[0] == lines@[0]@);
        text::trim(lines[0].as_str())
    } else {
        String::new()
    };
    assert(first@ =~= first_line(comment.body@));
    let v = text::chars(first.as_str());
    let n: usize = hint_chars(&v);
    let mut out = "remark: ".to_string();
    match side {
        Some(LineSide::Old) => {
            out.append("[old] ");
        },
        _ => {},
    }
    assert(out@ =~= "remark: "@ + old_mark(side));
    let shown = text::string_of(&v, 0, n);
    assert(shown@ =~= v@.take(n as int));
    out.append(shown.as_str());
    if n < v.len() {
        out.push('…');
    }
    assert(out@ =~= hint_text(comment.body@, side));
    out
}

/// How many units a text takes in UTF-16.
pub open spec fn utf16_units(s: Seq<char>) -> nat
    decreases s.len(),
{
    if s.len() == 0 {
        0
    } else {
        utf16_units(s.drop_last()) + if (s.last() as int) < 0x10000 {
            1nat
        } else {
            2nat
        }
    }
}

/// Where a line ends, in UTF-16 units; at 0 where there is no such line.
pub open spec fn line_end(content: Option<Seq<char>>, index: u32) -> u32 {
    match content {
        Some(s) => {
            let lines = text::lines_of(s);
            if index < lines.len() {
                utf16_units(lines[index as int]) as u32
            } else {
                0
            }
        },
        None => 0,
    }
}

/// Where a line ends, in UTF-16 units; at 0 where there is no such line.
pub fn line_end_utf16(content: Option<&str>, index: u32) -> (r: u32)
    ensures
        r == line_end(hash::opt_str(content), index),
{
    let s = match content {
        Some(s) => s,
        None => {
            return 0;
        },
    };
    let lines = text::lines(s);
    if index as usize >= lines.len() {
        return 0;
    }
    assert(text::lines_of(s@)[index as int] == lines@[index as int]@);
    let v = text::chars(lines[index as usize].as_str());
    let mut units: u128 = 0;
    let mut i: usize = 0;
    assert(v@.take(0) =~= seq![]);
    while i < v.len()
        invariant
            i <= v.len(),
            units == utf16_units(v@.take(i as int)),
            units <= 2 * i,
        decreases v.len() - i,
    {
        assert(v@.take(i + 1).drop_last() =~= v@.take(i as int));
        let c: u32 = text::code(v[i]);
        if c < 0x10000 {
            units += 1;
        } else {
            units += 2;
        }
        i += 1;
    }
    assert(v@.take(i as int) =~= v@);
    #[verifier::truncate]
    (units as u32)
}

/// A hint at the end of a line.
#[derive(Debug)]
pub struct Hint {
    pub line: u32,
    pub character: u32,
    pub label: String,
}

/// What a hint holds.
#[verifier::ext_equal]
pub struct HintView {
    pub line: u32,
    pub character: u32,
    pub label: Seq<char>,
}

impl View for Hint {
    type V = HintView;

    open spec fn view(&self) -> HintView {
        HintView { line: self.line, character: self.character, label: self.label@ }
    }
}

/// What some hints hold.
pub open spec fn hint_views(v: Seq<Hint>) -> Seq<HintView> {
    v.map_values(|h: Hint| h@)
}

/// The hint for a comment at the end of a line.
pub open spec fn hint_for(
    content: Option<Seq<char>>,
    index: u32,
    c: CommentView,
    side: Option<LineSide>,
) -> HintView {
    HintView { line: index, character: line_end(content, index), label: hint_text(c.body, side) }
}

/// The hints for the comments on lines of a range.
pub open spec fn hints_for_lines(
    content: Option<Seq<char>>,
    e: Seq<(LineKey, CommentView)>,
    start: u32,
    end: u32,
) -> Seq<HintView>
    decreases e.len(),
{
    if e.len() == 0 {
        seq![]
    } else {
        let front = hints_for_lines(content, e.drop_last(), start, end);
        let (k, c) = e.last();
        let index = index_of_line(k.line);
        if start <= index <= end {
            front.push(hint_for(content, index, c, Some(k.side)))
        } else {
            front
        }
    }
}

/// The hints for the comments of a file in a range of its lines: that on the file
/// stands on the first line.
pub open spec fn hints_for(
    content: Option<Seq<char>>,
    f: FileReviewView,
    start: u32,
    end: u32,
) -> Seq<HintView> {
    (match f.file_comment {
        Some(c) => if start == 0 {
            seq![hint_for(content, 0, c, None)]
        } else {
            seq![]
        },
        None => seq![],
    }) + hints_for_lines(content, ordmap::ordered::<LineKey, CommentView>(f.comments), start, end)
}

/// The hint for a comment at the end of a line.
fn make_inlay_hint(content: Option<&str>, index: u32, c: &Comment, side: Option<LineSide>) -> (h:
    Hint)
    ensures
        h@ == hint_for(hash::opt_str(content), index, c@, side),
{
    Hint { line: index, character: line_end_utf16(content, index), label: inlay_label(c, side) }
}

/// The hints for the comments of a file in a range of its lines; `content` is the
/// file as it is on disk.
pub fn inlay_hints(f: &FileReview, content: Option<&str>, start: u32, end: u32) -> (out: Vec<Hint>)
    ensures
        hint_views(out@) == hints_for(hash::opt_str(content), f@, start, end),
{
    let mut out: Vec<Hint> = Vec::new();
    let ghost text_of = hash::opt_str(content);
    match &f.file_comment {
        Some(c) => {
            if start == 0 {
                out.push(make_inlay_hint(content, 0, c, None));
            }
        },
        None => {},
    }
    let ghost head = hint_views(out@);
    assert(head =~= (match f@.file_comment {
        Some(c) => if start == 0 {
            seq![hint_for(text_of, 0, c, None)]
        } else {
            seq![]
        },
        None => seq![],
    }));
    let n: usize = f.comments.len();
    let ghost e = ordmap::ordered::<LineKey, CommentView>(f.comments@);
    let mut i: usize = 0;
    assert(head + hints_for_lines(text_of, e.take(0), start, end) =~= head);
    while i < n
        invariant
            i <= n == e.len(),
            e == ordmap::ordered::<LineKey, CommentView>(f.comments@),
            text_of == hash::opt_str(content),
            hint_views(out@) =~= head + hints_for_lines(text_of, e.take(i as int), start, end),
        decreases n - i,
    {
        proof {
            assert(e.take(i + 1).drop_last() =~= e.take(i as int));
        }
        let ghost before = hint_views(out@);
        let k = *f.comments.key_at(i);
        let c = f.comments.val_at(i);
        let index: u32 = k.line.saturating_sub(1);
        if start <= index && index <= end {
            let h = make_inlay_hint(content, index, c, Some(k.side));
            out.push(h);
            assert(hint_views(out@) =~= before.push(h@));
        }
        i += 1;
    }
    assert(e.take(i as int) =~= e);
    out
}

/// What is named with a command that the server gives out.
#[derive(Debug, Clone, Copy, PartialEq, Eq, Structural)]
pub struct ActionPlace {
    pub line: Option<u32>,
    pub side: Option<LineSide>,
    pub file_comment: bool,
}

/// What the server offers to do, with what the client is to send back.
#[derive(Debug)]
pub struct Action {
    pub title: String,
    pub command_title: String,
    pub command: RemarkCommand,
    pub place: Option<ActionPlace>,
}

/// What an offer holds.
#[verifier::ext_equal]
pub struct ActionView {
    pub title: Seq<char>,
    pub command_title: Seq<char>,
    pub command: RemarkCommand,
    pub place: Option<ActionPlace>,
}

impl View for Action {
    type V = ActionView;

    open spec fn view(&self) -> ActionView {
        ActionView {
            title: self.title@,
            command_title: self.command_title@,
            command: self.command,
            place: self.place,
        }
    }
}

/// What some offers hold.
pub open spec fn action_views(v: Seq<Action>) -> Seq<ActionView> {
    v.map_values(|a: Action| a@)
}

/// The mark of a side in the title of an offer.
pub open spec fn side_suffix(side: LineSide) -> Seq<char> {
    match side {
        LineSide::Old => " [old]"@,
        LineSide::New => seq![],
    }
}

/// The command that changes whether a comment is resolved.
pub open spec fn toggle_command(resolved: bool) -> RemarkCommand {
    if resolved {
        RemarkCommand::Unresolve
    } else {
        RemarkCommand::Resolve
    }
}

/// The offer to change whether the comment on a line is resolved.
pub open spec fn resolve_action(line: u32, side: LineSide, resolved: bool) -> ActionView {
    let title = (if resolved {
        "Unresolve remark comment"@
    } else {
        "Resolve remark comment"@
    }) + side_suffix(side);
    ActionView {
        title,
        command_title: title,
        command: toggle_command(resolved),
        place: Some(ActionPlace { line: Some(line), side: Some(side), file_comment: false }),
    }
}

/// The offer to change whether the comment on the file is resolved.
pub open spec fn file_comment_action(resolved: bool) -> ActionView {
    let title = if resolved {
        "Unresolve remark file comment"@
    } else {
        "Resolve remark file comment"@
    };
    ActionView {
        title,
        command_title: "Remark: "@ + title,
        command: toggle_command(resolved),
        place: Some(ActionPlace { line: None, side: None, file_comment: true }),
    }
}

/// The offer to start a comment on a line.
pub open spec fn add_line_action(line: u32, side: LineSide) -> ActionView {
    let title = "Remark: Add line comment"@ + side_suffix(side);
    ActionView {
        title,
        command_title: title,
        command: RemarkCommand::AddDraftComment,
        place: Some(ActionPlace { line: Some(line), side: Some(side), file_comment: false }),
    }
}

/// The offer to start a comment on the file.
pub open spec fn add_file_action() -> ActionView {
    ActionView {
        title: "Remark: Add file comment"@,
        command_title: "Remark: Add file comment"@,
        command: RemarkCommand::AddDraftComment,
        place: Some(ActionPlace { line: None, side: None, file_comment: true }),
    }
}

/// The offer to open the draft.
pub open spec fn open_prompt_action() -> ActionView {
    ActionView {
        title: "Remark: Open prompt"@,
        command_title: "Remark: Open prompt"@,
        command: RemarkCommand::OpenPrompt,
        place: None,
    }
}

/// An offer to change the comment on a line, where there is one.
pub open spec fn line_action(f: FileReviewView, line: u32, side: LineSide) -> Seq<ActionView> {
    let k = LineKey { side, line };
    if f.comments.contains_key(k) {
        seq![resolve_action(line, side, f.comments[k].resolved)]
    } else {
        seq![]
    }
}

/// What is offered on a line: to start a comment on it or on the file, to open the
/// draft, and to resolve the comments that are there.
pub open spec fn actions_for(f: FileReviewView, line: u32) -> Seq<ActionView> {
    seq![add_line_action(line, LineSide::New), add_file_action(), open_prompt_action()]
        + line_action(f, line, LineSide::New) + line_action(f, line, LineSide::Old) + (
    match f.file_comment {
        Some(c) => seq![file_comment_action(c.resolved)],
        None => seq![],
    })
}

/// The mark of a side in the title of an offer.
fn format_side_label(side: LineSide) -> (r: &'static str)
    ensures
        r@ == side_suffix(side),
{
    proof {
        reveal_strlit("");
        assert(""@ =~= seq![]);
    }
    match side {
        LineSide::Old => " [old]",
        LineSide::New => "",
    }
}

/// The command that changes whether a comment is resolved.
fn command_for(resolved: bool) -> (r: RemarkCommand)
    ensures
        r == toggle_command(resolved),
{
    if resolved {
        RemarkCommand::Unresolve
    } else {
        RemarkCommand::Resolve
    }
}

/// The offer to change whether the comment on a line is resolved.
pub fn make_resolve_action(line: u32, side: LineSide, resolved: bool) -> (a: Action)
    ensures
        a@ == resolve_action(line, side, resolved),
{
    let mut title = if resolved {
        "Unresolve remark comment".to_string()
    } else {
        "Resolve remark comment".to_string()
    };
    title.append(format_side_label(side));
    Action {
        title: title.clone(),
        command_title: title,
        command: command_for(resolved),
        place: Some(ActionPlace { line: Some(line), side: Some(side), file_comment: false }),
    }
}

/// The offer to change whether the comment on the file is resolved.
pub fn make_file_comment_action(resolved: bool) -> (a: Action)
    ensures
        a@ == file_comment_action(resolved),
{
    let title = if resolved {
        "Unresolve remark file comment"
    } else {
        "Resolve remark file comment"
    };
    let mut command_title = "Remark: ".to_string();
    command_title.append(title);
    Action {
        title: title.to_string(),
        command_title,
        command: command_for(resolved),
        place: Some(ActionPlace { line: None, side: None, file_comment: true }),
    }
}

/// The offer to start a comment on a line.
pub fn make_add_line_comment_action(line: u32, side: LineSide) -> (a: Action)
    ensures
        a@ == add_line_action(line, side),
{
    let mut title = "Remark: Add line comment".to_string();
    title.append(format_side_label(side));
    Action {
        title: title.clone(),
        command_title: title,
        command: RemarkCommand::AddDraftComment,
        place: Some(ActionPlace { line: Some(line), side: Some(side), file_comment: false }),
    }
}

/// The offer to start a comment on the file.
pub fn make_add_file_comment_action() -> (a: Action)
    ensures
        a@ == add_file_action(),
{
    Action {
        title: "Remark: Add file comment".to_string(),
        command_title: "Remark: Add file comment".to_string(),
        command: RemarkCommand::AddDraftComment,
        place: Some(ActionPlace { line: None, side: None, file_comment: true }),
    }
}

/// The offer to open the draft.
pub fn make_open_prompt_action() -> (a: Action)
    ensures
        a@ == open_prompt_action(),
{
    Action {
        title: "Remark: Open prompt".to_string(),
        command_title: "Remark: Open prompt".to_string(),
        command: RemarkCommand::OpenPrompt,
        place: None,
    }
}

/// Adds the offer to change the comment on a line, where there is one.
fn push_line_action(out: &mut Vec<Action>, f: &FileReview, line: u32, side: LineSide)
    ensures
        action_views(final(out)@) == action_views(old(out)@) + line_action(f@, line, side),
{
    let ghost before = action_views(out@);
    match f.comments.get(&LineKey { side, line }) {
        Some(c) => {
            out.push(make_resolve_action(line, side, c.resolved));
        },
        None => {},
    }
    assert(action_views(out@) =~= before + line_action(f@, line, side));
}

/// What is offered on the line of an index.
pub fn code_actions(f: &FileReview, line_index: u32) -> (out: Vec<Action>)
    ensures
        action_views(out@) == actions_for(f@, line_of(line_index)),
{
    let line: u32 = line_index.saturating_add(1);
    let mut out: Vec<Action> = Vec::new();
    out.push(make_add_line_comment_action(line, LineSide::New));
    out.push(make_add_file_comment_action());
    out.push(make_open_prompt_action());
    assert(action_views(out@) =~= seq![
        add_line_action(line, LineSide::New),
        add_file_action(),
        open_prompt_action(),
    ]);
    push_line_action(&mut out, f, line, LineSide::New);
    push_line_action(&mut out, f, line, LineSide::Old);
    let ghost before = action_views(out@);
    match &f.file_comment {
        Some(c) => {
            let a = make_file_comment_action(c.resolved);
            out.push(a);
            assert(action_views(out@) =~= before + seq![a@]);
        },
        None => {
            assert(action_views(out@) =~= before + Seq::<ActionView>::empty());
        },
    }
    out
}

/// A place in a text: the index of its line, and the units before it.
#[derive(Debug, Clone, Copy, PartialEq, Eq, Structural)]
pub struct Position {
    pub line: u32,
    pub character: u32,
}

/// A part of a text.
#[derive(Debug, Clone, Copy, PartialEq, Eq, Structural)]
pub struct Range {
    pub start: Position,
    pub end: Position,
}

/// How much a diagnostic matters.
#[derive(Debug, Clone, Copy, PartialEq, Eq, Structural)]
pub enum DiagnosticSeverity {
    Warning,
    Hint,
}

/// A comment as an editor shows it among its diagnostics.
#[derive(Debug)]
pub struct Diagnostic {
    pub range: Range,
    pub severity: Option<DiagnosticSeverity>,
    pub source: Option<String>,
    pub message: String,
}

/// What a diagnostic holds.
#[verifier::ext_equal]
pub struct DiagnosticView {
    pub range: Range,
    pub severity: Option<DiagnosticSeverity>,
    pub source: Option<Seq<char>>,
    pub message: Seq<char>,
}

impl View for Diagnostic {
    type V = DiagnosticView;

    open spec fn view(&self) -> DiagnosticView {
        DiagnosticView {
            range: self.range,
            severity: self.severity,
            source: text::opt_view(self.source),
            message: self.message@,
        }
    }
}

/// What some diagnostics hold.
pub open spec fn diagnostic_views(v: Seq<Diagnostic>) -> Seq<DiagnosticView> {
    v.map_values(|d: Diagnostic| d@)
}

/// The text of the diagnostic for a comment.
pub open spec fn diag_message(
    c: CommentView,
    side: Option<LineSide>,
    key: Option<LineKey>,
) -> Seq<char> {
    old_mark(side) + text::trimmed(c.body) + (match key {
        Some(k) => " (line "@ + text::decimal(k.line as nat) + ")"@,
        None => seq![],
    })
}

/// The start of a line.
pub open spec fn line_start(line: u32) -> Position {
    Position { line: index_of_line(line), character: 0 }
}

/// The diagnostic for a comment: at the start of its line, a warning unless it is
/// resolved.
pub open spec fn diag_for(
    line: u32,
    side: Option<LineSide>,
    c: CommentView,
    key: Option<LineKey>,
) -> DiagnosticView {
    DiagnosticView {
        range: Range { start: line_start(line), end: line_start(line) },
        severity: Some(
            if c.resolved {
                DiagnosticSeverity::Hint
            } else {
                DiagnosticSeverity::Warning
            },
        ),
        source: Some("remark"@),
        message: diag_message(c, side, key),
    }
}

/// The diagnostic for a comment.
pub fn build_diag(line: u32, side: Option<LineSide>, comment: &Comment, key: Option<LineKey>) -> (d:
    Diagnostic)
    ensures
        d@ == diag_for(line, side, comment@, key),
{
    let at = Position { line: line.saturating_sub(1), character: 0 };
    let mut message = String::new();
    match side {
        Some(LineSide::Old) => {
            message.append("[old] ");
        },
        _ => {},
    }
    assert(message@ =~= old_mark(side));
    let body = text::trim(comment.body.as_str());
    message.append(body.as_str());
    match key {
        Some(k) => {
            message.append(" (line ");
            text::push_decimal(&mut message, k.line as u64);
            message.append(")");
        },
        None => {},
    }
    assert(message@ =~= diag_message(comment@, side, key));
    Diagnostic {
        range: Range { start: at, end: at },
        severity: Some(
            if comment.resolved {
                DiagnosticSeverity::Hint
            } else {
                DiagnosticSeverity::Warning
            },
        ),
        source: Some("remark".to_string()),
        message,
    }
}

/// The diagnostics for line comments.
pub open spec fn diags_for_lines(e: Seq<(LineKey, CommentView)>) -> Seq<DiagnosticView>
    decreases e.len(),
{
    if e.len() == 0 {
        seq![]
    } else {
        let (k, c) = e.last();
        diags_for_lines(e.drop_last()).push(diag_for(k.line, Some(k.side), c, Some(k)))
    }
}

/// The diagnostics for the comments of a file: that on the file stands on the first
/// line.
pub open spec fn diags_for(f: FileReviewView) -> Seq<DiagnosticView> {
    (match f.file_comment {
        Some(c) => seq![diag_for(1, None, c, None)],
        None => seq![],
    }) + diags_for_lines(ordmap::ordered::<LineKey, CommentView>(f.comments))
}

/// The diagnostics for the comments of a file.
pub fn review_to_diagnostics(f: &FileReview) -> (out: Vec<Diagnostic>)
    ensures
        diagnostic_views(out@) == diags_for(f@),
{
    let mut out: Vec<Diagnostic> = Vec::new();
    match &f.file_comment {
        Some(c) => {
            out.push(build_diag(1, None, c, None));
        },
        None => {},
    }
    let ghost head = diagnostic_views(out@);
    assert(head =~= (match f@.file_comment {
        Some(c) => seq![diag_for(1, None, c, None)],
        None => seq![],
    }));
    let n: usize = f.comments.len();
    let ghost e = ordmap::ordered::<LineKey, CommentView>(f.comments@);
    let mut i: usize = 0;
    assert(head + diags_for_lines(e.take(0)) =~= head);
    while i < n
        invariant
            i <= n == e.len(),
            e == ordmap::ordered::<LineKey, CommentView>(f.comments@),
            diagnostic_views(out@) =~= head + diags_for_lines(e.take(i as int)),
        decreases n - i,
    {
        proof {
            assert(e.take(i + 1).drop_last() =~= e.take(i as int));
        }
        let ghost before = diagnostic_views(out@);
        let k = *f.comments.key_at(i);
        let d = build_diag(k.line, Some(k.side), f.comments.val_at(i), Some(k));
        out.push(d);
        assert(diagnostic_views(out@) =~= before.push(d@));
        i += 1;
    }
    assert(e.take(i as int) =~= e);
    out
}

/// What happened to a file.
#[derive(Debug, Clone, Copy, PartialEq, Eq, Structural)]
pub enum WatchKind {
    Any,
    Access,
    Create,
    Modify,
    Remove,
    Other,
}

/// Whether the draft is read again after what happened to a file: not where it was
/// only looked at, or it is not known what happened.
pub fn should_sync_event(kind: WatchKind) -> (r: bool)
    ensures
        r == (kind != WatchKind::Access && kind != WatchKind::Other),
{
    match kind {
        WatchKind::Access => false,
        WatchKind::Other => false,
        _ => true,
    }
}

/// What is known of the path of a file that something happened to.
#[derive(Debug, Clone, Copy, PartialEq, Eq, Structural)]
pub struct PathFacts {
    /// It is there, and lies in the work tree.
    pub in_root: bool,
    /// It lies in the directory of git.
    pub in_git_dir: bool,
    /// It is a file.
    pub is_file: bool,
    /// No rule says that it is to be ignored.
    pub is_listed: bool,
}

/// Whether the draft is read again after something happened to a file: where it is
/// one of the files of the work tree, and is not ignored.
pub fn should_sync_path(p: PathFacts) -> (r: bool)
    ensures
        r == (p.in_root && !p.in_git_dir && p.is_file && p.is_listed),
{
    p.in_root && !p.in_git_dir && p.is_file && p.is_listed
}

/// Whether the draft is read again after an event, by what is known of its paths.
pub fn event_matters(kind: WatchKind, paths: &Vec<PathFacts>) -> (r: bool)
    ensures
        r == (kind != WatchKind::Access && kind != WatchKind::Other && exists|i: int|
            0 <= i < paths@.len() && (#[trigger] paths@[i]).in_root && !paths@[i].in_git_dir
                && paths@[i].is_file && paths@[i].is_listed),
{
    if !should_sync_event(kind) {
        return false;
    }
    let mut i: usize = 0;
    while i < paths.len()
        invariant
            i <= paths.len(),
            kind != WatchKind::Access && kind != WatchKind::Other,
            forall|j: int|
                0 <= j < i ==> !((#[trigger] paths@[j]).in_root && !paths@[j].in_git_dir
                    && paths@[j].is_file && paths@[j].is_listed),
        decreases paths.len() - i,
    {
        if should_sync_path(paths[i]) {
            return true;
        }
        i += 1;
    }
    false
}

/// What the watcher is doing: it waits for an event, or looks for those that came
/// while the draft was read, and whether there was one.
#[derive(Debug, Clone, Copy, PartialEq, Eq, Structural)]
pub enum WatchPhase {
    Waiting,
    Draining { pending: bool },
}

/// What the watcher hears: that a file changed, that something went wrong, that
/// nothing more has come, or that nothing will.
#[derive(Debug, Clone, Copy, PartialEq, Eq, Structural)]
pub enum WatchInput {
    Change,
    Problem,
    Quiet,
    Closed,
}

/// What the watcher does next.
#[derive(Debug, Clone, Copy, PartialEq, Eq, Structural)]
pub enum WatchAction {
    /// Waits for an event.
    Wait,
    /// Reads the draft again, then looks for events.
    Sync,
    /// Looks for an event that has come.
    Look,
    /// Ends.
    Stop,
}

/// What the watcher does after what it heard. What went wrong is logged first.
pub open spec fn watched(phase: WatchPhase, input: WatchInput) -> (WatchPhase, WatchAction) {
    match (phase, input) {
        (_, WatchInput::Closed) => (phase, WatchAction::Stop),
        (WatchPhase::Waiting, WatchInput::Change) => (
            WatchPhase::Draining { pending: false },
            WatchAction::Sync,
        ),
        (WatchPhase::Waiting, _) => (WatchPhase::Waiting, WatchAction::Wait),
        (WatchPhase::Draining { .. }, WatchInput::Change) => (
            WatchPhase::Draining { pending: true },
            WatchAction::Look,
        ),
        (WatchPhase::Draining { pending }, WatchInput::Problem) => (
            WatchPhase::Draining { pending },
            WatchAction::Look,
        ),
        (WatchPhase::Draining { pending }, WatchInput::Quiet) => if pending {
            (WatchPhase::Draining { pending: false }, WatchAction::Sync)
        } else {
            (WatchPhase::Waiting, WatchAction::Wait)
        },
    }
}

/// What the watcher does after what it heard.
pub fn watch_step(phase: WatchPhase, input: WatchInput) -> (r: (WatchPhase, WatchAction))
    ensures
        r == watched(phase, input),
{
    match (phase, input) {
        (_, WatchInput::Closed) => (phase, WatchAction::Stop),
        (WatchPhase::Waiting, WatchInput::Change) => (
            WatchPhase::Draining { pending: false },
            WatchAction::Sync,
        ),
        (WatchPhase::Waiting, _) => (WatchPhase::Waiting, WatchAction::Wait),
        (WatchPhase::Draining { .. }, WatchInput::Change) => (
            WatchPhase::Draining { pending: true },
            WatchAction::Look,
        ),
        (WatchPhase::Draining { pending }, WatchInput::Problem) => (
            WatchPhase::Draining { pending },
            WatchAction::Look,
        ),
        (WatchPhase::Draining { pending }, WatchInput::Quiet) => if pending {
            (WatchPhase::Draining { pending: false }, WatchAction::Sync)
        } else {
            (WatchPhase::Waiting, WatchAction::Wait)
        },
    }
}

/// What the watcher is doing after some inputs.
pub open spec fn phase_after(phase: WatchPhase, inputs: Seq<WatchInput>) -> WatchPhase
    decreases inputs.len(),
{
    if inputs.len() == 0 {
        phase
    } else {
        watched(phase_after(phase, inputs.drop_last()), inputs.last()).0
    }
}

/// No change is missed: the draft is read at once, or as soon as nothing more has
/// come, however many events come in between.
pub proof fn law_change_is_synced(phase: WatchPhase, between: Seq<WatchInput>)
    requires
        forall|i: int|
            0 <= i < between.len() ==> (#[trigger] between[i]) == WatchInput::Change || between[i]
                == WatchInput::Problem,
    ensures
        ({
            let (next, action) = watched(phase, WatchInput::Change);
            action == WatchAction::Sync || watched(
                phase_after(next, between),
                WatchInput::Quiet,
            ).1 == WatchAction::Sync
        }),
    decreases between.len(),
{
    let (next, action) = watched(phase, WatchInput::Change);
    if action != WatchAction::Sync {
        lemma_stays_pending(between);
    }
}

proof fn lemma_stays_pending(between: Seq<WatchInput>)
    requires
        forall|i: int|
            0 <= i < between.len() ==> (#[trigger] between[i]) == WatchInput::Change || between[i]
                == WatchInput::Problem,
    ensures
        phase_after(WatchPhase::Draining { pending: true }, between) == (WatchPhase::Draining {
            pending: true,
        }),
    decreases between.len(),
{
    if between.len() > 0 {
        let front = between.drop_last();
        assert forall|i: int| 0 <= i < front.len() implies (#[trigger] front[i])
            == WatchInput::Change || front[i] == WatchInput::Problem by {
            assert(front[i] == between[i]);
        }
        lemma_stays_pending(front);
        assert(between[between.len() - 1] == between.last());
    }
}

/// The arguments that an editor starts the server with: the command of it, then the
/// words of what the user adds.
pub open spec fn server_args(extra: Option<Seq<char>>) -> Seq<Seq<char>> {
    seq!["lsp"@] + (match extra {
        Some(e) => add_cmd::words_of(e),
        None => seq![],
    })
}

/// How an editor starts the server: the program, its arguments and the environment.
#[derive(Debug)]
pub struct ServerCommand {
    pub command: String,
    pub args: Vec<String>,
    pub env: Vec<(String, String)>,
}

/// How an editor starts the server: the program, where it was found, its arguments, and
/// the environment of the shell as it is.
pub fn language_server_command(
    found: Option<String>,
    extra: Option<&str>,
    env: Vec<(String, String)>,
) -> (r: Result<ServerCommand, &'static str>)
    ensures
        match r {
            Ok(c) => {
                &&& found is Some && c.command@ == found->0@
                &&& text::views(c.args@) == server_args(
                    match extra {
                        Some(e) => Some(e@),
                        None => None,
                    },
                )
                &&& c.env == env
            },
            Err(e) => found is None && e@ == "remark binary not found in PATH"@,
        },
{
    let command = match found {
        Some(p) => p,
        None => {
            return Err("remark binary not found in PATH");
        },
    };
    let mut args: Vec<String> = Vec::new();
    args.push("lsp".to_string());
    assert(text::views(args@) =~= seq!["lsp"@]);
    match extra {
        Some(e) => {
            let mut more = add_cmd::words(e);
            let ghost words = text::views(more@);
            args.append(&mut more);
            assert(text::views(args@) =~= seq!["lsp"@] + words);
        },
        None => {
            assert(seq!["lsp"@] + Seq::<Seq<char>>::empty() =~= seq!["lsp"@]);
        },
    }
    Ok(ServerCommand { command, args, env })
}

} // verus!
