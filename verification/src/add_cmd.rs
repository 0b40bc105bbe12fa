//! Adding a comment: to the notes, or as a place to write it in the draft.
use crate::config::AddCli;
use crate::draft;
use crate::draft::{DraftReview, DraftView};
use crate::draft_ops::ApplySkip;
use crate::hash;
use crate::highlight;
use crate::review;
use crate::review::{FileReview, FileReviewView, LineKey, LineSide, Review};
use crate::session;
use crate::session::{CommentLocator, CommentTarget};
use crate::sync;
use crate::text;
use vstd::prelude::*;

verus! {

/// What is wrong with the arguments for a comment.
#[derive(Debug, Clone, Copy, PartialEq, Eq, Structural)]
pub enum AddError {
    DraftAndApply,
    MissingFile,
    FileCommentAndLine,
    MissingBody,
}

impl AddError {
    /// The error in words.
    pub open spec fn text(self) -> Seq<char> {
        match self {
            AddError::DraftAndApply => "use either --draft or --apply (not both)"@,
            AddError::MissingFile => "missing --file <path>"@,
            AddError::FileCommentAndLine => "use either --file-comment or --line (not both)"@,
            AddError::MissingBody => "missing comment body (use --message or --edit)"@,
        }
    }

    /// The error in words.
    pub fn message(&self) -> (r: &'static str)
        ensures
            r@ == self.text(),
    {
        match self {
            AddError::DraftAndApply => "use either --draft or --apply (not both)",
            AddError::MissingFile => "missing --file <path>",
            AddError::FileCommentAndLine => "use either --file-comment or --line (not both)",
            AddError::MissingBody => "missing comment body (use --message or --edit)",
        }
    }
}

/// The place of a comment: a line, of the new version where no side is named, or
/// the file where no line is.
pub open spec fn place_of(line: Option<u32>, side: Option<LineSide>) -> CommentLocator {
    match line {
        None => CommentLocator::File,
        Some(line) => CommentLocator::Line {
            side: match side {
                Some(s) => s,
                None => LineSide::New,
            },
            line,
        },
    }
}

/// The place of a comment: a line, of the new version where no side is named, or
/// the file where no line is.
pub fn place(line: Option<u32>, side: Option<LineSide>) -> (r: CommentLocator)
    ensures
        r == place_of(line, side),
{
    match line {
        None => CommentLocator::File,
        Some(line) => CommentLocator::Line {
            side: match side {
                Some(s) => s,
                None => LineSide::New,
            },
            line,
        },
    }
}

/// What adding a comment comes to.
#[derive(Debug)]
pub enum AddPlan {
    /// The comments of the draft are stored in the notes.
    Apply,
    /// A place to write the comment is made in the draft.
    Draft(CommentTarget),
    /// The comment is stored in the notes.
    Comment(CommentTarget),
}

/// What adding a comment comes to, by the arguments.
pub fn plan_add(cmd: &AddCli) -> (r: Result<AddPlan, AddError>)
    ensures
        ({
            let clash = cmd.draft && cmd.apply;
            let both = cmd.file_comment && cmd.line is Some;
            let at = place_of(cmd.line, cmd.side);
            match r {
                Err(AddError::DraftAndApply) => clash,
                Err(AddError::MissingFile) => !cmd.apply && cmd.file is None,
                Err(AddError::FileCommentAndLine) => !cmd.apply && cmd.file is Some && both,
                Err(AddError::MissingBody) => false,
                Ok(AddPlan::Apply) => cmd.apply && !cmd.draft,
                Ok(AddPlan::Draft(t)) => {
                    &&& cmd.draft && !cmd.apply && cmd.file is Some && !both
                    &&& t.path@ == cmd.file->0@
                    &&& t.locator == at
                },
                Ok(AddPlan::Comment(t)) => {
                    &&& !cmd.draft && !cmd.apply && cmd.file is Some && !both
                    &&& t.path@ == cmd.file->0@
                    &&& t.locator == at
                },
            }
        }),
{
    if cmd.draft && cmd.apply {
        return Err(AddError::DraftAndApply);
    }
    if cmd.apply {
        return Ok(AddPlan::Apply);
    }
    let path = match &cmd.file {
        Some(f) => f.clone(),
        None => {
            return Err(AddError::MissingFile);
        },
    };
    if cmd.file_comment && cmd.line.is_some() {
        return Err(AddError::FileCommentAndLine);
    }
    let target = CommentTarget { path, locator: place(cmd.line, cmd.side) };
    if cmd.draft {
        Ok(AddPlan::Draft(target))
    } else {
        Ok(AddPlan::Comment(target))
    }
}

/// Where the text of a comment comes from.
#[derive(Debug)]
pub enum BodySource {
    Editor,
    Message(String),
}

/// Where the text of a comment comes from: an editor where one is asked for, else
/// the message.
pub fn body_source(cmd: &AddCli) -> (r: Result<BodySource, AddError>)
    ensures
        match r {
            Ok(BodySource::Editor) => cmd.edit,
            Ok(BodySource::Message(m)) => !cmd.edit && cmd.message is Some && m@
                == cmd.message->0@,
            Err(e) => !cmd.edit && cmd.message is None && e == AddError::MissingBody,
        },
{
    if cmd.edit {
        return Ok(BodySource::Editor);
    }
    match &cmd.message {
        Some(m) => Ok(BodySource::Message(m.clone())),
        None => Err(AddError::MissingBody),
    }
}

/// What is stored of a file, nothing where nothing is.
pub open spec fn stored(existing: Option<&FileReview>) -> FileReviewView {
    match existing {
        Some(f) => f@,
        None => FileReviewView::blank(),
    }
}

/// The text of the comment that is stored at a place of a file.
pub open spec fn stored_body(f: FileReviewView, at: CommentLocator) -> Option<Seq<char>> {
    let c = match at {
        CommentLocator::File => f.file_comment,
        CommentLocator::Line { side, line } => sync::at(f.comments, LineKey { side, line }),
    };
    match c {
        Some(c) => Some(c.body),
        None => None,
    }
}

/// The text of the comment that is stored at a place of a file.
pub fn find_body(existing: Option<&FileReview>, at: CommentLocator) -> (r: Option<String>)
    ensures
        text::opt_view(r) == stored_body(stored(existing), at),
{
    match existing {
        None => None,
        Some(f) => match at {
            CommentLocator::File => match &f.file_comment {
                Some(c) => Some(c.body.clone()),
                None => None,
            },
            CommentLocator::Line { side, line } => match f.comments.get(&LineKey { side, line }) {
                Some(c) => Some(c.body.clone()),
                None => None,
            },
        },
    }
}

/// The text that the editor starts with.
pub fn initial_body(existing: Option<&FileReview>, at: CommentLocator) -> (out: String)
    ensures
        out@ == (match stored_body(stored(existing), at) {
            Some(b) => b,
            None => seq![],
        }),
{
    match find_body(existing, at) {
        Some(b) => b,
        None => String::new(),
    }
}

/// What is to be stored of a file after a comment was added to it; nothing where its
/// note is to be taken away. `hash` is that of the code on the line, where it is known.
pub fn add_comment(
    existing: Option<FileReview>,
    target: &CommentTarget,
    body: String,
    hash: Option<String>,
) -> (r: Option<FileReview>)
    ensures
        ({
            let m = match existing {
                Some(f) => Map::<Seq<char>, FileReviewView>::empty().insert(target.path@, f@),
                None => Map::<Seq<char>, FileReviewView>::empty(),
            };
            let after = session::with_comment(
                m,
                target.path@,
                target.locator,
                body@,
                text::opt_view(hash),
            );
            match r {
                Some(f) => after.contains_key(target.path@) && f@ == after[target.path@],
                None => !after.contains_key(target.path@),
            }
        }),
{
    let mut all = Review::new();
    match existing {
        Some(f) => {
            all.files.insert(target.path.clone(), f);
        },
        None => {},
    }
    match target.locator {
        CommentLocator::File => {
            all.set_file_comment(target.path.as_str(), body);
        },
        CommentLocator::Line { side, line } => {
            all.set_line_comment(target.path.as_str(), side, line, body);
            if hash.is_some() {
                all.set_line_comment_snippet_hash(target.path.as_str(), side, line, hash);
            }
        },
    }
    all.files.remove(&target.path)
}

/// A comment that was added is read back from what is stored.
pub proof fn law_added_comment_reads_back(
    m: review::ReviewView,
    path: Seq<char>,
    at: CommentLocator,
    body: Seq<char>,
    code: Option<Seq<char>>,
)
    requires
        !text::is_blank(body),
    ensures
        ({
            let after = session::with_comment(m, path, at, body, code);
            after.contains_key(path) && stored_body(after[path], at) == Some(body)
        }),
{
    match at {
        CommentLocator::File => {
            review::law_file_comment_reads_back(m, path, body);
        },
        CommentLocator::Line { side, line } => {
            let k = LineKey { side, line };
            review::law_line_comment_reads_back(m, path, k, body);
        },
    }
}

/// The text in a draft at a place.
pub open spec fn draft_body(d: DraftView, path: Seq<char>, at: CommentLocator) -> Option<
    Seq<char>,
> {
    let f = draft::draft_or_blank(d, path);
    match at {
        CommentLocator::File => f.file_comment,
        CommentLocator::Line { side, line } => sync::at(f.comments, LineKey { side, line }),
    }
}

/// A draft with a text at a place.
pub open spec fn with_draft_body(
    d: DraftView,
    path: Seq<char>,
    at: CommentLocator,
    body: Seq<char>,
) -> DraftView {
    match at {
        CommentLocator::File => draft::with_draft_file_comment(d, path, body),
        CommentLocator::Line { side, line } => draft::with_draft_line_comment(
            d,
            path,
            LineKey { side, line },
            body,
        ),
    }
}

/// The text that a place in the draft starts with: what the draft has there, else
/// what is stored, and where that is blank the mark of a place to write in.
pub open spec fn started_body(
    d: DraftView,
    existing: FileReviewView,
    path: Seq<char>,
    at: CommentLocator,
) -> Seq<char> {
    let body = match draft_body(d, path, at) {
        Some(b) => b,
        None => match stored_body(existing, at) {
            Some(b) => b,
            None => seq![],
        },
    };
    if text::is_blank(body) {
        draft::placeholder()
    } else {
        body
    }
}

/// Makes a place to write a comment in the draft.
pub fn write_draft(d: &mut DraftReview, existing: Option<&FileReview>, target: &CommentTarget)
    ensures
        final(d)@ == with_draft_body(
            old(d)@,
            target.path@,
            target.locator,
            started_body(old(d)@, stored(existing), target.path@, target.locator),
        ),
{
    let path = target.path.as_str();
    let written = match target.locator {
        CommentLocator::File => match d.file_comment(path) {
            Some(b) => Some(b.to_string()),
            None => None,
        },
        CommentLocator::Line { side, line } => match d.line_comment(path, side, line) {
            Some(b) => Some(b.to_string()),
            None => None,
        },
    };
    let body = match written {
        Some(b) => b,
        None => initial_body(existing, target.locator),
    };
    let body = if text::blank(body.as_str()) {
        "<!-- remark:write comment -->".to_string()
    } else {
        body
    };
    match target.locator {
        CommentLocator::File => {
            d.set_file_comment(path, body);
        },
        CommentLocator::Line { side, line } => {
            d.set_line_comment(path, side, line, body);
        },
    }
}

/// The place of a comment in the draft that is to be taken out: the file, or a line
/// where the line and its side are named.
pub fn place_in_draft(line: Option<u32>, side: Option<LineSide>, file_comment: bool) -> (r: Option<
    CommentLocator,
>)
    ensures
        r == (if file_comment {
            Some(CommentLocator::File)
        } else if line is Some && side is Some {
            Some(CommentLocator::Line { side: side->0, line: line->0 })
        } else {
            None
        }),
{
    if file_comment {
        return Some(CommentLocator::File);
    }
    match (line, side) {
        (Some(line), Some(side)) => Some(CommentLocator::Line { side, line }),
        _ => None,
    }
}

/// Takes a comment out of the draft, and says whether the draft has to be written.
pub fn remove_from_draft(d: &mut DraftReview, target: &CommentTarget) -> (touched: bool)
    ensures
        touched == (draft_body(old(d)@, target.path@, target.locator) is Some),
        final(d)@ == (match target.locator {
            CommentLocator::File => draft::without_draft_file_comment(old(d)@, target.path@),
            CommentLocator::Line { side, line } => draft::without_draft_line_comment(
                old(d)@,
                target.path@,
                LineKey { side, line },
            ),
        }),
{
    match target.locator {
        CommentLocator::File => d.remove_file_comment(target.path.as_str()),
        CommentLocator::Line { side, line } => d.remove_line_comment(
            target.path.as_str(),
            side,
            line,
        ),
    }
}

/// Whether what is kept beside the draft has to be made again: it cannot be read, is
/// blank, or cannot be understood.
pub fn needs_meta(content: Option<&str>, understood: bool) -> (r: bool)
    ensures
        r == (content is None || text::is_blank(content->0@) || !understood),
{
    match content {
        None => true,
        Some(c) => text::blank(c) || !understood,
    }
}

/// The words of a text that white space parts.
pub open spec fn words_of(s: Seq<char>) -> Seq<Seq<char>>
    decreases s.len(),
    via words_of_decreases
{
    let t = text::trimmed_start(s);
    if t.len() == 0 {
        seq![]
    } else {
        seq![highlight::first_word(s)] + words_of(t.skip(highlight::word_len(t) as int))
    }
}

#[via_fn]
proof fn words_of_decreases(s: Seq<char>) {
    lemma_first_word(s);
}

/// The first word is not empty where there is one, and no longer than the text.
proof fn lemma_first_word(s: Seq<char>)
    ensures
        ({
            let t = text::trimmed_start(s);
            &&& t.len() <= s.len()
            &&& highlight::word_len(t) <= t.len()
            &&& t.len() > 0 ==> highlight::word_len(t) > 0
        }),
{
    lemma_trimmed_start(s);
    lemma_word_fits(text::trimmed_start(s));
}

proof fn lemma_trimmed_start(s: Seq<char>)
    ensures
        text::trimmed_start(s).len() <= s.len(),
        text::trimmed_start(s).len() > 0 ==> !text::is_space(text::trimmed_start(s)[0]),
    decreases s.len(),
{
    if s.len() > 0 && text::is_space(s[0]) {
        lemma_trimmed_start(s.drop_first());
    }
}

proof fn lemma_word_fits(s: Seq<char>)
    ensures
        highlight::word_len(s) <= s.len(),
    decreases s.len(),
{
    if s.len() > 0 && !text::is_space(s[0]) {
        lemma_word_fits(s.drop_first());
    }
}

/// The words of a text that white space parts.
pub fn words(s: &str) -> (out: Vec<String>)
    ensures
        text::views(out@) == words_of(s@),
{
    let mut rest = s.to_string();
    let mut out: Vec<String> = Vec::new();
    let ghost want = words_of(s@);
    assert(text::views(out@) + want =~= want);
    loop
        invariant
            want == words_of(s@),
            text::views(out@) + words_of(rest@) == want,
        ensures
            text::views(out@) == want,
        decreases rest@.len(),
    {
        let word = highlight::leading_word(rest.as_str());
        let t = text::trim_start(rest.as_str());
        proof {
            lemma_first_word(rest@);
        }
        let v = text::chars(t.as_str());
        if v.len() == 0 {
            assert(text::views(out@) + words_of(rest@) =~= text::views(out@));
            break;
        }
        let n: usize = text::chars(word.as_str()).len();
        let next = text::string_of(&v, n, v.len());
        let ghost before = text::views(out@);
        assert(next@ =~= t@.skip(n as int));
        out.push(word);
        assert(text::views(out@) =~= before.push(word@));
        assert(before + (seq![word@] + words_of(next@)) =~= before.push(word@) + words_of(next@));
        rest = next;
    }
    out
}

/// The editor to use: the one that is asked for, else the visual one of the
/// environment, else its plain one.
pub fn choose_editor(asked: Option<String>, visual: Option<String>, editor: Option<String>) -> (r:
    Option<String>)
    ensures
        text::opt_view(r) == (if asked is Some {
            text::opt_view(asked)
        } else if visual is Some {
            text::opt_view(visual)
        } else {
            text::opt_view(editor)
        }),
{
    match asked {
        Some(a) => Some(a),
        None => match visual {
            Some(v) => Some(v),
            None => editor,
        },
    }
}

/// The program and the arguments of an editor command; nothing where it is blank.
pub fn editor_command(command: &str) -> (r: Option<(String, Vec<String>)>)
    ensures
        match r {
            Some(c) => seq![c.0@] + text::views(c.1@) == words_of(command@),
            None => words_of(command@).len() == 0,
        },
{
    let mut parts = words(command);
    let ghost all = text::views(parts@);
    if parts.len() == 0 {
        return None;
    }
    let program = parts.remove(0);
    assert(seq![program@] + text::views(parts@) =~= all);
    Some((program, parts))
}

/// What is said of a comment of the draft that could not be stored.
pub open spec fn skip_text(file: Seq<char>, skip: ApplySkip) -> Seq<char> {
    "remark: skipped "@ + file + ":"@ + text::decimal(skip.line as nat) + " ("@
        + hash::side_name(skip.side) + ") - "@ + skip.reason.text()
}

/// What is said of a comment of the draft that could not be stored.
pub fn skip_line(file: &str, skip: &ApplySkip) -> (out: String)
    ensures
        out@ == skip_text(file@, *skip),
{
    let mut out = String::new();
    out.append("remark: skipped ");
    out.append(file);
    out.append(":");
    text::push_decimal(&mut out, skip.line as u64);
    out.append(" (");
    out.append(hash::side_label(skip.side));
    out.append(") - ");
    out.append(skip.reason.message());
    assert(out@ =~= skip_text(file@, *skip));
    out
}

} // verus!
