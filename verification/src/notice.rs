//! What the user interface reports in its footer.
use crate::text;
use vstd::prelude::*;

verus! {

/// Something that is reported.
#[derive(Debug, Clone, Copy, PartialEq, Eq, Structural)]
pub enum Notice {
    Resized,
    ShowingIgnored,
    HidingIgnored,
    Resolved,
    Unresolved,
    NoCommentHere,
    NotATarget,
    Canceled,
    ClosedPrompt,
    NoComments,
    NoBase,
    NoChanges,
    Reloaded,
    NoFiles,
    NoUnreviewed,
    NoFileSelected,
    MarkedReviewed,
    MarkedUnreviewed,
    Saved,
    EndOfFile,
    NotCommentable,
    DeletedComment,
    NoCommentOnLine,
    NotesDisabled,
    UnbornBranch,
}

impl Notice {
    /// What is reported.
    pub open spec fn text(self) -> Seq<char> {
        match self {
            Notice::Resized => "Resized"@,
            Notice::ShowingIgnored => "Showing ignored files"@,
            Notice::HidingIgnored => "Hiding ignored files"@,
            Notice::Resolved => "Resolved"@,
            Notice::Unresolved => "Unresolved"@,
            Notice::NoCommentHere => "No comment here"@,
            Notice::NotATarget => "Not a commentable target"@,
            Notice::Canceled => "Canceled"@,
            Notice::ClosedPrompt => "Closed prompt preview"@,
            Notice::NoComments => "No comments"@,
            Notice::NoBase => "No base ref set (pass --base <ref>)"@,
            Notice::NoChanges => "No changes"@,
            Notice::Reloaded => "Reloaded"@,
            Notice::NoFiles => "No files"@,
            Notice::NoUnreviewed => "No unreviewed files"@,
            Notice::NoFileSelected => "No file selected"@,
            Notice::MarkedReviewed => "Marked reviewed"@,
            Notice::MarkedUnreviewed => "Marked unreviewed"@,
            Notice::Saved => "Saved"@,
            Notice::EndOfFile => "End of file"@,
            Notice::NotCommentable => "Not a commentable line"@,
            Notice::DeletedComment => "Deleted comment"@,
            Notice::NoCommentOnLine => "No comment on this line"@,
            Notice::NotesDisabled => "No HEAD commit — notes disabled"@,
            Notice::UnbornBranch => "No HEAD commit (unborn branch) — notes disabled"@,
        }
    }

    /// What is reported.
    pub fn message(&self) -> (r: &'static str)
        ensures
            r@ == self.text(),
    {
        match self {
            Notice::Resized => "Resized",
            Notice::ShowingIgnored => "Showing ignored files",
            Notice::HidingIgnored => "Hiding ignored files",
            Notice::Resolved => "Resolved",
            Notice::Unresolved => "Unresolved",
            Notice::NoCommentHere => "No comment here",
            Notice::NotATarget => "Not a commentable target",
            Notice::Canceled => "Canceled",
            Notice::ClosedPrompt => "Closed prompt preview",
            Notice::NoComments => "No comments",
            Notice::NoBase => "No base ref set (pass --base <ref>)",
            Notice::NoChanges => "No changes",
            Notice::Reloaded => "Reloaded",
            Notice::NoFiles => "No files",
            Notice::NoUnreviewed => "No unreviewed files",
            Notice::NoFileSelected => "No file selected",
            Notice::MarkedReviewed => "Marked reviewed",
            Notice::MarkedUnreviewed => "Marked unreviewed",
            Notice::Saved => "Saved",
            Notice::EndOfFile => "End of file",
            Notice::NotCommentable => "Not a commentable line",
            Notice::DeletedComment => "Deleted comment",
            Notice::NoCommentOnLine => "No comment on this line",
            Notice::NotesDisabled => "No HEAD commit — notes disabled",
            Notice::UnbornBranch => "No HEAD commit (unborn branch) — notes disabled",
        }
    }
}

/// What is reported of a comment whose state was changed, or that was not there.
pub fn toggle_notice(state: Option<bool>) -> (r: Notice)
    ensures
        r == (match state {
            Some(true) => Notice::Resolved,
            Some(false) => Notice::Unresolved,
            None => Notice::NoCommentHere,
        }),
{
    match state {
        Some(true) => Notice::Resolved,
        Some(false) => Notice::Unresolved,
        None => Notice::NoCommentHere,
    }
}

/// A text with a number in it.
fn with_number(before: &str, n: u64, behind: &str) -> (out: String)
    ensures
        out@ == before@ + text::decimal(n as nat) + behind@,
{
    let mut out = before.to_string();
    text::push_decimal(&mut out, n);
    out.append(behind);
    assert(out@ =~= before@ + text::decimal(n as nat) + behind@);
    out
}

/// A text with another behind it.
fn with_text(before: &str, s: &str) -> (out: String)
    ensures
        out@ == before@ + s@,
{
    let mut out = before.to_string();
    out.append(s);
    assert(out@ =~= before@ + s@);
    out
}

/// That the diff was opened, with the number of its lines.
pub fn popup_open(lines: u64) -> (out: String)
    ensures
        out@ == "Diff popup open ("@ + text::decimal(lines as nat)
            + " lines), press ESC or 'H' to close"@,
{
    with_number("Diff popup open (", lines, " lines), press ESC or 'H' to close")
}

/// That the comments of some files were resolved.
pub fn resolved_comments(files: u64) -> (out: String)
    ensures
        out@ == "Resolved comments ("@ + text::decimal(files as nat) + ")"@,
{
    with_number("Resolved comments (", files, ")")
}

/// That the comments of some files were thrown away.
pub fn discarded_comments(files: u64) -> (out: String)
    ensures
        out@ == "Discarded comments ("@ + text::decimal(files as nat) + ")"@,
{
    with_number("Discarded comments (", files, ")")
}

/// That the diff does not show a line.
pub fn line_not_found(line: u32) -> (out: String)
    ensures
        out@ == "Line "@ + text::decimal(line as nat) + " not found in diff"@,
{
    with_number("Line ", line as u64, " not found in diff")
}

/// That a file is not in the list.
pub fn file_not_found(path: &str) -> (out: String)
    ensures
        out@ == "File not found: "@ + path@,
{
    with_text("File not found: ", path)
}

/// That the file to start at is not in the list.
pub fn file_not_in_view(path: &str) -> (out: String)
    ensures
        out@ == "File not found in view: "@ + path@,
{
    with_text("File not found in view: ", path)
}

/// That the prompt was copied, and how.
pub fn copied_prompt(method: &str) -> (out: String)
    ensures
        out@ == "Copied prompt to clipboard ("@ + method@ + ")"@,
{
    let mut out = with_text("Copied prompt to clipboard (", method);
    out.append(")");
    assert(out@ =~= "Copied prompt to clipboard ("@ + method@ + ")"@);
    out
}

} // verus!
