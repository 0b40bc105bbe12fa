//! What the functions themselves hand back, told from what goes into them.
use crate::add_cmd;
use crate::add_cmd::{AddError, BodySource};
use crate::areas;
use crate::comment_list;
use crate::comment_list::{CommentListEntry, ListJump};
use crate::config;
use crate::config::{AddCli, AppConfig, ArgError, Cli, ResolveCli};
use crate::diff;
use crate::diff::{Change, LineStatus};
use crate::draft::DraftFileReview;
use crate::file_tree::FileTreeView;
use crate::git;
use crate::git::ViewKind;
use crate::hash;
use crate::keys::Area;
use crate::listing;
use crate::lsp;
use crate::lsp::{Diagnostic, Hint, PathFacts, WatchKind};
use crate::lsp_rules;
use crate::metrics;
use crate::metrics::DiffMetrics;
use crate::notes;
use crate::ordmap::OrdMap;
use crate::panes;
use crate::panes::{JumpError, JumpTarget};
use crate::prompt_code;
use crate::resolve_cmd;
use crate::resolve_cmd::ResolveError;
use crate::review::{FileReview, LineKey, LineSide, Review};
use crate::rows;
use crate::rows::RenderRow;
use crate::screen;
use crate::session;
use crate::session::{CommentLocator, CommentTarget, FileEntry};
use crate::session_rules;
use crate::sync;
use crate::sync::{FileSync, SyncAction, SyncBias, SyncContext};
use crate::text;
use vstd::prelude::*;

verus! {

/// Where both sides have a comment on a line that differ, about code that is that of the
/// hash kept for both, bringing a file in step leaves both with what the draft says where
/// only the draft changed, and with what the notes say where only the notes did.
#[verifier::rlimit(40)]
pub proof fn law_sync_follows_the_side_that_changed(
    path: &str,
    draft: &DraftFileReview,
    notes: &FileReview,
    hashes: &OrdMap<String, String>,
    snippets: &OrdMap<LineKey, String>,
    bias: SyncBias,
    r: FileSync,
    k: LineKey,
)
    requires
        draft@.comments.contains_key(k),
        notes@.comments.contains_key(k),
        !notes@.comments[k].resolved,
        notes@.comments[k].body != draft@.comments[k],
        snippets@.contains_key(k),
        bias.change != Some(SyncAction::Keep),
        ({
            let key = hash::meta_key_text(path@, hash::side_name(k.side), k.line as nat);
            let now = hash::text_hash(hash::snippet_preimage(path@, k, snippets@[k]));
            &&& now is Some
            &&& hashes@.contains_key(key)
            &&& Some(hashes@[key]) == now
            &&& notes@.comments[k].snippet_hash is None || notes@.comments[k].snippet_hash == now
        }),
    ensures
        call_ensures(sync::sync_file, (path, draft, notes, hashes, snippets, bias), r) ==> {
            let d = r@.draft.comments;
            let n = r@.notes.comments;
            &&& d.contains_key(k) && n.contains_key(k) && !n[k].resolved && n[k].body == d[k]
            &&& bias.change == Some(SyncAction::NotesFromDraft) ==> d[k] == draft@.comments[k]
            &&& bias.change == Some(SyncAction::DraftFromNotes) ==> d[k] == notes@.comments[k].body
            &&& bias.change is None ==> d[k] == (if bias.draft_newer {
                draft@.comments[k]
            } else {
                notes@.comments[k].body
            })
        },
{
    if call_ensures(sync::sync_file, (path, draft, notes, hashes, snippets, bias), r) {
        let key = hash::meta_key_text(path@, hash::side_name(k.side), k.line as nat);
        assert(sync::at(draft@.comments, k) == Some(draft@.comments[k]));
        assert(sync::at(notes@.comments, k) == Some(notes@.comments[k]));
        assert(sync::at(hashes@, key) == Some(hashes@[key]));
        let ctx = SyncContext { path: path@, hashes: hashes@, snippets: snippets@, bias };
        let l = sync::line_result(draft@, notes@, ctx, k);
        assert(sync::code_hash(path@, k, snippets@) == Some(hashes@[key]));
        assert(sync::at(r@.draft.comments, k) == l.draft);
        assert(sync::at(r@.notes.comments, k) == l.note);
    }
}

/// A line of the new version is shown as added where the diff has it among the inserted
/// lines, and as unchanged where the diff has it as equal to a line of the old version,
/// whatever the numbers of the two; and every line is shown.
pub proof fn law_line_status_is_that_of_the_diff(
    changes: &Vec<Vec<Change>>,
    n: usize,
    out: Vec<LineStatus>,
    j: int,
)
    requires
        ({
            let c = diff::flat_changes(diff::hunk_view(changes@));
            &&& 0 <= j < c.len()
            &&& c[j].new_index is Some && c[j].new_index->0 < n
            &&& c[j].tag is Insert || c[j].tag is Equal
            &&& forall|i: int|
                0 <= i < c.len() && diff::is_new_line(#[trigger] c[i], c[j].new_index->0 as int)
                    ==> c[i].tag == c[j].tag
        }),
    ensures
        call_ensures(diff::line_statuses, (changes, n), out) ==> {
            let c = diff::flat_changes(diff::hunk_view(changes@));
            &&& out@.len() == n
            &&& c[j].tag is Insert ==> out@[c[j].new_index->0 as int] is Added
            &&& c[j].tag is Equal ==> out@[c[j].new_index->0 as int] is Unchanged
        },
{
    let c = diff::flat_changes(diff::hunk_view(changes@));
    diff::law_status_is_that_of_the_diff(c, c[j].new_index->0 as int);
    if c[j].tag is Insert {
        assert(diff::is_new_line(c[j], c[j].new_index->0 as int));
    }
}

/// The code around a line is made of the lines at most `context` lines from it, the line
/// itself among them, and there is some just where there is such a line.
pub proof fn law_code_around_a_line(
    lines: &Vec<String>,
    line: u32,
    context: u32,
    r: Option<String>,
)
    ensures
        call_ensures(prompt_code::snippet_from_lines, (lines, line, context), r) ==> {
            let all = text::views(lines@);
            let near = prompt_code::near_lines(all, line as int, context as int);
            &&& (r is Some) == (1 <= line <= lines@.len())
            &&& r is Some ==> r->0@ == text::joined(near, "\n"@) && near.contains(
                lines@[line - 1]@,
            )
            &&& r is Some && context == 0 ==> r->0@ == lines@[line - 1]@
        },
{
    prompt_code::law_snippet_is_what_stands_near(text::views(lines@), line, context);
    if 1 <= line <= lines@.len() {
        assert(text::views(lines@)[line - 1] == lines@[line - 1]@);
    }
}

/// The place of a row is the line that it shows: in the new version, by its number there,
/// where the new version has it, and else in the old one by its number there.
pub proof fn law_row_is_located_by_its_number(row: &RenderRow, r: Option<CommentLocator>)
    ensures
        call_ensures(session::locate_row, (row,), r) ==> {
            &&& (r == Some(CommentLocator::File)) == (row@ is FileHeader)
            &&& session_rules::shows_new_version(row@) ==> r == (match session_rules::new_number(
                row@,
            ) {
                Some(line) => Some(CommentLocator::Line { side: LineSide::New, line }),
                None => None,
            })
            &&& session_rules::shows_removed_line(row@) ==> r == (match session_rules::old_number(
                row@,
            ) {
                Some(line) => Some(CommentLocator::Line { side: LineSide::Old, line }),
                None => None,
            })
        },
{
    session_rules::law_place_is_the_line_shown(row@);
}

/// Each comment of a file has its diagnostic, on its line, and there is no other.
#[verifier::rlimit(40)]
pub proof fn law_diagnostics_are_those_of_the_comments(
    f: &FileReview,
    out: Vec<Diagnostic>,
    k: LineKey,
)
    requires
        f@.comments.dom().finite(),
        f@.comments.contains_key(k),
    ensures
        call_ensures(lsp::review_to_diagnostics, (f,), out) ==> {
            &&& out@.len() == lsp_rules::file_part(f@) + f@.comments.dom().len()
            &&& exists|i: int|
                0 <= i < out@.len() && lsp_rules::is_diagnostic_of(
                    #[trigger] out@[i]@,
                    k,
                    f@.comments[k],
                )
        },
{
    lsp_rules::law_each_comment_has_its_diagnostic(f@);
    if call_ensures(lsp::review_to_diagnostics, (f,), out) {
        let d = lsp::diags_for(f@);
        let i = choose|i: int|
            lsp_rules::file_part(f@) <= i < d.len() && lsp_rules::is_diagnostic_of(
                #[trigger] d[i],
                k,
                f@.comments[k],
            );
        assert(lsp::diagnostic_views(out@)[i] == out@[i]@);
        assert(lsp_rules::is_diagnostic_of(out@[i]@, k, f@.comments[k]));
    }
}

/// Each comment on a line that is looked at has its hint behind the line.
pub proof fn law_hints_are_those_of_the_comments(
    f: &FileReview,
    content: Option<&str>,
    start: u32,
    end: u32,
    out: Vec<Hint>,
    k: LineKey,
)
    requires
        f@.comments.dom().finite(),
        f@.comments.contains_key(k),
        start < k.line <= end,
    ensures
        call_ensures(lsp::inlay_hints, (f, content, start, end), out) ==> exists|i: int|
            0 <= i < out@.len() && lsp_rules::is_hint_of(
                #[trigger] out@[i]@,
                hash::opt_str(content),
                k,
                f@.comments[k],
            ),
{
    lsp_rules::law_each_comment_has_its_hint(hash::opt_str(content), f@, start, end, k);
    if call_ensures(lsp::inlay_hints, (f, content, start, end), out) {
        let h = lsp::hints_for(hash::opt_str(content), f@, start, end);
        let i = choose|i: int|
            0 <= i < h.len() && lsp_rules::is_hint_of(
                #[trigger] h[i],
                hash::opt_str(content),
                k,
                f@.comments[k],
            );
        assert(lsp::hint_views(out@)[i] == out@[i]@);
        assert(lsp_rules::is_hint_of(out@[i]@, hash::opt_str(content), k, f@.comments[k]));
    }
}

/// What is asked for on the command line goes before what is set in the file, and that
/// before what the repository says.
pub proof fn law_command_line_goes_first(
    c: &AppConfig,
    asked: Option<String>,
    own: String,
    own_base: Option<String>,
    flag: Option<bool>,
    notes_ref: String,
    base: Option<String>,
    ui_base: Option<String>,
    ignored: bool,
    fetch: bool,
)
    ensures
        call_ensures(config::resolve_notes_ref, (c, asked, own), notes_ref) ==> {
            &&& asked is Some ==> notes_ref@ == asked->0@
            &&& asked is None && c.notes_ref is Some ==> notes_ref@ == c.notes_ref->0@
            &&& asked is None && c.notes_ref is None ==> notes_ref@ == own@
        },
        call_ensures(config::resolve_base_ref_optional, (c, asked), base) ==> {
            &&& asked is Some ==> base is Some && base->0@ == asked->0@
            &&& asked is None ==> text::opt_view(base) == text::opt_view(c.base_ref)
        },
        call_ensures(config::resolve_base_ref_for_ui, (c, asked, own_base), ui_base) ==> {
            &&& asked is Some ==> ui_base is Some && ui_base->0@ == asked->0@
            &&& asked is None && c.base_ref is Some ==> text::opt_view(ui_base) == text::opt_view(
                c.base_ref,
            )
            &&& asked is None && c.base_ref is None ==> text::opt_view(ui_base) == text::opt_view(
                own_base,
            )
        },
        call_ensures(config::resolve_show_ignored, (c, flag), ignored) ==> {
            &&& flag is Some ==> ignored == flag->0
            &&& flag is None ==> ignored == c.show_ignored
        },
        call_ensures(config::resolve_fetch_notes, (c, flag), fetch) ==> {
            &&& flag is Some ==> fetch == flag->0
            &&& flag is None ==> fetch == c.fetch_notes
        },
{
}

/// What is only for the screen is refused beside a command, and nothing else is.
pub proof fn law_screen_flags_need_the_screen(cli: &Cli, r: Result<(), ArgError>)
    ensures
        call_ensures(config::validate_ui_args, (cli,), r) ==> {
            &&& cli.command is None ==> r is Ok
            &&& cli.command is Some ==> (r is Ok) == (cli.ui.show_ignored is None && cli.ui.view
                is None && cli.ui.file is None && cli.ui.line is None && cli.ui.side is None)
        },
{
}

/// The words of a comment come from the editor where that is asked for, or else from the
/// message; without either there is nothing to store.
pub proof fn law_words_come_from_the_editor_or_the_message(
    cmd: &AddCli,
    r: Result<BodySource, AddError>,
)
    ensures
        call_ensures(add_cmd::body_source, (cmd,), r) ==> {
            &&& cmd.edit ==> r == Ok::<BodySource, AddError>(BodySource::Editor)
            &&& !cmd.edit && cmd.message is Some ==> r is Ok && r->Ok_0 is Message
                && r->Ok_0->Message_0@ == cmd.message->0@
            &&& !cmd.edit && cmd.message is None ==> r is Err
        },
{
}

/// The editor that is asked for goes before the visual one of the environment, and that
/// before its plain one.
pub proof fn law_editor_that_is_asked_for_goes_first(
    asked: Option<String>,
    visual: Option<String>,
    editor: Option<String>,
    r: Option<String>,
)
    ensures
        call_ensures(add_cmd::choose_editor, (asked, visual, editor), r) ==> {
            &&& (r is Some) == (asked is Some || visual is Some || editor is Some)
            &&& asked is Some ==> r->0@ == asked->0@
            &&& asked is None && visual is Some ==> r->0@ == visual->0@
            &&& asked is None && visual is None && editor is Some ==> r->0@ == editor->0@
        },
{
}

/// The inside of a pane is what its border leaves, and never empty.
pub proof fn law_border_takes_one_on_each_side(pane: Area, r: (u16, u16))
    ensures
        call_ensures(areas::viewport, (pane,), r) ==> {
            &&& r.0 >= 1 && r.1 >= 1
            &&& pane.width >= 3 ==> r.0 == pane.width - 2
            &&& pane.height >= 3 ==> r.1 == pane.height - 2
        },
{
}

/// A file is found at the row that it is shown on, and where there is none nothing is found.
pub proof fn law_file_is_found_at_its_row(
    t: &FileTreeView,
    i: usize,
    row: Option<usize>,
    found: Option<usize>,
)
    ensures
        call_ensures(FileTreeView::selected_row, (t, i), row) ==> {
            &&& (row is Some) == (i < t.file_to_row@.len())
            &&& row is Some ==> row->0 == t.file_to_row@[i as int]
        },
        call_ensures(FileTreeView::file_at_row, (t, i), found) ==> {
            &&& found is Some ==> i < t.rows@.len()
            &&& i < t.rows@.len() ==> found == t.rows@[i as int].file_index
        },
{
}

/// Notes are fetched from the ref that is set to the same ref here, and the one by default
/// is used where none is set.
pub proof fn law_notes_ref_that_is_set_is_used(
    configured: Option<String>,
    name: &str,
    r: String,
    spec_text: String,
    key: String,
)
    ensures
        call_ensures(git::read_notes_ref, (configured,), r) ==> {
            &&& configured is Some ==> r@ == configured->0@
            &&& configured is None ==> r@ == git::default_notes_ref_text()
        },
        call_ensures(git::notes_refspec, (name,), spec_text) ==> spec_text@ == seq!['+'] + name@
            + seq![':'] + name@,
        call_ensures(git::branch_remote_key, (name,), key) ==> text::occurs(key@, name@),
{
    reveal_strlit("+");
    reveal_strlit(":");
    if call_ensures(git::notes_refspec, (name,), spec_text) {
        assert(spec_text@ =~= seq!['+'] + name@ + seq![':'] + name@);
    }
    if call_ensures(git::branch_remote_key, (name,), key) {
        let at = "branch."@.len() as int;
        assert(key@.subrange(at, at + name@.len()) =~= name@);
        assert(text::occurs_at(key@, name@, at));
    }
}

/// The author is the one that is named, or else the one who commits, or else the user.
pub proof fn law_named_author_goes_first(
    author: Option<String>,
    committer: Option<String>,
    user: Option<String>,
    name: String,
    email: String,
)
    ensures
        call_ensures(notes::author_name, (author, committer, user), name) ==> {
            &&& author is Some ==> name@ == author->0@
            &&& author is None && committer is Some ==> name@ == committer->0@
            &&& author is None && committer is None && user is Some ==> name@ == user->0@
        },
        call_ensures(notes::author_email, (author, committer), email) ==> {
            &&& author is Some ==> email@ == author->0@
            &&& author is None && committer is Some ==> email@ == committer->0@
        },
{
}

/// A change is looked at only where something happened to a listed file of the work tree
/// outside the directory of git; looking at a file is no change.
pub proof fn law_only_changes_of_listed_files_matter(
    kind: WatchKind,
    paths: &Vec<PathFacts>,
    p: PathFacts,
    one: bool,
    event: bool,
    path: bool,
)
    ensures
        call_ensures(lsp::should_sync_event, (kind,), event) ==> {
            &&& kind is Access ==> !event
            &&& kind is Create || kind is Modify || kind is Remove || kind is Any ==> event
        },
        call_ensures(lsp::should_sync_path, (p,), path) ==> {
            &&& path ==> p.in_root && p.is_file && p.is_listed && !p.in_git_dir
            &&& p.in_root && p.is_file && p.is_listed && !p.in_git_dir ==> path
        },
        call_ensures(lsp::event_matters, (kind, paths), one) && call_ensures(
            lsp::should_sync_event,
            (kind,),
            event,
        ) ==> {
            &&& one ==> event
            &&& one ==> exists|i: int|
                0 <= i < paths@.len() && is_of_interest(#[trigger] paths@[i])
        },
{
    if call_ensures(lsp::event_matters, (kind, paths), one) {
        if one {
            let i = choose|i: int|
                0 <= i < paths@.len() && (#[trigger] paths@[i]).in_root && !paths@[i].in_git_dir
                    && paths@[i].is_file && paths@[i].is_listed;
            assert(is_of_interest(paths@[i]));
        }
    }
}

/// Whether what is known of a path makes a change of it one that matters.
pub open spec fn is_of_interest(p: PathFacts) -> bool {
    p.in_root && p.is_file && p.is_listed && !p.in_git_dir
}

/// A line of the screen shows the row that covers it.
pub proof fn law_row_at_a_line_covers_it(m: &DiffMetrics, visual: u32, row: usize)
    requires
        metrics::are_stacked(m.offsets@, m.heights@, m.total),
        visual < m.total,
    ensures
        call_ensures(metrics::diff_row_at_visual_line, (m, visual), row) ==> m.offsets@[row as int]
            <= visual < m.offsets@[row as int] + m.heights@[row as int],
{
}

/// The screen opens at the file that is named and at the line of it that is named, in the
/// new version unless the other is named; a line needs a file, and a side needs a line.
pub proof fn law_screen_opens_where_it_is_told(
    path: Option<String>,
    line: Option<u32>,
    side: Option<LineSide>,
    r: Result<Option<JumpTarget>, JumpError>,
)
    ensures
        call_ensures(panes::build_jump_target, (path, line, side), r) ==> {
            let is_sound = path is Some && path->0@.len() > 0 && (side is Some ==> line is Some);
            &&& path is None && line is None && side is None ==> r is Ok && r->Ok_0 is None
            &&& is_sound ==> r is Ok && r->Ok_0 is Some && r->Ok_0->0.path@ == path->0@
            &&& is_sound && line is None ==> r->Ok_0->0.line is None
            &&& is_sound && line is Some ==> r->Ok_0->0.line is Some && r->Ok_0->0.line->0.line
                == line->0 && r->Ok_0->0.line->0.side == (if side is Some {
                side->0
            } else {
                LineSide::New
            })
            &&& path is None && (line is Some || side is Some) ==> r is Err
            &&& side is Some && line is None ==> r is Err
        },
{
}

/// A comment is resolved in every view of the work tree, and in that of a branch where
/// there is one.
pub proof fn law_comment_is_resolved_in_every_view(has_base: bool, v: Vec<ViewKind>, view: ViewKind)
    ensures
        call_ensures(resolve_cmd::resolve_views, (has_base,), v) ==> v@.contains(view) == (!(view
            is Base) || has_base),
{
    if call_ensures(resolve_cmd::resolve_views, (has_base,), v) {
        assert(v@[0] is All);
        assert(v@[1] is Staged);
        assert(v@[2] is Unstaged);
        if has_base {
            assert(v@[3] is Base);
        }
    }
}

/// The comment to resolve is the one at the place that is named, and a file is always named.
pub proof fn law_comment_to_resolve_is_the_one_named(
    cmd: &ResolveCli,
    r: Result<CommentTarget, ResolveError>,
)
    ensures
        call_ensures(resolve_cmd::plan_resolve, (cmd,), r) ==> {
            &&& cmd.file is None ==> r is Err
            &&& cmd.file_comment && cmd.line is Some ==> r is Err
            &&& cmd.file is Some && !(cmd.file_comment && cmd.line is Some) ==> r is Ok
                && r->Ok_0.path@ == cmd.file->0@ && (if cmd.line is None {
                r->Ok_0.locator is File
            } else {
                r->Ok_0.locator == (CommentLocator::Line {
                    side: if cmd.side is Some {
                        cmd.side->0
                    } else {
                        LineSide::New
                    },
                    line: cmd.line->0,
                })
            })
        },
{
}

/// The text cursor stands in its area, at its row and column, and is not shown outside.
pub proof fn law_text_cursor_stands_in_its_area(
    area: Area,
    row: usize,
    column: usize,
    r: Option<(u16, u16)>,
)
    requires
        area.x + area.width <= u16::MAX,
        area.y + area.height <= u16::MAX,
    ensures
        call_ensures(screen::text_cursor, (area, row, column), r) ==> {
            &&& (r is Some) == (row < area.height && column < area.width)
            &&& r matches Some((x, y)) ==> x - area.x == column && y - area.y == row
            &&& r matches Some((x, y)) ==> area.x <= x < area.x + area.width && area.y <= y
                < area.y + area.height
        },
{
}

/// The selected row is marked on the line of the window that it is shown on, where it is
/// shown.
pub proof fn law_selected_row_is_marked_where_it_is_shown(
    row: usize,
    scroll: usize,
    height: u16,
    r: Option<usize>,
)
    requires
        scroll <= row,
        height > 0,
    ensures
        call_ensures(screen::visible_selection, (Some(row), scroll, height), r) ==> {
            &&& (r is Some) == (row < scroll + height)
            &&& r is Some ==> r->0 + scroll == row
        },
{
}

/// The lines around a change are more or fewer by what is asked for, within what is shown at
/// most.
pub proof fn law_context_grows_by_what_is_asked(cur: u32, delta: i32, r: u32)
    requires
        cur <= panes::MAX_DIFF_CONTEXT,
    ensures
        call_ensures(panes::adjust_diff_context, (cur, delta), r) ==> {
            &&& r <= panes::MAX_DIFF_CONTEXT
            &&& 0 <= cur + delta <= panes::MAX_DIFF_CONTEXT ==> r == cur + delta
            &&& cur + delta < 0 ==> r == 0
            &&& cur + delta > panes::MAX_DIFF_CONTEXT ==> r == panes::MAX_DIFF_CONTEXT
        },
{
}

/// The next hunk is the nearest one below the cursor; without one the cursor stays.
pub proof fn law_next_hunk_is_the_nearest(
    diff_rows: &Vec<RenderRow>,
    diff_cursor: usize,
    r: usize,
    j: int,
)
    requires
        diff_cursor < j < diff_rows@.len(),
        diff_rows@[j]@ is Section,
    ensures
        call_ensures(panes::jump_next_hunk, (diff_rows, diff_cursor), r) ==> {
            &&& diff_cursor < r <= j
            &&& diff_rows@[r as int]@ is Section
        },
{
    let ok = panes::hunk_starts(rows::row_views(diff_rows@));
    lemma_found_next(ok, diff_cursor + 1, j);
    let n = panes::found_from(ok, diff_cursor + 1, true);
    assert(rows::row_views(diff_rows@)[n] == diff_rows@[n]@);
}

proof fn lemma_found_next(ok: Seq<bool>, i: int, j: int)
    requires
        0 <= i <= j < ok.len(),
        ok[j],
    ensures
        i <= panes::found_from(ok, i, true) <= j,
        ok[panes::found_from(ok, i, true)],
    decreases j - i,
{
    if !ok[i] {
        lemma_found_next(ok, i + 1, j);
    }
}

/// The body that the editor starts with is that of the comment at the place, if any.
pub proof fn law_editor_starts_with_what_is_there(r: &Review, target: &CommentTarget, out: String)
    ensures
        call_ensures(session::existing_body, (r, target), out) ==> {
            &&& session::comment_at(r@, target.path@, target.locator) matches Some(c) ==> out@
                == c.body
            &&& session::comment_at(r@, target.path@, target.locator) is None ==> out@.len() == 0
        },
{
}

/// What is commented on is the line under the cursor, in the selected file.
pub proof fn law_target_is_under_the_cursor(
    files: &Vec<FileEntry>,
    file_selected: usize,
    diff_rows: &Vec<RenderRow>,
    diff_cursor: usize,
    r: Option<CommentTarget>,
)
    requires
        file_selected < files@.len(),
        diff_cursor < diff_rows@.len(),
    ensures
        call_ensures(
            session::current_comment_target,
            (files, file_selected, diff_rows, diff_cursor),
            r,
        ) ==> {
            let row = diff_rows@[diff_cursor as int]@;
            let line = if session_rules::shows_new_version(row) {
                session_rules::new_number(row)
            } else {
                session_rules::old_number(row)
            };
            &&& r is Some ==> r->0.path@ == files@[file_selected as int].path@
            &&& row is FileHeader ==> r is Some && r->0.locator is File
            &&& row is Section ==> r is None
            &&& session_rules::shows_new_version(row) || session_rules::shows_removed_line(row)
                ==> (r is Some) == (line is Some)
            &&& (session_rules::shows_new_version(row) || session_rules::shows_removed_line(row))
                && r is Some ==> r->0.locator == (CommentLocator::Line {
                side: if session_rules::shows_new_version(row) {
                    LineSide::New
                } else {
                    LineSide::Old
                },
                line: line->0,
            })
        },
{
    session_rules::law_place_is_the_line_shown(diff_rows@[diff_cursor as int]@);
}

/// A jump from the list of comments leads to the file of the selected comment, where that
/// is shown, and to the place of the comment in it.
pub proof fn law_jump_leads_to_the_comment(
    list: &Vec<CommentListEntry>,
    selected: usize,
    files: &Vec<FileEntry>,
    r: ListJump,
)
    requires
        selected < list@.len(),
    ensures
        call_ensures(comment_list::jump_to_comment_list_entry, (list, selected, files), r) ==> {
            let path = list@[selected as int].path@;
            let is_shown = exists|i: int| 0 <= i < files@.len() && (#[trigger] files@[i]).path@ == path;
            &&& (r is File) == is_shown
            &&& (r is NotShown) == !is_shown
            &&& r matches ListJump::File { index, at } ==> index < files@.len()
                && files@[index as int].path@ == path && at == list@[selected as int].locator
        },
{
    lemma_position(files@, list@[selected as int].path@);
}

proof fn lemma_position(files: Seq<FileEntry>, path: Seq<char>)
    ensures
        match panes::position_of(files, path) {
            Some(n) => 0 <= n < files.len() && files[n].path@ == path,
            None => forall|i: int| 0 <= i < files.len() ==> (#[trigger] files[i]).path@ != path,
        },
    decreases files.len(),
{
    if files.len() > 0 {
        let rest = files.drop_first();
        lemma_position(rest, path);
        if files[0].path@ != path && panes::position_of(rest, path) is None {
            assert forall|i: int| 0 <= i < files.len() implies (#[trigger] files[i]).path@
                != path by {
                if i > 0 {
                    assert(rest[i - 1] == files[i]);
                }
            }
        }
    }
}

/// The name of a branch belongs to the key of a note in the view of the branch alone.
pub proof fn law_base_belongs_to_its_view(view: ViewKind, base: Option<String>, r: Option<String>)
    ensures
        call_ensures(listing::base_ref_for_key, (view, base), r) ==> {
            &&& view is Base ==> text::opt_view(r) == text::opt_view(base)
            &&& !(view is Base) ==> r is None
        },
{
}

} // verus!
