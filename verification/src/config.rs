//! What the program is asked to do: its arguments and its configuration.
use crate::git::ViewKind;
use crate::review;
use crate::review::LineSide;
use crate::text;
use vstd::prelude::*;

verus! {

/// The configuration, from files and the environment.
#[derive(Debug)]
pub struct AppConfig {
    pub notes_ref: Option<String>,
    pub base_ref: Option<String>,
    pub show_ignored: bool,
    pub fetch_notes: bool,
}

/// The arguments of the program.
#[derive(Debug)]
pub struct Cli {
    pub global: GlobalArgs,
    pub command: Option<Command>,
    pub ui: UiArgs,
}

/// The arguments that every command takes.
#[derive(Debug)]
pub struct GlobalArgs {
    pub config_file: Option<String>,
    pub notes_ref: Option<String>,
    pub base_ref: Option<String>,
    pub fetch_notes: Option<bool>,
}

/// The commands.
#[derive(Debug)]
pub enum Command {
    Prompt(PromptCli),
    Resolve(ResolveCli),
    Add(AddCli),
    Draft(DraftCli),
    New(NewCli),
    Purge(PurgeCli),
    Lsp(LspCli),
}

/// The arguments of the user interface.
#[derive(Debug)]
pub struct UiArgs {
    pub show_ignored: Option<bool>,
    pub view: Option<ViewKind>,
    pub file: Option<String>,
    pub line: Option<u32>,
    pub side: Option<LineSide>,
}

/// The arguments of the prompt.
#[derive(Debug)]
pub struct PromptCli {
    pub filter: PromptFilter,
    pub copy: bool,
}

/// Which files go into the prompt.
#[derive(Debug, Clone, Copy, PartialEq, Eq, Structural)]
pub enum PromptFilter {
    All,
    Unstaged,
    Staged,
    Base,
}

/// The arguments for resolving a comment.
#[derive(Debug)]
pub struct ResolveCli {
    pub file: Option<String>,
    pub line: Option<u32>,
    pub side: Option<LineSide>,
    pub file_comment: bool,
    pub unresolve: bool,
}

/// The arguments for adding a comment.
#[derive(Debug)]
pub struct AddCli {
    pub file: Option<String>,
    pub line: Option<u32>,
    pub side: Option<LineSide>,
    pub file_comment: bool,
    pub message: Option<String>,
    pub edit: bool,
    pub editor: Option<String>,
    pub draft: bool,
    pub apply: bool,
    pub print_path: bool,
}

/// The arguments for showing where the draft is.
#[derive(Debug)]
pub struct DraftCli {}

/// The arguments for starting new notes.
#[derive(Debug)]
pub struct NewCli {}

/// The arguments for deleting all notes.
#[derive(Debug)]
pub struct PurgeCli {
    pub yes: bool,
}

/// The arguments of the language server.
#[derive(Debug)]
pub struct LspCli {
    pub include_resolved: bool,
    pub no_inlay_hints: bool,
    pub no_diagnostics: bool,
}

impl UiArgs {
    /// Whether an argument of the user interface was given.
    pub open spec fn is_given(self) -> bool {
        self.show_ignored is Some || self.view is Some || self.file is Some || self.line is Some
            || self.side is Some
    }

    /// Whether an argument of the user interface was given.
    pub fn has_any(&self) -> (r: bool)
        ensures
            r == self.is_given(),
    {
        self.show_ignored.is_some() || self.view.is_some() || self.file.is_some()
            || self.line.is_some() || self.side.is_some()
    }
}

/// What is wrong with the arguments.
#[derive(Debug, Clone, Copy, PartialEq, Eq, Structural)]
pub enum ArgError {
    UiFlagsWithCommand,
}

impl ArgError {
    /// The error in words.
    pub open spec fn text(self) -> Seq<char> {
        "UI-only flags (--ignored/--view/--file/--line/--side) require no subcommand"@
    }

    /// The error in words.
    pub fn message(&self) -> (r: &'static str)
        ensures
            r@ == self.text(),
    {
        "UI-only flags (--ignored/--view/--file/--line/--side) require no subcommand"
    }
}

/// Refuses arguments of the user interface beside a command.
pub fn validate_ui_args(cli: &Cli) -> (r: Result<(), ArgError>)
    ensures
        r == (if cli.command is Some && cli.ui.is_given() {
            Err::<(), ArgError>(ArgError::UiFlagsWithCommand)
        } else {
            Ok(())
        }),
{
    if cli.command.is_none() {
        return Ok(());
    }
    if cli.ui.has_any() {
        return Err(ArgError::UiFlagsWithCommand);
    }
    Ok(())
}

/// The base that was asked for, else the configured one.
pub fn resolve_base_ref_optional(config: &AppConfig, cli_base_ref: Option<String>) -> (r: Option<
    String,
>)
    ensures
        text::opt_view(r) == (if cli_base_ref is Some {
            text::opt_view(cli_base_ref)
        } else {
            text::opt_view(config.base_ref)
        }),
{
    match cli_base_ref {
        Some(b) => Some(b),
        None => review::copy_opt(&config.base_ref),
    }
}

/// The notes that were asked for, else the configured ones, else those of the
/// repository.
pub fn resolve_notes_ref(
    config: &AppConfig,
    cli_notes_ref: Option<String>,
    repo_notes_ref: String,
) -> (r: String)
    ensures
        r@ == (match (cli_notes_ref, config.notes_ref) {
            (Some(n), _) => n@,
            (None, Some(n)) => n@,
            (None, None) => repo_notes_ref@,
        }),
{
    match cli_notes_ref {
        Some(n) => n,
        None => match &config.notes_ref {
            Some(n) => n.clone(),
            None => repo_notes_ref,
        },
    }
}

/// The base that was asked for, else the configured one, else that of the repository.
pub fn resolve_base_ref_for_ui(
    config: &AppConfig,
    cli_base_ref: Option<String>,
    repo_base_ref: Option<String>,
) -> (r: Option<String>)
    ensures
        text::opt_view(r) == (if cli_base_ref is Some {
            text::opt_view(cli_base_ref)
        } else if config.base_ref is Some {
            text::opt_view(config.base_ref)
        } else {
            text::opt_view(repo_base_ref)
        }),
{
    match resolve_base_ref_optional(config, cli_base_ref) {
        Some(b) => Some(b),
        None => repo_base_ref,
    }
}

/// Whether ignored files are listed: as asked for, else as configured.
pub fn resolve_show_ignored(config: &AppConfig, cli_show_ignored: Option<bool>) -> (r: bool)
    ensures
        r == (match cli_show_ignored {
            Some(b) => b,
            None => config.show_ignored,
        }),
{
    match cli_show_ignored {
        Some(b) => b,
        None => config.show_ignored,
    }
}

/// Whether missing notes are fetched: as asked for, else as configured.
pub fn resolve_fetch_notes(config: &AppConfig, cli_fetch_notes: Option<bool>) -> (r: bool)
    ensures
        r == (match cli_fetch_notes {
            Some(b) => b,
            None => config.fetch_notes,
        }),
{
    match cli_fetch_notes {
        Some(b) => b,
        None => config.fetch_notes,
    }
}

} // verus!
