//! Terminal-first code review notes: the data model, the rules and the text
//! formats behind the program, each function with its contract.
pub mod add_cmd;
pub mod areas;
pub mod buffer_rules;
pub mod clipboard;
pub mod comment_list;
pub mod config;
pub mod diff;
pub mod display_rules;
pub mod draft;
pub mod draft_ops;
pub mod draft_text;
pub mod file_note;
pub mod file_tree;
pub mod function_rules;
pub mod git;
pub mod hash;
pub mod highlight;
pub mod hunk_rules;
pub mod in_step;
pub mod input_rules;
pub mod keys;
pub mod listing;
pub mod lsp;
pub mod lsp_rules;
pub mod metrics;
pub mod name_rules;
pub mod note_buffer;
pub mod notes;
pub mod notice;
pub mod ordmap;
pub mod panes;
pub mod probe;
pub mod prompt_cmd;
pub mod prompt_code;
pub mod reload;
pub mod repo_rules;
pub mod resolve_cmd;
pub mod review;
pub mod review_rules;
pub mod round_trip;
pub mod rows;
pub mod rows_rules;
pub mod screen;
pub mod screen_rules;
pub mod session;
pub mod session_rules;
pub mod store_rules;
pub mod style;
pub mod sync;
pub mod sync_rules;
pub mod text;
pub mod text_rules;
pub mod ui;
pub mod width;
