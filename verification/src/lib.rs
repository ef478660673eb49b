//! Tools Box core logic: hosts file management, API request helpers and the
//! mock server's decisions, JSON editing helpers, text diffing, Markdown
//! document modelling, notes, and the application shell's decisions.

pub mod text;
pub mod hosts;
pub mod conflicts;
pub mod hosts_store;
pub mod hosts_laws;
pub mod hosts_read;
pub mod hosts_ui;
pub mod hosts_flows;
pub mod api;
pub mod api_tabs;
pub mod mock;
pub mod json;
pub mod json_fold;
pub mod diff;
pub mod markdown_uri;
pub mod markdown;
pub mod markdown_parse;
pub mod notes;
pub mod shell;
