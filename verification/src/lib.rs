//! Verified logic of the Enzim desktop client.
pub mod account_laws;
pub mod age;
pub mod board;
pub mod change_laws;
pub mod columns;
pub mod diff;
pub mod git_flow;
pub mod git_laws;
pub mod git_snapshot;
pub mod git_status;
pub mod initial_layout;
pub mod json;
pub mod layout_laws;
pub mod layout_store;
pub mod lines;
pub mod login;
pub mod markdown;
pub mod markdown_laws;
pub mod moves;
pub mod number;
pub mod order;
pub mod panes;
pub mod paths;
pub mod payload;
pub mod preview;
pub mod preview_laws;
pub mod profiles;
pub mod provider_laws;
pub mod providers;
pub mod restore;
pub mod restore_laws;
pub mod rollback;
pub mod row_laws;
pub mod session;
pub mod settings;
pub mod skills_mcp;
pub mod snapshot_laws;
pub mod text;
pub mod text_laws;
pub mod theme;
pub mod theme_laws;
pub mod thread_list;
pub mod thread_rows;
pub mod threads;
pub mod turns;
