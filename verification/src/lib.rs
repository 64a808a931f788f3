//! strix — the verified core of a terminal UI for staging changes, reviewing
//! branch diffs, and leaving review comments: the parsers for git's output,
//! the comments store and its re-anchor engine, the commit-graph layout, the
//! comment editor, and the diff pane's layout, scrolling and navigation.

pub mod text;
pub mod git;
pub mod comments;
pub mod comment_cli;
pub mod session;
pub mod submit;
pub mod editor;
pub mod wrap;
pub mod graph;
pub mod view;
pub mod boxes;
pub mod layout;
pub mod sbs;
pub mod cache;
pub mod stream;
pub mod panes;
pub mod cycle;
pub mod menu;
pub mod routing;
pub mod config;
pub mod keys;
pub mod cli;
pub mod dispatch;
pub mod pointer;
pub mod note_keys;
pub mod review_refresh;
