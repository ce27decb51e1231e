//! The decisions behind a dashboard of tmux windows on several hosts.

pub mod app;
pub mod config;
pub mod keys;
pub mod layout;
pub mod pane;
pub mod ssh;
pub mod text;
pub mod tmux;
