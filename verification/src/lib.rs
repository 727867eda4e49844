//! Core logic of a terminal HTTP client with vim-style editing: byte-level
//! text motions and edits, request fields and bodies, completion of
//! variables and request references, dialogs, request chaining, scrolling
//! and search, curl export, configuration defaults, the command palette and
//! the leader menu. What is stated of all of it across calls is in `laws`
//! and, for text edits and request preparation, in `edit_laws`.
pub mod strutil;
pub mod model;
pub mod action;
pub mod command;
pub mod leader_menu;
pub mod vim_buffer;
pub mod autocomplete;
pub mod overlay;
pub mod chain;
pub mod viewport;
pub mod history;
pub mod collections;
pub mod highlight;
pub mod cache;
pub mod navigation;
pub mod diff;
pub mod paste;
pub mod field_edit;
pub mod body_edit;
pub mod http_client;
pub mod config;
pub mod mode;
pub mod clip_ops;
pub mod json_fields;
pub mod app_state;
pub mod chain_run;
pub mod laws;
pub mod edit_laws;
