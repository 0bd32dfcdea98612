//! Core of an interactive terminal line filter: lines stream in, the user
//! types a query, matching lines are shown in a scrollable, markable list,
//! and the selection is emitted on completion.
//!
//! This crate holds the verified logic: key decoding, fuzzy matching,
//! the query editor, the line store, the incremental match-info cache,
//! the item-list view model, the bounded searcher and the state reducer.
//! Threads, channels, the terminal and the flag parser live outside it.

pub mod commander;
pub mod config;
pub mod coordinator;
pub mod item;
pub mod item_list;
pub mod key;
pub mod line;
pub mod line_index_cache;
pub mod line_storage;
pub mod match_info_cache;
pub mod pattern;
pub mod query;
pub mod reader;
pub mod screen_data;
pub mod search;
pub mod searcher;
pub mod state;
pub mod width;
