//! Verified core of a script manager: script names and queries, tag selection,
//! fuzzy search, help-message extraction and table layout.
pub mod text;
pub mod error;
pub mod render;
pub mod util;
pub mod script_type;
pub mod template;
pub mod tag;
pub mod num;
pub mod script;
pub mod query;
pub mod fuzzy;
pub mod extract_msg;
pub mod multifuzz;

use vstd::prelude::*;

verus! {

/// One of two outcomes.
#[derive(Debug)]
pub enum Either<T, U> {
    One(T),
    Two(U),
}

} // verus!
pub mod word_wrap;
pub mod table;
pub mod grid;
pub mod time_fmt;
pub mod path;
pub mod color;
pub mod config;
pub mod env_pair;
pub mod process_lock;
pub mod event;
pub mod historian;
pub mod state;
pub mod repo;
pub mod lookup;
pub mod tree_lib;
pub mod list;
pub mod args;
pub mod list_impl;
pub mod completion;
pub mod config_edit;
pub mod name_order;
