use vstd::prelude::*;

pub mod app;
pub mod cassette;
pub mod catalog;
pub mod dates;
pub mod cli;
pub mod export;
pub mod find;
pub mod keys;
pub mod output;
pub mod picker;
pub mod priority;
pub mod queue;
pub mod recap;
pub mod resume;
pub mod session;
pub mod session_writer;
pub mod stats;
pub mod store;
pub mod sync;
pub mod sync_folder;
pub mod text;

verus! {

} // verus!
