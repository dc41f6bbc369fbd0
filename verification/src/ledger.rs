//! Reading, summing and writing the weekly ledger.
pub mod assoc;
pub mod day_text;
pub mod ignored;
pub mod model;
pub mod parse;
pub mod render;
pub mod reread;
pub mod totals;
