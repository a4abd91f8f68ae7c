//! The tag-delimited statement text: its model, its decoder and its writer.

pub mod format;
pub mod header;
pub mod blocks;
pub mod tokenizer;
pub mod balance;
pub mod transaction;
pub mod reader;
pub mod writer;
pub mod rows;
pub mod lines;
pub mod retokenize;
pub mod safe_tags;
pub mod rereadable;
pub mod redecode;
pub mod round_trip;
