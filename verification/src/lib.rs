//! A desktop file-search engine: a self-refreshing path index, an alias table
//! for application shorthands, a dual-source query engine and a ranker that
//! learns from click history.
//!
//! Text is modelled as `Seq<char>`; every contract is stated over that model.

pub mod alias;
pub mod builtin;
pub mod engine;
pub mod history;
pub mod index;
pub mod matching;
pub mod merge;
pub mod native;
pub mod query;
pub mod rank;
pub mod result;
pub mod scan;
pub mod score;
pub mod segment;
pub mod strategy;
pub mod text;
