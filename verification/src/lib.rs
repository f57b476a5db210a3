//! `amem`: the rules of a local memory for assistant workflows.
//!
//! The heart of the crate is a lexical retrieval engine over a small corpus
//! of text documents: a character-level inverted index ([`index`]), ranked
//! queries against it and a direct scan of the corpus for when no index
//! exists ([`query`], [`search`]), and the ranking that every query ends
//! with ([`rank`]). Scores are sums of logarithms; the library hands out the
//! integers that they are made of and takes the scores back as bits, so
//! that no floating point stands in verified code.
//!
//! Around the engine stand the rules for the files of the memory itself:
//! daily files, diaries, activity and task logs, the owner's profile, what
//! assistants print, and how a day is shown.
pub mod text;
pub mod tokens;
pub mod chunks;
pub mod corpus;
pub mod index;
pub mod query;
pub mod rank;
pub mod search;
pub mod cli;
pub mod paths;
pub mod listing;
pub mod period;
pub mod notes;
pub mod daily;
pub mod entries;
pub mod tasks;
pub mod profile;
pub mod envfile;
pub mod json;
pub mod render;
