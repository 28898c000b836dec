//! Polls with structured ballots, four voting methods and a two-state poll
//! lifecycle, with every rule stated as a contract and proved.
//!
//! - `models`: polls, options, ballot entries, and deadlines.
//! - `voting`: the tally engine, one module per method (plurality,
//!   approval, STAR, ranked choice), with the listing order and result types
//!   they share.
//! - `db`: the ballot store and poll registry: unique poll identities, one
//!   live rating per voter and option, last write wins, close-if-active.
//! - `lifecycle`: ending polls exactly once and tallying them, on request
//!   or when their deadline passes.
//! - `interaction`: what user interactions decide: component identifiers,
//!   create requests, rankings, role restrictions, ballot pages.
//! - `text`: string helpers with their specifications.
pub mod models;
pub mod text;
pub mod voting;
pub mod db;
pub mod lifecycle;
pub mod interaction;
