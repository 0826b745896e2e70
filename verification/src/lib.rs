//! An in-memory catalog of movie and series titles, built from tab-separated
//! dump files and queried by name, year, keyword set or identifier.
//!
//! The library is organised around a sharded title catalog: the raw dump is
//! split into lines, the lines are partitioned across a fixed number of
//! independent shards, and every query fans out across the shards and
//! concatenates their answers in shard order.  A separate, single table maps
//! identifiers to ratings.

pub mod bytes;
pub mod basics;
pub mod error;
pub mod genre;
pub mod index;
pub mod keywords;
pub mod parser;
pub mod progress;
pub mod ratings;
pub mod service;
pub mod title;
