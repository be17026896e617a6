//! Core of a date-indexed media archive: a codec between timestamps and
//! canonical hierarchical path strings, and a merge-on-write lookup index
//! that lets callers enumerate stored objects by year, month and day.

pub mod bucket;
pub mod civil;
pub mod clock;
pub mod collection;
pub mod digits;
pub mod errors;
pub mod facade;
pub mod file_datetime;
pub mod file_path;
pub mod ingest;
pub mod keys;
pub mod local_file;
pub mod lookup;
pub mod store;
pub mod text;
pub mod web;
