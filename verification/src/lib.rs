//! Background-job supervision and local persistence for an OEIS terminal
//! client.
//!
//! The crate centres on two components: a [`supervisor::JobSupervisor`] that
//! keeps at most one in-flight network job per logical slot and discards
//! superseded results, and a [`store::LocalStore`] that persists cached
//! responses, search history, view counts and bookmarks with time-gated
//! reads. Around them sit the plain data model of sequences and search
//! queries, and the pure text logic (parsing, formatting, export) that the
//! client's front end consumes.

pub mod appstate;
pub mod db;
pub mod digits;
pub mod export;
pub mod models;
pub mod search;
pub mod settings;
pub mod store;
pub mod supervisor;
pub mod text;
pub mod ui;
