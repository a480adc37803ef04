//! Core of a draft-tracking companion for the League client.
//!
//! The library discovers the credentials of the client's local REST API,
//! models the retry and polling policies of the session client, and turns
//! the loosely-typed draft-session payload into a canonical draft state.
//! Callers do the I/O: they hand in lockfile contents, process command
//! lines and decoded response documents, and drive the fetch flow and the
//! monitor with the outcomes.

pub mod champions;
pub mod client;
pub mod draft;
pub mod json;
pub mod lockfile;
pub mod monitor;
pub mod num;
pub mod text;
