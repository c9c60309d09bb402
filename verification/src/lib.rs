//! Core of a personal task tracker: two related entities (tasks and labels)
//! kept in an in-memory store, together with the form validation and the
//! handler orchestration that sit in front of the store.
//!
//! - [`store`] holds the two tables and the mathematical description of
//!   every operation on them; [`models`] holds the rows and the repository
//!   operations; [`laws`] proves the properties that tie them together.
//! - [`form`] decodes urlencoded bodies; [`routes`] validates and
//!   orchestrates, answering with [`respond`] values that an HTTP layer
//!   turns into redirects, flash cookies and statuses.
//! - [`strutil`] supplies the text ordering and decimal conversions, and
//!   [`time`] the current local time.
#![verifier::loop_isolation(false)]

pub mod form;
pub mod laws;
pub mod models;
pub mod respond;
pub mod routes;
pub mod store;
pub mod strutil;
pub mod time;
