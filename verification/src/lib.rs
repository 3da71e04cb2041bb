//! Presentation engine for DeArrow submissions.
//!
//! The library classifies a submission's voting and moderation state into a
//! compact status code, computes shared column widths for numeric fields,
//! formats a submission into a row of display cells, and lays those rows out
//! as a bordered text table fitted to a terminal of known width.

pub mod classify;
pub mod cli;
pub mod row;
pub mod table;
pub mod text;
pub mod view;
pub mod width;
pub mod wrap;
