//! Decisions of the individual commands.
pub mod colorcheck;
pub mod io;
pub mod sort;
