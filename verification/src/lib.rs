//! Port/process introspection library.
//!
//! The library enumerates TCP listening sockets reported by the host's
//! diagnostic tools, associates each socket with an owning process,
//! classifies sockets as development-related, and resolves the process
//! bound to a port so that it can be terminated.
//!
//! All parsing, classification and aggregation logic lives here and is
//! verified; spawning the diagnostic tools and issuing the kill signal is
//! left to the surrounding application, which hands the captured tool
//! output to this crate as plain text.

pub mod classify;
pub mod db_report;
pub mod kill;
pub mod parse;
pub mod records;
pub mod scan;
pub mod sort;
pub mod text;
