//! Resumable, bounded tailing of append-only text files.
//!
//! The library holds the logic: the all-substrings line filter, the scan of
//! freshly read bytes into complete lines, the offset store that makes each
//! poll incremental, and the decision taken once a read has finished, failed
//! or run out of time. Opening, seeking and reading files is left to the
//! caller, which hands the bytes over.

pub mod matching;
pub mod scan;
pub mod store;
pub mod tail;
pub mod laws;
