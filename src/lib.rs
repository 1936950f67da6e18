//! Dictionary password recovery for one member of an encrypted zip archive.
//!
//! The library holds the deterministic parts of the search: picking the
//! member to attack, classifying each verification attempt, the shared
//! first-writer-wins search state, and a verified sequential search driver.

pub mod archive;
pub mod error;
pub mod member;
pub mod search;
pub mod wordlist;
