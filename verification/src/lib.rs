//! Decides which private `target/` directories of Cargo repos may be
//! reclaimed once a repo builds into a shared target directory, and keeps
//! the records of what was reclaimed.

pub mod ledger;
pub mod paths;
pub mod plan;
pub mod reclaim;
pub mod report;
pub mod text;

