//! Inventory parser and command adapter for an LVM-style storage toolset.
//!
//! The library turns the delimiter-separated report text emitted by the
//! toolset's query commands into typed records (volume groups, physical
//! volumes, logical volumes and their extent segments), answers membership
//! queries over those records, and assembles the argument list for the
//! volume-creation command.  Process invocation itself is left to the
//! caller: every function here is a pure transformation of plain values.

pub mod command;
pub mod errors;
pub mod inventory;
pub mod report;
pub mod status;
pub mod text;
