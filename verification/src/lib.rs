//! Builds Rust code from the proto files of the Cosmos SDK, ibc-go, quicksilver and osmosis.
//!
//! The library decides: which directories are compiled and with which settings, which files are
//! picked up, what becomes of the emitted code, and in which order all this is done. The program
//! around it reads and writes files and runs other programs.
//!
//! * [`plan`] is the build as a whole.
//! * [`compile`], [`versions`], [`copy`] and [`patch`] are its stages.
//! * [`patch_laws`] says what becomes of emitted code, place by place.
//! * [`walk`] picks files out of directory trees; [`command`] is about other programs; [`log`] is
//!   about messages.
//! * [`replace`] is about regular-expression substitution, the work of the `regex` crate.
//! * [`config`], [`paths`] and [`text`] are what the rest is made from.

pub mod command;
pub mod compile;
pub mod config;
pub mod copy;
mod gates;
pub mod log;
pub mod patch;
pub mod patch_laws;
pub mod paths;
pub mod plan;
pub mod replace;
mod replace_exact;
mod replace_facts;
mod rewrite;
mod splits;
pub mod text;
pub mod versions;
pub mod walk;
