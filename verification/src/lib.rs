//! A folder-mirroring backup library.
//!
//! The library keeps an ordered list of (source, destination) folder pairs,
//! stored as a JSON document, and decides every step of mirroring each source
//! tree into its destination. It performs no input or output of its own: the
//! caller reads and writes files and directories and tells the library what
//! happened.
//!
//! * [`config`] holds the folder pairs, [`store`] reads and writes them as
//!   JSON through the trusted declarations of [`json`];
//! * [`engine`] mirrors one tree step by step, [`backup`] runs it over every
//!   pair, and [`path`] builds the paths they name;
//! * [`model`], [`mirror`] and [`sequence`] prove what a run does against a
//!   caller that answers truthfully, and [`reach`] where a run reads and
//!   writes whatever the caller answers;
//! * [`cli`] tells the operations of the command line apart, [`service`]
//!   builds the command lines for the service manager, and [`error`] names
//!   the failures.

pub mod backup;
pub mod cli;
pub mod config;
pub mod engine;
pub mod error;
pub mod json;
pub mod mirror;
pub mod model;
pub mod path;
pub mod reach;
pub mod sequence;
pub mod service;
pub mod store;
