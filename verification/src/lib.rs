//! Application catalog and query engine of a desktop launcher.
//!
//! The crate discovers nothing by itself and draws nothing: it is handed the
//! text of desktop-entry files and the text of a search box, and answers with
//! the catalog, the rows to show, the row to select and the command to run.
//!
//! - [`paths`] puts the paths of the entry files in order, each once, and
//!   says what a walk through the directories collects.
//! - [`entry`] reads the text of one entry file.
//! - [`catalog`] keeps the applications in the order in which they were read.
//! - [`arith`] reads a query as arithmetic.
//! - [`query`] computes the rows of a query, the selection, and what the
//!   activation of a row leads to.
//! - [`session`] holds catalog, query, rows and selection between two events.
//! - [`sanitize`] removes the field codes from a launch command, and
//!   [`launch`] splits it into a program and its arguments.
//! - [`logger`] composes the lines of the log.
//! - [`text`] is the vocabulary that they share.

pub mod text;
pub mod sanitize;
pub mod entry;
pub mod paths;
pub mod catalog;
pub mod arith;
pub mod logger;
pub mod query;
pub mod session;
pub mod launch;
