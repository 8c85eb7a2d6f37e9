//! Planning and table rendering for turning packet captures into
//! semicolon-delimited tables with the help of an external decoding tool.
//!
//! The crate holds the parts of the conversion that are pure computation:
//! the field catalog, the queue of pending capture files, the naming of the
//! output file, the command line handed to the decoding tool, and the
//! rendering of the tool's output lines as table rows. Starting the tool,
//! reading its output and writing files is left to the caller; what a whole
//! batch leaves in the working directory is stated over a model of it.

pub mod batch;
pub mod catalog;
pub mod error;
pub mod invocation;
pub mod naming;
pub mod queue;
pub mod table;
