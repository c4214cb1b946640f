//! A read-only virtual filesystem served from an in-memory catalog.
//!
//! A fixed set of byte files and directories, the catalog, is made to appear
//! as a directory tree mounted at one absolute root path. The library holds
//! the logic of that emulation: classifying paths as virtual or real,
//! tracking open descriptor and stream handles with their cursors,
//! synthesizing file attributes, enumerating directory children, and
//! tracking a virtual current directory. The thin C-ABI interception layer
//! that forwards real calls lives outside the library and only dispatches
//! on the verdicts returned from here.

pub mod bytes;
pub mod catalog;
pub mod laws;
pub mod paths;
pub mod shim;
pub mod table;
