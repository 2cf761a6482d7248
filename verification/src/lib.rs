//! Socket resolution for a single target process.
//!
//! The library joins two kernel data sources: the set of socket inodes open
//! in a process's file-descriptor table, and the rows of the textual
//! connection table, whose columns are located by parsing the header line.
//! Rows whose inode is in the set have their hexadecimal local and remote
//! addresses decoded into structured address/port pairs.
//!
//! All file reads live outside the library: every function here is a pure
//! computation on the values an unverified caller has read.

use vstd::prelude::*;

pub mod addr;
pub mod header;
pub mod inodes;
pub mod locate;
pub mod num;
pub mod resolve;
pub mod strutil;
pub mod table;

verus! {

/// The failures a query can surface, one variant per cause.
#[derive(Clone, Copy, Debug, PartialEq, Eq, Structural)]
pub enum SocketError {
    /// No process with the target command name exists.
    NotFound,
    /// A platform data source could not be listed or read.
    IoError,
    /// The connection table has no header line.
    MalformedTable,
    /// An address token is not a hexadecimal `ip:port` pair.
    MalformedAddress,
}

} // verus!
