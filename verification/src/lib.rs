//! Identity resolution against flat-file account and group databases.
//!
//! The library parses the two colon-delimited text tables into in-memory
//! records and resolves an identity hint (a username) to the account's
//! numeric user id, its primary group, and the full list of groups it
//! belongs to. Reading the files and the environment, and rendering the
//! result, are left to the caller.

pub mod model;
pub mod reader;
pub mod resolver;
pub mod text;
