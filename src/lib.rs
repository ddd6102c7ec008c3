//! Resolution, caching and invocation of the compiler command that builds a
//! single C/C++ file, as recorded in clang compilation databases: the records
//! of a database, their lookup across several databases, the command cache,
//! the classification of the file to check, and the compiler run to make.
use vstd::prelude::*;

pub mod cache;
pub mod cmd;
pub mod config;
pub mod ct_result;
pub mod json;
pub mod path;
pub mod text;

verus! {

} // verus!
