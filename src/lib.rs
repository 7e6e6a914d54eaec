//! A Percolator-style transactional key/value core: a multi-version table with
//! Write, Data and Lock columns, the storage rules for get, prewrite, commit and
//! lock clean-up, a monotonic timestamp oracle, and the client-side decisions of
//! a two-phase commit with retry and backoff.
use vstd::prelude::*;

pub mod client;
pub mod oracle;
pub mod rpc;
pub mod storage;
pub mod table;

verus! {

} // verus!
