//! Client-side protocol core for a batched ledger engine.
//!
//! The library covers the pure, host-independent part of a ledger client:
//! a fixed-width binary record codec, a marshaling layer between loosely
//! typed application value bags and strict wire records, a session state
//! machine owning connection lifecycle, and a request multiplexer that
//! correlates batched calls with their out-of-order responses.

pub mod client;
pub mod codec;
pub mod errors;
pub mod marshal;
pub mod mux;
pub mod numeric;
pub mod records;
pub mod session;
