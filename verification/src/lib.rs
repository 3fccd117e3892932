//! A deterministic polling and voting module for a replicated-ledger runtime.
//!
//! Commands arrive as byte buffers, are decoded into typed instructions, and
//! are applied to an address-keyed ledger of records.  Every record lives at
//! an address derived from its logical key, so poll and vote integrity rest
//! on reproducible addressing rather than on any server-side database.

pub mod address;
pub mod codec;
pub mod errors;
pub mod instruction;
pub mod ledger;
pub mod processor;
pub mod state;
