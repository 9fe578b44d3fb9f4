//! Synthesis of banked hardware memories from access traces.
//!
//! A logical memory is split into per-port physical banks.  Each bank pairs a
//! routing program (a small arithmetic transform on incoming addresses) with a
//! memory layout (one or more arithmetic progressions over the logical address
//! space).  The crate models these objects, evaluates and validates them
//! against a trace, renders and parses their textual descriptions, and builds
//! the constraint problem whose solution yields a valid banking.

use vstd::prelude::*;

pub mod component;
pub mod dsl;
pub mod emit;
pub mod layout;
pub mod pretty;
pub mod roundtrip;
pub mod routing;
pub mod synth;
pub mod trace;

verus! {

/// Position of the first input character that could not be parsed.
#[derive(Debug, Clone, PartialEq, Eq)]
pub struct ParseError {
    pub position: usize,
}

} // verus!
