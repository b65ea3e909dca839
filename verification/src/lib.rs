//! Transaction decoder and display formatter for a hardware signing device.
//!
//! The library walks an untrusted byte buffer one field at a time under
//! strict bounds checking, builds a structured transaction model whose
//! variable-length fields are spans back into the input, and answers
//! display queries (item count, paginated key/value pages) and narrow
//! field queries (fee, nonce, signer hash check, pre-signature bytes)
//! over that model.

use vstd::prelude::*;

pub mod accessors;
pub mod bytes;
pub mod decode;
pub mod display;
pub mod error;
pub mod hash;
pub mod model;
pub mod session;

verus! {

/// Logging hook of the device build; the hosted library keeps it as a no-op.
pub fn debug(_msg: &str) {
}

} // verus!
