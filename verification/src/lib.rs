pub mod codec;
pub mod laws;
pub mod service;
pub mod stable;
pub mod store;
pub mod types;

use vstd::prelude::*;

verus! {

/// Upper bound, in bytes, on the encoded form of a stored record.
pub const MAX_RECORD_BYTES: usize = 5000;

} // verus!
