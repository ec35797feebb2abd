//! State-transition validation for a minimal child chain whose whole state
//! is one 64-bit counter, advanced by wrapping addition.
//!
//! Headers and block bodies travel in a fixed little-endian encoding, and
//! every commitment (a header's hash, a state's hash) is Keccak-256 over
//! that encoding.
pub mod block;
pub mod chain;
pub mod hashing;
pub mod stf;
pub mod validation;

pub use block::{BlockData, HeadData};
pub use stf::{execute, hash_state, StateMismatch};
pub use validation::{validate, ValidationError};
