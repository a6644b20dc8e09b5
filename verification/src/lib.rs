//! Fixed-width binary identifiers.
//!
//! An identifier is a byte buffer of a fixed total length `N`, partitioned
//! into three contiguous, non-overlapping segments: a prefix of `P` bytes
//! (a human-recognizable tag such as `usr`), a content payload of
//! `N - P - E` bytes (for example a hash), and a suffix of `E` bytes
//! (auxiliary data such as a timestamp). The three lengths together form a
//! "kind": every identifier of one kind shares the same layout, and the
//! layout is valid exactly when `P + E <= N`.
//!
//! The crate proves that segment reads are always in bounds, that the three
//! segments reassemble the full buffer, and that parsing accepts exactly the
//! byte sequences of length `N`.

pub mod error;
pub mod id;

pub use error::ParseIDError;
pub use id::ID;
