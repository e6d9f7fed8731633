//! Shamir secret sharing over the 256-element Galois field.
//!
//! A secret byte string is split into `shares_to_create` shares such that any
//! `shares_required` of them recover it exactly. Arithmetic happens in
//! GF(2^8) with the reduction polynomial x^8 + x^4 + x^3 + x + 1 (0x11b);
//! that constant is part of the wire format: shares produced with a different
//! reduction polynomial are not interoperable.

pub mod basic_sharing;
pub mod derived_share;
pub mod geometry;
