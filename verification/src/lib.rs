//! Secret sharing of a secp256k1 signing key among `n` parties, so that no
//! party ever holds the key in full.
//!
//! A key is shared either additively, where all `n` parties are needed to
//! reconstruct it, or by a polynomial of degree `t - 1`, where any `t` are.
//!
//! - [`scalar`] and [`point`] hold the values of the group as bytes and leave
//!   the arithmetic to `generic_ec`; [`field`] says what the arithmetic on
//!   scalars computes.
//! - [`polynomial`] evaluates polynomials and computes Lagrange coefficients.
//! - [`key_share`] is the data model: a candidate key share, the invariants
//!   that it must meet, and the trusted form that only a checked share has.
//! - [`trusted_dealer`] generates the shares of all parties in one place.
//! - [`reconstruct`] recovers the secret from a quorum of trusted shares.
//! - [`laws`] states what dealing and reconstruction have to do with each
//!   other; [`interpolation`] holds the algebra behind it.

pub mod field;
pub mod interpolation;
pub mod key_share;
pub mod laws;
pub mod point;
pub mod polynomial;
pub mod reconstruct;
pub mod scalar;
pub mod trusted_dealer;
