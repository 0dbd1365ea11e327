//! Threshold BLS signatures over BLS12-381.
//!
//! A signing key is shared among `n` participants as the values of a secret
//! polynomial, so that any `t` of them can sign together without the key ever
//! being assembled: each signs with its share, the partial signatures are
//! combined by Lagrange interpolation at zero, and the result verifies
//! against the one public key.
//!
//! - [`curve`] holds scalars and group elements as byte encodings and is the
//!   boundary to the curve arithmetic, the pairing and the hash.
//! - [`sharing`] and [`lagrange`] are the polynomial and the interpolation
//!   coefficients over the scalar field; [`interpolation`] proves that the
//!   coefficients recover a polynomial's constant term.
//! - [`wallet`] is the signer; [`key`] and [`sig`] are the shares and their
//!   wire encodings, framed by [`wire`]; [`errors`] is what can go wrong.
//! - [`correctness`] states what the scheme promises: any `t` honest shares
//!   combine to the signature of the shared key.
//! - [`field`], [`polynomial`] and [`shamir`] are plain secret sharing over
//!   the field of 997 elements.

pub mod correctness;
pub mod curve;
pub mod errors;
pub mod field;
pub mod interpolation;
pub mod key;
pub mod lagrange;
pub mod polynomial;
pub mod shamir;
pub mod sharing;
pub mod sig;
pub mod wallet;
pub mod wire;
