//! Finite-field arithmetic with a tower of algebraic extensions, and a
//! pairing-based Groth16 proof verifier built on top of it.
//!
//! The layers, from the bottom up:
//! - [`bigint`]: fixed-width unsigned integers stored as little-endian
//!   64-bit limbs;
//! - [`fp`]: prime fields in canonical-residue representation, generic over
//!   a modulus descriptor;
//! - [`codec`]: the canonical fixed-width little-endian byte encoding of
//!   prime-field elements;
//! - [`quadratic`] and [`cubic`]: extension fields generic over any base
//!   implementing the [`field::Field`] contract, composable into towers of
//!   degree 4, 6 and 12;
//! - [`pairing`]: the bilinear-pairing capability the verifier consumes;
//! - [`snark`]: verifying-key preparation and Groth16 proof verification;
//! - [`sample`]: a concrete instantiation over a Mersenne prime, with a
//!   minimal pairing engine, used by the test suite.

pub mod bigint;
pub mod codec;
pub mod cubic;
pub mod field;
pub mod fp;
pub mod pairing;
pub mod quadratic;
pub mod sample;
pub mod snark;
