//! A verifiable random function over the STARK curve, with Poseidon as the
//! hash into the field.
pub mod field;
pub mod scalar;
pub mod curve;
pub mod hash;
pub mod error;
pub mod ecvrf;
