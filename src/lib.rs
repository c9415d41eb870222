//! Conversion of a circuit compiler's Groth16 proving-key export into constraint
//! matrices and a proving key, a byte codec for the constraint matrices, and the
//! projection of a proving key onto the data a Solidity verifier is rendered from.
use vstd::prelude::*;

pub mod scalar;
pub mod matrices;
pub mod groth16;
pub mod solidity;

verus! {

} // verus!
