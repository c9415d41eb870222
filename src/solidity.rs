//! What a Solidity verifier contract is rendered from: a verifying key and the
//! options of the contract.
use vstd::prelude::*;

use crate::groth16::{ProvingKey, VerifyingKey};

verus! {

/// The pragma that a contract carries unless another is asked for.
pub open spec fn default_pragma() -> Seq<char> {
    seq!['^', '0', '.', '8', '.', '0']
}

/// Options of the generated contract.
#[derive(Debug, Clone, PartialEq, Eq, Hash)]
pub struct SolidityVerifierConfig {
    /// The Solidity version directive of the contract.
    pub pragma_version: String,
}

impl Default for SolidityVerifierConfig {
    fn default() -> (r: Self)
        ensures
            r.pragma_version@ == default_pragma(),
    {
        let pragma_version = "^0.8.0".to_owned();
        proof {
            reveal_strlit("^0.8.0");
            assert(pragma_version@ =~= default_pragma());
        }
        SolidityVerifierConfig { pragma_version }
    }
}

/// A verifying key and the contract options, as the contract's template reads
/// them.
#[derive(Debug, Clone, PartialEq, Eq)]
pub struct SolidityVerifierContext<G1, G2> {
    pub vk: VerifyingKey<G1, G2>,
    pub config: SolidityVerifierConfig,
}

/// The context that projecting `pk` with `config` gives.
pub open spec fn projection<G1, G2>(
    pk: ProvingKey<G1, G2>,
    config: SolidityVerifierConfig,
) -> SolidityVerifierContext<G1, G2> {
    SolidityVerifierContext { vk: pk.vk, config }
}

/// Takes the verifying key out of a proving key and pairs it with `config`.
pub fn project<G1, G2>(pk: ProvingKey<G1, G2>, config: SolidityVerifierConfig) -> (r:
    SolidityVerifierContext<G1, G2>)
    ensures
        r == projection(pk, config),
{
    SolidityVerifierContext { vk: pk.vk, config }
}

/// Projecting a proving key is a function of the key and the options: two
/// projections of the same key with the same options give the same context,
/// whose key is the proving key's own verifying key.
pub proof fn lemma_projection_deterministic<G1, G2>(
    pk: ProvingKey<G1, G2>,
    config: SolidityVerifierConfig,
    r1: SolidityVerifierContext<G1, G2>,
    r2: SolidityVerifierContext<G1, G2>,
)
    requires
        r1 == projection(pk, config),
        r2 == projection(pk, config),
    ensures
        r1 == r2,
        r1.vk == pk.vk,
        r1.config == config,
{
}

} // verus!
