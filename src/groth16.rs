//! The proving-key export, the proving key, and the conversion between them.
use vstd::prelude::*;

use crate::matrices::{ConstraintMatrices, ConstraintMatricesWrapper, SparseMatrix};

verus! {

/// A proving-key export as a circuit compiler writes it. `G1` and `G2` are the
/// types of the points of the two source groups of the pairing.
#[derive(Debug, Clone, PartialEq, Eq)]
pub struct ZKey<G1, G2> {
    /// Public inputs, not counting the constant wire.
    pub n_public: usize,
    pub num_constraints: usize,
    pub a_matrix: SparseMatrix,
    pub b_matrix: SparseMatrix,
    pub alpha_g1: G1,
    pub beta_g1: G1,
    pub beta_g2: G2,
    pub gamma_g2: G2,
    pub delta_g1: G1,
    pub delta_g2: G2,
    /// Commitments to the instance variables.
    pub ic: Vec<G1>,
    pub a_query: Vec<G1>,
    pub b_g1_query: Vec<G1>,
    pub b_g2_query: Vec<G2>,
    pub h_query: Vec<G1>,
    pub l_query: Vec<G1>,
}

/// The public part of a proving key.
#[derive(Debug, Clone, PartialEq, Eq)]
pub struct VerifyingKey<G1, G2> {
    pub alpha_g1: G1,
    pub beta_g2: G2,
    pub gamma_g2: G2,
    pub delta_g2: G2,
    pub gamma_abc_g1: Vec<G1>,
}

/// A Groth16 proving key.
#[derive(Debug, Clone, PartialEq, Eq)]
pub struct ProvingKey<G1, G2> {
    pub vk: VerifyingKey<G1, G2>,
    pub beta_g1: G1,
    pub delta_g1: G1,
    pub a_query: Vec<G1>,
    pub b_g1_query: Vec<G1>,
    pub b_g2_query: Vec<G2>,
    pub h_query: Vec<G1>,
    pub l_query: Vec<G1>,
}

/// Why an export could not be converted.
#[derive(Debug, Clone, Copy, PartialEq, Eq, Structural)]
pub enum ConversionError {
    /// `a_query` has fewer than `n_public + 1` points.
    InvalidInput,
}

/// An export can be converted when `a_query` holds a point for the constant
/// wire and for each public input.
pub open spec fn convertible<G1, G2>(z: ZKey<G1, G2>) -> bool {
    z.a_query@.len() >= z.n_public + 1
}

/// `m` and `pk` are what converting `z` gives.
pub open spec fn converted_from<G1, G2>(
    m: ConstraintMatrices,
    pk: ProvingKey<G1, G2>,
    z: ZKey<G1, G2>,
) -> bool {
    &&& m.num_instance_variables == z.n_public + 1
    &&& m.num_witness_variables == z.a_query@.len() - z.n_public - 1
    &&& m.num_constraints == z.num_constraints
    &&& m.a_num_non_zero == z.a_matrix@.len()
    &&& m.b_num_non_zero == z.b_matrix@.len()
    &&& m.c_num_non_zero == 0
    &&& m.a == z.a_matrix
    &&& m.b == z.b_matrix
    &&& m.c@.len() == 0
    &&& pk.vk.alpha_g1 == z.alpha_g1
    &&& pk.vk.beta_g2 == z.beta_g2
    &&& pk.vk.gamma_g2 == z.gamma_g2
    &&& pk.vk.delta_g2 == z.delta_g2
    &&& pk.vk.gamma_abc_g1 == z.ic
    &&& pk.beta_g1 == z.beta_g1
    &&& pk.delta_g1 == z.delta_g1
    &&& pk.a_query == z.a_query
    &&& pk.b_g1_query == z.b_g1_query
    &&& pk.b_g2_query == z.b_g2_query
    &&& pk.h_query == z.h_query
    &&& pk.l_query == z.l_query
}

/// Converts an export into constraint matrices and a proving key.
///
/// The constant wire is instance variable 0, so there are `n_public + 1`
/// instance variables and the rest of `a_query` indexes the witness. The export
/// carries no third matrix: `c` is empty. Fails with `InvalidInput` when
/// `a_query` is too short to hold the instance variables.
pub fn convert_zkey<G1, G2>(zkey: ZKey<G1, G2>) -> (r: Result<
    (ConstraintMatrices, ProvingKey<G1, G2>),
    ConversionError,
>)
    ensures
        convertible(zkey) <==> r is Ok,
        r is Ok ==> converted_from(r->Ok_0.0, r->Ok_0.1, zkey),
        !convertible(zkey) ==> r == Err::<(ConstraintMatrices, ProvingKey<G1, G2>), _>(
            ConversionError::InvalidInput,
        ),
{
    let n_query = zkey.a_query.len();
    if n_query == 0 || n_query - 1 < zkey.n_public {
        return Err(ConversionError::InvalidInput);
    }
    let num_instance_variables = zkey.n_public + 1;
    let num_witness_variables = n_query - zkey.n_public - 1;
    let a_num_non_zero = zkey.a_matrix.len();
    let b_num_non_zero = zkey.b_matrix.len();
    let matrices = ConstraintMatrices {
        num_instance_variables,
        num_witness_variables,
        num_constraints: zkey.num_constraints,
        a_num_non_zero,
        b_num_non_zero,
        c_num_non_zero: 0,
        a: zkey.a_matrix,
        b: zkey.b_matrix,
        c: Vec::new(),
    };
    let pk = ProvingKey {
        vk: VerifyingKey {
            alpha_g1: zkey.alpha_g1,
            beta_g2: zkey.beta_g2,
            gamma_g2: zkey.gamma_g2,
            delta_g2: zkey.delta_g2,
            gamma_abc_g1: zkey.ic,
        },
        beta_g1: zkey.beta_g1,
        delta_g1: zkey.delta_g1,
        a_query: zkey.a_query,
        b_g1_query: zkey.b_g1_query,
        b_g2_query: zkey.b_g2_query,
        h_query: zkey.h_query,
        l_query: zkey.l_query,
    };
    Ok((matrices, pk))
}

/// Constraint matrices and a proving key held together, so that both can be
/// stored as one value.
#[derive(Debug, Clone, PartialEq, Eq)]
pub struct ArkZkey<G1, G2> {
    pub matrices: ConstraintMatricesWrapper,
    pub pk: ProvingKey<G1, G2>,
}

impl<G1, G2> ArkZkey<G1, G2> {
    /// Converts an export (see `convert_zkey`) and holds the result.
    pub fn from_zkey(zkey: ZKey<G1, G2>) -> (r: Result<Self, ConversionError>)
        ensures
            convertible(zkey) <==> r is Ok,
            r is Ok ==> converted_from(r->Ok_0.matrices.0, r->Ok_0.pk, zkey),
            !convertible(zkey) ==> r == Err::<Self, _>(ConversionError::InvalidInput),
    {
        match convert_zkey(zkey) {
            Ok((matrices, pk)) => Ok(ArkZkey { matrices: ConstraintMatricesWrapper(matrices), pk }),
            Err(e) => Err(e),
        }
    }

    /// Gives back the constraint matrices and the proving key.
    pub fn into_inner(self) -> (r: (ConstraintMatrices, ProvingKey<G1, G2>))
        ensures
            r.0 == self.matrices.0,
            r.1 == self.pk,
    {
        (self.matrices.0, self.pk)
    }

    /// Borrows the constraint matrices and the proving key.
    pub fn as_inner(&self) -> (r: (&ConstraintMatrices, &ProvingKey<G1, G2>))
        ensures
            *r.0 == self.matrices.0,
            *r.1 == self.pk,
    {
        (&self.matrices.0, &self.pk)
    }
}

} // verus!
