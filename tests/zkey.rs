use groth16_zkey::groth16::{convert_zkey, ArkZkey, ConversionError, ProvingKey, VerifyingKey, ZKey};
use groth16_zkey::matrices::{
    Compress, ConstraintMatrices, ConstraintMatricesWrapper, SerializationError, SparseMatrix,
    Validate,
};
use groth16_zkey::scalar::Scalar;
use groth16_zkey::solidity::{project, SolidityVerifierConfig};

fn row(entries: &[(u64, usize)]) -> Vec<(Scalar, usize)> {
    entries.iter().map(|&(v, c)| (Scalar::from_u64(v), c)).collect()
}

fn sample_zkey(n_public: usize, a_query_len: usize) -> ZKey<u32, u64> {
    ZKey {
        n_public,
        num_constraints: 3,
        a_matrix: vec![row(&[(1, 0), (2, 1)]), row(&[(3, 2)]), row(&[])],
        b_matrix: vec![row(&[(5, 1)])],
        alpha_g1: 1,
        beta_g1: 2,
        beta_g2: 3,
        gamma_g2: 4,
        delta_g1: 5,
        delta_g2: 6,
        ic: vec![10, 11, 12],
        a_query: (100..100 + a_query_len as u32).collect(),
        b_g1_query: vec![20, 21],
        b_g2_query: vec![30, 31, 32],
        h_query: vec![40],
        l_query: vec![50, 51],
    }
}

fn sample_matrices() -> ConstraintMatrices {
    let (m, _) = convert_zkey(sample_zkey(2, 5)).unwrap();
    m
}

#[test]
fn conversion_counts_instance_and_witness_variables() {
    let (m, pk) = convert_zkey(sample_zkey(2, 5)).unwrap();
    assert_eq!(m.num_instance_variables, 3);
    assert_eq!(m.num_witness_variables, 2);
    assert_eq!(m.num_constraints, 3);
    assert_eq!(m.a_num_non_zero, 3);
    assert_eq!(m.b_num_non_zero, 1);
    assert_eq!(m.c_num_non_zero, 0);
    assert!(m.c.is_empty());
    assert_eq!(m.a, sample_zkey(2, 5).a_matrix);
    assert_eq!(m.b, sample_zkey(2, 5).b_matrix);
    assert_eq!(pk.vk.gamma_abc_g1, vec![10, 11, 12]);
    assert_eq!(pk.a_query, vec![100, 101, 102, 103, 104]);
    assert_eq!(pk.b_g2_query, vec![30, 31, 32]);
    assert_eq!((pk.vk.alpha_g1, pk.vk.beta_g2, pk.vk.gamma_g2, pk.vk.delta_g2), (1, 3, 4, 6));
    assert_eq!((pk.beta_g1, pk.delta_g1), (2, 5));
}

#[test]
fn conversion_with_no_witness_variables() {
    let (m, _) = convert_zkey(sample_zkey(2, 3)).unwrap();
    assert_eq!(m.num_instance_variables, 3);
    assert_eq!(m.num_witness_variables, 0);
}

#[test]
fn conversion_rejects_short_a_query() {
    assert_eq!(convert_zkey(sample_zkey(2, 2)).err(), Some(ConversionError::InvalidInput));
    assert_eq!(convert_zkey(sample_zkey(0, 0)).err(), Some(ConversionError::InvalidInput));
    assert_eq!(
        convert_zkey(sample_zkey(usize::MAX, 3)).err(),
        Some(ConversionError::InvalidInput)
    );
}

#[test]
fn container_gives_back_its_parts() {
    let z = ArkZkey::from_zkey(sample_zkey(1, 4)).unwrap();
    {
        let (m, pk) = z.as_inner();
        assert_eq!(m.num_witness_variables, 2);
        assert_eq!(pk.l_query, vec![50, 51]);
    }
    let (m, pk) = z.clone().into_inner();
    assert_eq!(m, z.matrices.clone().into_inner());
    assert_eq!(pk, z.pk);
    assert!(ArkZkey::from_zkey(sample_zkey(4, 4)).is_err());
}

#[test]
fn scalar_from_u64_is_little_endian() {
    let s = Scalar::from_u64(0x0102);
    assert_eq!(s.bytes.len(), 32);
    assert_eq!(&s.bytes[..3], &[0x02, 0x01, 0x00]);
    assert!(s.bytes[2..].iter().all(|&b| b == 0));
}

#[test]
fn empty_matrices_encoding() {
    let w = ConstraintMatricesWrapper(ConstraintMatrices {
        num_instance_variables: 1,
        num_witness_variables: 2,
        num_constraints: 0x0304,
        a_num_non_zero: 0,
        b_num_non_zero: 0,
        c_num_non_zero: 0,
        a: Vec::new(),
        b: Vec::new(),
        c: Vec::new(),
    });
    let mut out = Vec::new();
    w.serialize_with_mode(&mut out, Compress::Yes);
    let mut expected = vec![0u8; 48];
    expected.extend_from_slice(&[1, 0, 0, 0, 0, 0, 0, 0]);
    expected.extend_from_slice(&[2, 0, 0, 0, 0, 0, 0, 0]);
    expected.extend_from_slice(&[4, 3, 0, 0, 0, 0, 0, 0]);
    assert_eq!(out, expected);
    assert_eq!(w.serialized_size(Compress::Yes), 72);
}

#[test]
fn entry_encoding_layout() {
    let a: SparseMatrix = vec![row(&[(7, 9)])];
    let w = ConstraintMatricesWrapper(ConstraintMatrices {
        num_instance_variables: 0,
        num_witness_variables: 0,
        num_constraints: 0,
        a_num_non_zero: 1,
        b_num_non_zero: 0,
        c_num_non_zero: 0,
        a,
        b: Vec::new(),
        c: Vec::new(),
    });
    let mut out = Vec::new();
    w.serialize_with_mode(&mut out, Compress::No);
    assert_eq!(out.len(), 8 + 8 + 40 + 16 + 48);
    assert_eq!(&out[0..8], &[1, 0, 0, 0, 0, 0, 0, 0]);
    assert_eq!(&out[8..16], &[1, 0, 0, 0, 0, 0, 0, 0]);
    assert_eq!(out[16], 7);
    assert!(out[17..48].iter().all(|&b| b == 0));
    assert_eq!(&out[48..56], &[9, 0, 0, 0, 0, 0, 0, 0]);
    assert_eq!(out.len(), w.serialized_size(Compress::No));
}

#[test]
fn round_trip_both_modes() {
    let w = ConstraintMatricesWrapper(sample_matrices());
    for mode in [Compress::Yes, Compress::No] {
        let mut out = Vec::new();
        w.serialize_with_mode(&mut out, mode);
        assert_eq!(out.len(), w.serialized_size(mode));
        for validate in [Validate::Yes, Validate::No] {
            let back = ConstraintMatricesWrapper::deserialize_with_mode(&out, mode, validate).unwrap();
            assert_eq!(back, w);
        }
        out.extend_from_slice(&[0xaa, 0xbb]);
        let back = ConstraintMatricesWrapper::deserialize_with_mode(&out, mode, Validate::Yes).unwrap();
        assert_eq!(back, w);
    }
}

#[test]
fn truncated_input_is_unexpected_eof() {
    let w = ConstraintMatricesWrapper(sample_matrices());
    let mut out = Vec::new();
    w.serialize_with_mode(&mut out, Compress::Yes);
    for cut in [0, 7, 8, 30, out.len() - 1] {
        assert_eq!(
            ConstraintMatricesWrapper::deserialize_with_mode(&out[..cut], Compress::Yes, Validate::Yes)
                .err(),
            Some(SerializationError::UnexpectedEof)
        );
    }
}

#[test]
fn coefficient_at_or_above_the_modulus_is_invalid_data() {
    let mut out = vec![1, 0, 0, 0, 0, 0, 0, 0, 1, 0, 0, 0, 0, 0, 0, 0];
    out.extend_from_slice(&[0xff; 32]);
    out.extend_from_slice(&[0u8; 8 + 16 + 48]);
    assert_eq!(
        ConstraintMatricesWrapper::deserialize_with_mode(&out, Compress::No, Validate::No).err(),
        Some(SerializationError::InvalidData)
    );
    // The modulus itself, least significant byte first.
    let modulus: [u8; 32] = [
        0x01, 0x00, 0x00, 0xf0, 0x93, 0xf5, 0xe1, 0x43, 0x91, 0x70, 0xb9, 0x79, 0x48, 0xe8, 0x33,
        0x28, 0x5d, 0x58, 0x81, 0x81, 0xb6, 0x45, 0x50, 0xb8, 0x29, 0xa0, 0x31, 0xe1, 0x72, 0x4e,
        0x64, 0x30,
    ];
    out[16..48].copy_from_slice(&modulus);
    assert_eq!(
        ConstraintMatricesWrapper::deserialize_with_mode(&out, Compress::No, Validate::No).err(),
        Some(SerializationError::InvalidData)
    );
    out[16] = 0x00;
    let m = ConstraintMatricesWrapper::deserialize_with_mode(&out, Compress::No, Validate::No).unwrap();
    let mut below = modulus.to_vec();
    below[0] = 0x00;
    assert_eq!(m.0.a[0][0].0.bytes, below);
    assert!(m.check().is_ok());
}

#[test]
fn check_rejects_non_canonical_coefficients() {
    let mut m = sample_matrices();
    assert!(ConstraintMatricesWrapper(m.clone()).check().is_ok());
    m.b[0][0].0.bytes = vec![0xff; 32];
    assert_eq!(ConstraintMatricesWrapper(m.clone()).check(), Err(SerializationError::InvalidData));
    m.b[0][0].0.bytes = vec![1; 31];
    assert_eq!(ConstraintMatricesWrapper(m).check(), Err(SerializationError::InvalidData));
}

#[test]
fn default_pragma_version() {
    assert_eq!(SolidityVerifierConfig::default().pragma_version, "^0.8.0");
}

#[test]
fn projection_takes_the_verifying_key() {
    let (_, pk) = convert_zkey(sample_zkey(2, 5)).unwrap();
    let config = SolidityVerifierConfig { pragma_version: "^0.8.20".to_string() };
    let c1 = project(pk.clone(), config.clone());
    let c2 = project(pk.clone(), config.clone());
    assert_eq!(c1, c2);
    assert_eq!(
        c1.vk,
        VerifyingKey { alpha_g1: 1, beta_g2: 3, gamma_g2: 4, delta_g2: 6, gamma_abc_g1: vec![10, 11, 12] }
    );
    assert_eq!(c1.config, config);
    let _: &ProvingKey<u32, u64> = &pk;
}
