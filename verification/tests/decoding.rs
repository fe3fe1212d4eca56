use zkey_core::bytes::U256;
use zkey_core::cache::{
    convert_zkey, deserialize_proving_key, read_arkzkey_from_bytes, serialize_proving_key,
};
use zkey_core::curve::{
    deserialize_g1, deserialize_g1_vec, deserialize_g2, deserialize_g2_vec, G1Point, G2Point,
};
use zkey_core::error::{Detail, Stage, ZkeyError};
use zkey_core::field::{
    deserialize_field, deserialize_field2, deserialize_field_fr, reduce_stored, Fq, Fq2, Fr,
};
use zkey_core::header::{is_power_of_two, HeaderGroth, ZVerifyingKey};
use zkey_core::matrix::{Coefficient, MatrixBuilder};
use zkey_core::section::{BinFile, Section};
use zkey_core::zkey::read_zkey;

const Q: [u64; 4] = [
    0x3c208c16d87cfd47,
    0x97816a916871ca8d,
    0xb85045b68181585d,
    0x30644e72e131a029,
];
const R: [u64; 4] = [
    0x43e1f593f0000001,
    0x2833e84879b97091,
    0xb85045b68181585d,
    0x30644e72e131a029,
];

/// (stored form, internal form) of the scalars 1, 2, 3, 5 and 7.
const SCALARS: [([u64; 4], [u64; 4]); 5] = [
    (
        [0x1bb8e645ae216da7, 0x53fe3ab1e35c59e3, 0x8c49833d53bb8085, 0x216d0b17f4e44a5],
        [0xac96341c4ffffffb, 0x36fc76959f60cd29, 0x666ea36f7879462e, 0xe0a77c19a07df2f],
    ),
    (
        [0x3771cc8b5c42db4e, 0xa7fc7563c6b8b3c6, 0x1893067aa777010a, 0x42da162fe9c894b],
        [0x592c68389ffffff6, 0x6df8ed2b3ec19a53, 0xccdd46def0f28c5c, 0x1c14ef83340fbe5e],
    ),
    (
        [0x532ab2d10a6448f5, 0xfbfab015aa150da9, 0xa4dc89b7fb32818f, 0x64472147deacdf0],
        [0x5c29c54effffff1, 0xa4f563c0de22677d, 0x334bea4e696bd28a, 0x2a1f6744ce179d8e],
    ),
    (
        [0x8a9c7f5c66a72443, 0xa3f7257970cdc16f, 0xbd6f9032a2a9829a, 0xa7213777c87573b],
        [0x1b0d0ef99fffffe6, 0xeaba68a3a32a913f, 0x47d8eb76d8dd0689, 0x15d0085520f5bbc3],
    ),
    (
        [0xc20e4be7c2e9ff91, 0x4bf39add37867535, 0xd60296ad4a2083a5, 0xe9fb4da7b23e086],
        [0x3057819e4fffffdb, 0x307f6d866832bb01, 0x5c65ec9f484e3a89, 0x180a96573d3d9f8],
    ),
];

fn word(limbs: [u64; 4]) -> U256 {
    U256 { w0: limbs[0], w1: limbs[1], w2: limbs[2], w3: limbs[3] }
}

fn word_bytes(limbs: [u64; 4]) -> Vec<u8> {
    let mut out = Vec::new();
    for limb in limbs {
        out.extend_from_slice(&limb.to_le_bytes());
    }
    out
}

fn fq(n: u64) -> Fq {
    Fq { repr: word([n, n + 1, n + 2, 3]) }
}

fn fq_bytes(n: u64) -> Vec<u8> {
    word_bytes([n, n + 1, n + 2, 3])
}

fn g1(n: u64) -> G1Point {
    G1Point { x: fq(n), y: fq(n + 100), infinity: false }
}

fn g1_bytes(n: u64) -> Vec<u8> {
    let mut out = fq_bytes(n);
    out.extend(fq_bytes(n + 100));
    out
}

fn g2(n: u64) -> G2Point {
    G2Point {
        x: Fq2 { c0: fq(n), c1: fq(n + 10) },
        y: Fq2 { c0: fq(n + 20), c1: fq(n + 30) },
        infinity: false,
    }
}

fn g2_bytes(n: u64) -> Vec<u8> {
    let mut out = fq_bytes(n);
    out.extend(fq_bytes(n + 10));
    out.extend(fq_bytes(n + 20));
    out.extend(fq_bytes(n + 30));
    out
}

fn g1_run(first: u64, count: u64) -> Vec<G1Point> {
    (0..count).map(|i| g1(first + i)).collect()
}

fn g1_run_bytes(first: u64, count: u64) -> Vec<u8> {
    (0..count).flat_map(|i| g1_bytes(first + i)).collect()
}

fn g2_run(first: u64, count: u64) -> Vec<G2Point> {
    (0..count).map(|i| g2(first + i)).collect()
}

fn g2_run_bytes(first: u64, count: u64) -> Vec<u8> {
    (0..count).flat_map(|i| g2_bytes(first + i)).collect()
}

fn section(id: u32, payload: &[u8]) -> Vec<u8> {
    let mut out = id.to_le_bytes().to_vec();
    out.extend_from_slice(&(payload.len() as u64).to_le_bytes());
    out.extend_from_slice(payload);
    out
}

fn file(sections: &[Vec<u8>]) -> Vec<u8> {
    let mut out = b"zkey".to_vec();
    out.extend_from_slice(&1u32.to_le_bytes());
    out.extend_from_slice(&(sections.len() as u32).to_le_bytes());
    for s in sections {
        out.extend_from_slice(s);
    }
    out
}

fn header_payload(n_vars: u32, n_public: u32, domain_size: u32) -> Vec<u8> {
    let mut out = 32u32.to_le_bytes().to_vec();
    out.extend(word_bytes(Q));
    out.extend_from_slice(&32u32.to_le_bytes());
    out.extend(word_bytes(R));
    out.extend_from_slice(&n_vars.to_le_bytes());
    out.extend_from_slice(&n_public.to_le_bytes());
    out.extend_from_slice(&domain_size.to_le_bytes());
    out.extend(g1_bytes(1000)); // alpha1
    out.extend(g1_bytes(1001)); // beta1
    out.extend(g2_bytes(2000)); // beta2
    out.extend(g2_bytes(2001)); // gamma2
    out.extend(g1_bytes(1002)); // delta1
    out.extend(g2_bytes(2002)); // delta2
    out
}

fn coefficient_bytes(matrix: u32, constraint: u32, signal: u32, scalar: usize) -> Vec<u8> {
    let mut out = matrix.to_le_bytes().to_vec();
    out.extend_from_slice(&constraint.to_le_bytes());
    out.extend_from_slice(&signal.to_le_bytes());
    out.extend(word_bytes(SCALARS[scalar].0));
    out
}

fn coefficients_payload(entries: &[Vec<u8>]) -> Vec<u8> {
    let mut out = (entries.len() as u32).to_le_bytes().to_vec();
    for e in entries {
        out.extend_from_slice(e);
    }
    out
}

fn scalar(index: usize) -> Fr {
    Fr { repr: word(SCALARS[index].1) }
}

/// The coefficients of the toy key: three entries of A and two of B. The
/// highest constraint index is 2 and there is one public input, so one
/// row of each matrix stays.
fn toy_coefficients() -> Vec<u8> {
    coefficients_payload(&[
        coefficient_bytes(0, 0, 1, 0),
        coefficient_bytes(1, 0, 2, 1),
        coefficient_bytes(0, 0, 3, 2),
        coefficient_bytes(0, 2, 0, 3),
        coefficient_bytes(1, 1, 0, 4),
    ])
}

/// A key with one public input, four variables and a domain of four.
fn toy_sections() -> Vec<Vec<u8>> {
    vec![
        section(1, &1u32.to_le_bytes()),
        section(2, &header_payload(4, 1, 4)),
        section(3, &g1_run_bytes(10, 2)),
        section(4, &toy_coefficients()),
        section(5, &g1_run_bytes(20, 4)),
        section(6, &g1_run_bytes(30, 4)),
        section(7, &g2_run_bytes(40, 4)),
        section(8, &g1_run_bytes(50, 2)),
        section(9, &g1_run_bytes(60, 4)),
    ]
}

fn toy_file() -> Vec<u8> {
    file(&toy_sections())
}

fn replace_section(sections: &mut Vec<Vec<u8>>, id: u32, payload: &[u8]) {
    for s in sections.iter_mut() {
        if s[0..4] == id.to_le_bytes() {
            *s = section(id, payload);
        }
    }
}

fn position_of(data: &[u8], id: u32) -> u64 {
    BinFile::new(data).unwrap().get_section(id).unwrap().position
}

fn format(stage: Stage, offset: u64, detail: Detail) -> ZkeyError {
    ZkeyError::Format { stage, offset, detail }
}

#[test]
fn toy_key_end_to_end() {
    let data = toy_file();
    let (key, matrices) = read_zkey(&data).unwrap();

    assert_eq!(key.vk.alpha_g1, g1(1000));
    assert_eq!(key.beta_g1, g1(1001));
    assert_eq!(key.vk.beta_g2, g2(2000));
    assert_eq!(key.vk.gamma_g2, g2(2001));
    assert_eq!(key.delta_g1, g1(1002));
    assert_eq!(key.vk.delta_g2, g2(2002));
    assert_eq!(key.vk.gamma_abc_g1, g1_run(10, 2));
    assert_eq!(key.a_query, g1_run(20, 4));
    assert_eq!(key.b_g1_query, g1_run(30, 4));
    assert_eq!(key.b_g2_query, g2_run(40, 4));
    assert_eq!(key.l_query, g1_run(50, 2));
    assert_eq!(key.h_query, g1_run(60, 4));

    assert_eq!(matrices.num_instance_variables, 2);
    assert_eq!(matrices.num_witness_variables, 3);
    assert_eq!(matrices.num_constraints, 1);
    assert_eq!(matrices.a, vec![vec![(scalar(0), 1usize), (scalar(2), 3usize)]]);
    assert_eq!(matrices.b, vec![vec![(scalar(1), 2usize)]]);
    assert!(matrices.c.is_empty());
    assert_eq!(matrices.a_num_non_zero, 2);
    assert_eq!(matrices.b_num_non_zero, 1);
    assert_eq!(matrices.c_num_non_zero, 0);

    let cache = convert_zkey(&key, &matrices);
    let (key_again, matrices_again) = read_arkzkey_from_bytes(&cache).unwrap();
    assert_eq!(key_again, key);
    assert_eq!(matrices_again, matrices);
    assert_eq!(convert_zkey(&key_again, &matrices_again), cache);
}

#[test]
fn query_lengths_follow_the_header() {
    let data = toy_file();
    let binfile = BinFile::new(&data).unwrap();
    let header = binfile.groth_header().unwrap();
    let key = binfile.proving_key().unwrap();
    assert_eq!(key.a_query.len(), header.n_vars);
    assert_eq!(key.b_g1_query.len(), header.n_vars);
    assert_eq!(key.b_g2_query.len(), header.n_vars);
    assert_eq!(key.l_query.len(), header.n_vars - header.n_public - 1);
    assert_eq!(key.h_query.len(), header.domain_size as usize);
    assert_eq!(key.vk.gamma_abc_g1.len(), header.n_public + 1);
}

#[test]
fn matrices_are_cut_to_the_constraints() {
    let data = toy_file();
    let binfile = BinFile::new(&data).unwrap();
    let matrices = binfile.matrices().unwrap();
    // highest constraint index 2, one public input
    assert_eq!(matrices.num_constraints, 2 - 1);
    assert_eq!(matrices.a.len(), matrices.num_constraints);
    assert_eq!(matrices.b.len(), matrices.num_constraints);
}

#[test]
fn header_is_decoded_field_by_field() {
    let data = toy_file();
    let header = BinFile::new(&data).unwrap().groth_header().unwrap();
    assert_eq!(header.n8q, 32);
    assert_eq!(header.q, word(Q));
    assert_eq!(header.n8r, 32);
    assert_eq!(header.r, word(R));
    assert_eq!(header.n_vars, 4);
    assert_eq!(header.n_public, 1);
    assert_eq!(header.domain_size, 4);
    assert_eq!(header.power, 2);
    assert_eq!(
        header.verifying_key,
        ZVerifyingKey {
            alpha_g1: g1(1000),
            beta_g1: g1(1001),
            beta_g2: g2(2000),
            gamma_g2: g2(2001),
            delta_g1: g1(1002),
            delta_g2: g2(2002),
        }
    );
}

#[test]
fn header_exponent_is_the_logarithm() {
    for (domain, power) in [(1u32, 0u32), (2, 1), (8, 3), (1024, 10), (1 << 31, 31)] {
        let payload = header_payload(4, 1, domain);
        let header = HeaderGroth::read(&payload, 0).unwrap();
        assert_eq!(header.domain_size, domain);
        assert_eq!(header.power, power);
    }
}

#[test]
fn domain_that_is_no_power_of_two_is_refused() {
    for domain in [0u32, 3, 6, 12, 1000, u32::MAX] {
        let payload = header_payload(4, 1, domain);
        assert_eq!(
            HeaderGroth::read(&payload, 0),
            Err(ZkeyError::NonPowerOfTwoDomain { domain_size: domain })
        );
        let mut sections = toy_sections();
        replace_section(&mut sections, 2, &payload);
        assert_eq!(
            read_zkey(&file(&sections)),
            Err(ZkeyError::NonPowerOfTwoDomain { domain_size: domain })
        );
    }
}

#[test]
fn powers_of_two_are_told_apart() {
    assert!(!is_power_of_two(0));
    assert!(is_power_of_two(1));
    assert!(is_power_of_two(2));
    assert!(!is_power_of_two(3));
    assert!(is_power_of_two(4));
    assert!(!is_power_of_two(6));
    assert!(is_power_of_two(1 << 31));
    assert!(!is_power_of_two(u32::MAX));
}

#[test]
fn header_that_ends_early_is_refused() {
    let payload = header_payload(4, 1, 4);
    assert_eq!(
        HeaderGroth::read(&payload[..659], 0),
        Err(format(Stage::GrothHeader, 0, Detail::UnexpectedEnd))
    );
    assert_eq!(
        HeaderGroth::read(&payload, 1),
        Err(format(Stage::GrothHeader, 1, Detail::UnexpectedEnd))
    );
    assert_eq!(
        ZVerifyingKey::new(&payload[84..659], 0),
        Err(format(Stage::GrothHeader, 0, Detail::UnexpectedEnd))
    );
    assert!(ZVerifyingKey::new(&payload, 84).is_ok());
}

#[test]
fn header_section_of_another_length_is_refused() {
    let mut payload = header_payload(4, 1, 4);
    payload.push(0);
    let mut sections = toy_sections();
    replace_section(&mut sections, 2, &payload);
    assert_eq!(
        read_zkey(&file(&sections)),
        Err(ZkeyError::SizeMismatch { section: 2, declared: 661, expected: 660 })
    );
    let section = Section { id: 2, position: 0, size: 661 };
    assert_eq!(
        HeaderGroth::new(&payload, &section),
        Err(ZkeyError::SizeMismatch { section: 2, declared: 661, expected: 660 })
    );
}

#[test]
fn directory_lists_sections_in_file_order() {
    let data = file(&[section(7, &[1, 2, 3]), section(2, &[]), section(5, &[9])]);
    let binfile = BinFile::new(&data).unwrap();
    assert_eq!(binfile.version(), 1);
    assert_eq!(binfile.header().magic, *b"zkey");
    assert_eq!(binfile.header().section_count, 3);
    assert_eq!(
        binfile.sections(),
        &vec![
            Section { id: 7, position: 24, size: 3 },
            Section { id: 2, position: 39, size: 0 },
            Section { id: 5, position: 51, size: 1 },
        ]
    );
    assert_eq!(binfile.data(), &data[..]);
}

#[test]
fn first_section_wins_among_duplicates() {
    let data = file(&[section(5, &[1]), section(3, &[2, 2]), section(5, &[3, 3, 3])]);
    let binfile = BinFile::new(&data).unwrap();
    assert_eq!(binfile.get_section(5), Ok(Section { id: 5, position: 24, size: 1 }));
    assert_eq!(binfile.get_section(3), Ok(Section { id: 3, position: 37, size: 2 }));
    assert_eq!(
        binfile.get_section(4),
        Err(format(Stage::SectionTable, 0, Detail::MissingSection(4)))
    );
}

#[test]
fn duplicate_of_a_point_section_is_ignored() {
    let mut sections = toy_sections();
    sections.push(section(5, &g1_run_bytes(900, 4)));
    let (key, _) = read_zkey(&file(&sections)).unwrap();
    assert_eq!(key.a_query, g1_run(20, 4));
}

#[test]
fn sections_may_come_in_any_order() {
    let mut sections = toy_sections();
    sections.reverse();
    assert_eq!(read_zkey(&file(&sections)), read_zkey(&toy_file()));
}

#[test]
fn unknown_magic_is_refused() {
    let mut data = toy_file();
    data[0] = b'r';
    assert_eq!(BinFile::new(&data).err(), Some(format(Stage::FileHeader, 0, Detail::BadMagic)));
    assert_eq!(read_zkey(&data), Err(format(Stage::FileHeader, 0, Detail::BadMagic)));
}

#[test]
fn file_header_that_ends_early_is_refused() {
    let data = toy_file();
    assert_eq!(
        BinFile::new(&data[..0]).err(),
        Some(format(Stage::FileHeader, 0, Detail::UnexpectedEnd))
    );
    assert_eq!(
        BinFile::new(&data[..3]).err(),
        Some(format(Stage::FileHeader, 0, Detail::UnexpectedEnd))
    );
    assert_eq!(
        BinFile::new(&data[..7]).err(),
        Some(format(Stage::FileHeader, 4, Detail::UnexpectedEnd))
    );
    assert_eq!(
        BinFile::new(&data[..11]).err(),
        Some(format(Stage::FileHeader, 8, Detail::UnexpectedEnd))
    );
}

#[test]
fn directory_that_ends_early_is_refused() {
    let data = file(&[section(7, &[1, 2, 3]), section(2, &[4, 5])]);
    // the second section's id and length start at 27, its payload at 39
    assert_eq!(
        BinFile::new(&data[..30]).err(),
        Some(format(Stage::SectionTable, 27, Detail::UnexpectedEnd))
    );
    assert_eq!(
        BinFile::new(&data[..40]).err(),
        Some(format(Stage::SectionTable, 39, Detail::UnexpectedEnd))
    );
    assert_eq!(
        BinFile::new(&data[..20]).err(),
        Some(format(Stage::SectionTable, 12, Detail::UnexpectedEnd))
    );
    assert!(BinFile::new(&data).is_ok());
}

#[test]
fn missing_section_is_refused() {
    for id in [2u32, 3, 4, 5, 6, 7, 8, 9] {
        let sections: Vec<Vec<u8>> =
            toy_sections().into_iter().filter(|s| s[0..4] != id.to_le_bytes()).collect();
        assert_eq!(
            read_zkey(&file(&sections)),
            Err(format(Stage::SectionTable, 0, Detail::MissingSection(id)))
        );
    }
}

#[test]
fn point_section_of_another_length_is_refused() {
    let mut sections = toy_sections();
    replace_section(&mut sections, 8, &g1_run_bytes(50, 3));
    assert_eq!(
        read_zkey(&file(&sections)),
        Err(ZkeyError::SizeMismatch { section: 8, declared: 192, expected: 128 })
    );
    let mut sections = toy_sections();
    replace_section(&mut sections, 7, &g2_run_bytes(40, 3));
    assert_eq!(
        read_zkey(&file(&sections)),
        Err(ZkeyError::SizeMismatch { section: 7, declared: 384, expected: 512 })
    );
    let data = toy_file();
    let binfile = BinFile::new(&data).unwrap();
    assert_eq!(
        binfile.g1_section(5, 5),
        Err(ZkeyError::SizeMismatch { section: 5, declared: 256, expected: 320 })
    );
    assert_eq!(binfile.g1_section(4, 5), Ok(g1_run(20, 4)));
    assert_eq!(binfile.g2_section(4, 7), Ok(g2_run(40, 4)));
    assert_eq!(binfile.ic(1), Ok(g1_run(10, 2)));
    assert_eq!(binfile.a_query(4), Ok(g1_run(20, 4)));
    assert_eq!(binfile.b_g1_query(4), Ok(g1_run(30, 4)));
    assert_eq!(binfile.b_g2_query(4), Ok(g2_run(40, 4)));
    assert_eq!(binfile.l_query(2), Ok(g1_run(50, 2)));
    assert_eq!(binfile.h_query(4), Ok(g1_run(60, 4)));
}

#[test]
fn too_many_public_inputs_are_refused() {
    // four variables, four public inputs: no room for the constant one
    let mut sections = toy_sections();
    replace_section(&mut sections, 2, &header_payload(4, 4, 4));
    replace_section(&mut sections, 3, &g1_run_bytes(10, 5));
    let data = file(&sections);
    let at = position_of(&data, 2) + 76;
    assert_eq!(read_zkey(&data), Err(format(Stage::GrothHeader, at, Detail::TooManyPublic)));

    // five public inputs and four variables: the matrices are refused too
    let mut sections = toy_sections();
    replace_section(&mut sections, 2, &header_payload(4, 5, 8));
    replace_section(
        &mut sections,
        4,
        &coefficients_payload(&[coefficient_bytes(0, 7, 1, 0)]),
    );
    let data = file(&sections);
    let at = position_of(&data, 2) + 76;
    assert_eq!(
        BinFile::new(&data).unwrap().matrices(),
        Err(format(Stage::GrothHeader, at, Detail::TooManyPublic))
    );
}

#[test]
fn bad_coefficients_are_refused() {
    let mut sections = toy_sections();
    replace_section(
        &mut sections,
        4,
        &coefficients_payload(&[coefficient_bytes(0, 1, 1, 0), coefficient_bytes(2, 0, 1, 0)]),
    );
    let data = file(&sections);
    let at = position_of(&data, 4) + 4 + 44;
    assert_eq!(
        BinFile::new(&data).unwrap().matrices(),
        Err(format(Stage::Coefficients, at, Detail::BadSelector(2)))
    );

    let mut sections = toy_sections();
    replace_section(
        &mut sections,
        4,
        &coefficients_payload(&[coefficient_bytes(1, 4, 1, 0), coefficient_bytes(2, 0, 1, 0)]),
    );
    let data = file(&sections);
    let at = position_of(&data, 4) + 4;
    assert_eq!(
        BinFile::new(&data).unwrap().matrices(),
        Err(format(Stage::Coefficients, at, Detail::ConstraintOutOfRange(4)))
    );

    // no constraint index reaches the number of public inputs
    let mut sections = toy_sections();
    replace_section(&mut sections, 4, &coefficients_payload(&[coefficient_bytes(0, 0, 1, 0)]));
    let data = file(&sections);
    let at = position_of(&data, 4);
    assert_eq!(
        BinFile::new(&data).unwrap().matrices(),
        Err(format(Stage::Coefficients, at, Detail::TooFewConstraints))
    );
}

#[test]
fn coefficient_section_of_another_length_is_refused() {
    let mut payload = toy_coefficients();
    payload.pop();
    let mut sections = toy_sections();
    replace_section(&mut sections, 4, &payload);
    assert_eq!(
        read_zkey(&file(&sections)),
        Err(ZkeyError::SizeMismatch { section: 4, declared: 223, expected: 224 })
    );
    let mut sections = toy_sections();
    replace_section(&mut sections, 4, &[5, 0, 0]);
    assert_eq!(
        read_zkey(&file(&sections)),
        Err(ZkeyError::SizeMismatch { section: 4, declared: 3, expected: 4 })
    );
}

#[test]
fn all_zero_encoding_is_the_identity() {
    let zeros = [0u8; 128];
    let identity1 = deserialize_g1(&zeros, 0).unwrap();
    assert!(identity1.infinity);
    assert_eq!(identity1, G1Point::identity());
    assert_eq!(identity1.x, Fq::zero());
    assert_eq!(identity1.y, Fq::zero());
    let identity2 = deserialize_g2(&zeros, 0).unwrap();
    assert!(identity2.infinity);
    assert_eq!(identity2, G2Point::identity());
    assert_eq!(identity2.x, Fq2::zero());
    assert_eq!(identity2.y, Fq2::zero());

    // one byte that is not zero makes a finite point, on the curve or not
    for at in [0usize, 31, 32, 63] {
        let mut bytes = [0u8; 64];
        bytes[at] = 1;
        let p = deserialize_g1(&bytes, 0).unwrap();
        assert!(!p.infinity);
        assert_ne!(p, G1Point::identity());
    }
    for at in [0usize, 64, 127] {
        let mut bytes = [0u8; 128];
        bytes[at] = 0x80;
        assert!(!deserialize_g2(&bytes, 0).unwrap().infinity);
    }
}

#[test]
fn identity_inside_a_vector_of_points() {
    let mut bytes = g1_bytes(7);
    bytes.extend([0u8; 64]);
    bytes.extend(g1_bytes(8));
    assert_eq!(
        deserialize_g1_vec(&bytes, 0, 3),
        Ok(vec![g1(7), G1Point::identity(), g1(8)])
    );
    let mut bytes = [0u8; 128].to_vec();
    bytes.extend(g2_bytes(9));
    assert_eq!(deserialize_g2_vec(&bytes, 0, 2), Ok(vec![G2Point::identity(), g2(9)]));
    assert_eq!(deserialize_g1_vec(&bytes, 0, 0), Ok(vec![]));
}

#[test]
fn points_are_read_as_they_stand() {
    let mut bytes = vec![0xffu8; 5];
    bytes.extend(g1_bytes(3));
    bytes.extend(g2_bytes(4));
    assert_eq!(deserialize_g1(&bytes, 5), Ok(g1(3)));
    assert_eq!(deserialize_g2(&bytes, 69), Ok(g2(4)));
    assert_eq!(G1Point::new_unchecked(fq(3), fq(103)), g1(3));
    assert_eq!(
        G2Point::new_unchecked(Fq2 { c0: fq(4), c1: fq(14) }, Fq2 { c0: fq(24), c1: fq(34) }),
        g2(4)
    );
    assert_eq!(deserialize_field(&bytes, 5), Ok(fq(3)));
    assert_eq!(deserialize_field2(&bytes, 69), Ok(Fq2 { c0: fq(4), c1: fq(14) }));
    // a coordinate is the little-endian value of its 32 bytes
    let mut one = [0u8; 32];
    one[0] = 1;
    one[8] = 2;
    one[31] = 0x30;
    assert_eq!(
        deserialize_field(&one, 0),
        Ok(Fq { repr: U256 { w0: 1, w1: 2, w2: 0, w3: 0x30 << 56 } })
    );
}

#[test]
fn points_that_end_early_are_refused() {
    let bytes = g2_bytes(4);
    let points = |offset: u64| Some(format(Stage::Points, offset, Detail::UnexpectedEnd));
    assert_eq!(deserialize_g1(&bytes[..63], 0).err(), points(32));
    assert_eq!(deserialize_g1(&bytes[..31], 0).err(), points(0));
    assert_eq!(deserialize_g1(&bytes[..10], 20).err(), points(20));
    assert_eq!(deserialize_g2(&bytes[..127], 0).err(), points(96));
    assert_eq!(deserialize_g2(&bytes[..64], 0).err(), points(64));
    assert_eq!(deserialize_field(&bytes[..31], 0).err(), points(0));
    assert_eq!(deserialize_field2(&bytes[..40], 0).err(), points(32));
    assert_eq!(deserialize_g1_vec(&bytes, 0, 3).err(), points(128));
    assert_eq!(deserialize_g2_vec(&bytes, 1, 1).err(), points(97));
    assert_eq!(
        deserialize_field_fr(&bytes[..31], 0),
        Err(format(Stage::Coefficients, 0, Detail::UnexpectedEnd))
    );
}

#[test]
fn coefficient_loses_one_radix_factor() {
    // the stored form of 1 is the radix squared; its internal form is the radix
    let stored = word_bytes(SCALARS[0].0);
    assert_eq!(deserialize_field_fr(&stored, 0), Ok(scalar(0)));
    for (stored, internal) in SCALARS {
        assert_eq!(reduce_stored(word(stored)), Fr { repr: word(internal) });
        assert_ne!(reduce_stored(word(stored)), Fr { repr: word(stored) });
    }
    assert_eq!(reduce_stored(U256::zero()), Fr { repr: U256::zero() });
}

#[test]
fn coefficient_agrees_with_the_field_library() {
    for v in [0u64, 1, 2, 5, 1 << 40, u64::MAX] {
        let internal = ark_bn254::Fr::from(v);
        // the element whose value is the internal form of `v`: its own
        // internal form carries the radix twice
        let stored = ark_bn254::Fr::new(internal.0);
        assert_eq!(reduce_stored(word(stored.0 .0)), Fr { repr: word(internal.0 .0) });
    }
    // a representation that is no residue: the modulus itself
    let reduced = reduce_stored(word(R));
    assert_eq!(reduced, Fr { repr: word(R) });
    // and the largest word
    assert_eq!(
        reduce_stored(word([u64::MAX; 4])),
        Fr {
            repr: word([
                0x6786558e824ee6b4,
                0x1f24f29e98a78409,
                0xf02a37d1d2c8fb00,
                0x1a7855215e6c4b0c
            ])
        }
    );
}

#[test]
fn builder_appends_to_rows_in_stream_order() {
    let mut builder = MatrixBuilder::new(4);
    let entry = |matrix, constraint, signal, index| Coefficient {
        matrix,
        constraint,
        signal,
        value: scalar(index),
    };
    assert_eq!(builder.push(entry(0, 1, 7, 0)), Ok(()));
    assert_eq!(builder.push(entry(0, 0, 8, 1)), Ok(()));
    assert_eq!(builder.push(entry(1, 1, 9, 2)), Ok(()));
    assert_eq!(builder.push(entry(0, 1, 6, 3)), Ok(()));
    assert_eq!(builder.push(entry(2, 1, 6, 3)), Err(Detail::BadSelector(2)));
    assert_eq!(builder.push(entry(1, 4, 6, 3)), Err(Detail::ConstraintOutOfRange(4)));
    assert_eq!(builder.push(entry(1, 3, 5, 4)), Ok(()));
    // highest index 3, one public input: the rows 0 and 1 stay
    let matrices = builder.finish(5, 1).unwrap();
    assert_eq!(matrices.num_constraints, 2);
    assert_eq!(matrices.num_instance_variables, 2);
    assert_eq!(matrices.num_witness_variables, 4);
    assert_eq!(
        matrices.a,
        vec![vec![(scalar(1), 8usize)], vec![(scalar(0), 7usize), (scalar(3), 6usize)]]
    );
    assert_eq!(matrices.b, vec![vec![], vec![(scalar(2), 9usize)]]);
    assert_eq!(matrices.a_num_non_zero, 3);
    assert_eq!(matrices.b_num_non_zero, 1);
    assert_eq!(matrices.c_num_non_zero, 0);
    assert!(matrices.c.is_empty());
}

#[test]
fn builder_refuses_to_finish_without_constraints() {
    let builder = MatrixBuilder::new(4);
    assert_eq!(builder.finish(5, 1).err(), Some(Detail::TooFewConstraints));
    let builder = MatrixBuilder::new(4);
    assert_eq!(builder.finish(0, 0).map(|m| m.num_constraints), Ok(0));
    let mut builder = MatrixBuilder::new(4);
    let entry = Coefficient { matrix: 0, constraint: 3, signal: 0, value: scalar(0) };
    assert_eq!(builder.push(entry), Ok(()));
    assert_eq!(builder.finish(2, 3).err(), Some(Detail::TooManyPublic));
    let builder = MatrixBuilder::new(0);
    assert_eq!(builder.finish(3, 0).map(|m| m.a.len()), Ok(0));
}

#[test]
fn cache_of_another_producer_is_refused() {
    let (key, matrices) = read_zkey(&toy_file()).unwrap();
    let cache = convert_zkey(&key, &matrices);
    assert_eq!(&cache[..4], b"azkc");
    assert_eq!(&cache[4..8], &1u32.to_le_bytes());
    let cache_error = |offset: u64, detail: Detail| Err(format(Stage::Cache, offset, detail));

    let mut other = cache.clone();
    other[4] = 2;
    assert_eq!(read_arkzkey_from_bytes(&other), cache_error(4, Detail::BadVersion));
    let mut other = cache.clone();
    other[3] = b'k';
    assert_eq!(read_arkzkey_from_bytes(&other), cache_error(0, Detail::BadMagic));
    // a file of the source format is no cache
    assert_eq!(read_arkzkey_from_bytes(&toy_file()), cache_error(0, Detail::BadMagic));
    assert_eq!(read_arkzkey_from_bytes(&cache[..2]), cache_error(0, Detail::UnexpectedEnd));
    assert_eq!(read_arkzkey_from_bytes(&cache[..6]), cache_error(4, Detail::UnexpectedEnd));
    assert_eq!(read_arkzkey_from_bytes(&cache[..8]), cache_error(8, Detail::UnexpectedEnd));
    // the six fixed points end at 584; the first vector's length follows
    assert_eq!(read_arkzkey_from_bytes(&cache[..590]), cache_error(584, Detail::UnexpectedEnd));
    assert_eq!(read_arkzkey_from_bytes(&cache[..600]), cache_error(592, Detail::UnexpectedEnd));
    let mut other = cache.clone();
    other.push(0);
    assert_eq!(
        read_arkzkey_from_bytes(&other),
        cache_error(cache.len() as u64, Detail::TrailingBytes)
    );
    assert_eq!(
        read_arkzkey_from_bytes(&cache[..cache.len() - 1]).err().map(|e| matches!(
            e,
            ZkeyError::Format { stage: Stage::Cache, detail: Detail::UnexpectedEnd, .. }
        )),
        Some(true)
    );
}

#[test]
fn cache_layout_is_as_described() {
    let (key, matrices) = read_zkey(&toy_file()).unwrap();
    let cache = convert_zkey(&key, &matrices);
    let mut expected = b"azkc".to_vec();
    expected.extend_from_slice(&1u32.to_le_bytes());
    expected.extend(g1_bytes(1000));
    expected.extend(g1_bytes(1001));
    expected.extend(g2_bytes(2000));
    expected.extend(g2_bytes(2001));
    expected.extend(g1_bytes(1002));
    expected.extend(g2_bytes(2002));
    for (count, bytes) in [
        (2u64, g1_run_bytes(10, 2)),
        (4, g1_run_bytes(20, 4)),
        (4, g1_run_bytes(30, 4)),
        (4, g2_run_bytes(40, 4)),
        (4, g1_run_bytes(60, 4)),
        (2, g1_run_bytes(50, 2)),
    ] {
        expected.extend_from_slice(&count.to_le_bytes());
        expected.extend(bytes);
    }
    for n in [2u64, 3, 1, 2, 1, 0] {
        expected.extend_from_slice(&n.to_le_bytes());
    }
    // A: one row of two entries
    expected.extend_from_slice(&1u64.to_le_bytes());
    expected.extend_from_slice(&2u64.to_le_bytes());
    expected.extend(word_bytes(SCALARS[0].1));
    expected.extend_from_slice(&1u64.to_le_bytes());
    expected.extend(word_bytes(SCALARS[2].1));
    expected.extend_from_slice(&3u64.to_le_bytes());
    // B: one row of one entry
    expected.extend_from_slice(&1u64.to_le_bytes());
    expected.extend_from_slice(&1u64.to_le_bytes());
    expected.extend(word_bytes(SCALARS[1].1));
    expected.extend_from_slice(&2u64.to_le_bytes());
    // C: no rows
    expected.extend_from_slice(&0u64.to_le_bytes());
    assert_eq!(cache, expected);
}

#[test]
fn cache_keeps_the_identity() {
    let mut sections = toy_sections();
    let mut points = g1_run_bytes(20, 3);
    points.extend([0u8; 64]);
    replace_section(&mut sections, 5, &points);
    let (key, matrices) = read_zkey(&file(&sections)).unwrap();
    assert_eq!(key.a_query[3], G1Point::identity());
    let cache = convert_zkey(&key, &matrices);
    assert_eq!(read_arkzkey_from_bytes(&cache), Ok((key, matrices)));
}

#[test]
fn proving_key_alone_makes_the_round_trip() {
    let (key, _) = read_zkey(&toy_file()).unwrap();
    let bytes = serialize_proving_key(&key);
    assert_eq!(bytes.len(), 576 + 6 * 8 + 64 * (2 + 4 + 4 + 4 + 2) + 128 * 4);
    assert_eq!(deserialize_proving_key(&bytes), Ok(key));
    let mut longer = bytes.clone();
    longer.push(1);
    assert_eq!(
        deserialize_proving_key(&longer),
        Err(format(Stage::Cache, bytes.len() as u64, Detail::TrailingBytes))
    );
    assert_eq!(
        deserialize_proving_key(&bytes[..100]),
        Err(format(Stage::Cache, 0, Detail::UnexpectedEnd))
    );
}

#[test]
fn section_longer_than_the_file_is_refused() {
    let mut data = b"zkey".to_vec();
    data.extend_from_slice(&1u32.to_le_bytes());
    data.extend_from_slice(&1u32.to_le_bytes());
    data.extend_from_slice(&9u32.to_le_bytes());
    data.extend_from_slice(&u64::MAX.to_le_bytes());
    data.extend_from_slice(&[0u8; 100]);
    assert_eq!(
        BinFile::new(&data).err(),
        Some(format(Stage::SectionTable, 24, Detail::UnexpectedEnd))
    );
    // a count of sections that the file cannot hold
    let mut data = b"zkey".to_vec();
    data.extend_from_slice(&1u32.to_le_bytes());
    data.extend_from_slice(&u32::MAX.to_le_bytes());
    data.extend(section(1, &[1, 2, 3]));
    assert_eq!(
        BinFile::new(&data).err(),
        Some(format(Stage::SectionTable, 27, Detail::UnexpectedEnd))
    );
}

#[test]
fn bytes_after_the_last_section_are_ignored() {
    let mut data = toy_file();
    let expected = read_zkey(&data).unwrap();
    data.extend_from_slice(&[0xaa; 17]);
    assert_eq!(read_zkey(&data), Ok(expected));
}

#[test]
fn empty_file_without_sections_opens() {
    let data = file(&[]);
    let binfile = BinFile::new(&data).unwrap();
    assert!(binfile.sections().is_empty());
    assert_eq!(
        binfile.groth_header(),
        Err(format(Stage::SectionTable, 0, Detail::MissingSection(2)))
    );
    assert_eq!(
        binfile.matrices().err(),
        Some(format(Stage::SectionTable, 0, Detail::MissingSection(2)))
    );
}

#[test]
fn key_without_private_variables_has_an_empty_query() {
    // two variables: the constant one and one public input
    let mut sections = toy_sections();
    replace_section(&mut sections, 2, &header_payload(2, 1, 4));
    replace_section(&mut sections, 5, &g1_run_bytes(20, 2));
    replace_section(&mut sections, 6, &g1_run_bytes(30, 2));
    replace_section(&mut sections, 7, &g2_run_bytes(40, 2));
    replace_section(&mut sections, 8, &[]);
    let (key, matrices) = read_zkey(&file(&sections)).unwrap();
    assert!(key.l_query.is_empty());
    assert_eq!(key.a_query.len(), 2);
    assert_eq!(matrices.num_witness_variables, 1);
    let cache = convert_zkey(&key, &matrices);
    assert_eq!(read_arkzkey_from_bytes(&cache), Ok((key, matrices)));
}
