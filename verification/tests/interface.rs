use zkey_core::cache::convert_zkey;
use zkey_core::cell::KeyCell;
use zkey_core::curve::{G1Point, G2Point};
use zkey_core::error::{Detail, MoproError, Stage, ZkeyError};
use zkey_core::ffi::{initialize_mopro, FFIError, MoproCircom};
use zkey_core::matrix::ConstraintMatrices;
use zkey_core::session::{CircomState, ProofOutcome, SetupOutcome};
use zkey_core::utils::{assert_paths_exists, bytes_to_bits, public_inputs};
use zkey_core::zkey::{ProvingKey, VerifyingKey};

fn small_key() -> ProvingKey {
    ProvingKey {
        vk: VerifyingKey {
            alpha_g1: G1Point::identity(),
            beta_g2: G2Point::identity(),
            gamma_g2: G2Point::identity(),
            delta_g2: G2Point::identity(),
            gamma_abc_g1: vec![G1Point::identity()],
        },
        beta_g1: G1Point::identity(),
        delta_g1: G1Point::identity(),
        a_query: vec![],
        b_g1_query: vec![],
        b_g2_query: vec![G2Point::identity()],
        h_query: vec![],
        l_query: vec![],
    }
}

fn small_matrices(num_constraints: usize) -> ConstraintMatrices {
    ConstraintMatrices {
        num_instance_variables: 1,
        num_witness_variables: 2,
        num_constraints,
        a_num_non_zero: 0,
        b_num_non_zero: 0,
        c_num_non_zero: 0,
        a: vec![vec![]; num_constraints],
        b: vec![vec![]; num_constraints],
        c: vec![],
    }
}

fn circom_error(text: &str) -> MoproError {
    MoproError::CircomError(text.to_string())
}

#[test]
fn add_works() {
    let result = zkey_core::ffi::add(2, 2);
    assert_eq!(result, 4);
}

#[test]
fn add_reaches_the_largest_number() {
    assert_eq!(zkey_core::ffi::add(u32::MAX - 1, 1), u32::MAX);
    assert_eq!(zkey_core::ffi::add(0, 0), 0);
}

#[test]
fn hello_greets() {
    assert_eq!(zkey_core::ffi::hello(), "Hello World from Rust");
}

#[test]
fn mod_test_setup_error() {
    // Arrange: Create a new CircomState instance
    let mut circom_state = CircomState::new();

    let wasm_path = "badpath/multiplier2.wasm";
    let r1cs_path = "badpath/multiplier2.r1cs";

    // Act: Call the setup method; neither file is there
    let result = circom_state.setup(
        wasm_path,
        false,
        r1cs_path,
        false,
        SetupOutcome::ConfigFailed(String::new()),
    );

    // Assert: Check that the method returns an error
    assert!(result.is_err());
    assert_eq!(result, Err(circom_error("Path does not exist: badpath/multiplier2.wasm")));
    assert!(!circom_state.has_builder());
    assert!(circom_state.params().is_none());
}

#[test]
fn bits_come_least_significant_first() {
    assert_eq!(bytes_to_bits(&[]), Vec::<bool>::new());
    assert_eq!(
        bytes_to_bits(&[1]),
        vec![true, false, false, false, false, false, false, false]
    );
    assert_eq!(
        bytes_to_bits(&[0x80, 0x05]),
        vec![
            false, false, false, false, false, false, false, true, true, false, true, false,
            false, false, false, false
        ]
    );
    // the first byte of the word "test": 116 = 0b0111_0100
    let input_vec = vec![
        116, 101, 115, 116, 0, 0, 0, 0, 0, 0, 0, 0, 0, 0, 0, 0, 0, 0, 0, 0, 0, 0, 0, 0, 0, 0, 0,
        0, 0, 0, 0, 0,
    ];
    let bits = bytes_to_bits(&input_vec);
    assert_eq!(bits.len(), 256);
    assert_eq!(&bits[..8], &[false, false, true, false, true, true, true, false]);
    assert_eq!(&bits[8..16], &[true, false, true, false, false, true, true, false]);
    assert!(bits[32..].iter().all(|bit| !bit));
    for (k, bit) in bits.iter().enumerate() {
        assert_eq!(*bit, (input_vec[k / 8] >> (k % 8)) & 1 == 1);
    }
}

#[test]
fn first_missing_path_is_named() {
    assert_eq!(assert_paths_exists("a.wasm", true, "a.r1cs", true), Ok(()));
    assert_eq!(
        assert_paths_exists("a.wasm", false, "a.r1cs", true),
        Err(circom_error("Path does not exist: a.wasm"))
    );
    assert_eq!(
        assert_paths_exists("a.wasm", true, "a.r1cs", false),
        Err(circom_error("Path does not exist: a.r1cs"))
    );
    assert_eq!(
        assert_paths_exists("a.wasm", false, "a.r1cs", false),
        Err(circom_error("Path does not exist: a.wasm"))
    );
    assert_eq!(
        assert_paths_exists("", false, "", false),
        Err(circom_error("Path does not exist: "))
    );
}

#[test]
fn session_is_set_up_step_by_step() {
    let mut state = CircomState::new();
    assert!(!state.has_builder());
    assert!(!state.has_circuit());
    assert!(state.params().is_none());

    // the circuit cannot be loaded: nothing changes
    let result =
        state.setup("c.wasm", true, "c.r1cs", true, SetupOutcome::ConfigFailed("no".to_string()));
    assert_eq!(result, Err(circom_error("no")));
    assert!(!state.has_builder());

    // the circuit is loaded, the parameters fail
    let result =
        state.setup("c.wasm", true, "c.r1cs", true, SetupOutcome::KeyFailed("rng".to_string()));
    assert_eq!(result, Err(circom_error("rng")));
    assert!(state.has_builder());
    assert!(state.params().is_none());

    // a missing path is found before the outcome is looked at
    let result = state.setup("c.wasm", true, "c.r1cs", false, SetupOutcome::Done(small_key()));
    assert_eq!(result, Err(circom_error("Path does not exist: c.r1cs")));
    assert!(state.params().is_none());

    let result = state.setup("c.wasm", true, "c.r1cs", true, SetupOutcome::Done(small_key()));
    assert_eq!(result, Ok(()));
    assert!(state.has_builder());
    assert_eq!(state.params(), Some(&small_key()));
}

#[test]
fn proof_is_refused_in_the_order_of_the_checks() {
    let done = || ProofOutcome::Done { proof: vec![1, 2], inputs: vec![3] };
    let mut state = CircomState::new();
    assert_eq!(state.generate_proof(done()), Err(circom_error("Builder has not been set up")));
    assert_eq!(
        state.generate_proof(ProofOutcome::BuildFailed("x".to_string())),
        Err(circom_error("Builder has not been set up"))
    );
    assert!(!state.has_circuit());

    let _ = state.setup("c.wasm", true, "c.r1cs", true, SetupOutcome::KeyFailed("k".to_string()));
    assert_eq!(
        state.generate_proof(ProofOutcome::BuildFailed("bad input".to_string())),
        Err(circom_error("bad input"))
    );
    assert!(!state.has_circuit());
    assert_eq!(
        state.generate_proof(done()),
        Err(circom_error("Parameters have not been set up"))
    );
    assert!(state.has_circuit());

    let _ = state.setup("c.wasm", true, "c.r1cs", true, SetupOutcome::Done(small_key()));
    assert_eq!(
        state.generate_proof(ProofOutcome::NoPublicInputs),
        Err(circom_error("Failed to get public inputs"))
    );
    assert_eq!(
        state.generate_proof(ProofOutcome::ProveFailed("unsatisfied".to_string())),
        Err(circom_error("unsatisfied"))
    );
    assert_eq!(state.generate_proof(done()), Ok((vec![1, 2], vec![3])));
}

#[test]
fn verdict_is_handed_on_once_there_are_parameters() {
    let mut state = CircomState::new();
    assert_eq!(state.verify_proof(Ok(true)), Err(circom_error("Parameters have not been set up")));
    assert_eq!(
        state.verify_proof(Err("e".to_string())),
        Err(circom_error("Parameters have not been set up"))
    );
    let _ = state.setup("c.wasm", true, "c.r1cs", true, SetupOutcome::Done(small_key()));
    assert_eq!(state.verify_proof(Ok(true)), Ok(true));
    assert_eq!(state.verify_proof(Ok(false)), Ok(false));
    assert_eq!(state.verify_proof(Err("malformed key".to_string())), Err(circom_error("malformed key")));
}

#[test]
fn foreign_layer_hands_out_bytes() {
    let mut session = MoproCircom::new();
    assert!(session.state().params().is_none());
    assert_eq!(session.verify_proof(Ok(true)), Err(circom_error("Parameters have not been set up")));

    let result = session.setup(
        "badpath/multiplier2.wasm".to_string(),
        false,
        "badpath/multiplier2.r1cs".to_string(),
        false,
        SetupOutcome::Done(small_key()),
        vec![7, 7, 7],
    );
    assert_eq!(
        result.err(),
        Some(circom_error("Path does not exist: badpath/multiplier2.wasm"))
    );

    let result = session.setup(
        "c.wasm".to_string(),
        true,
        "c.r1cs".to_string(),
        true,
        SetupOutcome::Done(small_key()),
        vec![7, 7, 7],
    );
    assert_eq!(result.map(|r| r.provingKey), Ok(vec![7, 7, 7]));
    assert_eq!(session.state().params(), Some(&small_key()));

    let result =
        session.generate_proof(ProofOutcome::Done { proof: vec![1, 2], inputs: vec![3] });
    let result = result.unwrap();
    assert_eq!(result.proof, vec![1, 2]);
    assert_eq!(result.inputs, vec![3]);
    assert_eq!(
        session.generate_proof(ProofOutcome::NoPublicInputs).err(),
        Some(circom_error("Failed to get public inputs"))
    );
    assert_eq!(session.verify_proof(Ok(true)), Ok(true));
    assert_eq!(session.verify_proof(Err("v".to_string())), Err(circom_error("v")));
}

#[test]
fn foreign_error_wraps_the_prover_error() {
    let wrapped = FFIError::from(circom_error("x"));
    assert!(matches!(wrapped, FFIError::MoproError(MoproError::CircomError(text)) if text == "x"));
}

#[test]
fn cell_is_filled_once() {
    let first = convert_zkey(&small_key(), &small_matrices(1));
    let second = convert_zkey(&small_key(), &small_matrices(2));

    let mut cell = KeyCell::new();
    assert!(!cell.is_initialized());
    assert!(cell.get().is_none());

    // a cache that is refused leaves the cell empty
    assert_eq!(
        cell.initialize(&first[..first.len() - 1]).err().map(|e| e.text()),
        Some("malformed proving-key data")
    );
    assert!(!cell.is_initialized());

    assert_eq!(cell.initialize(&first), Ok(()));
    assert!(cell.is_initialized());
    assert_eq!(cell.get(), Some(&(small_key(), small_matrices(1))));

    // a second initialization changes nothing, whatever it is given
    assert_eq!(cell.initialize(&second), Ok(()));
    assert_eq!(cell.get(), Some(&(small_key(), small_matrices(1))));
    assert_eq!(cell.initialize(&[1, 2, 3]), Ok(()));
    assert_eq!(cell.initialize_from_source(&[1, 2, 3]), Ok(()));
    assert_eq!(cell.get(), Some(&(small_key(), small_matrices(1))));
}

#[test]
fn cell_is_filled_from_the_source_format() {
    let mut cell = KeyCell::new();
    assert_eq!(
        cell.initialize_from_source(b"zkexxxxxxxxxxxxx"),
        Err(ZkeyError::Format { stage: Stage::FileHeader, offset: 0, detail: Detail::BadMagic })
    );
    assert!(!cell.is_initialized());
}

#[test]
fn process_cell_is_initialized_from_the_cache() {
    let cache = convert_zkey(&small_key(), &small_matrices(3));
    let mut cell = KeyCell::new();
    assert_eq!(
        initialize_mopro(&mut cell, b"not a cache"),
        Err(circom_error("malformed proving-key data"))
    );
    assert!(!cell.is_initialized());
    assert_eq!(initialize_mopro(&mut cell, &cache), Ok(()));
    assert_eq!(cell.get(), Some(&(small_key(), small_matrices(3))));
    assert_eq!(initialize_mopro(&mut cell, b"not a cache"), Ok(()));
    assert_eq!(cell.get(), Some(&(small_key(), small_matrices(3))));
}

#[test]
fn error_kinds_have_their_texts() {
    assert_eq!(
        ZkeyError::SizeMismatch { section: 5, declared: 1, expected: 2 }.text(),
        "section length does not match its records"
    );
    assert_eq!(
        ZkeyError::NonPowerOfTwoDomain { domain_size: 6 }.text(),
        "domain size is not a power of two"
    );
    assert_eq!(MoproError::circom("m"), circom_error("m"));
    assert_eq!(circom_error("no key").describe(), "CircomError: no key");
    assert_eq!(
        ZkeyError::Format { stage: Stage::Cache, offset: 3, detail: Detail::BadVersion }.text(),
        "malformed proving-key data"
    );
}

#[test]
fn public_inputs_follow_the_constant_one() {
    let full_assignment = [1u64, 33, 3, 11, 5];
    assert_eq!(public_inputs(&full_assignment, 3), vec![33, 3]);
    assert_eq!(public_inputs(&full_assignment, 1), Vec::<u64>::new());
    assert_eq!(public_inputs(&full_assignment, 5), vec![33, 3, 11, 5]);
}
