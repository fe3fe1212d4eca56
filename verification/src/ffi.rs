//! The prover as a foreign-function layer sees it: byte vectors in and
//! out, and one error type.

use crate::cache::spec_decode_cache;
use crate::cell::KeyCell;
use crate::error::MoproError;
use crate::session::{CircomState, ProofOutcome, SessionState, SetupOutcome};
use crate::utils::spec_missing_path;
use vstd::prelude::*;

verus! {

/// The error of the foreign-function layer.
#[derive(Debug)]
pub enum FFIError {
    MoproError(MoproError),
    SerializationError(String),
}

/// A proof with its public inputs, both serialized.
#[derive(Debug, Clone)]
pub struct GenerateProofResult {
    pub proof: Vec<u8>,
    pub inputs: Vec<u8>,
}

/// The proving key that a set-up has generated, serialized.
#[allow(non_snake_case)]
#[derive(Debug, Clone)]
pub struct SetupResult {
    pub provingKey: Vec<u8>,
}

impl From<MoproError> for FFIError {
    fn from(error: MoproError) -> (r: FFIError) {
        FFIError::MoproError(error)
    }
}

impl vstd::std_specs::convert::FromSpecImpl<MoproError> for FFIError {
    open spec fn obeys_from_spec() -> bool {
        true
    }

    open spec fn from_spec(error: MoproError) -> FFIError {
        FFIError::MoproError(error)
    }
}

/// A prover session behind the foreign-function layer.
pub struct MoproCircom {
    state: CircomState,
}

impl View for MoproCircom {
    type V = SessionState;

    closed spec fn view(&self) -> SessionState {
        self.state@
    }
}

impl MoproCircom {
    /// A session that has been given nothing.
    pub fn new() -> (session: MoproCircom)
        ensures
            session@ == SessionState::fresh(),
    {
        MoproCircom { state: CircomState::new() }
    }

    /// The state of the session.
    pub fn state(&self) -> (state: &CircomState)
        ensures
            state@ == self@,
    {
        &self.state
    }

    /// Sets the session up and hands out the serialized proving key.
    ///
    /// `serialized` is the generated key in the outside library's
    /// encoding; it is handed out where the set-up succeeds. The set-up
    /// is refused where one of the two files is missing, naming the
    /// first that is; then where the outside work failed, with its text.
    pub fn setup(
        &mut self,
        wasm_path: String,
        wasm_exists: bool,
        r1cs_path: String,
        r1cs_exists: bool,
        outcome: SetupOutcome,
        serialized: Vec<u8>,
    ) -> (r: Result<SetupResult, MoproError>)
        ensures
            final(self)@ == old(self)@.after_setup(
                spec_missing_path(wasm_path@, wasm_exists, r1cs_path@, r1cs_exists),
                outcome.view(),
            ),
            match SessionState::setup_error(
                spec_missing_path(wasm_path@, wasm_exists, r1cs_path@, r1cs_exists),
                outcome.view(),
            ) {
                Some(message) => r matches Err(e) && e.message() == message,
                None => r matches Ok(result) && result.provingKey == serialized,
            },
    {
        match self.state.setup(
            wasm_path.as_str(),
            wasm_exists,
            r1cs_path.as_str(),
            r1cs_exists,
            outcome,
        ) {
            Ok(()) => Ok(SetupResult { provingKey: serialized }),
            Err(e) => Err(e),
        }
    }

    /// Makes a proof and hands it out with the public inputs, both
    /// serialized. Refuses as `CircomState::generate_proof` does.
    pub fn generate_proof(&mut self, outcome: ProofOutcome) -> (r: Result<
        GenerateProofResult,
        MoproError,
    >)
        ensures
            final(self)@ == old(self)@.after_proof(outcome),
            match old(self)@.proof_error(outcome) {
                Some(message) => r matches Err(e) && e.message() == message,
                None => r matches Ok(result) && outcome matches ProofOutcome::Done { proof, inputs }
                    && result.proof == proof && result.inputs == inputs,
            },
    {
        match self.state.generate_proof(outcome) {
            Ok((proof, inputs)) => Ok(GenerateProofResult { proof, inputs }),
            Err(e) => Err(e),
        }
    }

    /// Checks a proof, given the verdict of the outside verifier.
    ///
    /// Refuses where the session has not been set up, whatever the
    /// verdict; else hands on the verdict, or the verifier's error with
    /// its text.
    pub fn verify_proof(&self, verdict: Result<bool, String>) -> (r: Result<bool, MoproError>)
        ensures
            match self@.verify(verdict) {
                Ok(valid) => r == Ok::<bool, MoproError>(valid),
                Err(message) => r matches Err(e) && e.message() == message,
            },
    {
        self.state.verify_proof(verdict)
    }
}

/// Fills the process's cell from the cache that was shipped with it.
///
/// A cell that holds a key is left as it is. An empty cell takes what the
/// cache decodes to; where the cache is refused, the cell stays empty and
/// the error's text is returned.
pub fn initialize_mopro(cell: &mut KeyCell, arkzkey: &[u8]) -> (r: Result<(), MoproError>)
    ensures
        final(cell).content() == KeyCell::filled(old(cell).content(), spec_decode_cache(arkzkey@)),
        match KeyCell::outcome(old(cell).content(), spec_decode_cache(arkzkey@)) {
            Ok(()) => r is Ok,
            Err(e) => r matches Err(error) && error.message() == e.spec_text(),
        },
{
    match cell.initialize(arkzkey) {
        Ok(()) => Ok(()),
        Err(e) => Err(MoproError::circom(e.text())),
    }
}

/// The sum of two numbers that have one.
pub fn add(a: u32, b: u32) -> (sum: u32)
    requires
        a + b <= u32::MAX,
    ensures
        sum == a + b,
{
    a + b
}

/// A greeting.
pub fn hello() -> (greeting: String)
    ensures
        greeting@ == "Hello World from Rust"@,
{
    "Hello World from Rust".to_owned()
}

} // verus!
