//! The state of a prover session.
//!
//! A session is set up from the files of a circuit; then it makes proofs
//! and checks them. Loading a circuit, generating parameters, proving and
//! checking are the work of outside engines. This module holds what a
//! session decides: which request is refused in which state, which error
//! comes first, and what the state is afterwards. Each request takes the
//! outcome of the outside work as a value.

use crate::error::MoproError;
use crate::utils::{assert_paths_exists, spec_missing_path};
use crate::zkey::{ProvingKey, ProvingKeyView};
use vstd::prelude::*;

verus! {

/// What the outside work of a set-up came to.
pub enum SetupOutcome {
    /// The circuit could not be loaded; the text says why.
    ConfigFailed(String),
    /// The circuit was loaded and the parameters could not be generated.
    KeyFailed(String),
    /// The parameters were generated.
    Done(ProvingKey),
}

/// What the outside work of a proof came to.
pub enum ProofOutcome {
    /// The circuit could not be built from the inputs.
    BuildFailed(String),
    /// The circuit was built and has no public inputs to give.
    NoPublicInputs,
    /// The prover failed.
    ProveFailed(String),
    /// The proof and the public inputs, both serialized.
    Done { proof: Vec<u8>, inputs: Vec<u8> },
}

/// What a session holds.
pub struct CircomState {
    builder: bool,
    circuit: bool,
    params: Option<ProvingKey>,
}

/// The state of a session as a value.
pub struct SessionState {
    /// Whether a circuit has been loaded.
    pub builder: bool,
    /// Whether a circuit has been built from inputs.
    pub circuit: bool,
    /// The parameters, once they are generated.
    pub params: Option<ProvingKeyView>,
}

impl View for CircomState {
    type V = SessionState;

    closed spec fn view(&self) -> SessionState {
        SessionState {
            builder: self.builder,
            circuit: self.circuit,
            params: match self.params {
                Some(key) => Some(key@),
                None => None,
            },
        }
    }
}

impl SetupOutcome {
    /// The outcome as a value.
    pub open spec fn view(self) -> Result<ProvingKeyView, (bool, Seq<char>)> {
        match self {
            SetupOutcome::ConfigFailed(text) => Err((false, text@)),
            SetupOutcome::KeyFailed(text) => Err((true, text@)),
            SetupOutcome::Done(key) => Ok(key@),
        }
    }
}

impl SessionState {
    /// The state of a new session.
    pub open spec fn fresh() -> SessionState {
        SessionState { builder: false, circuit: false, params: None }
    }

    /// The state after a set-up.
    ///
    /// Nothing changes where a path is missing or the circuit cannot be
    /// loaded. A loaded circuit stays, also where no parameters come of
    /// it.
    pub open spec fn after_setup(
        self,
        missing: Option<Seq<char>>,
        outcome: Result<ProvingKeyView, (bool, Seq<char>)>,
    ) -> SessionState {
        if missing is Some {
            self
        } else {
            match outcome {
                Err((loaded, _)) => SessionState { builder: self.builder || loaded, ..self },
                Ok(key) => SessionState { builder: true, params: Some(key), ..self },
            }
        }
    }

    /// The message of the error of a set-up, if it has one.
    pub open spec fn setup_error(
        missing: Option<Seq<char>>,
        outcome: Result<ProvingKeyView, (bool, Seq<char>)>,
    ) -> Option<Seq<char>> {
        match missing {
            Some(message) => Some(message),
            None => match outcome {
                Err((_, text)) => Some(text),
                Ok(_) => None,
            },
        }
    }

    /// The message of the error of a proof, if it has one: the first of
    /// the checks, in their order, that fails.
    pub open spec fn proof_error(self, outcome: ProofOutcome) -> Option<Seq<char>> {
        if !self.builder {
            Some("Builder has not been set up"@)
        } else if let ProofOutcome::BuildFailed(text) = outcome {
            Some(text@)
        } else if self.params is None {
            Some("Parameters have not been set up"@)
        } else {
            match outcome {
                ProofOutcome::BuildFailed(text) => Some(text@),
                ProofOutcome::NoPublicInputs => Some("Failed to get public inputs"@),
                ProofOutcome::ProveFailed(text) => Some(text@),
                ProofOutcome::Done { .. } => None,
            }
        }
    }

    /// The state after a proof: a circuit that was built stays.
    pub open spec fn after_proof(self, outcome: ProofOutcome) -> SessionState {
        if self.builder && !(outcome is BuildFailed) {
            SessionState { circuit: true, ..self }
        } else {
            self
        }
    }

    /// What a check of a proof returns for the verdict of the outside
    /// verifier, or the message of its error.
    pub open spec fn verify(self, verdict: Result<bool, String>) -> Result<bool, Seq<char>> {
        if self.params is None {
            Err("Parameters have not been set up"@)
        } else {
            match verdict {
                Ok(valid) => Ok(valid),
                Err(text) => Err(text@),
            }
        }
    }
}

impl CircomState {
    /// A session that has been given nothing.
    pub fn new() -> (state: CircomState)
        ensures
            state@ == SessionState::fresh(),
    {
        CircomState { builder: false, circuit: false, params: None }
    }

    /// The parameters, once a set-up has succeeded.
    pub fn params(&self) -> (r: Option<&ProvingKey>)
        ensures
            match r {
                Some(key) => self@.params == Some(key@),
                None => self@.params is None,
            },
    {
        self.params.as_ref()
    }

    /// Whether a circuit has been loaded.
    pub fn has_builder(&self) -> (r: bool)
        ensures
            r == self@.builder,
    {
        self.builder
    }

    /// Whether a circuit has been built from inputs.
    pub fn has_circuit(&self) -> (r: bool)
        ensures
            r == self@.circuit,
    {
        self.circuit
    }

    /// Sets the session up.
    ///
    /// Refuses where one of the two files is missing, naming the first
    /// that is; then where the outside work failed, with its text.
    /// Otherwise the session holds the parameters.
    pub fn setup(
        &mut self,
        wasm_path: &str,
        wasm_exists: bool,
        r1cs_path: &str,
        r1cs_exists: bool,
        outcome: SetupOutcome,
    ) -> (r: Result<(), MoproError>)
        ensures
            final(self)@ == old(self)@.after_setup(
                spec_missing_path(wasm_path@, wasm_exists, r1cs_path@, r1cs_exists),
                outcome.view(),
            ),
            match SessionState::setup_error(
                spec_missing_path(wasm_path@, wasm_exists, r1cs_path@, r1cs_exists),
                outcome.view(),
            ) {
                Some(message) => r matches Err(e) && e.message() == message,
                None => r is Ok,
            },
    {
        match assert_paths_exists(wasm_path, wasm_exists, r1cs_path, r1cs_exists) {
            Ok(()) => {},
            Err(e) => { return Err(e); },
        }
        match outcome {
            SetupOutcome::ConfigFailed(text) => Err(MoproError::CircomError(text)),
            SetupOutcome::KeyFailed(text) => {
                self.builder = true;
                Err(MoproError::CircomError(text))
            },
            SetupOutcome::Done(key) => {
                self.builder = true;
                self.params = Some(key);
                Ok(())
            },
        }
    }

    /// Makes a proof.
    ///
    /// Refuses, in this order: where no circuit has been loaded; where
    /// the circuit could not be built from the inputs; where there are no
    /// parameters; where the circuit has no public inputs; where the
    /// prover failed. Otherwise hands out the proof and the public
    /// inputs.
    pub fn generate_proof(&mut self, outcome: ProofOutcome) -> (r: Result<
        (Vec<u8>, Vec<u8>),
        MoproError,
    >)
        ensures
            final(self)@ == old(self)@.after_proof(outcome),
            match old(self)@.proof_error(outcome) {
                Some(message) => r matches Err(e) && e.message() == message,
                None => r matches Ok(pair) && outcome matches ProofOutcome::Done { proof, inputs }
                    && pair.0 == proof && pair.1 == inputs,
            },
    {
        if !self.builder {
            return Err(MoproError::circom("Builder has not been set up"));
        }
        if let ProofOutcome::BuildFailed(text) = outcome {
            return Err(MoproError::CircomError(text));
        }
        self.circuit = true;
        if self.params.is_none() {
            return Err(MoproError::circom("Parameters have not been set up"));
        }
        match outcome {
            ProofOutcome::BuildFailed(text) => Err(MoproError::CircomError(text)),
            ProofOutcome::NoPublicInputs => Err(MoproError::circom("Failed to get public inputs")),
            ProofOutcome::ProveFailed(text) => Err(MoproError::CircomError(text)),
            ProofOutcome::Done { proof, inputs } => Ok((proof, inputs)),
        }
    }

    /// Checks a proof, given the verdict of the outside verifier.
    ///
    /// Refuses where there are no parameters, whatever the verdict; else
    /// hands on the verdict, or the verifier's error with its text.
    pub fn verify_proof(&self, verdict: Result<bool, String>) -> (r: Result<bool, MoproError>)
        ensures
            match self@.verify(verdict) {
                Ok(valid) => r == Ok::<bool, MoproError>(valid),
                Err(message) => r matches Err(e) && e.message() == message,
            },
    {
        if self.params.is_none() {
            return Err(MoproError::circom("Parameters have not been set up"));
        }
        match verdict {
            Ok(valid) => Ok(valid),
            Err(text) => Err(MoproError::CircomError(text)),
        }
    }
}

} // verus!
