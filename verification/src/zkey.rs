//! The proving key and its assembly from the sections of a file.
//!
//! Sections by id: the header (2), the instance commitments (3), the
//! coefficients (4), the A query (5), the B query in the first (6) and in
//! the second group (7), the L query (8) and the H query (9). How many
//! points a point section holds follows from the header; a section whose
//! length is not that of its points is refused.

use crate::bytes::{le_u32, read_u32, U256};
use crate::curve::{
    deserialize_g1_vec,
    deserialize_g2_vec,
    vec_result_view,
    G1Point,
    G2Point,
};
use crate::error::{Detail, Stage, ZkeyError};
use crate::field::{reduce_stored, Fr};
use crate::header::{spec_is_power_of_two, HeaderGroth};
use crate::matrix::{
    lemma_after_counts,
    lemma_after_push,
    lemma_total_len_take,
    max_constraint,
    spec_rejects,
    spec_row,
    BuilderState,
    Coefficient,
    ConstraintMatrices,
    ConstraintSystem,
    MatrixBuilder,
};
use crate::section::{
    lemma_directory_errors,
    spec_directory,
    spec_get_section,
    BinFile,
    Section,
    SECTION_A,
    SECTION_B1,
    SECTION_B2,
    SECTION_COEFFICIENTS,
    SECTION_H,
    SECTION_HEADER,
    SECTION_IC,
    SECTION_L,
};
use vstd::arithmetic::power2::{lemma_pow2_pos, pow2};
use vstd::prelude::*;

verus! {

/// The verifying key of a circuit.
#[derive(Clone, Debug, PartialEq, Eq)]
pub struct VerifyingKey {
    pub alpha_g1: G1Point,
    pub beta_g2: G2Point,
    pub gamma_g2: G2Point,
    pub delta_g2: G2Point,
    /// The instance commitments: one for the constant one, then one for
    /// each public input.
    pub gamma_abc_g1: Vec<G1Point>,
}

/// The proving key of a circuit.
#[derive(Clone, Debug, PartialEq, Eq)]
pub struct ProvingKey {
    pub vk: VerifyingKey,
    pub beta_g1: G1Point,
    pub delta_g1: G1Point,
    pub a_query: Vec<G1Point>,
    pub b_g1_query: Vec<G1Point>,
    pub b_g2_query: Vec<G2Point>,
    pub h_query: Vec<G1Point>,
    pub l_query: Vec<G1Point>,
}

/// A verifying key as a value.
pub struct VerifyingKeyView {
    pub alpha_g1: G1Point,
    pub beta_g2: G2Point,
    pub gamma_g2: G2Point,
    pub delta_g2: G2Point,
    pub gamma_abc_g1: Seq<G1Point>,
}

/// A proving key as a value.
pub struct ProvingKeyView {
    pub vk: VerifyingKeyView,
    pub beta_g1: G1Point,
    pub delta_g1: G1Point,
    pub a_query: Seq<G1Point>,
    pub b_g1_query: Seq<G1Point>,
    pub b_g2_query: Seq<G2Point>,
    pub h_query: Seq<G1Point>,
    pub l_query: Seq<G1Point>,
}

impl View for VerifyingKey {
    type V = VerifyingKeyView;

    open spec fn view(&self) -> VerifyingKeyView {
        VerifyingKeyView {
            alpha_g1: self.alpha_g1,
            beta_g2: self.beta_g2,
            gamma_g2: self.gamma_g2,
            delta_g2: self.delta_g2,
            gamma_abc_g1: self.gamma_abc_g1@,
        }
    }
}

impl View for ProvingKey {
    type V = ProvingKeyView;

    open spec fn view(&self) -> ProvingKeyView {
        ProvingKeyView {
            vk: self.vk@,
            beta_g1: self.beta_g1,
            delta_g1: self.delta_g1,
            a_query: self.a_query@,
            b_g1_query: self.b_g1_query@,
            b_g2_query: self.b_g2_query@,
            h_query: self.h_query@,
            l_query: self.l_query@,
        }
    }
}

impl ProvingKeyView {
    /// Whether the queries have the lengths that a header asks for.
    pub open spec fn fits(self, header: HeaderGroth) -> bool {
        &&& self.vk.gamma_abc_g1.len() == header.n_public + 1
        &&& self.a_query.len() == header.n_vars
        &&& self.b_g1_query.len() == header.n_vars
        &&& self.b_g2_query.len() == header.n_vars
        &&& self.l_query.len() == header.n_vars - header.n_public - 1
        &&& self.h_query.len() == header.domain_size
    }
}

/// The first section of a file with the given id.
pub open spec fn spec_section(data: Seq<u8>, id: u32) -> Result<Section, ZkeyError> {
    match spec_directory(data) {
        Ok(sections) => spec_get_section(sections, id),
        Err(e) => Err(e),
    }
}

/// The header of a file.
pub open spec fn spec_groth_header(data: Seq<u8>) -> Result<HeaderGroth, ZkeyError> {
    match spec_section(data, SECTION_HEADER) {
        Ok(section) => HeaderGroth::spec_new(data, section),
        Err(e) => Err(e),
    }
}

/// The length in bytes of `n` records of `unit` bytes; the largest `u64`
/// where that is beyond it.
pub open spec fn expected_size(n: nat, unit: nat) -> u64 {
    if n * unit <= u64::MAX {
        (n * unit) as u64
    } else {
        u64::MAX
    }
}

/// The `n` points of the first group that make up the section with the
/// given id.
pub open spec fn spec_g1_section(data: Seq<u8>, n: nat, id: u32) -> Result<
    Seq<G1Point>,
    ZkeyError,
> {
    match spec_section(data, id) {
        Ok(section) => if section.size == n * 64 {
            Ok(G1Point::seq_at(data, section.position as int, n))
        } else {
            Err(
                ZkeyError::SizeMismatch {
                    section: id,
                    declared: section.size,
                    expected: expected_size(n, 64),
                },
            )
        },
        Err(e) => Err(e),
    }
}

/// The `n` points of the second group that make up the section with the
/// given id.
pub open spec fn spec_g2_section(data: Seq<u8>, n: nat, id: u32) -> Result<
    Seq<G2Point>,
    ZkeyError,
> {
    match spec_section(data, id) {
        Ok(section) => if section.size == n * 128 {
            Ok(G2Point::seq_at(data, section.position as int, n))
        } else {
            Err(
                ZkeyError::SizeMismatch {
                    section: id,
                    declared: section.size,
                    expected: expected_size(n, 128),
                },
            )
        },
        Err(e) => Err(e),
    }
}

/// The error for a header that counts more public inputs than its
/// variables allow; it points at the header's count of public inputs.
pub open spec fn too_many_public(header_section: Section) -> ZkeyError {
    ZkeyError::Format {
        stage: Stage::GrothHeader,
        offset: (header_section.position + 76) as u64,
        detail: Detail::TooManyPublic,
    }
}

/// The proving key of a file.
///
/// The sections are read in the order header, instance commitments, A, B
/// in the first group, B in the second, L, H, and the first that fails
/// gives the error.
pub open spec fn spec_proving_key(data: Seq<u8>) -> Result<ProvingKeyView, ZkeyError> {
    match spec_groth_header(data) {
        Err(e) => Err(e),
        Ok(header) => match spec_g1_section(data, (header.n_public + 1) as nat, SECTION_IC) {
            Err(e) => Err(e),
            Ok(ic) => match spec_g1_section(data, header.n_vars as nat, SECTION_A) {
                Err(e) => Err(e),
                Ok(a_query) => match spec_g1_section(data, header.n_vars as nat, SECTION_B1) {
                    Err(e) => Err(e),
                    Ok(b_g1_query) => match spec_g2_section(
                        data,
                        header.n_vars as nat,
                        SECTION_B2,
                    ) {
                        Err(e) => Err(e),
                        Ok(b_g2_query) => if header.n_vars < header.n_public + 1 {
                            Err(too_many_public(spec_section(data, SECTION_HEADER)->Ok_0))
                        } else {
                            match spec_g1_section(
                                data,
                                (header.n_vars - header.n_public - 1) as nat,
                                SECTION_L,
                            ) {
                                Err(e) => Err(e),
                                Ok(l_query) => match spec_g1_section(
                                    data,
                                    header.domain_size as nat,
                                    SECTION_H,
                                ) {
                                    Err(e) => Err(e),
                                    Ok(h_query) => Ok(
                                        ProvingKeyView {
                                            vk: VerifyingKeyView {
                                                alpha_g1: header.verifying_key.alpha_g1,
                                                beta_g2: header.verifying_key.beta_g2,
                                                gamma_g2: header.verifying_key.gamma_g2,
                                                delta_g2: header.verifying_key.delta_g2,
                                                gamma_abc_g1: ic,
                                            },
                                            beta_g1: header.verifying_key.beta_g1,
                                            delta_g1: header.verifying_key.delta_g1,
                                            a_query,
                                            b_g1_query,
                                            b_g2_query,
                                            h_query,
                                            l_query,
                                        },
                                    ),
                                },
                            }
                        },
                    },
                },
            },
        },
    }
}

/// The entry of the coefficient stream held in the 44 bytes at `pos`:
/// matrix, constraint, signal, and the stored coefficient.
pub open spec fn coefficient_at(data: Seq<u8>, pos: int) -> Coefficient {
    Coefficient {
        matrix: le_u32(data, pos) as u32,
        constraint: le_u32(data, pos + 4) as u32,
        signal: le_u32(data, pos + 8) as u32,
        value: Fr::at(data, pos + 12),
    }
}

/// The `n` entries held back to back from `pos` on.
pub open spec fn coefficients_at(data: Seq<u8>, pos: int, n: nat) -> Seq<Coefficient> {
    Seq::new(n, |j: int| coefficient_at(data, pos + 44 * j))
}

/// The index of the first entry that a builder with `rows` rows refuses,
/// with the reason.
pub open spec fn first_rejection(entries: Seq<Coefficient>, rows: nat) -> Option<(int, Detail)>
    decreases entries.len(),
{
    if entries.len() == 0 {
        None
    } else {
        match first_rejection(entries.drop_last(), rows) {
            Some(found) => Some(found),
            None => match spec_rejects(entries.last(), rows) {
                Some(detail) => Some((entries.len() - 1, detail)),
                None => None,
            },
        }
    }
}

/// The error for a refusal of the builder when the stream is done.
pub open spec fn finish_error(detail: Detail, header_section: Section, section: Section)
    -> ZkeyError {
    if detail == Detail::TooManyPublic {
        too_many_public(header_section)
    } else {
        ZkeyError::Format { stage: Stage::Coefficients, offset: section.position, detail }
    }
}

/// The constraint matrices that the coefficient section at `section`
/// gives under a header.
pub open spec fn spec_matrices_in(
    data: Seq<u8>,
    header: HeaderGroth,
    header_section: Section,
    section: Section,
) -> Result<ConstraintSystem, ZkeyError> {
    let count = le_u32(data, section.position as int) as nat;
    let entries = coefficients_at(data, section.position + 4, count);
    let rows = header.domain_size as nat;
    if section.size < 4 {
        Err(
            ZkeyError::SizeMismatch {
                section: SECTION_COEFFICIENTS,
                declared: section.size,
                expected: 4,
            },
        )
    } else if section.size != 4 + 44 * count {
        Err(
            ZkeyError::SizeMismatch {
                section: SECTION_COEFFICIENTS,
                declared: section.size,
                expected: (4 + 44 * count) as u64,
            },
        )
    } else {
        match first_rejection(entries, rows) {
            Some((j, detail)) => Err(
                ZkeyError::Format {
                    stage: Stage::Coefficients,
                    offset: (section.position + 4 + 44 * j) as u64,
                    detail,
                },
            ),
            None => match BuilderState::after(entries, rows).finish(
                header.n_vars,
                header.n_public,
            ) {
                Ok(m) => Ok(m),
                Err(detail) => Err(finish_error(detail, header_section, section)),
            },
        }
    }
}

/// The constraint matrices of a file.
pub open spec fn spec_matrices(data: Seq<u8>) -> Result<ConstraintSystem, ZkeyError> {
    match spec_groth_header(data) {
        Err(e) => Err(e),
        Ok(header) => match spec_section(data, SECTION_COEFFICIENTS) {
            Err(e) => Err(e),
            Ok(section) => spec_matrices_in(
                data,
                header,
                spec_section(data, SECTION_HEADER)->Ok_0,
                section,
            ),
        },
    }
}

/// What `read_zkey` returns, by the views of the two structures.
pub open spec fn spec_read_zkey(data: Seq<u8>) -> Result<
    (ProvingKeyView, ConstraintSystem),
    ZkeyError,
> {
    match spec_proving_key(data) {
        Err(e) => Err(e),
        Ok(key) => match spec_matrices(data) {
            Err(e) => Err(e),
            Ok(matrices) => Ok((key, matrices)),
        },
    }
}

/// The result of a decoder that returns constraint matrices, by their
/// view.
pub open spec fn matrices_result_view(r: Result<ConstraintMatrices, ZkeyError>) -> Result<
    ConstraintSystem,
    ZkeyError,
> {
    match r {
        Ok(m) => Ok(m@),
        Err(e) => Err(e),
    }
}

/// The result of a decoder that returns a proving key, by its view.
pub open spec fn key_result_view(r: Result<ProvingKey, ZkeyError>) -> Result<
    ProvingKeyView,
    ZkeyError,
> {
    match r {
        Ok(k) => Ok(k@),
        Err(e) => Err(e),
    }
}

/// The result of `read_zkey`, by the views of the two structures.
pub open spec fn read_result_view(r: Result<(ProvingKey, ConstraintMatrices), ZkeyError>)
    -> Result<(ProvingKeyView, ConstraintSystem), ZkeyError> {
    match r {
        Ok((k, m)) => Ok((k@, m@)),
        Err(e) => Err(e),
    }
}

/// A header that was accepted has a domain size that is a power of two,
/// and so is not zero.
pub proof fn lemma_domain_is_power_of_two(data: Seq<u8>)
    ensures
        spec_groth_header(data) matches Ok(header) ==> spec_is_power_of_two(
            header.domain_size as int,
        ) && header.domain_size > 0,
{
    if let Ok(header) = spec_groth_header(data) {
        let k = choose|k: nat| header.domain_size as int == #[trigger] pow2(k);
        lemma_pow2_pos(k);
    }
}

/// The queries of a proving key have the lengths that the header of its
/// file asks for: one point of A and of either B for each variable, one
/// of L for each variable that is neither public nor the constant one,
/// one of H for each point of the domain, and one instance commitment
/// more than there are public inputs.
pub proof fn lemma_query_lengths(data: Seq<u8>)
    ensures
        spec_proving_key(data) matches Ok(key) ==> spec_groth_header(data) matches Ok(header) && {
            &&& key.a_query.len() == header.n_vars
            &&& key.b_g1_query.len() == header.n_vars
            &&& key.b_g2_query.len() == header.n_vars
            &&& key.l_query.len() == header.n_vars - header.n_public - 1
            &&& key.h_query.len() == header.domain_size
            &&& key.vk.gamma_abc_g1.len() == header.n_public + 1
        },
{
}

/// The matrices of a file are cut to the number of constraints, which is
/// the highest constraint index of the coefficient section less the
/// number of public inputs, and is within the domain; the instance
/// variables are the public inputs and the constant one, the witness
/// variables are the rest; and each row that stays holds its entries in
/// the order of the section.
pub proof fn lemma_matrix_shape(data: Seq<u8>)
    ensures
        spec_matrices(data) matches Ok(m) ==> spec_groth_header(data) matches Ok(header)
            && spec_section(data, SECTION_COEFFICIENTS) matches Ok(section) && {
            let entries = coefficients_at(
                data,
                section.position + 4,
                le_u32(data, section.position as int) as nat,
            );
            &&& m.num_constraints == max_constraint(entries) - header.n_public
            &&& m.num_constraints <= header.domain_size
            &&& m.a.len() == m.num_constraints
            &&& m.b.len() == m.num_constraints
            &&& m.c.len() == 0
            &&& m.num_instance_variables == header.n_public + 1
            &&& m.num_witness_variables == header.n_vars - header.n_public
            &&& forall|i: int|
                0 <= i < m.num_constraints ==> #[trigger] m.a[i] == spec_row(entries, 0, i)
            &&& forall|i: int|
                0 <= i < m.num_constraints ==> #[trigger] m.b[i] == spec_row(entries, 1, i)
        },
{
    reveal(BuilderState::after);
    if let Ok(m) = spec_matrices(data) {
        let header = spec_groth_header(data)->Ok_0;
        let section = spec_section(data, SECTION_COEFFICIENTS)->Ok_0;
        let count = le_u32(data, section.position as int) as nat;
        let entries = coefficients_at(data, section.position + 4, count);
        let rows = header.domain_size as nat;
        lemma_max_constraint_in_range(entries, rows);
    }
}

/// A stream without a first refusal holds no entry that is refused.
pub proof fn lemma_none_rejected(entries: Seq<Coefficient>, rows: nat)
    requires
        first_rejection(entries, rows) is None,
    ensures
        forall|j: int| 0 <= j < entries.len() ==> spec_rejects(#[trigger] entries[j], rows) is None,
    decreases entries.len(),
{
    if entries.len() > 0 {
        let front = entries.drop_last();
        lemma_none_rejected(front, rows);
        assert forall|j: int| 0 <= j < entries.len() implies spec_rejects(
            #[trigger] entries[j],
            rows,
        ) is None by {
            if j < front.len() {
                assert(front[j] == entries[j]);
            }
        }
    }
}

/// The first refusal is that of the entry at its index, and no entry
/// before it is refused.
pub proof fn lemma_first_rejection_is_first(entries: Seq<Coefficient>, rows: nat)
    ensures
        first_rejection(entries, rows) matches Some((j, detail)) ==> {
            &&& 0 <= j < entries.len()
            &&& spec_rejects(entries[j], rows) == Some(detail)
            &&& forall|i: int| 0 <= i < j ==> spec_rejects(#[trigger] entries[i], rows) is None
        },
    decreases entries.len(),
{
    if entries.len() > 0 {
        let front = entries.drop_last();
        lemma_first_rejection_is_first(front, rows);
        match first_rejection(front, rows) {
            Some((j, detail)) => {
                assert(front[j] == entries[j]);
                assert forall|i: int| 0 <= i < j implies spec_rejects(
                    #[trigger] entries[i],
                    rows,
                ) is None by {
                    assert(front[i] == entries[i]);
                }
            },
            None => {
                lemma_none_rejected(front, rows);
                assert forall|i: int| 0 <= i < entries.len() - 1 implies spec_rejects(
                    #[trigger] entries[i],
                    rows,
                ) is None by {
                    assert(front[i] == entries[i]);
                }
            },
        }
    }
}

/// The counts of entries of the matrices of a file fit the machine: no
/// file, however large, has its matrices refused as too large.
pub proof fn lemma_matrices_fit(data: Seq<u8>)
    ensures
        spec_matrices(data) matches Err(ZkeyError::Format { detail, .. }) ==> detail
            != Detail::TooLarge,
{
    reveal(BuilderState::after);
    lemma_directory_errors(data);
    if let Ok(header) = spec_groth_header(data) {
        if let Ok(section) = spec_section(data, SECTION_COEFFICIENTS) {
            let count = le_u32(data, section.position as int) as nat;
            let entries = coefficients_at(data, section.position + 4, count);
            let rows = header.domain_size as nat;
            lemma_first_rejection_is_first(entries, rows);
            if section.size == 4 + 44 * count && first_rejection(entries, rows) is None {
                let state = BuilderState::after(entries, rows);
                lemma_none_rejected(entries, rows);
                lemma_after_counts(entries, rows);
                lemma_max_constraint_in_range(entries, rows);
                if state.max_constraint >= header.n_public {
                    let n = state.max_constraint - header.n_public;
                    lemma_total_len_take(state.a, n);
                    lemma_total_len_take(state.b, n);
                }
            }
        }
    }
}

/// A stream that a builder takes whole names no constraint beyond the
/// builder's rows.
pub proof fn lemma_max_constraint_in_range(entries: Seq<Coefficient>, rows: nat)
    requires
        first_rejection(entries, rows) is None,
    ensures
        max_constraint(entries) == 0 || max_constraint(entries) < rows,
    decreases entries.len(),
{
    if entries.len() > 0 {
        lemma_max_constraint_in_range(entries.drop_last(), rows);
    }
}

/// The first refusal in a prefix of a stream is the first in the whole of
/// it.
pub proof fn lemma_first_rejection_prefix(entries: Seq<Coefficient>, rows: nat, n: int)
    requires
        0 <= n <= entries.len(),
        first_rejection(entries.take(n), rows) is Some,
    ensures
        first_rejection(entries, rows) == first_rejection(entries.take(n), rows),
    decreases entries.len() - n,
{
    if n < entries.len() {
        assert(entries.take(n + 1).drop_last() =~= entries.take(n));
        lemma_first_rejection_prefix(entries, rows, n + 1);
    } else {
        assert(entries.take(n) =~= entries);
    }
}

impl<'a> BinFile<'a> {
    /// Decodes the header of the file from its header section.
    pub fn groth_header(&self) -> (r: Result<HeaderGroth, ZkeyError>)
        ensures
            r == spec_groth_header(self.bytes()),
    {
        let section = match self.get_section(SECTION_HEADER) {
            Ok(s) => s,
            Err(e) => { return Err(e); },
        };
        HeaderGroth::new(self.data(), &section)
    }

    /// Decodes the section with the given id as `num` points of the
    /// first group. Fails where the file has no such section and where
    /// the section's length is not that of `num` points.
    pub fn g1_section(&self, num: usize, section_id: u32) -> (r: Result<Vec<G1Point>, ZkeyError>)
        ensures
            vec_result_view(r) == spec_g1_section(self.bytes(), num as nat, section_id),
    {
        self.g1_points(num as u64, section_id)
    }

    /// Decodes the section with the given id as `num` points of the
    /// second group. Fails where the file has no such section and where
    /// the section's length is not that of `num` points.
    pub fn g2_section(&self, num: usize, section_id: u32) -> (r: Result<Vec<G2Point>, ZkeyError>)
        ensures
            vec_result_view(r) == spec_g2_section(self.bytes(), num as nat, section_id),
    {
        let section = match self.get_section(section_id) {
            Ok(s) => s,
            Err(e) => { return Err(e); },
        };
        let expected: Option<u64> = (num as u64).checked_mul(128);
        if expected != Some(section.size) {
            return Err(
                ZkeyError::SizeMismatch {
                    section: section_id,
                    declared: section.size,
                    expected: match expected {
                        Some(size) => size,
                        None => u64::MAX,
                    },
                },
            );
        }
        deserialize_g2_vec(self.data(), section.position as usize, num)
    }

    fn g1_points(&self, num: u64, section_id: u32) -> (r: Result<Vec<G1Point>, ZkeyError>)
        ensures
            vec_result_view(r) == spec_g1_section(self.bytes(), num as nat, section_id),
    {
        let section = match self.get_section(section_id) {
            Ok(s) => s,
            Err(e) => { return Err(e); },
        };
        let expected: Option<u64> = num.checked_mul(64);
        if expected != Some(section.size) {
            return Err(
                ZkeyError::SizeMismatch {
                    section: section_id,
                    declared: section.size,
                    expected: match expected {
                        Some(size) => size,
                        None => u64::MAX,
                    },
                },
            );
        }
        deserialize_g1_vec(self.data(), section.position as usize, num as usize)
    }

    /// The instance commitments: one point more than there are public
    /// inputs.
    pub fn ic(&self, n_public: usize) -> (r: Result<Vec<G1Point>, ZkeyError>)
        ensures
            vec_result_view(r) == spec_g1_section(self.bytes(), (n_public + 1) as nat, SECTION_IC),
    {
        match (n_public as u64).checked_add(1) {
            Some(n) => self.g1_points(n, SECTION_IC),
            None => {
                let section = match self.get_section(SECTION_IC) {
                    Ok(s) => s,
                    Err(e) => { return Err(e); },
                };
                Err(
                    ZkeyError::SizeMismatch {
                        section: SECTION_IC,
                        declared: section.size,
                        expected: u64::MAX,
                    },
                )
            },
        }
    }

    /// The A query: one point for each variable.
    pub fn a_query(&self, n_vars: usize) -> (r: Result<Vec<G1Point>, ZkeyError>)
        ensures
            vec_result_view(r) == spec_g1_section(self.bytes(), n_vars as nat, SECTION_A),
    {
        self.g1_section(n_vars, SECTION_A)
    }

    /// The B query in the first group: one point for each variable.
    pub fn b_g1_query(&self, n_vars: usize) -> (r: Result<Vec<G1Point>, ZkeyError>)
        ensures
            vec_result_view(r) == spec_g1_section(self.bytes(), n_vars as nat, SECTION_B1),
    {
        self.g1_section(n_vars, SECTION_B1)
    }

    /// The B query in the second group: one point for each variable.
    pub fn b_g2_query(&self, n_vars: usize) -> (r: Result<Vec<G2Point>, ZkeyError>)
        ensures
            vec_result_view(r) == spec_g2_section(self.bytes(), n_vars as nat, SECTION_B2),
    {
        self.g2_section(n_vars, SECTION_B2)
    }

    /// The L query: `n` points, one for each private variable.
    pub fn l_query(&self, n: usize) -> (r: Result<Vec<G1Point>, ZkeyError>)
        ensures
            vec_result_view(r) == spec_g1_section(self.bytes(), n as nat, SECTION_L),
    {
        self.g1_section(n, SECTION_L)
    }

    /// The H query: `n` points, one for each point of the domain.
    pub fn h_query(&self, n: usize) -> (r: Result<Vec<G1Point>, ZkeyError>)
        ensures
            vec_result_view(r) == spec_g1_section(self.bytes(), n as nat, SECTION_H),
    {
        self.g1_section(n, SECTION_H)
    }

    /// Assembles the proving key from the header and the six point
    /// sections.
    ///
    /// On success the queries have the lengths that the header asks for:
    /// one instance commitment more than public inputs, one point of A
    /// and of either B for each variable, one of L for each private
    /// variable, one of H for each point of the domain.
    pub fn proving_key(&self) -> (r: Result<ProvingKey, ZkeyError>)
        ensures
            key_result_view(r) == spec_proving_key(self.bytes()),
            r matches Ok(key) ==> spec_groth_header(self.bytes()) matches Ok(header) && key@.fits(
                header,
            ),
    {
        let header = match self.groth_header() {
            Ok(h) => h,
            Err(e) => { return Err(e); },
        };
        let ic = match self.ic(header.n_public) {
            Ok(v) => v,
            Err(e) => { return Err(e); },
        };
        let a_query = match self.a_query(header.n_vars) {
            Ok(v) => v,
            Err(e) => { return Err(e); },
        };
        let b_g1_query = match self.b_g1_query(header.n_vars) {
            Ok(v) => v,
            Err(e) => { return Err(e); },
        };
        let b_g2_query = match self.b_g2_query(header.n_vars) {
            Ok(v) => v,
            Err(e) => { return Err(e); },
        };
        if header.n_vars <= header.n_public {
            let section = match self.get_section(SECTION_HEADER) {
                Ok(s) => s,
                Err(e) => { return Err(e); },
            };
            return Err(
                ZkeyError::Format {
                    stage: Stage::GrothHeader,
                    offset: section.position + 76,
                    detail: Detail::TooManyPublic,
                },
            );
        }
        let l_query = match self.l_query(header.n_vars - header.n_public - 1) {
            Ok(v) => v,
            Err(e) => { return Err(e); },
        };
        let h_query = match self.h_query(header.domain_size as usize) {
            Ok(v) => v,
            Err(e) => { return Err(e); },
        };
        let vk = VerifyingKey {
            alpha_g1: header.verifying_key.alpha_g1,
            beta_g2: header.verifying_key.beta_g2,
            gamma_g2: header.verifying_key.gamma_g2,
            delta_g2: header.verifying_key.delta_g2,
            gamma_abc_g1: ic,
        };
        Ok(
            ProvingKey {
                vk,
                beta_g1: header.verifying_key.beta_g1,
                delta_g1: header.verifying_key.delta_g1,
                a_query,
                b_g1_query,
                b_g2_query,
                h_query,
                l_query,
            },
        )
    }

    /// Builds the constraint matrices from the coefficient section.
    ///
    /// Each entry of the section is appended to its row of A or of B;
    /// then both matrices are cut to the number of constraints, which is
    /// the highest constraint index of the section less the number of
    /// public inputs. On success both matrices have exactly that many
    /// rows.
    pub fn matrices(&self) -> (r: Result<ConstraintMatrices, ZkeyError>)
        ensures
            matrices_result_view(r) == spec_matrices(self.bytes()),
            r matches Ok(m) ==> m@.well_formed(),
    {
        let header = match self.groth_header() {
            Ok(h) => h,
            Err(e) => { return Err(e); },
        };
        let header_section = match self.get_section(SECTION_HEADER) {
            Ok(s) => s,
            Err(e) => { return Err(e); },
        };
        let section = match self.get_section(SECTION_COEFFICIENTS) {
            Ok(s) => s,
            Err(e) => { return Err(e); },
        };
        matrices_in(self.data(), &header, &header_section, &section)
    }
}

/// Builds the constraint matrices from the coefficient section `section`
/// of `data` under a header that was read from `header_section`.
fn matrices_in(
    data: &[u8],
    header: &HeaderGroth,
    header_section: &Section,
    section: &Section,
) -> (r: Result<ConstraintMatrices, ZkeyError>)
    requires
        section.position + section.size <= data.len(),
        header_section.position + 76 <= data.len(),
    ensures
        matrices_result_view(r) == spec_matrices_in(data@, *header, *header_section, *section),
        r matches Ok(m) ==> m@.well_formed(),
{
    let len: usize = data.len();
    if section.size < 4 {
        return Err(
            ZkeyError::SizeMismatch {
                section: SECTION_COEFFICIENTS,
                declared: section.size,
                expected: 4,
            },
        );
    }
    let start: usize = section.position as usize;
    let count: u32 = read_u32(data, start);
    let expected: u64 = 4 + 44 * (count as u64);
    if section.size != expected {
        return Err(
            ZkeyError::SizeMismatch {
                section: SECTION_COEFFICIENTS,
                declared: section.size,
                expected,
            },
        );
    }
    let rows: usize = header.domain_size as usize;
    let ghost entries = coefficients_at(data@, start + 4, count as nat);
    let mut builder = MatrixBuilder::new(rows);
    assert(entries.take(0) =~= Seq::empty());
    let mut j: usize = 0;
    while j < count as usize
        invariant
            j <= count,
            len == data@.len(),
            start + 4 + 44 * count <= len,
            entries == coefficients_at(data@, start + 4, count as nat),
            builder.well_formed(),
            builder@.rows() == rows,
            builder@ == BuilderState::after(entries.take(j as int), rows as nat),
            first_rejection(entries.take(j as int), rows as nat) is None,
            start == section.position,
            section.size == 4 + 44 * count,
            count == le_u32(data@, start as int),
            rows == header.domain_size,
        decreases count - j,
    {
        let at: usize = start + 4 + 44 * j;
        let c = read_coefficient(data, at);
        proof {
            assert(c == entries[j as int]);
            assert(entries.take(j + 1) =~= entries.take(j as int).push(c));
            assert(entries.take(j + 1).drop_last() =~= entries.take(j as int));
        }
        match builder.push(c) {
            Ok(()) => {
                proof {
                    lemma_after_push(entries.take(j as int), c, rows as nat);
                }
            },
            Err(detail) => {
                proof {
                    lemma_first_rejection_prefix(entries, rows as nat, j + 1);
                }
                return Err(
                    ZkeyError::Format { stage: Stage::Coefficients, offset: at as u64, detail },
                );
            },
        }
        j += 1;
    }
    assert(entries.take(j as int) =~= entries);
    match builder.finish(header.n_vars, header.n_public) {
        Ok(m) => Ok(m),
        Err(detail) => {
            match detail {
                Detail::TooManyPublic => Err(
                    ZkeyError::Format {
                        stage: Stage::GrothHeader,
                        offset: header_section.position + 76,
                        detail,
                    },
                ),
                _ => Err(
                    ZkeyError::Format {
                        stage: Stage::Coefficients,
                        offset: section.position,
                        detail,
                    },
                ),
            }
        },
    }
}

/// Decodes the entry of the coefficient stream held in the 44 bytes at
/// `pos`; the coefficient is put into the field library's internal form.
fn read_coefficient(data: &[u8], pos: usize) -> (c: Coefficient)
    requires
        pos + 44 <= data.len(),
    ensures
        c == coefficient_at(data@, pos as int),
{
    Coefficient {
        matrix: read_u32(data, pos),
        constraint: read_u32(data, pos + 4),
        signal: read_u32(data, pos + 8),
        value: reduce_stored(U256::read(data, pos + 12)),
    }
}

/// Decodes a proving-key file: the proving key, then the constraint
/// matrices.
///
/// The result is a function of the bytes alone: on any failure the error
/// is returned and nothing else.
pub fn read_zkey(data: &[u8]) -> (r: Result<(ProvingKey, ConstraintMatrices), ZkeyError>)
    ensures
        read_result_view(r) == spec_read_zkey(data@),
        r matches Ok((key, matrices)) ==> {
            &&& spec_groth_header(data@) matches Ok(header) && key@.fits(header)
            &&& matrices@.well_formed()
        },
{
    let binfile = match BinFile::new(data) {
        Ok(f) => f,
        Err(e) => { return Err(e); },
    };
    let proving_key = match binfile.proving_key() {
        Ok(k) => k,
        Err(e) => { return Err(e); },
    };
    let matrices = match binfile.matrices() {
        Ok(m) => m,
        Err(e) => { return Err(e); },
    };
    Ok((proving_key, matrices))
}

} // verus!
