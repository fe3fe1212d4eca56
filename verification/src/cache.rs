//! The cache encoding of a proving key with its constraint matrices.
//!
//! A cache is the magic `azkc`, a version, the proving key and the
//! matrices, with nothing after them. Integers are little-endian. A point
//! is its coordinates as in the source format, with all zeros for the
//! point at infinity; a vector is its length as a `u64` and then its
//! items; a matrix is a vector of rows, a row a vector of entries, an
//! entry a coefficient in internal form and a column as a `u64`.
//!
//! The cache is derived data. A cache of another version, or one that is
//! damaged, is refused, and is made anew from the source.

use crate::bytes::{
    le_u32,
    le_u64,
    put_u32,
    put_u64,
    put_word,
    read_u32,
    read_u64,
    u32_le_bytes,
    u64_le_bytes,
    U256,
};
use crate::curve::{deserialize_g1_vec, deserialize_g2_vec, G1Point, G2Point};
use crate::error::{Detail, Stage, ZkeyError};
use crate::field::Fr;
use crate::header::{ZVerifyingKey, VERIFYING_KEY_SIZE};
use crate::matrix::{matrix_view, ConstraintMatrices, ConstraintSystem, Matrix};
use crate::zkey::{key_result_view, read_result_view, ProvingKey, ProvingKeyView, VerifyingKey, VerifyingKeyView};
use vstd::prelude::*;

verus! {

/// The version of the cache encoding that this crate writes and reads.
pub const CACHE_VERSION: u32 = 1;

/// The magic of a cache: the ASCII letters `azkc`.
pub open spec fn cache_magic() -> Seq<u8> {
    seq![0x61u8, 0x7au8, 0x6bu8, 0x63u8]
}

/// The bytes of a point of the first group: `x`, then `y`.
pub open spec fn enc_g1(p: G1Point) -> Seq<u8> {
    p.x.repr.le_bytes() + p.y.repr.le_bytes()
}

/// The bytes of a point of the second group: the two coefficients of `x`,
/// then those of `y`.
pub open spec fn enc_g2(p: G2Point) -> Seq<u8> {
    p.x.c0.repr.le_bytes() + p.x.c1.repr.le_bytes() + p.y.c0.repr.le_bytes()
        + p.y.c1.repr.le_bytes()
}

/// The bytes of the items of a vector of points of the first group.
pub open spec fn enc_g1_seq(s: Seq<G1Point>) -> Seq<u8>
    decreases s.len(),
{
    if s.len() == 0 {
        Seq::empty()
    } else {
        enc_g1_seq(s.drop_last()) + enc_g1(s.last())
    }
}

/// The bytes of the items of a vector of points of the second group.
pub open spec fn enc_g2_seq(s: Seq<G2Point>) -> Seq<u8>
    decreases s.len(),
{
    if s.len() == 0 {
        Seq::empty()
    } else {
        enc_g2_seq(s.drop_last()) + enc_g2(s.last())
    }
}

/// The bytes of a vector of points of the first group.
pub open spec fn enc_g1_vec(s: Seq<G1Point>) -> Seq<u8> {
    u64_le_bytes(s.len() as u64) + enc_g1_seq(s)
}

/// The bytes of a vector of points of the second group.
pub open spec fn enc_g2_vec(s: Seq<G2Point>) -> Seq<u8> {
    u64_le_bytes(s.len() as u64) + enc_g2_seq(s)
}

/// The bytes of an entry of a matrix: the coefficient, then the column.
pub open spec fn enc_entry(e: (Fr, usize)) -> Seq<u8> {
    e.0.repr.le_bytes() + u64_le_bytes(e.1 as u64)
}

/// The bytes of the entries of a row.
pub open spec fn enc_entries(row: Seq<(Fr, usize)>) -> Seq<u8>
    decreases row.len(),
{
    if row.len() == 0 {
        Seq::empty()
    } else {
        enc_entries(row.drop_last()) + enc_entry(row.last())
    }
}

/// The bytes of a row.
pub open spec fn enc_row(row: Seq<(Fr, usize)>) -> Seq<u8> {
    u64_le_bytes(row.len() as u64) + enc_entries(row)
}

/// The bytes of the rows of a matrix.
pub open spec fn enc_rows(m: Matrix) -> Seq<u8>
    decreases m.len(),
{
    if m.len() == 0 {
        Seq::empty()
    } else {
        enc_rows(m.drop_last()) + enc_row(m.last())
    }
}

/// The bytes of a matrix.
pub open spec fn enc_matrix(m: Matrix) -> Seq<u8> {
    u64_le_bytes(m.len() as u64) + enc_rows(m)
}

/// The bytes of the six points that a key holds outside its vectors, in
/// the order of the source format's header.
pub open spec fn enc_fixed_points(key: ProvingKeyView) -> Seq<u8> {
    enc_g1(key.vk.alpha_g1) + enc_g1(key.beta_g1) + enc_g2(key.vk.beta_g2) + enc_g2(
        key.vk.gamma_g2,
    ) + enc_g1(key.delta_g1) + enc_g2(key.vk.delta_g2)
}

/// The bytes of a proving key.
pub open spec fn enc_key(key: ProvingKeyView) -> Seq<u8> {
    enc_fixed_points(key) + enc_g1_vec(key.vk.gamma_abc_g1) + enc_g1_vec(key.a_query)
        + enc_g1_vec(key.b_g1_query) + enc_g2_vec(key.b_g2_query) + enc_g1_vec(key.h_query)
        + enc_g1_vec(key.l_query)
}

/// The bytes of the six counts of a constraint system.
pub open spec fn enc_shape(m: ConstraintSystem) -> Seq<u8> {
    u64_le_bytes(m.num_instance_variables as u64) + u64_le_bytes(m.num_witness_variables as u64)
        + u64_le_bytes(m.num_constraints as u64) + u64_le_bytes(m.a_num_non_zero as u64)
        + u64_le_bytes(m.b_num_non_zero as u64) + u64_le_bytes(m.c_num_non_zero as u64)
}

/// The bytes of a constraint system.
pub open spec fn enc_system(m: ConstraintSystem) -> Seq<u8> {
    enc_shape(m) + enc_matrix(m.a) + enc_matrix(m.b) + enc_matrix(m.c)
}

/// The cache of a proving key with its constraint matrices.
pub open spec fn spec_encode_cache(key: ProvingKeyView, m: ConstraintSystem) -> Seq<u8> {
    cache_magic() + u32_le_bytes(CACHE_VERSION) + enc_key(key) + enc_system(m)
}

/// The error for a cache that ends before the item at `offset`.
pub open spec fn cache_truncated(offset: int) -> ZkeyError {
    ZkeyError::truncated(Stage::Cache, offset)
}

/// The count held at `pos`, with the offset after it. A count that the
/// machine cannot address is refused.
pub open spec fn dec_count(data: Seq<u8>, pos: int) -> Result<(usize, int), ZkeyError> {
    if pos + 8 > data.len() {
        Err(cache_truncated(pos))
    } else if le_u64(data, pos) > usize::MAX {
        Err(ZkeyError::Format { stage: Stage::Cache, offset: pos as u64, detail: Detail::TooLarge })
    } else {
        Ok((le_u64(data, pos) as usize, pos + 8))
    }
}

/// The vector of points of the first group held at `pos`, with the
/// offset after it.
pub open spec fn dec_g1_vec(data: Seq<u8>, pos: int) -> Result<(Seq<G1Point>, int), ZkeyError> {
    match dec_count(data, pos) {
        Err(e) => Err(e),
        Ok((n, start)) => if start + 64 * n > data.len() {
            Err(cache_truncated(start))
        } else {
            Ok((G1Point::seq_at(data, start, n as nat), start + 64 * n))
        },
    }
}

/// The vector of points of the second group held at `pos`, with the
/// offset after it.
pub open spec fn dec_g2_vec(data: Seq<u8>, pos: int) -> Result<(Seq<G2Point>, int), ZkeyError> {
    match dec_count(data, pos) {
        Err(e) => Err(e),
        Ok((n, start)) => if start + 128 * n > data.len() {
            Err(cache_truncated(start))
        } else {
            Ok((G2Point::seq_at(data, start, n as nat), start + 128 * n))
        },
    }
}

/// The entry of a matrix held in the 40 bytes at `pos`.
pub open spec fn dec_entry(data: Seq<u8>, pos: int) -> Result<(Fr, usize), ZkeyError> {
    if pos + 40 > data.len() {
        Err(cache_truncated(pos))
    } else if le_u64(data, pos + 32) > usize::MAX {
        Err(
            ZkeyError::Format {
                stage: Stage::Cache,
                offset: (pos + 32) as u64,
                detail: Detail::TooLarge,
            },
        )
    } else {
        Ok((Fr { repr: U256::at(data, pos) }, le_u64(data, pos + 32) as usize))
    }
}

/// The first `k` entries held back to back from `pos` on, or the error of
/// the first of them that has one.
pub open spec fn dec_entries(data: Seq<u8>, pos: int, k: nat) -> Result<
    Seq<(Fr, usize)>,
    ZkeyError,
>
    decreases k,
{
    if k == 0 {
        Ok(Seq::empty())
    } else {
        match dec_entries(data, pos, (k - 1) as nat) {
            Err(e) => Err(e),
            Ok(row) => match dec_entry(data, pos + 40 * (k - 1)) {
                Err(e) => Err(e),
                Ok(entry) => Ok(row.push(entry)),
            },
        }
    }
}

/// The row held at `pos`, with the offset after it.
pub open spec fn dec_row(data: Seq<u8>, pos: int) -> Result<(Seq<(Fr, usize)>, int), ZkeyError> {
    match dec_count(data, pos) {
        Err(e) => Err(e),
        Ok((n, start)) => match dec_entries(data, start, n as nat) {
            Err(e) => Err(e),
            Ok(row) => Ok((row, start + 40 * n)),
        },
    }
}

/// The first `k` rows held one after the other from `pos` on, with the
/// offset after them, or the error of the first of them that has one.
pub open spec fn dec_rows(data: Seq<u8>, pos: int, k: nat) -> Result<(Matrix, int), ZkeyError>
    decreases k,
{
    if k == 0 {
        Ok((Seq::empty(), pos))
    } else {
        match dec_rows(data, pos, (k - 1) as nat) {
            Err(e) => Err(e),
            Ok((rows, next)) => match dec_row(data, next) {
                Err(e) => Err(e),
                Ok((row, after)) => Ok((rows.push(row), after)),
            },
        }
    }
}

/// The matrix held at `pos`, with the offset after it.
pub open spec fn dec_matrix(data: Seq<u8>, pos: int) -> Result<(Matrix, int), ZkeyError> {
    match dec_count(data, pos) {
        Err(e) => Err(e),
        Ok((n, start)) => dec_rows(data, start, n as nat),
    }
}

/// The proving key held at `pos`, with the offset after it.
#[verifier::opaque]
pub open spec fn dec_key(data: Seq<u8>, pos: int) -> Result<(ProvingKeyView, int), ZkeyError> {
    if pos + VERIFYING_KEY_SIZE > data.len() {
        Err(cache_truncated(pos))
    } else {
        let fixed = ZVerifyingKey::at(data, pos);
        match dec_g1_vec(data, pos + VERIFYING_KEY_SIZE) {
            Err(e) => Err(e),
            Ok((gamma_abc_g1, at_a)) => match dec_g1_vec(data, at_a) {
                Err(e) => Err(e),
                Ok((a_query, at_b1)) => match dec_g1_vec(data, at_b1) {
                    Err(e) => Err(e),
                    Ok((b_g1_query, at_b2)) => match dec_g2_vec(data, at_b2) {
                        Err(e) => Err(e),
                        Ok((b_g2_query, at_h)) => match dec_g1_vec(data, at_h) {
                            Err(e) => Err(e),
                            Ok((h_query, at_l)) => match dec_g1_vec(data, at_l) {
                                Err(e) => Err(e),
                                Ok((l_query, end)) => Ok(
                                    (
                                        ProvingKeyView {
                                            vk: VerifyingKeyView {
                                                alpha_g1: fixed.alpha_g1,
                                                beta_g2: fixed.beta_g2,
                                                gamma_g2: fixed.gamma_g2,
                                                delta_g2: fixed.delta_g2,
                                                gamma_abc_g1,
                                            },
                                            beta_g1: fixed.beta_g1,
                                            delta_g1: fixed.delta_g1,
                                            a_query,
                                            b_g1_query,
                                            b_g2_query,
                                            h_query,
                                            l_query,
                                        },
                                        end,
                                    ),
                                ),
                            },
                        },
                    },
                },
            },
        }
    }
}

/// The first `k` counts held back to back from `pos` on, or the error of
/// the first of them that has one.
pub open spec fn dec_counts(data: Seq<u8>, pos: int, k: nat) -> Result<Seq<usize>, ZkeyError>
    decreases k,
{
    if k == 0 {
        Ok(Seq::empty())
    } else {
        match dec_counts(data, pos, (k - 1) as nat) {
            Err(e) => Err(e),
            Ok(counts) => match dec_count(data, pos + 8 * (k - 1)) {
                Err(e) => Err(e),
                Ok((n, _)) => Ok(counts.push(n)),
            },
        }
    }
}

/// The constraint system held at `pos`, with the offset after it.
#[verifier::opaque]
pub open spec fn dec_system(data: Seq<u8>, pos: int) -> Result<(ConstraintSystem, int), ZkeyError> {
    match dec_counts(data, pos, 6) {
        Err(e) => Err(e),
        Ok(shape) => match dec_matrix(data, pos + 48) {
            Err(e) => Err(e),
            Ok((a, at_b)) => match dec_matrix(data, at_b) {
                Err(e) => Err(e),
                Ok((b, at_c)) => match dec_matrix(data, at_c) {
                    Err(e) => Err(e),
                    Ok((c, end)) => Ok(
                        (
                            ConstraintSystem {
                                num_instance_variables: shape[0],
                                num_witness_variables: shape[1],
                                num_constraints: shape[2],
                                a_num_non_zero: shape[3],
                                b_num_non_zero: shape[4],
                                c_num_non_zero: shape[5],
                                a,
                                b,
                                c,
                            },
                            end,
                        ),
                    ),
                },
            },
        },
    }
}

/// The error of a cache whose first eight bytes are not the magic and the
/// version that this crate reads, if they are not.
pub open spec fn cache_header_error(data: Seq<u8>) -> Option<ZkeyError> {
    if data.len() < 4 {
        Some(cache_truncated(0))
    } else if data.subrange(0, 4) != cache_magic() {
        Some(ZkeyError::Format { stage: Stage::Cache, offset: 0, detail: Detail::BadMagic })
    } else if data.len() < 8 {
        Some(cache_truncated(4))
    } else if le_u32(data, 4) != CACHE_VERSION {
        Some(ZkeyError::Format { stage: Stage::Cache, offset: 4, detail: Detail::BadVersion })
    } else {
        None
    }
}

/// What `read_arkzkey_from_bytes` returns, by the views of the two
/// structures.
pub open spec fn spec_decode_cache(data: Seq<u8>) -> Result<
    (ProvingKeyView, ConstraintSystem),
    ZkeyError,
> {
    match cache_header_error(data) {
        Some(e) => Err(e),
        None => match dec_key(data, 8) {
            Err(e) => Err(e),
            Ok((key, at_system)) => match dec_system(data, at_system) {
                Err(e) => Err(e),
                Ok((system, end)) => if end != data.len() {
                    Err(
                        ZkeyError::Format {
                            stage: Stage::Cache,
                            offset: end as u64,
                            detail: Detail::TrailingBytes,
                        },
                    )
                } else {
                    Ok((key, system))
                },
            },
        },
    }
}

/// An error of a sequence of entries stays its error, however many more
/// entries are asked for.
pub proof fn lemma_entries_error_persists(data: Seq<u8>, pos: int, k: nat, n: nat)
    requires
        k <= n,
        dec_entries(data, pos, k) is Err,
    ensures
        dec_entries(data, pos, n) == dec_entries(data, pos, k),
    decreases n - k,
{
    if k < n {
        lemma_entries_error_persists(data, pos, k, (n - 1) as nat);
    }
}

/// An error of a sequence of rows stays its error, however many more rows
/// are asked for.
pub proof fn lemma_rows_error_persists(data: Seq<u8>, pos: int, k: nat, n: nat)
    requires
        k <= n,
        dec_rows(data, pos, k) is Err,
    ensures
        dec_rows(data, pos, n) == dec_rows(data, pos, k),
    decreases n - k,
{
    if k < n {
        lemma_rows_error_persists(data, pos, k, (n - 1) as nat);
    }
}

/// An error of a sequence of counts stays its error, however many more
/// counts are asked for.
pub proof fn lemma_counts_error_persists(data: Seq<u8>, pos: int, k: nat, n: nat)
    requires
        k <= n,
        dec_counts(data, pos, k) is Err,
    ensures
        dec_counts(data, pos, n) == dec_counts(data, pos, k),
    decreases n - k,
{
    if k < n {
        lemma_counts_error_persists(data, pos, k, (n - 1) as nat);
    }
}

fn put_g1(out: &mut Vec<u8>, p: &G1Point)
    ensures
        final(out)@ == old(out)@ + enc_g1(*p),
{
    put_word(out, &p.x.repr);
    put_word(out, &p.y.repr);
    assert(out@ =~= old(out)@ + enc_g1(*p));
}

fn put_g2(out: &mut Vec<u8>, p: &G2Point)
    ensures
        final(out)@ == old(out)@ + enc_g2(*p),
{
    put_word(out, &p.x.c0.repr);
    put_word(out, &p.x.c1.repr);
    put_word(out, &p.y.c0.repr);
    put_word(out, &p.y.c1.repr);
    assert(out@ =~= old(out)@ + enc_g2(*p));
}

fn put_g1_vec(out: &mut Vec<u8>, v: &Vec<G1Point>)
    ensures
        final(out)@ == old(out)@ + enc_g1_vec(v@),
{
    put_u64(out, v.len() as u64);
    let mut i: usize = 0;
    assert(v@.take(0) =~= Seq::empty());
    while i < v.len()
        invariant
            i <= v.len(),
            out@ == old(out)@ + u64_le_bytes(v.len() as u64) + enc_g1_seq(v@.take(i as int)),
        decreases v.len() - i,
    {
        put_g1(out, &v[i]);
        proof {
            assert(v@.take(i + 1).drop_last() =~= v@.take(i as int));
            assert(out@ =~= old(out)@ + u64_le_bytes(v.len() as u64) + enc_g1_seq(
                v@.take(i + 1),
            ));
        }
        i += 1;
    }
    assert(v@.take(i as int) =~= v@);
    assert(out@ =~= old(out)@ + enc_g1_vec(v@));
}

fn put_g2_vec(out: &mut Vec<u8>, v: &Vec<G2Point>)
    ensures
        final(out)@ == old(out)@ + enc_g2_vec(v@),
{
    put_u64(out, v.len() as u64);
    let mut i: usize = 0;
    assert(v@.take(0) =~= Seq::empty());
    while i < v.len()
        invariant
            i <= v.len(),
            out@ == old(out)@ + u64_le_bytes(v.len() as u64) + enc_g2_seq(v@.take(i as int)),
        decreases v.len() - i,
    {
        put_g2(out, &v[i]);
        proof {
            assert(v@.take(i + 1).drop_last() =~= v@.take(i as int));
            assert(out@ =~= old(out)@ + u64_le_bytes(v.len() as u64) + enc_g2_seq(
                v@.take(i + 1),
            ));
        }
        i += 1;
    }
    assert(v@.take(i as int) =~= v@);
    assert(out@ =~= old(out)@ + enc_g2_vec(v@));
}

fn put_row(out: &mut Vec<u8>, row: &Vec<(Fr, usize)>)
    ensures
        final(out)@ == old(out)@ + enc_row(row@),
{
    put_u64(out, row.len() as u64);
    let mut i: usize = 0;
    assert(row@.take(0) =~= Seq::empty());
    while i < row.len()
        invariant
            i <= row.len(),
            out@ == old(out)@ + u64_le_bytes(row.len() as u64) + enc_entries(
                row@.take(i as int),
            ),
        decreases row.len() - i,
    {
        let ghost before = out@;
        put_word(out, &row[i].0.repr);
        put_u64(out, row[i].1 as u64);
        proof {
            assert(row@.take(i + 1).drop_last() =~= row@.take(i as int));
            assert(out@ =~= before + enc_entry(row@[i as int]));
            assert(out@ =~= old(out)@ + u64_le_bytes(row.len() as u64) + enc_entries(
                row@.take(i + 1),
            ));
        }
        i += 1;
    }
    assert(row@.take(i as int) =~= row@);
    assert(out@ =~= old(out)@ + enc_row(row@));
}

fn put_matrix(out: &mut Vec<u8>, m: &Vec<Vec<(Fr, usize)>>)
    ensures
        final(out)@ == old(out)@ + enc_matrix(matrix_view(m@)),
{
    let ghost rows = matrix_view(m@);
    put_u64(out, m.len() as u64);
    let mut i: usize = 0;
    assert(rows.take(0) =~= Seq::empty());
    while i < m.len()
        invariant
            i <= m.len(),
            rows == matrix_view(m@),
            out@ == old(out)@ + u64_le_bytes(m.len() as u64) + enc_rows(rows.take(i as int)),
        decreases m.len() - i,
    {
        put_row(out, &m[i]);
        proof {
            assert(rows.take(i + 1).drop_last() =~= rows.take(i as int));
            assert(rows.take(i + 1).last() == m@[i as int]@);
            assert(out@ =~= old(out)@ + u64_le_bytes(m.len() as u64) + enc_rows(
                rows.take(i + 1),
            ));
        }
        i += 1;
    }
    assert(rows.take(i as int) =~= rows);
    assert(out@ =~= old(out)@ + enc_matrix(rows));
}

fn put_fixed_points(out: &mut Vec<u8>, key: &ProvingKey)
    ensures
        final(out)@ == old(out)@ + enc_fixed_points(key@),
{
    let ghost base = out@;
    put_g1(out, &key.vk.alpha_g1);
    put_g1(out, &key.beta_g1);
    let ghost two = enc_g1(key.vk.alpha_g1) + enc_g1(key.beta_g1);
    assert(out@ =~= base + two);
    put_g2(out, &key.vk.beta_g2);
    let ghost three = two + enc_g2(key.vk.beta_g2);
    assert(out@ =~= base + three);
    put_g2(out, &key.vk.gamma_g2);
    let ghost four = three + enc_g2(key.vk.gamma_g2);
    assert(out@ =~= base + four);
    put_g1(out, &key.delta_g1);
    let ghost five = four + enc_g1(key.delta_g1);
    assert(out@ =~= base + five);
    put_g2(out, &key.vk.delta_g2);
    assert(out@ =~= base + (five + enc_g2(key.vk.delta_g2)));
}

fn put_key(out: &mut Vec<u8>, key: &ProvingKey)
    ensures
        final(out)@ == old(out)@ + enc_key(key@),
{
    let ghost base = out@;
    put_fixed_points(out, key);
    put_g1_vec(out, &key.vk.gamma_abc_g1);
    let ghost two = enc_fixed_points(key@) + enc_g1_vec(key@.vk.gamma_abc_g1);
    assert(out@ =~= base + two);
    put_g1_vec(out, &key.a_query);
    let ghost three = two + enc_g1_vec(key@.a_query);
    assert(out@ =~= base + three);
    put_g1_vec(out, &key.b_g1_query);
    let ghost four = three + enc_g1_vec(key@.b_g1_query);
    assert(out@ =~= base + four);
    put_g2_vec(out, &key.b_g2_query);
    let ghost five = four + enc_g2_vec(key@.b_g2_query);
    assert(out@ =~= base + five);
    put_g1_vec(out, &key.h_query);
    let ghost six = five + enc_g1_vec(key@.h_query);
    assert(out@ =~= base + six);
    put_g1_vec(out, &key.l_query);
    assert(out@ =~= base + (six + enc_g1_vec(key@.l_query)));
}

fn put_shape(out: &mut Vec<u8>, m: &ConstraintMatrices)
    ensures
        final(out)@ == old(out)@ + enc_shape(m@),
{
    let ghost base = out@;
    put_u64(out, m.num_instance_variables as u64);
    put_u64(out, m.num_witness_variables as u64);
    let ghost two = u64_le_bytes(m.num_instance_variables as u64) + u64_le_bytes(
        m.num_witness_variables as u64,
    );
    assert(out@ =~= base + two);
    put_u64(out, m.num_constraints as u64);
    let ghost three = two + u64_le_bytes(m.num_constraints as u64);
    assert(out@ =~= base + three);
    put_u64(out, m.a_num_non_zero as u64);
    let ghost four = three + u64_le_bytes(m.a_num_non_zero as u64);
    assert(out@ =~= base + four);
    put_u64(out, m.b_num_non_zero as u64);
    let ghost five = four + u64_le_bytes(m.b_num_non_zero as u64);
    assert(out@ =~= base + five);
    put_u64(out, m.c_num_non_zero as u64);
    assert(out@ =~= base + (five + u64_le_bytes(m.c_num_non_zero as u64)));
}

fn put_system(out: &mut Vec<u8>, m: &ConstraintMatrices)
    ensures
        final(out)@ == old(out)@ + enc_system(m@),
{
    let ghost base = out@;
    put_shape(out, m);
    put_matrix(out, &m.a);
    let ghost two = enc_shape(m@) + enc_matrix(m@.a);
    assert(out@ =~= base + two);
    put_matrix(out, &m.b);
    let ghost three = two + enc_matrix(m@.b);
    assert(out@ =~= base + three);
    put_matrix(out, &m.c);
    assert(out@ =~= base + (three + enc_matrix(m@.c)));
}

/// Encodes a proving key with its constraint matrices as a cache.
pub fn convert_zkey(key: &ProvingKey, matrices: &ConstraintMatrices) -> (out: Vec<u8>)
    ensures
        out@ == spec_encode_cache(key@, matrices@),
{
    let mut out: Vec<u8> = Vec::new();
    out.push(0x61);
    out.push(0x7a);
    out.push(0x6b);
    out.push(0x63);
    assert(out@ =~= cache_magic());
    put_u32(&mut out, CACHE_VERSION);
    put_key(&mut out, key);
    put_system(&mut out, matrices);
    out
}

/// Encodes a proving key alone, as it stands in a cache.
pub fn serialize_proving_key(key: &ProvingKey) -> (out: Vec<u8>)
    ensures
        out@ == enc_key(key@),
{
    let mut out: Vec<u8> = Vec::new();
    put_key(&mut out, key);
    assert(out@ =~= enc_key(key@));
    out
}

fn take_count(data: &[u8], pos: usize) -> (r: Result<(usize, usize), ZkeyError>)
    requires
        pos <= data.len(),
    ensures
        match r {
            Ok((n, next)) => dec_count(data@, pos as int) == Ok::<(usize, int), ZkeyError>(
                (n, next as int),
            ) && next <= data.len(),
            Err(e) => dec_count(data@, pos as int) == Err::<(usize, int), ZkeyError>(e),
        },
{
    if data.len() - pos < 8 {
        return Err(
            ZkeyError::Format {
                stage: Stage::Cache,
                offset: pos as u64,
                detail: Detail::UnexpectedEnd,
            },
        );
    }
    let n: u64 = read_u64(data, pos);
    if n > usize::MAX as u64 {
        return Err(
            ZkeyError::Format { stage: Stage::Cache, offset: pos as u64, detail: Detail::TooLarge },
        );
    }
    Ok((n as usize, pos + 8))
}

fn take_g1_vec(data: &[u8], pos: usize) -> (r: Result<(Vec<G1Point>, usize), ZkeyError>)
    requires
        pos <= data.len(),
    ensures
        match r {
            Ok((v, next)) => dec_g1_vec(data@, pos as int) == Ok::<(Seq<G1Point>, int), ZkeyError>(
                (v@, next as int),
            ) && next <= data.len(),
            Err(e) => dec_g1_vec(data@, pos as int) == Err::<(Seq<G1Point>, int), ZkeyError>(e),
        },
{
    let (n, start) = match take_count(data, pos) {
        Ok(found) => found,
        Err(e) => { return Err(e); },
    };
    if n > (data.len() - start) / 64 {
        return Err(
            ZkeyError::Format {
                stage: Stage::Cache,
                offset: start as u64,
                detail: Detail::UnexpectedEnd,
            },
        );
    }
    match deserialize_g1_vec(data, start, n) {
        Ok(v) => Ok((v, start + 64 * n)),
        Err(e) => Err(e),
    }
}

fn take_g2_vec(data: &[u8], pos: usize) -> (r: Result<(Vec<G2Point>, usize), ZkeyError>)
    requires
        pos <= data.len(),
    ensures
        match r {
            Ok((v, next)) => dec_g2_vec(data@, pos as int) == Ok::<(Seq<G2Point>, int), ZkeyError>(
                (v@, next as int),
            ) && next <= data.len(),
            Err(e) => dec_g2_vec(data@, pos as int) == Err::<(Seq<G2Point>, int), ZkeyError>(e),
        },
{
    let (n, start) = match take_count(data, pos) {
        Ok(found) => found,
        Err(e) => { return Err(e); },
    };
    if n > (data.len() - start) / 128 {
        return Err(
            ZkeyError::Format {
                stage: Stage::Cache,
                offset: start as u64,
                detail: Detail::UnexpectedEnd,
            },
        );
    }
    match deserialize_g2_vec(data, start, n) {
        Ok(v) => Ok((v, start + 128 * n)),
        Err(e) => Err(e),
    }
}

fn take_row(data: &[u8], pos: usize) -> (r: Result<(Vec<(Fr, usize)>, usize), ZkeyError>)
    requires
        pos <= data.len(),
    ensures
        match r {
            Ok((row, next)) => dec_row(data@, pos as int) == Ok::<
                (Seq<(Fr, usize)>, int),
                ZkeyError,
            >((row@, next as int)) && next <= data.len(),
            Err(e) => dec_row(data@, pos as int) == Err::<(Seq<(Fr, usize)>, int), ZkeyError>(e),
        },
{
    let (n, start) = match take_count(data, pos) {
        Ok(found) => found,
        Err(e) => { return Err(e); },
    };
    let len: usize = data.len();
    let mut row: Vec<(Fr, usize)> = Vec::new();
    let mut at: usize = start;
    let mut i: usize = 0;
    while i < n
        invariant
            i <= n,
            len == data@.len(),
            at == start + 40 * i,
            at <= len,
            dec_count(data@, pos as int) == Ok::<(usize, int), ZkeyError>((n, start as int)),
            dec_entries(data@, start as int, i as nat) == Ok::<Seq<(Fr, usize)>, ZkeyError>(row@),
        decreases n - i,
    {
        if len - at < 40 {
            proof {
                lemma_entries_error_persists(data@, start as int, (i + 1) as nat, n as nat);
            }
            return Err(
                ZkeyError::Format {
                    stage: Stage::Cache,
                    offset: at as u64,
                    detail: Detail::UnexpectedEnd,
                },
            );
        }
        let column: u64 = read_u64(data, at + 32);
        if column > usize::MAX as u64 {
            proof {
                lemma_entries_error_persists(data@, start as int, (i + 1) as nat, n as nat);
            }
            return Err(
                ZkeyError::Format {
                    stage: Stage::Cache,
                    offset: (at + 32) as u64,
                    detail: Detail::TooLarge,
                },
            );
        }
        row.push((Fr { repr: U256::read(data, at) }, column as usize));
        at = at + 40;
        i += 1;
    }
    Ok((row, at))
}

fn take_matrix(data: &[u8], pos: usize) -> (r: Result<(Vec<Vec<(Fr, usize)>>, usize), ZkeyError>)
    requires
        pos <= data.len(),
    ensures
        match r {
            Ok((m, next)) => dec_matrix(data@, pos as int) == Ok::<(Matrix, int), ZkeyError>(
                (matrix_view(m@), next as int),
            ) && next <= data.len(),
            Err(e) => dec_matrix(data@, pos as int) == Err::<(Matrix, int), ZkeyError>(e),
        },
{
    let (n, start) = match take_count(data, pos) {
        Ok(found) => found,
        Err(e) => { return Err(e); },
    };
    let mut rows: Vec<Vec<(Fr, usize)>> = Vec::new();
    let mut at: usize = start;
    let mut i: usize = 0;
    assert(matrix_view(rows@) =~= Seq::empty());
    while i < n
        invariant
            i <= n,
            at <= data.len(),
            dec_count(data@, pos as int) == Ok::<(usize, int), ZkeyError>((n, start as int)),
            dec_rows(data@, start as int, i as nat) == Ok::<(Matrix, int), ZkeyError>(
                (matrix_view(rows@), at as int),
            ),
        decreases n - i,
    {
        let ghost before = matrix_view(rows@);
        match take_row(data, at) {
            Ok((row, next)) => {
                let ghost row_view = row@;
                rows.push(row);
                assert(matrix_view(rows@) =~= before.push(row_view));
                at = next;
            },
            Err(e) => {
                proof {
                    lemma_rows_error_persists(data@, start as int, (i + 1) as nat, n as nat);
                }
                return Err(e);
            },
        }
        i += 1;
    }
    Ok((rows, at))
}

fn take_key(data: &[u8], pos: usize) -> (r: Result<(ProvingKey, usize), ZkeyError>)
    requires
        pos <= data.len(),
    ensures
        match r {
            Ok((key, next)) => dec_key(data@, pos as int) == Ok::<(ProvingKeyView, int), ZkeyError>(
                (key@, next as int),
            ) && next <= data.len(),
            Err(e) => dec_key(data@, pos as int) == Err::<(ProvingKeyView, int), ZkeyError>(e),
        },
{
    reveal(dec_key);
    if data.len() - pos < VERIFYING_KEY_SIZE {
        return Err(
            ZkeyError::Format {
                stage: Stage::Cache,
                offset: pos as u64,
                detail: Detail::UnexpectedEnd,
            },
        );
    }
    let fixed = match ZVerifyingKey::new(data, pos) {
        Ok(k) => k,
        Err(e) => { return Err(e); },
    };
    let (gamma_abc_g1, at_a) = match take_g1_vec(data, pos + VERIFYING_KEY_SIZE) {
        Ok(found) => found,
        Err(e) => { return Err(e); },
    };
    let (a_query, at_b1) = match take_g1_vec(data, at_a) {
        Ok(found) => found,
        Err(e) => { return Err(e); },
    };
    let (b_g1_query, at_b2) = match take_g1_vec(data, at_b1) {
        Ok(found) => found,
        Err(e) => { return Err(e); },
    };
    let (b_g2_query, at_h) = match take_g2_vec(data, at_b2) {
        Ok(found) => found,
        Err(e) => { return Err(e); },
    };
    let (h_query, at_l) = match take_g1_vec(data, at_h) {
        Ok(found) => found,
        Err(e) => { return Err(e); },
    };
    let (l_query, end) = match take_g1_vec(data, at_l) {
        Ok(found) => found,
        Err(e) => { return Err(e); },
    };
    let vk = VerifyingKey {
        alpha_g1: fixed.alpha_g1,
        beta_g2: fixed.beta_g2,
        gamma_g2: fixed.gamma_g2,
        delta_g2: fixed.delta_g2,
        gamma_abc_g1,
    };
    Ok(
        (
            ProvingKey {
                vk,
                beta_g1: fixed.beta_g1,
                delta_g1: fixed.delta_g1,
                a_query,
                b_g1_query,
                b_g2_query,
                h_query,
                l_query,
            },
            end,
        ),
    )
}

fn take_counts(data: &[u8], pos: usize) -> (r: Result<Vec<usize>, ZkeyError>)
    requires
        pos <= data.len(),
    ensures
        match r {
            Ok(counts) => dec_counts(data@, pos as int, 6) == Ok::<Seq<usize>, ZkeyError>(counts@)
                && counts@.len() == 6 && pos + 48 <= data.len(),
            Err(e) => dec_counts(data@, pos as int, 6) == Err::<Seq<usize>, ZkeyError>(e),
        },
{
    let mut counts: Vec<usize> = Vec::new();
    let mut at: usize = pos;
    let mut i: usize = 0;
    while i < 6
        invariant
            i <= 6,
            at == pos + 8 * i,
            at <= data.len(),
            counts@.len() == i,
            dec_counts(data@, pos as int, i as nat) == Ok::<Seq<usize>, ZkeyError>(counts@),
        decreases 6 - i,
    {
        match take_count(data, at) {
            Ok((n, next)) => {
                counts.push(n);
                at = next;
            },
            Err(e) => {
                proof {
                    lemma_counts_error_persists(data@, pos as int, (i + 1) as nat, 6);
                }
                return Err(e);
            },
        }
        i += 1;
    }
    Ok(counts)
}

fn take_system(data: &[u8], pos: usize) -> (r: Result<(ConstraintMatrices, usize), ZkeyError>)
    requires
        pos <= data.len(),
    ensures
        match r {
            Ok((m, next)) => dec_system(data@, pos as int) == Ok::<
                (ConstraintSystem, int),
                ZkeyError,
            >((m@, next as int)) && next <= data.len(),
            Err(e) => dec_system(data@, pos as int) == Err::<(ConstraintSystem, int), ZkeyError>(
                e,
            ),
        },
{
    reveal(dec_system);
    let shape = match take_counts(data, pos) {
        Ok(counts) => counts,
        Err(e) => { return Err(e); },
    };
    let (a, at_b) = match take_matrix(data, pos + 48) {
        Ok(found) => found,
        Err(e) => { return Err(e); },
    };
    let (b, at_c) = match take_matrix(data, at_b) {
        Ok(found) => found,
        Err(e) => { return Err(e); },
    };
    let (c, end) = match take_matrix(data, at_c) {
        Ok(found) => found,
        Err(e) => { return Err(e); },
    };
    Ok(
        (
            ConstraintMatrices {
                num_instance_variables: shape[0],
                num_witness_variables: shape[1],
                num_constraints: shape[2],
                a_num_non_zero: shape[3],
                b_num_non_zero: shape[4],
                c_num_non_zero: shape[5],
                a,
                b,
                c,
            },
            end,
        ),
    )
}

/// What `deserialize_proving_key` returns, by the view of the key.
pub open spec fn spec_deserialize_proving_key(data: Seq<u8>) -> Result<ProvingKeyView, ZkeyError> {
    match dec_key(data, 0) {
        Err(e) => Err(e),
        Ok((key, next)) => if next != data.len() {
            Err(
                ZkeyError::Format {
                    stage: Stage::Cache,
                    offset: next as u64,
                    detail: Detail::TrailingBytes,
                },
            )
        } else {
            Ok(key)
        },
    }
}

/// Decodes a proving key that was encoded alone. Refuses bytes that end
/// early, that hold a count beyond the machine's address space, and that
/// go on after the key.
pub fn deserialize_proving_key(data: &[u8]) -> (r: Result<ProvingKey, ZkeyError>)
    ensures
        key_result_view(r) == spec_deserialize_proving_key(data@),
{
    let (key, next) = match take_key(data, 0) {
        Ok(found) => found,
        Err(e) => { return Err(e); },
    };
    if next != data.len() {
        return Err(
            ZkeyError::Format {
                stage: Stage::Cache,
                offset: next as u64,
                detail: Detail::TrailingBytes,
            },
        );
    }
    Ok(key)
}

/// Decodes a cache: the proving key and the constraint matrices that it
/// was made from.
///
/// Refuses a cache with another magic or version, one that ends early,
/// one that holds a count beyond the machine's address space, and one
/// with bytes after the matrices.
pub fn read_arkzkey_from_bytes(data: &[u8]) -> (r: Result<(ProvingKey, ConstraintMatrices), ZkeyError>)
    ensures
        read_result_view(r) == spec_decode_cache(data@),
{
    let len: usize = data.len();
    if len < 4 {
        return Err(
            ZkeyError::Format { stage: Stage::Cache, offset: 0, detail: Detail::UnexpectedEnd },
        );
    }
    if !(data[0] == 0x61 && data[1] == 0x7a && data[2] == 0x6b && data[3] == 0x63) {
        assert(data@.subrange(0, 4) != cache_magic()) by {
            if data@.subrange(0, 4) == cache_magic() {
                assert(cache_magic()[0] == 0x61);
                assert(cache_magic()[1] == 0x7a);
                assert(cache_magic()[2] == 0x6b);
                assert(cache_magic()[3] == 0x63);
            }
        }
        return Err(ZkeyError::Format { stage: Stage::Cache, offset: 0, detail: Detail::BadMagic });
    }
    assert(data@.subrange(0, 4) =~= cache_magic());
    if len < 8 {
        return Err(
            ZkeyError::Format { stage: Stage::Cache, offset: 4, detail: Detail::UnexpectedEnd },
        );
    }
    let version: u32 = read_u32(data, 4);
    if version != CACHE_VERSION {
        return Err(
            ZkeyError::Format { stage: Stage::Cache, offset: 4, detail: Detail::BadVersion },
        );
    }
    let (key, at_system) = match take_key(data, 8) {
        Ok(found) => found,
        Err(e) => { return Err(e); },
    };
    let (matrices, end) = match take_system(data, at_system) {
        Ok(found) => found,
        Err(e) => { return Err(e); },
    };
    if end != len {
        return Err(
            ZkeyError::Format {
                stage: Stage::Cache,
                offset: end as u64,
                detail: Detail::TrailingBytes,
            },
        );
    }
    Ok((key, matrices))
}

} // verus!
