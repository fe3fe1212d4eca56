//! The round trip of the cache: decoding what was encoded gives it back.

use crate::bytes::{
    holds_at,
    lemma_encoded_lengths,
    lemma_holds_join,
    lemma_holds_split,
    lemma_u32_bytes_back,
    lemma_u64_bytes_back,
    lemma_word_bytes_back,
    lemma_u32_round_trip,
    lemma_u64_round_trip,
    lemma_word_round_trip,
    u32_le_bytes,
    u64_le_bytes,
    U256,
};
use crate::cache::{
    cache_header_error,
    cache_magic,
    dec_count,
    dec_counts,
    dec_entries,
    dec_entry,
    dec_g1_vec,
    dec_g2_vec,
    dec_key,
    dec_matrix,
    dec_row,
    dec_rows,
    dec_system,
    enc_entries,
    enc_entry,
    enc_fixed_points,
    enc_g1,
    enc_g1_seq,
    enc_g1_vec,
    enc_g2,
    enc_g2_seq,
    enc_g2_vec,
    enc_key,
    enc_matrix,
    enc_row,
    enc_rows,
    enc_shape,
    enc_system,
    spec_decode_cache,
    spec_deserialize_proving_key,
    spec_encode_cache,
    CACHE_VERSION,
};
use crate::curve::{G1Point, G2Point};
use crate::error::ZkeyError;
use crate::field::Fr;
use crate::header::ZVerifyingKey;
use crate::bytes::le_u32;
use crate::matrix::{lemma_row_len, ConstraintSystem, Matrix};
use crate::section::{
    lemma_directory_within,
    lemma_found_is_member,
    spec_directory,
    SECTION_A,
    SECTION_B1,
    SECTION_B2,
    SECTION_COEFFICIENTS,
    SECTION_H,
    SECTION_IC,
    SECTION_L,
};
use crate::zkey::{
    coefficients_at,
    lemma_matrix_shape,
    spec_groth_header,
    spec_matrices,
    spec_proving_key,
    spec_read_zkey,
    spec_section,
    ProvingKeyView,
};
use vstd::prelude::*;

verus! {

/// Whether every point of a vector is one that decoding gives, and the
/// vector's length is one that a machine can hold.
pub open spec fn g1_vec_cacheable(s: Seq<G1Point>) -> bool {
    &&& s.len() <= usize::MAX
    &&& forall|i: int| 0 <= i < s.len() ==> (#[trigger] s[i]).canonical()
}

/// Whether every point of a vector is one that decoding gives, and the
/// vector's length is one that a machine can hold.
pub open spec fn g2_vec_cacheable(s: Seq<G2Point>) -> bool {
    &&& s.len() <= usize::MAX
    &&& forall|i: int| 0 <= i < s.len() ==> (#[trigger] s[i]).canonical()
}

/// Whether a matrix and each of its rows have a length that a machine
/// can hold.
pub open spec fn matrix_cacheable(m: Matrix) -> bool {
    &&& m.len() <= usize::MAX
    &&& forall|i: int| 0 <= i < m.len() ==> (#[trigger] m[i]).len() <= usize::MAX
}

/// Whether a proving key is one that a machine can hold and that
/// decoding can give.
pub open spec fn key_cacheable(key: ProvingKeyView) -> bool {
    &&& key.vk.alpha_g1.canonical()
    &&& key.vk.beta_g2.canonical()
    &&& key.vk.gamma_g2.canonical()
    &&& key.vk.delta_g2.canonical()
    &&& key.beta_g1.canonical()
    &&& key.delta_g1.canonical()
    &&& g1_vec_cacheable(key.vk.gamma_abc_g1)
    &&& g1_vec_cacheable(key.a_query)
    &&& g1_vec_cacheable(key.b_g1_query)
    &&& g2_vec_cacheable(key.b_g2_query)
    &&& g1_vec_cacheable(key.h_query)
    &&& g1_vec_cacheable(key.l_query)
}

/// Whether the matrices of a constraint system are ones that a machine
/// can hold.
pub open spec fn system_cacheable(m: ConstraintSystem) -> bool {
    &&& matrix_cacheable(m.a)
    &&& matrix_cacheable(m.b)
    &&& matrix_cacheable(m.c)
}

/// A point of the first group is read back from its bytes.
pub proof fn lemma_g1_round_trip(data: Seq<u8>, pos: int, p: G1Point)
    requires
        holds_at(data, pos, enc_g1(p)),
        p.canonical(),
    ensures
        G1Point::at(data, pos) == p,
        enc_g1(p).len() == 64,
{
    lemma_encoded_lengths(0, p.x.repr);
    lemma_encoded_lengths(0, p.y.repr);
    lemma_holds_split(data, pos, p.x.repr.le_bytes(), p.y.repr.le_bytes());
    lemma_word_round_trip(data, pos, p.x.repr);
    lemma_word_round_trip(data, pos + 32, p.y.repr);
}

/// A point of the second group is read back from its bytes.
pub proof fn lemma_g2_round_trip(data: Seq<u8>, pos: int, p: G2Point)
    requires
        holds_at(data, pos, enc_g2(p)),
        p.canonical(),
    ensures
        G2Point::at(data, pos) == p,
        enc_g2(p).len() == 128,
{
    let a = p.x.c0.repr.le_bytes();
    let b = p.x.c1.repr.le_bytes();
    let c = p.y.c0.repr.le_bytes();
    let d = p.y.c1.repr.le_bytes();
    lemma_encoded_lengths(0, p.x.c0.repr);
    lemma_encoded_lengths(0, p.x.c1.repr);
    lemma_encoded_lengths(0, p.y.c0.repr);
    lemma_encoded_lengths(0, p.y.c1.repr);
    lemma_holds_split(data, pos, a + b + c, d);
    lemma_holds_split(data, pos, a + b, c);
    lemma_holds_split(data, pos, a, b);
    lemma_word_round_trip(data, pos, p.x.c0.repr);
    lemma_word_round_trip(data, pos + 32, p.x.c1.repr);
    lemma_word_round_trip(data, pos + 64, p.y.c0.repr);
    lemma_word_round_trip(data, pos + 96, p.y.c1.repr);
}

/// The items of a vector of points of the first group are read back from
/// their bytes.
pub proof fn lemma_g1_seq_round_trip(data: Seq<u8>, pos: int, s: Seq<G1Point>)
    requires
        holds_at(data, pos, enc_g1_seq(s)),
        g1_vec_cacheable(s),
    ensures
        G1Point::seq_at(data, pos, s.len()) == s,
        enc_g1_seq(s).len() == 64 * s.len(),
    decreases s.len(),
{
    if s.len() == 0 {
        assert(G1Point::seq_at(data, pos, 0) =~= s);
    } else {
        let front = s.drop_last();
        lemma_holds_split(data, pos, enc_g1_seq(front), enc_g1(s.last()));
        assert forall|i: int| 0 <= i < front.len() implies (#[trigger] front[i]).canonical() by {
            assert(front[i] == s[i]);
        }
        lemma_g1_seq_round_trip(data, pos, front);
        lemma_g1_round_trip(data, pos + 64 * front.len(), s.last());
        assert forall|i: int| 0 <= i < s.len() implies #[trigger] G1Point::seq_at(
            data,
            pos,
            s.len(),
        )[i] == s[i] by {
            if i < front.len() {
                assert(G1Point::seq_at(data, pos, front.len())[i] == front[i]);
            }
        }
        assert(G1Point::seq_at(data, pos, s.len()) =~= s);
    }
}

/// The items of a vector of points of the second group are read back
/// from their bytes.
pub proof fn lemma_g2_seq_round_trip(data: Seq<u8>, pos: int, s: Seq<G2Point>)
    requires
        holds_at(data, pos, enc_g2_seq(s)),
        g2_vec_cacheable(s),
    ensures
        G2Point::seq_at(data, pos, s.len()) == s,
        enc_g2_seq(s).len() == 128 * s.len(),
    decreases s.len(),
{
    if s.len() == 0 {
        assert(G2Point::seq_at(data, pos, 0) =~= s);
    } else {
        let front = s.drop_last();
        lemma_holds_split(data, pos, enc_g2_seq(front), enc_g2(s.last()));
        assert forall|i: int| 0 <= i < front.len() implies (#[trigger] front[i]).canonical() by {
            assert(front[i] == s[i]);
        }
        lemma_g2_seq_round_trip(data, pos, front);
        lemma_g2_round_trip(data, pos + 128 * front.len(), s.last());
        assert forall|i: int| 0 <= i < s.len() implies #[trigger] G2Point::seq_at(
            data,
            pos,
            s.len(),
        )[i] == s[i] by {
            if i < front.len() {
                assert(G2Point::seq_at(data, pos, front.len())[i] == front[i]);
            }
        }
        assert(G2Point::seq_at(data, pos, s.len()) =~= s);
    }
}

/// A count is read back from its bytes.
pub proof fn lemma_count_round_trip(data: Seq<u8>, pos: int, n: nat)
    requires
        holds_at(data, pos, u64_le_bytes(n as u64)),
        n <= usize::MAX,
    ensures
        dec_count(data, pos) == Ok::<(usize, int), ZkeyError>((n as usize, pos + 8)),
        u64_le_bytes(n as u64).len() == 8,
{
    lemma_encoded_lengths(n as u64, U256::spec_zero());
    lemma_u64_round_trip(data, pos, n as u64);
}

/// A vector of points of the first group is read back from its bytes.
pub proof fn lemma_g1_vec_round_trip(data: Seq<u8>, pos: int, s: Seq<G1Point>)
    requires
        holds_at(data, pos, enc_g1_vec(s)),
        g1_vec_cacheable(s),
    ensures
        dec_g1_vec(data, pos) == Ok::<(Seq<G1Point>, int), ZkeyError>(
            (s, pos + enc_g1_vec(s).len()),
        ),
{
    lemma_holds_split(data, pos, u64_le_bytes(s.len() as u64), enc_g1_seq(s));
    lemma_count_round_trip(data, pos, s.len());
    lemma_g1_seq_round_trip(data, pos + 8, s);
}

/// A vector of points of the second group is read back from its bytes.
pub proof fn lemma_g2_vec_round_trip(data: Seq<u8>, pos: int, s: Seq<G2Point>)
    requires
        holds_at(data, pos, enc_g2_vec(s)),
        g2_vec_cacheable(s),
    ensures
        dec_g2_vec(data, pos) == Ok::<(Seq<G2Point>, int), ZkeyError>(
            (s, pos + enc_g2_vec(s).len()),
        ),
{
    lemma_holds_split(data, pos, u64_le_bytes(s.len() as u64), enc_g2_seq(s));
    lemma_count_round_trip(data, pos, s.len());
    lemma_g2_seq_round_trip(data, pos + 8, s);
}

/// An entry of a matrix is read back from its bytes.
pub proof fn lemma_entry_round_trip(data: Seq<u8>, pos: int, e: (Fr, usize))
    requires
        holds_at(data, pos, enc_entry(e)),
    ensures
        dec_entry(data, pos) == Ok::<(Fr, usize), ZkeyError>(e),
        enc_entry(e).len() == 40,
{
    lemma_encoded_lengths(e.1 as u64, e.0.repr);
    lemma_holds_split(data, pos, e.0.repr.le_bytes(), u64_le_bytes(e.1 as u64));
    lemma_word_round_trip(data, pos, e.0.repr);
    lemma_u64_round_trip(data, pos + 32, e.1 as u64);
}

/// The entries of a row are read back from their bytes.
pub proof fn lemma_entries_round_trip(data: Seq<u8>, pos: int, row: Seq<(Fr, usize)>)
    requires
        holds_at(data, pos, enc_entries(row)),
    ensures
        dec_entries(data, pos, row.len()) == Ok::<Seq<(Fr, usize)>, ZkeyError>(row),
        enc_entries(row).len() == 40 * row.len(),
    decreases row.len(),
{
    if row.len() == 0 {
        assert(row =~= Seq::empty());
    } else {
        let front = row.drop_last();
        lemma_holds_split(data, pos, enc_entries(front), enc_entry(row.last()));
        lemma_entries_round_trip(data, pos, front);
        lemma_entry_round_trip(data, pos + 40 * front.len(), row.last());
        assert(front.push(row.last()) =~= row);
    }
}

/// A row is read back from its bytes.
pub proof fn lemma_row_round_trip(data: Seq<u8>, pos: int, row: Seq<(Fr, usize)>)
    requires
        holds_at(data, pos, enc_row(row)),
        row.len() <= usize::MAX,
    ensures
        dec_row(data, pos) == Ok::<(Seq<(Fr, usize)>, int), ZkeyError>(
            (row, pos + enc_row(row).len()),
        ),
{
    lemma_holds_split(data, pos, u64_le_bytes(row.len() as u64), enc_entries(row));
    lemma_count_round_trip(data, pos, row.len());
    lemma_entries_round_trip(data, pos + 8, row);
}

/// The rows of a matrix are read back from their bytes.
pub proof fn lemma_rows_round_trip(data: Seq<u8>, pos: int, m: Matrix)
    requires
        holds_at(data, pos, enc_rows(m)),
        matrix_cacheable(m),
    ensures
        dec_rows(data, pos, m.len()) == Ok::<(Matrix, int), ZkeyError>(
            (m, pos + enc_rows(m).len()),
        ),
    decreases m.len(),
{
    if m.len() == 0 {
        assert(m =~= Seq::empty());
    } else {
        let front = m.drop_last();
        lemma_holds_split(data, pos, enc_rows(front), enc_row(m.last()));
        assert forall|i: int| 0 <= i < front.len() implies (#[trigger] front[i]).len()
            <= usize::MAX by {
            assert(front[i] == m[i]);
        }
        lemma_rows_round_trip(data, pos, front);
        lemma_row_round_trip(data, pos + enc_rows(front).len(), m.last());
        assert(front.push(m.last()) =~= m);
    }
}

/// A matrix is read back from its bytes.
pub proof fn lemma_matrix_round_trip(data: Seq<u8>, pos: int, m: Matrix)
    requires
        holds_at(data, pos, enc_matrix(m)),
        matrix_cacheable(m),
    ensures
        dec_matrix(data, pos) == Ok::<(Matrix, int), ZkeyError>((m, pos + enc_matrix(m).len())),
{
    lemma_holds_split(data, pos, u64_le_bytes(m.len() as u64), enc_rows(m));
    lemma_count_round_trip(data, pos, m.len());
    lemma_rows_round_trip(data, pos + 8, m);
}

/// The six points that a key holds outside its vectors are read back
/// from their bytes.
pub proof fn lemma_fixed_points_round_trip(data: Seq<u8>, pos: int, key: ProvingKeyView)
    requires
        holds_at(data, pos, enc_fixed_points(key)),
        key_cacheable(key),
    ensures
        ZVerifyingKey::at(data, pos) == (ZVerifyingKey {
            alpha_g1: key.vk.alpha_g1,
            beta_g1: key.beta_g1,
            beta_g2: key.vk.beta_g2,
            gamma_g2: key.vk.gamma_g2,
            delta_g1: key.delta_g1,
            delta_g2: key.vk.delta_g2,
        }),
        enc_fixed_points(key).len() == 576,
{
    let a = enc_g1(key.vk.alpha_g1);
    let b = enc_g1(key.beta_g1);
    let c = enc_g2(key.vk.beta_g2);
    let d = enc_g2(key.vk.gamma_g2);
    let e = enc_g1(key.delta_g1);
    let f = enc_g2(key.vk.delta_g2);
    lemma_holds_split(data, pos, a + b + c + d + e, f);
    lemma_holds_split(data, pos, a + b + c + d, e);
    lemma_holds_split(data, pos, a + b + c, d);
    lemma_holds_split(data, pos, a + b, c);
    lemma_holds_split(data, pos, a, b);
    lemma_g1_round_trip(data, pos, key.vk.alpha_g1);
    lemma_g1_round_trip(data, pos + 64, key.beta_g1);
    lemma_g2_round_trip(data, pos + 128, key.vk.beta_g2);
    lemma_g2_round_trip(data, pos + 256, key.vk.gamma_g2);
    lemma_g1_round_trip(data, pos + 384, key.delta_g1);
    lemma_g2_round_trip(data, pos + 448, key.vk.delta_g2);
}

/// A proving key is read back from its bytes.
pub proof fn lemma_key_round_trip(data: Seq<u8>, pos: int, key: ProvingKeyView)
    requires
        holds_at(data, pos, enc_key(key)),
        key_cacheable(key),
    ensures
        dec_key(data, pos) == Ok::<(ProvingKeyView, int), ZkeyError>(
            (key, pos + enc_key(key).len()),
        ),
{
    reveal(dec_key);
    let a = enc_fixed_points(key);
    let b = enc_g1_vec(key.vk.gamma_abc_g1);
    let c = enc_g1_vec(key.a_query);
    let d = enc_g1_vec(key.b_g1_query);
    let e = enc_g2_vec(key.b_g2_query);
    let f = enc_g1_vec(key.h_query);
    let g = enc_g1_vec(key.l_query);
    lemma_holds_split(data, pos, a + b + c + d + e + f, g);
    lemma_holds_split(data, pos, a + b + c + d + e, f);
    lemma_holds_split(data, pos, a + b + c + d, e);
    lemma_holds_split(data, pos, a + b + c, d);
    lemma_holds_split(data, pos, a + b, c);
    lemma_holds_split(data, pos, a, b);
    lemma_fixed_points_round_trip(data, pos, key);
    let at_ic = pos + 576;
    lemma_g1_vec_round_trip(data, at_ic, key.vk.gamma_abc_g1);
    let at_a = at_ic + b.len();
    lemma_g1_vec_round_trip(data, at_a, key.a_query);
    let at_b1 = at_a + c.len();
    lemma_g1_vec_round_trip(data, at_b1, key.b_g1_query);
    let at_b2 = at_b1 + d.len();
    lemma_g2_vec_round_trip(data, at_b2, key.b_g2_query);
    let at_h = at_b2 + e.len();
    lemma_g1_vec_round_trip(data, at_h, key.h_query);
    let at_l = at_h + f.len();
    lemma_g1_vec_round_trip(data, at_l, key.l_query);
}

/// The six counts of a constraint system are read back from their bytes.
pub proof fn lemma_shape_round_trip(data: Seq<u8>, pos: int, m: ConstraintSystem)
    requires
        holds_at(data, pos, enc_shape(m)),
    ensures
        dec_counts(data, pos, 6) == Ok::<Seq<usize>, ZkeyError>(
            seq![
                m.num_instance_variables,
                m.num_witness_variables,
                m.num_constraints,
                m.a_num_non_zero,
                m.b_num_non_zero,
                m.c_num_non_zero,
            ],
        ),
        enc_shape(m).len() == 48,
{
    let a = u64_le_bytes(m.num_instance_variables as u64);
    let b = u64_le_bytes(m.num_witness_variables as u64);
    let c = u64_le_bytes(m.num_constraints as u64);
    let d = u64_le_bytes(m.a_num_non_zero as u64);
    let e = u64_le_bytes(m.b_num_non_zero as u64);
    let f = u64_le_bytes(m.c_num_non_zero as u64);
    lemma_holds_split(data, pos, a + b + c + d + e, f);
    lemma_holds_split(data, pos, a + b + c + d, e);
    lemma_holds_split(data, pos, a + b + c, d);
    lemma_holds_split(data, pos, a + b, c);
    lemma_holds_split(data, pos, a, b);
    lemma_count_round_trip(data, pos, m.num_instance_variables as nat);
    lemma_count_round_trip(data, pos + 8, m.num_witness_variables as nat);
    lemma_count_round_trip(data, pos + 16, m.num_constraints as nat);
    lemma_count_round_trip(data, pos + 24, m.a_num_non_zero as nat);
    lemma_count_round_trip(data, pos + 32, m.b_num_non_zero as nat);
    lemma_count_round_trip(data, pos + 40, m.c_num_non_zero as nat);
    reveal_with_fuel(dec_counts, 7);
    let expected = seq![
        m.num_instance_variables,
        m.num_witness_variables,
        m.num_constraints,
        m.a_num_non_zero,
        m.b_num_non_zero,
        m.c_num_non_zero,
    ];
    assert(dec_counts(data, pos, 6)->Ok_0 =~= expected);
}

/// A constraint system is read back from its bytes.
pub proof fn lemma_system_round_trip(data: Seq<u8>, pos: int, m: ConstraintSystem)
    requires
        holds_at(data, pos, enc_system(m)),
        system_cacheable(m),
    ensures
        dec_system(data, pos) == Ok::<(ConstraintSystem, int), ZkeyError>(
            (m, pos + enc_system(m).len()),
        ),
{
    reveal(dec_system);
    let a = enc_shape(m);
    let b = enc_matrix(m.a);
    let c = enc_matrix(m.b);
    let d = enc_matrix(m.c);
    lemma_holds_split(data, pos, a + b + c, d);
    lemma_holds_split(data, pos, a + b, c);
    lemma_holds_split(data, pos, a, b);
    lemma_shape_round_trip(data, pos, m);
    lemma_matrix_round_trip(data, pos + 48, m.a);
    lemma_matrix_round_trip(data, pos + 48 + b.len(), m.b);
    lemma_matrix_round_trip(data, pos + 48 + b.len() + c.len(), m.c);
}

/// A proving key that was encoded alone is decoded to what it was.
pub proof fn lemma_proving_key_round_trip(key: ProvingKeyView)
    requires
        key_cacheable(key),
    ensures
        spec_deserialize_proving_key(enc_key(key)) == Ok::<ProvingKeyView, ZkeyError>(key),
{
    lemma_key_round_trip(enc_key(key), 0, key);
}

/// The round trip of the cache: a proving key with its constraint
/// matrices, encoded and decoded again, is what it was. It holds of every
/// pair that a machine can hold and whose points are such as decoding
/// gives.
pub proof fn lemma_cache_round_trip(key: ProvingKeyView, m: ConstraintSystem)
    requires
        key_cacheable(key),
        system_cacheable(m),
    ensures
        spec_decode_cache(spec_encode_cache(key, m)) == Ok::<
            (ProvingKeyView, ConstraintSystem),
            ZkeyError,
        >((key, m)),
{
    let data = spec_encode_cache(key, m);
    let a = cache_magic();
    let b = u32_le_bytes(CACHE_VERSION);
    let c = enc_key(key);
    let d = enc_system(m);
    assert(holds_at(data, 0, a + b + c + d));
    lemma_holds_split(data, 0, a + b + c, d);
    lemma_holds_split(data, 0, a + b, c);
    lemma_holds_split(data, 0, a, b);
    assert(data.subrange(0, 4) =~= cache_magic());
    lemma_u32_round_trip(data, 4, CACHE_VERSION);
    assert(cache_header_error(data) is None);
    lemma_key_round_trip(data, 8, key);
    lemma_system_round_trip(data, 8 + c.len() as int, m);
}

/// The 64 bytes at a place are the bytes of the point of the first group
/// decoded there, which is a point such as decoding gives.
pub proof fn lemma_g1_bytes_back(data: Seq<u8>, pos: int)
    requires
        0 <= pos,
        pos + 64 <= data.len(),
    ensures
        holds_at(data, pos, enc_g1(G1Point::at(data, pos))),
        enc_g1(G1Point::at(data, pos)).len() == 64,
        G1Point::at(data, pos).canonical(),
{
    let p = G1Point::at(data, pos);
    lemma_word_bytes_back(data, pos);
    lemma_word_bytes_back(data, pos + 32);
    lemma_encoded_lengths(0, p.x.repr);
    lemma_encoded_lengths(0, p.y.repr);
    lemma_holds_join(data, pos, p.x.repr.le_bytes(), p.y.repr.le_bytes());
}

/// The 128 bytes at a place are the bytes of the point of the second
/// group decoded there, which is a point such as decoding gives.
pub proof fn lemma_g2_bytes_back(data: Seq<u8>, pos: int)
    requires
        0 <= pos,
        pos + 128 <= data.len(),
    ensures
        holds_at(data, pos, enc_g2(G2Point::at(data, pos))),
        enc_g2(G2Point::at(data, pos)).len() == 128,
        G2Point::at(data, pos).canonical(),
{
    let p = G2Point::at(data, pos);
    lemma_word_bytes_back(data, pos);
    lemma_word_bytes_back(data, pos + 32);
    lemma_word_bytes_back(data, pos + 64);
    lemma_word_bytes_back(data, pos + 96);
    lemma_encoded_lengths(0, p.x.c0.repr);
    lemma_encoded_lengths(0, p.x.c1.repr);
    lemma_encoded_lengths(0, p.y.c0.repr);
    lemma_encoded_lengths(0, p.y.c1.repr);
    let a = p.x.c0.repr.le_bytes();
    let b = p.x.c1.repr.le_bytes();
    let c = p.y.c0.repr.le_bytes();
    let d = p.y.c1.repr.le_bytes();
    lemma_holds_join(data, pos, a, b);
    lemma_holds_join(data, pos, a + b, c);
    lemma_holds_join(data, pos, a + b + c, d);
}

/// The bytes of `n` points of the first group at a place are the bytes
/// of the points decoded there.
pub proof fn lemma_g1_seq_bytes_back(data: Seq<u8>, pos: int, n: nat)
    requires
        0 <= pos,
        pos + 64 * n <= data.len(),
    ensures
        holds_at(data, pos, enc_g1_seq(G1Point::seq_at(data, pos, n))),
        enc_g1_seq(G1Point::seq_at(data, pos, n)).len() == 64 * n,
        forall|i: int| 0 <= i < n ==> (#[trigger] G1Point::seq_at(data, pos, n)[i]).canonical(),
    decreases n,
{
    let s = G1Point::seq_at(data, pos, n);
    if n > 0 {
        let front = G1Point::seq_at(data, pos, (n - 1) as nat);
        assert(s.drop_last() =~= front);
        lemma_g1_seq_bytes_back(data, pos, (n - 1) as nat);
        lemma_g1_bytes_back(data, pos + 64 * (n - 1));
        lemma_holds_join(data, pos, enc_g1_seq(front), enc_g1(s.last()));
        assert forall|i: int| 0 <= i < n implies (#[trigger] s[i]).canonical() by {
            if i < n - 1 {
                assert(s[i] == front[i]);
            }
        }
    }
}

/// The bytes of `n` points of the second group at a place are the bytes
/// of the points decoded there.
pub proof fn lemma_g2_seq_bytes_back(data: Seq<u8>, pos: int, n: nat)
    requires
        0 <= pos,
        pos + 128 * n <= data.len(),
    ensures
        holds_at(data, pos, enc_g2_seq(G2Point::seq_at(data, pos, n))),
        enc_g2_seq(G2Point::seq_at(data, pos, n)).len() == 128 * n,
        forall|i: int| 0 <= i < n ==> (#[trigger] G2Point::seq_at(data, pos, n)[i]).canonical(),
    decreases n,
{
    let s = G2Point::seq_at(data, pos, n);
    if n > 0 {
        let front = G2Point::seq_at(data, pos, (n - 1) as nat);
        assert(s.drop_last() =~= front);
        lemma_g2_seq_bytes_back(data, pos, (n - 1) as nat);
        lemma_g2_bytes_back(data, pos + 128 * (n - 1));
        lemma_holds_join(data, pos, enc_g2_seq(front), enc_g2(s.last()));
        assert forall|i: int| 0 <= i < n implies (#[trigger] s[i]).canonical() by {
            if i < n - 1 {
                assert(s[i] == front[i]);
            }
        }
    }
}

/// The bytes that a vector of points of the first group was decoded from
/// are its bytes.
pub proof fn lemma_g1_vec_bytes_back(data: Seq<u8>, pos: int)
    requires
        0 <= pos,
    ensures
        dec_g1_vec(data, pos) matches Ok((s, next)) ==> holds_at(data, pos, enc_g1_vec(s)) && next
            == pos + enc_g1_vec(s).len() && g1_vec_cacheable(s),
{
    if let Ok((s, next)) = dec_g1_vec(data, pos) {
        lemma_u64_bytes_back(data, pos);
        lemma_encoded_lengths(s.len() as u64, U256::spec_zero());
        lemma_g1_seq_bytes_back(data, pos + 8, s.len());
        lemma_holds_join(data, pos, u64_le_bytes(s.len() as u64), enc_g1_seq(s));
    }
}

/// The bytes that a vector of points of the second group was decoded
/// from are its bytes.
pub proof fn lemma_g2_vec_bytes_back(data: Seq<u8>, pos: int)
    requires
        0 <= pos,
    ensures
        dec_g2_vec(data, pos) matches Ok((s, next)) ==> holds_at(data, pos, enc_g2_vec(s)) && next
            == pos + enc_g2_vec(s).len() && g2_vec_cacheable(s),
{
    if let Ok((s, next)) = dec_g2_vec(data, pos) {
        lemma_u64_bytes_back(data, pos);
        lemma_encoded_lengths(s.len() as u64, U256::spec_zero());
        lemma_g2_seq_bytes_back(data, pos + 8, s.len());
        lemma_holds_join(data, pos, u64_le_bytes(s.len() as u64), enc_g2_seq(s));
    }
}

/// The bytes that an entry was decoded from are its bytes.
pub proof fn lemma_entry_bytes_back(data: Seq<u8>, pos: int)
    requires
        0 <= pos,
    ensures
        dec_entry(data, pos) matches Ok(e) ==> holds_at(data, pos, enc_entry(e)) && enc_entry(
            e,
        ).len() == 40,
{
    if let Ok(e) = dec_entry(data, pos) {
        lemma_word_bytes_back(data, pos);
        lemma_u64_bytes_back(data, pos + 32);
        lemma_encoded_lengths(e.1 as u64, e.0.repr);
        lemma_holds_join(data, pos, e.0.repr.le_bytes(), u64_le_bytes(e.1 as u64));
    }
}

/// The bytes that the entries of a row were decoded from are their
/// bytes.
pub proof fn lemma_entries_bytes_back(data: Seq<u8>, pos: int, k: nat)
    requires
        0 <= pos <= data.len(),
    ensures
        dec_entries(data, pos, k) matches Ok(row) ==> row.len() == k && holds_at(
            data,
            pos,
            enc_entries(row),
        ) && enc_entries(row).len() == 40 * k,
    decreases k,
{
    if k > 0 {
        lemma_entries_bytes_back(data, pos, (k - 1) as nat);
        if let Ok(row) = dec_entries(data, pos, k) {
            let front = dec_entries(data, pos, (k - 1) as nat)->Ok_0;
            lemma_entry_bytes_back(data, pos + 40 * (k - 1));
            assert(row.drop_last() =~= front);
            lemma_holds_join(data, pos, enc_entries(front), enc_entry(row.last()));
        }
    }
}

/// The bytes that a row was decoded from are its bytes.
pub proof fn lemma_row_bytes_back(data: Seq<u8>, pos: int)
    requires
        0 <= pos,
    ensures
        dec_row(data, pos) matches Ok((row, next)) ==> holds_at(data, pos, enc_row(row)) && next
            == pos + enc_row(row).len() && row.len() <= usize::MAX,
{
    if let Ok((row, next)) = dec_row(data, pos) {
        lemma_u64_bytes_back(data, pos);
        lemma_encoded_lengths(row.len() as u64, U256::spec_zero());
        let n = dec_count(data, pos)->Ok_0.0;
        lemma_entries_bytes_back(data, pos + 8, n as nat);
        lemma_holds_join(data, pos, u64_le_bytes(row.len() as u64), enc_entries(row));
    }
}

/// The bytes that the rows of a matrix were decoded from are their
/// bytes.
pub proof fn lemma_rows_bytes_back(data: Seq<u8>, pos: int, k: nat)
    requires
        0 <= pos <= data.len(),
    ensures
        dec_rows(data, pos, k) matches Ok((m, next)) ==> {
            &&& m.len() == k
            &&& holds_at(data, pos, enc_rows(m))
            &&& next == pos + enc_rows(m).len()
            &&& forall|i: int| 0 <= i < k ==> (#[trigger] m[i]).len() <= usize::MAX
        },
    decreases k,
{
    if k > 0 {
        lemma_rows_bytes_back(data, pos, (k - 1) as nat);
        if let Ok((m, next)) = dec_rows(data, pos, k) {
            let (front, at) = dec_rows(data, pos, (k - 1) as nat)->Ok_0;
            lemma_row_bytes_back(data, at);
            assert(m.drop_last() =~= front);
            lemma_holds_join(data, pos, enc_rows(front), enc_row(m.last()));
            assert forall|i: int| 0 <= i < k implies (#[trigger] m[i]).len() <= usize::MAX by {
                if i < k - 1 {
                    assert(m[i] == front[i]);
                }
            }
        }
    }
}

/// The bytes that a matrix was decoded from are its bytes.
pub proof fn lemma_matrix_bytes_back(data: Seq<u8>, pos: int)
    requires
        0 <= pos,
    ensures
        dec_matrix(data, pos) matches Ok((m, next)) ==> holds_at(data, pos, enc_matrix(m)) && next
            == pos + enc_matrix(m).len() && matrix_cacheable(m),
{
    if let Ok((m, next)) = dec_matrix(data, pos) {
        lemma_u64_bytes_back(data, pos);
        lemma_encoded_lengths(m.len() as u64, U256::spec_zero());
        let n = dec_count(data, pos)->Ok_0.0;
        lemma_rows_bytes_back(data, pos + 8, n as nat);
        lemma_holds_join(data, pos, u64_le_bytes(m.len() as u64), enc_rows(m));
    }
}

/// The bytes that a proving key was decoded from are its bytes, and the
/// key is one that a machine can hold and that decoding can give.
pub proof fn lemma_key_bytes_back(data: Seq<u8>, pos: int)
    requires
        0 <= pos,
    ensures
        dec_key(data, pos) matches Ok((key, next)) ==> holds_at(data, pos, enc_key(key)) && next
            == pos + enc_key(key).len() && key_cacheable(key),
{
    reveal(dec_key);
    if let Ok((key, next)) = dec_key(data, pos) {
        lemma_g1_bytes_back(data, pos);
        lemma_g1_bytes_back(data, pos + 64);
        lemma_g2_bytes_back(data, pos + 128);
        lemma_g2_bytes_back(data, pos + 256);
        lemma_g1_bytes_back(data, pos + 384);
        lemma_g2_bytes_back(data, pos + 448);
        let a1 = enc_g1(key.vk.alpha_g1);
        let b1 = enc_g1(key.beta_g1);
        let b2 = enc_g2(key.vk.beta_g2);
        let g2 = enc_g2(key.vk.gamma_g2);
        let d1 = enc_g1(key.delta_g1);
        let d2 = enc_g2(key.vk.delta_g2);
        lemma_holds_join(data, pos, a1, b1);
        lemma_holds_join(data, pos, a1 + b1, b2);
        lemma_holds_join(data, pos, a1 + b1 + b2, g2);
        lemma_holds_join(data, pos, a1 + b1 + b2 + g2, d1);
        lemma_holds_join(data, pos, a1 + b1 + b2 + g2 + d1, d2);
        let fixed = enc_fixed_points(key);
        let at_ic = pos + 576;
        lemma_g1_vec_bytes_back(data, at_ic);
        let ic = enc_g1_vec(key.vk.gamma_abc_g1);
        let at_a = at_ic + ic.len();
        lemma_g1_vec_bytes_back(data, at_a);
        let a = enc_g1_vec(key.a_query);
        let at_b1 = at_a + a.len();
        lemma_g1_vec_bytes_back(data, at_b1);
        let q1 = enc_g1_vec(key.b_g1_query);
        let at_b2 = at_b1 + q1.len();
        lemma_g2_vec_bytes_back(data, at_b2);
        let q2 = enc_g2_vec(key.b_g2_query);
        let at_h = at_b2 + q2.len();
        lemma_g1_vec_bytes_back(data, at_h);
        let h = enc_g1_vec(key.h_query);
        let at_l = at_h + h.len();
        lemma_g1_vec_bytes_back(data, at_l);
        let l = enc_g1_vec(key.l_query);
        lemma_holds_join(data, pos, fixed, ic);
        lemma_holds_join(data, pos, fixed + ic, a);
        lemma_holds_join(data, pos, fixed + ic + a, q1);
        lemma_holds_join(data, pos, fixed + ic + a + q1, q2);
        lemma_holds_join(data, pos, fixed + ic + a + q1 + q2, h);
        lemma_holds_join(data, pos, fixed + ic + a + q1 + q2 + h, l);
    }
}

/// The bytes that the six counts of a constraint system were decoded
/// from are their bytes.
pub proof fn lemma_shape_bytes_back(data: Seq<u8>, pos: int)
    requires
        0 <= pos,
    ensures
        dec_counts(data, pos, 6) matches Ok(shape) ==> shape.len() == 6 && pos + 48 <= data.len()
            && holds_at(
            data,
            pos,
            u64_le_bytes(shape[0] as u64) + u64_le_bytes(shape[1] as u64) + u64_le_bytes(
                shape[2] as u64,
            ) + u64_le_bytes(shape[3] as u64) + u64_le_bytes(shape[4] as u64) + u64_le_bytes(
                shape[5] as u64,
            ),
        ),
{
    reveal_with_fuel(dec_counts, 7);
    if let Ok(shape) = dec_counts(data, pos, 6) {
        lemma_u64_bytes_back(data, pos);
        lemma_u64_bytes_back(data, pos + 8);
        lemma_u64_bytes_back(data, pos + 16);
        lemma_u64_bytes_back(data, pos + 24);
        lemma_u64_bytes_back(data, pos + 32);
        lemma_u64_bytes_back(data, pos + 40);
        let a = u64_le_bytes(shape[0] as u64);
        let b = u64_le_bytes(shape[1] as u64);
        let c = u64_le_bytes(shape[2] as u64);
        let d = u64_le_bytes(shape[3] as u64);
        let e = u64_le_bytes(shape[4] as u64);
        let f = u64_le_bytes(shape[5] as u64);
        lemma_encoded_lengths(shape[0] as u64, U256::spec_zero());
        lemma_encoded_lengths(shape[1] as u64, U256::spec_zero());
        lemma_encoded_lengths(shape[2] as u64, U256::spec_zero());
        lemma_encoded_lengths(shape[3] as u64, U256::spec_zero());
        lemma_encoded_lengths(shape[4] as u64, U256::spec_zero());
        lemma_holds_join(data, pos, a, b);
        lemma_holds_join(data, pos, a + b, c);
        lemma_holds_join(data, pos, a + b + c, d);
        lemma_holds_join(data, pos, a + b + c + d, e);
        lemma_holds_join(data, pos, a + b + c + d + e, f);
    }
}

/// The bytes that a constraint system was decoded from are its bytes.
pub proof fn lemma_system_bytes_back(data: Seq<u8>, pos: int)
    requires
        0 <= pos,
    ensures
        dec_system(data, pos) matches Ok((m, next)) ==> holds_at(data, pos, enc_system(m)) && next
            == pos + enc_system(m).len() && system_cacheable(m),
{
    reveal(dec_system);
    if let Ok((m, next)) = dec_system(data, pos) {
        lemma_shape_bytes_back(data, pos);
        lemma_encoded_lengths(0, U256::spec_zero());
        let shape = enc_shape(m);
        assert(shape.len() == 48) by {
            lemma_encoded_lengths(m.num_instance_variables as u64, U256::spec_zero());
            lemma_encoded_lengths(m.num_witness_variables as u64, U256::spec_zero());
            lemma_encoded_lengths(m.num_constraints as u64, U256::spec_zero());
            lemma_encoded_lengths(m.a_num_non_zero as u64, U256::spec_zero());
            lemma_encoded_lengths(m.b_num_non_zero as u64, U256::spec_zero());
            lemma_encoded_lengths(m.c_num_non_zero as u64, U256::spec_zero());
        }
        let at_a = pos + 48;
        lemma_matrix_bytes_back(data, at_a);
        let a = enc_matrix(m.a);
        let at_b = at_a + a.len();
        lemma_matrix_bytes_back(data, at_b);
        let b = enc_matrix(m.b);
        let at_c = at_b + b.len();
        lemma_matrix_bytes_back(data, at_c);
        let c = enc_matrix(m.c);
        lemma_holds_join(data, pos, shape, a);
        lemma_holds_join(data, pos, shape + a, b);
        lemma_holds_join(data, pos, shape + a + b, c);
    }
}

/// A cache is decoded only from its own encoding: the bytes that a pair
/// was decoded from are the cache of that pair, and the pair is one that
/// a machine can hold and that decoding can give. So no two caches
/// decode to the same pair.
pub proof fn lemma_cache_is_canonical(data: Seq<u8>)
    ensures
        spec_decode_cache(data) matches Ok((key, m)) ==> spec_encode_cache(key, m) == data
            && key_cacheable(key) && system_cacheable(m),
{
    if let Ok((key, m)) = spec_decode_cache(data) {
        let magic = cache_magic();
        let version = u32_le_bytes(CACHE_VERSION);
        assert(holds_at(data, 0, magic)) by {
            assert(data.subrange(0, 4) == magic);
            assert forall|i: int| 0 <= i < 4 implies data[0 + i] == #[trigger] magic[i] by {
                assert(data.subrange(0, 4)[i] == data[i]);
            }
        }
        lemma_u32_bytes_back(data, 4);
        lemma_key_bytes_back(data, 8);
        let at_system = 8 + enc_key(key).len() as int;
        lemma_system_bytes_back(data, at_system);
        lemma_holds_join(data, 0, magic, version);
        lemma_holds_join(data, 0, magic + version, enc_key(key));
        lemma_holds_join(data, 0, magic + version + enc_key(key), enc_system(m));
        assert(spec_encode_cache(key, m) =~= data);
    }
}

/// What is decoded from a file that a machine can hold is fit for the
/// cache: its points are such as decoding gives, and its vectors are no
/// longer than the file.
pub proof fn lemma_decoded_is_cacheable(data: Seq<u8>)
    requires
        data.len() <= usize::MAX,
    ensures
        spec_proving_key(data) matches Ok(key) ==> key_cacheable(key),
        spec_matrices(data) matches Ok(m) ==> system_cacheable(m),
{
    if let Ok(key) = spec_proving_key(data) {
        let sections = spec_directory(data)->Ok_0;
        lemma_directory_within(data);
        lemma_found_is_member(sections, SECTION_IC);
        lemma_found_is_member(sections, SECTION_A);
        lemma_found_is_member(sections, SECTION_B1);
        lemma_found_is_member(sections, SECTION_B2);
        lemma_found_is_member(sections, SECTION_L);
        lemma_found_is_member(sections, SECTION_H);
    }
    if let Ok(m) = spec_matrices(data) {
        let header = spec_groth_header(data)->Ok_0;
        let section = spec_section(data, SECTION_COEFFICIENTS)->Ok_0;
        let entries = coefficients_at(
            data,
            section.position + 4,
            le_u32(data, section.position as int) as nat,
        );
        lemma_matrix_shape(data);
        assert forall|i: int| 0 <= i < m.a.len() implies (#[trigger] m.a[i]).len()
            <= usize::MAX by {
            lemma_row_len(entries, 0, i);
        }
        assert forall|i: int| 0 <= i < m.b.len() implies (#[trigger] m.b[i]).len()
            <= usize::MAX by {
            lemma_row_len(entries, 1, i);
        }
    }
}

/// Decoding a file directly and decoding it by way of the cache give the
/// same: what is read from a file that a machine can hold is what is
/// decoded from its cache.
pub proof fn lemma_read_cache_round_trip(data: Seq<u8>)
    requires
        data.len() <= usize::MAX,
    ensures
        spec_read_zkey(data) matches Ok((key, m)) ==> spec_decode_cache(
            spec_encode_cache(key, m),
        ) == spec_read_zkey(data),
{
    if let Ok((key, m)) = spec_read_zkey(data) {
        lemma_decoded_is_cacheable(data);
        lemma_cache_round_trip(key, m);
    }
}

} // verus!
