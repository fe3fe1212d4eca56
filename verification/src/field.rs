//! Field elements in the two conventions of the source format.
//!
//! Curve coordinates are stored as the field library's internal
//! representation and are taken as they stand. Constraint coefficients are
//! stored with one radix factor too many, which the field library's own
//! reduction takes off.

use crate::bytes::{word_radix, U256};
use crate::error::{Detail, Stage, ZkeyError};
use vstd::prelude::*;

verus! {

/// An element of the curve's base field, as the internal (Montgomery)
/// representation that the field library works on.
#[derive(Clone, Copy, Debug, PartialEq, Eq, Hash)]
pub struct Fq {
    pub repr: U256,
}

/// An element of the scalar field, as the internal (Montgomery)
/// representation that the field library works on.
#[derive(Clone, Copy, Debug, PartialEq, Eq, Hash)]
pub struct Fr {
    pub repr: U256,
}

/// An element of the quadratic extension of the base field: `c0 + c1 * u`.
#[derive(Clone, Copy, Debug, PartialEq, Eq, Hash)]
pub struct Fq2 {
    pub c0: Fq,
    pub c1: Fq,
}

/// The order of the scalar field of BN254.
pub open spec fn scalar_modulus() -> nat {
    21888242871839275222246405745257275088548364400416034343698204186575808495617nat
}

/// Two to the power 256: the radix of the Montgomery representation.
pub open spec fn montgomery_radix() -> nat {
    0x1_0000_0000_0000_0000_0000_0000_0000_0000_0000_0000_0000_0000_0000_0000_0000_0000nat
}

/// The inverse of the radix modulo the order of the scalar field.
pub open spec fn radix_inverse() -> nat {
    9915499612839321149637521777990102151350674507940716049588462388200839649614nat
}

/// The form in which the source format stores the scalar `v`: `v` times
/// the radix squared.
pub open spec fn stored_form(v: nat) -> nat {
    (v * montgomery_radix() * montgomery_radix()) % scalar_modulus()
}

/// The form in which the field library holds the scalar `v`: `v` times
/// the radix.
pub open spec fn internal_form(v: nat) -> nat {
    (v * montgomery_radix()) % scalar_modulus()
}

/// Every word is below the radix, which is the fourth power of the radix
/// of a word's digits.
pub proof fn lemma_word_below_radix(x: U256)
    ensures
        montgomery_radix() == word_radix() * word_radix() * word_radix() * word_radix(),
        x.value() < montgomery_radix(),
{
    crate::bytes::lemma_from_nat_value(x);
    assert(montgomery_radix() == word_radix() * word_radix() * word_radix() * word_radix())
        by (nonlinear_arith)
        requires
            montgomery_radix()
                == 0x1_0000_0000_0000_0000_0000_0000_0000_0000_0000_0000_0000_0000_0000_0000_0000_0000int,
            word_radix() == 0x1_0000_0000_0000_0000int,
    ;
}

/// Times the radix and then its inverse, a residue is what it was.
pub proof fn lemma_times_radix_inverse(a: nat)
    requires
        a < scalar_modulus(),
    ensures
        (((a * montgomery_radix()) % scalar_modulus()) * radix_inverse()) % scalar_modulus() == a,
{
    let p = scalar_modulus() as int;
    let r = montgomery_radix() as int;
    let i = radix_inverse() as int;
    let x = a as int;
    // the radix times its inverse is one more than this multiple of the modulus
    let q = 52454480824480482120356829342366457550537710351690908576382634413609933864959int;
    assert(r * i == q * p + 1);
    vstd::arithmetic::div_mod::lemma_fundamental_div_mod_converse(r * i, p, q, 1);
    vstd::arithmetic::div_mod::lemma_mul_mod_noop_left(x * r, i, p);
    assert((x * r) * i == x * (r * i)) by (nonlinear_arith);
    vstd::arithmetic::div_mod::lemma_mul_mod_noop_right(x, r * i, p);
    vstd::arithmetic::div_mod::lemma_small_mod(a, p as nat);
}

/// A residue is known by its product with the radix: the radix has an
/// inverse modulo the order of the scalar field.
pub proof fn lemma_radix_cancels(a: nat, b: nat)
    requires
        a < scalar_modulus(),
        b < scalar_modulus(),
        (a * montgomery_radix()) % scalar_modulus() == (b * montgomery_radix())
            % scalar_modulus(),
    ensures
        a == b,
{
    lemma_times_radix_inverse(a);
    lemma_times_radix_inverse(b);
}

/// One radix factor off: a residue that times the radix is congruent to
/// the stored form of a scalar is the internal form of that scalar.
pub proof fn lemma_one_radix_factor(v: nat, c: nat)
    requires
        c < scalar_modulus(),
        (c * montgomery_radix()) % scalar_modulus() == stored_form(v) % scalar_modulus(),
    ensures
        c == internal_form(v),
{
    let p = scalar_modulus() as int;
    let r = montgomery_radix() as int;
    vstd::arithmetic::div_mod::lemma_mod_twice(v * r * r, p);
    vstd::arithmetic::div_mod::lemma_mul_mod_noop_left(v * r, r, p);
    assert(0 <= internal_form(v) < p) by {
        vstd::arithmetic::div_mod::lemma_mod_bound(v * r, p);
    }
    lemma_radix_cancels(c, internal_form(v));
}

/// The integer that the field library's Montgomery reduction of the scalar
/// field returns for the 256-bit integer `raw`.
pub uninterp spec fn montgomery_reduced(raw: nat) -> nat;

/// Calls `ark_ff::PrimeField::into_bigint` on the element of
/// `ark_bn254::Fr` whose internal representation is `raw`
/// (`Fr::new_unchecked`). The call runs the word-by-word Montgomery
/// reduction: for any 256-bit `raw`, reduced or not, it returns
/// `(raw + m * r) / 2^256` for the one `m < 2^256` that makes the division
/// exact. The contract names that integer and states of it that it times
/// the radix is congruent to `raw`, and that it is a residue below the
/// modulus whenever `raw` is one.
#[verifier::external_body]
fn montgomery_reduce(raw: U256) -> (out: U256)
    ensures
        out.value() == montgomery_reduced(raw.value()),
        (out.value() * montgomery_radix()) % scalar_modulus() == raw.value()
            % scalar_modulus(),
        raw.value() < scalar_modulus() ==> out.value() < scalar_modulus(),
{
    let big = ark_ff::BigInt::<4>([raw.w0, raw.w1, raw.w2, raw.w3]);
    let red = ark_ff::PrimeField::into_bigint(ark_bn254::Fr::new_unchecked(big));
    U256 { w0: red.0[0], w1: red.0[1], w2: red.0[2], w3: red.0[3] }
}

impl Fq {
    /// The base-field element whose representation is held little-endian
    /// in the 32 bytes at `pos`.
    pub open spec fn at(data: Seq<u8>, pos: int) -> Fq {
        Fq { repr: U256::at(data, pos) }
    }

    /// The zero of the field.
    pub open spec fn spec_zero() -> Fq {
        Fq { repr: U256::spec_zero() }
    }

    /// The zero of the field.
    pub fn zero() -> (r: Fq)
        ensures
            r == Fq::spec_zero(),
    {
        Fq { repr: U256::zero() }
    }

    /// Whether the element is the zero of the field, as the field library
    /// tests it: by its representation.
    pub fn is_zero(&self) -> (r: bool)
        ensures
            r == (*self == Fq::spec_zero()),
    {
        self.repr.is_zero()
    }
}

impl Fq2 {
    /// The extension-field element held in the 64 bytes at `pos`: `c0`,
    /// then `c1`.
    pub open spec fn at(data: Seq<u8>, pos: int) -> Fq2 {
        Fq2 { c0: Fq::at(data, pos), c1: Fq::at(data, pos + 32) }
    }

    /// The zero of the field.
    pub open spec fn spec_zero() -> Fq2 {
        Fq2 { c0: Fq::spec_zero(), c1: Fq::spec_zero() }
    }

    /// The zero of the field.
    pub fn zero() -> (r: Fq2)
        ensures
            r == Fq2::spec_zero(),
    {
        Fq2 { c0: Fq::zero(), c1: Fq::zero() }
    }

    /// Whether both coefficients are zero.
    pub fn is_zero(&self) -> (r: bool)
        ensures
            r == (*self == Fq2::spec_zero()),
    {
        self.c0.is_zero() && self.c1.is_zero()
    }
}

impl Fr {
    /// The scalar that a stored coefficient stands for: the reduction of
    /// the 256-bit integer `raw`, taken as a representation in its turn.
    pub open spec fn from_stored(raw: U256) -> Fr {
        Fr { repr: U256::from_nat(montgomery_reduced(raw.value())) }
    }

    /// The scalar whose stored form is held little-endian in the 32 bytes
    /// at `pos`.
    pub open spec fn at(data: Seq<u8>, pos: int) -> Fr {
        Fr::from_stored(U256::at(data, pos))
    }
}

/// The offset of the first 32-byte coordinate, counted from `pos`, that
/// does not lie wholly within an input of `len` bytes.
pub open spec fn first_missing(len: int, pos: int) -> int {
    if pos <= len {
        pos + 32 * ((len - pos) / 32)
    } else {
        pos
    }
}

/// The error for coordinates that were to start at `pos` and do not all
/// lie within the input.
pub fn truncated_coordinates(data: &[u8], pos: usize) -> (e: ZkeyError)
    ensures
        e == ZkeyError::truncated(Stage::Points, first_missing(data@.len() as int, pos as int)),
{
    let len: usize = data.len();
    let offset: usize = if pos <= len {
        pos + 32 * ((len - pos) / 32)
    } else {
        pos
    };
    ZkeyError::Format { stage: Stage::Points, offset: offset as u64, detail: Detail::UnexpectedEnd }
}

/// What `deserialize_field` returns.
pub open spec fn spec_deserialize_field(data: Seq<u8>, pos: int) -> Result<Fq, ZkeyError> {
    if pos + 32 <= data.len() {
        Ok(Fq::at(data, pos))
    } else {
        Err(ZkeyError::truncated(Stage::Points, first_missing(data.len() as int, pos)))
    }
}

/// What `deserialize_field2` returns.
pub open spec fn spec_deserialize_field2(data: Seq<u8>, pos: int) -> Result<Fq2, ZkeyError> {
    if pos + 64 <= data.len() {
        Ok(Fq2::at(data, pos))
    } else {
        Err(ZkeyError::truncated(Stage::Points, first_missing(data.len() as int, pos)))
    }
}

/// What `deserialize_field_fr` returns.
pub open spec fn spec_deserialize_field_fr(data: Seq<u8>, pos: int) -> Result<Fr, ZkeyError> {
    if pos + 32 <= data.len() {
        Ok(Fr::at(data, pos))
    } else {
        Err(ZkeyError::truncated(Stage::Coefficients, pos))
    }
}

/// Decodes a curve coordinate: the 32 bytes at `pos` are the element's
/// internal representation and are taken without scaling.
pub fn deserialize_field(data: &[u8], pos: usize) -> (r: Result<Fq, ZkeyError>)
    ensures
        r == spec_deserialize_field(data@, pos as int),
{
    if data.len() >= 32 && pos <= data.len() - 32 {
        Ok(Fq { repr: U256::read(data, pos) })
    } else {
        Err(truncated_coordinates(data, pos))
    }
}

/// Decodes an extension-field element: two curve coordinates, `c0` first.
pub fn deserialize_field2(data: &[u8], pos: usize) -> (r: Result<Fq2, ZkeyError>)
    ensures
        r == spec_deserialize_field2(data@, pos as int),
{
    let len: usize = data.len();
    if len >= 64 && pos <= len - 64 {
        Ok(Fq2 { c0: Fq { repr: U256::read(data, pos) }, c1: Fq { repr: U256::read(data, pos + 32) } })
    } else {
        Err(truncated_coordinates(data, pos))
    }
}

/// Puts a stored coefficient into the field library's internal form.
///
/// The result is the field library's reduction of `raw`, whatever `raw`
/// is. Times the radix it is congruent to `raw`. So where `raw` is the
/// stored form of a scalar, the result is the internal form of that
/// scalar: one radix factor is taken off.
pub fn reduce_stored(raw: U256) -> (c: Fr)
    ensures
        c == Fr::from_stored(raw),
        c.repr.value() == montgomery_reduced(raw.value()),
        (c.repr.value() * montgomery_radix()) % scalar_modulus() == raw.value()
            % scalar_modulus(),
        raw.value() < scalar_modulus() ==> c.repr.value() < scalar_modulus(),
        forall|v: nat| raw.value() == #[trigger] stored_form(v) ==> c.repr.value() == internal_form(v),
{
    let out = montgomery_reduce(raw);
    proof {
        crate::bytes::lemma_from_nat_value(out);
        assert forall|v: nat| raw.value() == #[trigger] stored_form(v) implies out.value()
            == internal_form(v) by {
            vstd::arithmetic::div_mod::lemma_mod_bound(
                (v * montgomery_radix() * montgomery_radix()) as int,
                scalar_modulus() as int,
            );
            lemma_one_radix_factor(v, out.value());
        }
    }
    Fr { repr: out }
}

/// Decodes a constraint coefficient: the 32 bytes at `pos`, put into the
/// field library's internal form by `reduce_stored`.
pub fn deserialize_field_fr(data: &[u8], pos: usize) -> (r: Result<Fr, ZkeyError>)
    ensures
        r == spec_deserialize_field_fr(data@, pos as int),
{
    if data.len() >= 32 && pos <= data.len() - 32 {
        Ok(reduce_stored(U256::read(data, pos)))
    } else {
        Err(ZkeyError::Format { stage: Stage::Coefficients, offset: pos as u64, detail: Detail::UnexpectedEnd })
    }
}

} // verus!
