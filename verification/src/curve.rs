//! Curve points of the two groups, and their decoding.
//!
//! A point is stored as its affine coordinates. The encoding with every
//! byte zero stands for the point at infinity; it is mapped to the
//! identity directly, and no decoded point is tested for lying on the
//! curve.

use crate::bytes::{all_zero, lemma_zero_word, U256};
use crate::error::{Stage, ZkeyError};
use crate::field::{first_missing, truncated_coordinates, Fq, Fq2};
use vstd::prelude::*;

verus! {

/// An affine point of the first group.
#[derive(Clone, Copy, Debug, PartialEq, Eq, Hash)]
pub struct G1Point {
    pub x: Fq,
    pub y: Fq,
    pub infinity: bool,
}

/// An affine point of the second group.
#[derive(Clone, Copy, Debug, PartialEq, Eq, Hash)]
pub struct G2Point {
    pub x: Fq2,
    pub y: Fq2,
    pub infinity: bool,
}

impl G1Point {
    /// The point at infinity.
    pub open spec fn spec_identity() -> G1Point {
        G1Point { x: Fq::spec_zero(), y: Fq::spec_zero(), infinity: true }
    }

    /// The point at infinity.
    pub fn identity() -> (r: G1Point)
        ensures
            r == G1Point::spec_identity(),
    {
        G1Point { x: Fq::zero(), y: Fq::zero(), infinity: true }
    }

    /// The point with the given coordinates, which are not tested.
    pub fn new_unchecked(x: Fq, y: Fq) -> (r: G1Point)
        ensures
            r == (G1Point { x, y, infinity: false }),
    {
        G1Point { x, y, infinity: false }
    }

    /// The point that two decoded coordinates stand for.
    pub open spec fn from_coordinates(x: Fq, y: Fq) -> G1Point {
        if x == Fq::spec_zero() && y == Fq::spec_zero() {
            G1Point::spec_identity()
        } else {
            G1Point { x, y, infinity: false }
        }
    }

    /// Whether the point is one that decoding gives: the identity, or a
    /// finite point whose coordinates are not both zero.
    pub open spec fn canonical(self) -> bool {
        self == G1Point::from_coordinates(self.x, self.y)
    }

    /// The point held in the 64 bytes at `pos`: `x`, then `y`.
    pub open spec fn at(data: Seq<u8>, pos: int) -> G1Point {
        G1Point::from_coordinates(Fq::at(data, pos), Fq::at(data, pos + 32))
    }

    /// The `n` points held back to back from `pos` on.
    pub open spec fn seq_at(data: Seq<u8>, pos: int, n: nat) -> Seq<G1Point> {
        Seq::new(n, |i: int| G1Point::at(data, pos + 64 * i))
    }
}

impl G2Point {
    /// The point at infinity.
    pub open spec fn spec_identity() -> G2Point {
        G2Point { x: Fq2::spec_zero(), y: Fq2::spec_zero(), infinity: true }
    }

    /// The point at infinity.
    pub fn identity() -> (r: G2Point)
        ensures
            r == G2Point::spec_identity(),
    {
        G2Point { x: Fq2::zero(), y: Fq2::zero(), infinity: true }
    }

    /// The point with the given coordinates, which are not tested.
    pub fn new_unchecked(x: Fq2, y: Fq2) -> (r: G2Point)
        ensures
            r == (G2Point { x, y, infinity: false }),
    {
        G2Point { x, y, infinity: false }
    }

    /// The point that two decoded coordinates stand for.
    pub open spec fn from_coordinates(x: Fq2, y: Fq2) -> G2Point {
        if x == Fq2::spec_zero() && y == Fq2::spec_zero() {
            G2Point::spec_identity()
        } else {
            G2Point { x, y, infinity: false }
        }
    }

    /// Whether the point is one that decoding gives: the identity, or a
    /// finite point whose coordinates are not both zero.
    pub open spec fn canonical(self) -> bool {
        self == G2Point::from_coordinates(self.x, self.y)
    }

    /// The point held in the 128 bytes at `pos`: `x`, then `y`.
    pub open spec fn at(data: Seq<u8>, pos: int) -> G2Point {
        G2Point::from_coordinates(Fq2::at(data, pos), Fq2::at(data, pos + 64))
    }

    /// The `n` points held back to back from `pos` on.
    pub open spec fn seq_at(data: Seq<u8>, pos: int, n: nat) -> Seq<G2Point> {
        Seq::new(n, |i: int| G2Point::at(data, pos + 128 * i))
    }
}

/// What `deserialize_g1` returns.
pub open spec fn spec_deserialize_g1(data: Seq<u8>, pos: int) -> Result<G1Point, ZkeyError> {
    if pos + 64 <= data.len() {
        Ok(G1Point::at(data, pos))
    } else {
        Err(ZkeyError::truncated(Stage::Points, first_missing(data.len() as int, pos)))
    }
}

/// What `deserialize_g2` returns.
pub open spec fn spec_deserialize_g2(data: Seq<u8>, pos: int) -> Result<G2Point, ZkeyError> {
    if pos + 128 <= data.len() {
        Ok(G2Point::at(data, pos))
    } else {
        Err(ZkeyError::truncated(Stage::Points, first_missing(data.len() as int, pos)))
    }
}

/// What `deserialize_g1_vec` returns, by the view of the vector.
pub open spec fn spec_deserialize_g1_vec(data: Seq<u8>, pos: int, n: nat) -> Result<
    Seq<G1Point>,
    ZkeyError,
> {
    if pos + 64 * n <= data.len() {
        Ok(G1Point::seq_at(data, pos, n))
    } else {
        Err(ZkeyError::truncated(Stage::Points, first_missing(data.len() as int, pos)))
    }
}

/// What `deserialize_g2_vec` returns, by the view of the vector.
pub open spec fn spec_deserialize_g2_vec(data: Seq<u8>, pos: int, n: nat) -> Result<
    Seq<G2Point>,
    ZkeyError,
> {
    if pos + 128 * n <= data.len() {
        Ok(G2Point::seq_at(data, pos, n))
    } else {
        Err(ZkeyError::truncated(Stage::Points, first_missing(data.len() as int, pos)))
    }
}

/// The result of a decoder that returns a vector, by the vector's view.
pub open spec fn vec_result_view<T>(r: Result<Vec<T>, ZkeyError>) -> Result<Seq<T>, ZkeyError> {
    match r {
        Ok(v) => Ok(v@),
        Err(e) => Err(e),
    }
}

/// The 64 bytes of a point of the first group stand for the point at
/// infinity exactly when all of them are zero.
pub proof fn lemma_g1_identity_encoding(data: Seq<u8>, pos: int)
    requires
        0 <= pos,
        pos + 64 <= data.len(),
    ensures
        G1Point::at(data, pos).infinity == all_zero(data, pos, 64),
        all_zero(data, pos, 64) ==> G1Point::at(data, pos) == G1Point::spec_identity(),
{
    reveal(all_zero);
    lemma_zero_word(data, pos);
    lemma_zero_word(data, pos + 32);
    if all_zero(data, pos, 32) && all_zero(data, pos + 32, 32) {
        assert(all_zero(data, pos, 64));
    }
    if all_zero(data, pos, 64) {
        assert(all_zero(data, pos, 32));
        assert(all_zero(data, pos + 32, 32));
    }
}

/// The 128 bytes of a point of the second group stand for the point at
/// infinity exactly when all of them are zero.
pub proof fn lemma_g2_identity_encoding(data: Seq<u8>, pos: int)
    requires
        0 <= pos,
        pos + 128 <= data.len(),
    ensures
        G2Point::at(data, pos).infinity == all_zero(data, pos, 128),
        all_zero(data, pos, 128) ==> G2Point::at(data, pos) == G2Point::spec_identity(),
{
    reveal(all_zero);
    lemma_zero_word(data, pos);
    lemma_zero_word(data, pos + 32);
    lemma_zero_word(data, pos + 64);
    lemma_zero_word(data, pos + 96);
    if all_zero(data, pos, 32) && all_zero(data, pos + 32, 32) && all_zero(data, pos + 64, 32)
        && all_zero(data, pos + 96, 32) {
        assert(all_zero(data, pos, 128));
    }
    if all_zero(data, pos, 128) {
        assert(all_zero(data, pos, 32));
        assert(all_zero(data, pos + 32, 32));
        assert(all_zero(data, pos + 64, 32));
        assert(all_zero(data, pos + 96, 32));
    }
}

/// Decodes a point of the first group from the 64 bytes at `pos`.
///
/// Two zero coordinates give the identity; any other pair is taken as it
/// stands, on the curve or not.
pub fn deserialize_g1(data: &[u8], pos: usize) -> (r: Result<G1Point, ZkeyError>)
    ensures
        r == spec_deserialize_g1(data@, pos as int),
        r matches Ok(p) ==> p.infinity == all_zero(data@, pos as int, 64),
        r matches Ok(p) ==> (p.infinity ==> p == G1Point::spec_identity()),
{
    let len: usize = data.len();
    if len >= 64 && pos <= len - 64 {
        let x = Fq { repr: U256::read(data, pos) };
        let y = Fq { repr: U256::read(data, pos + 32) };
        proof {
            lemma_g1_identity_encoding(data@, pos as int);
        }
        let infinity = x.is_zero() && y.is_zero();
        if infinity {
            Ok(G1Point::identity())
        } else {
            Ok(G1Point::new_unchecked(x, y))
        }
    } else {
        Err(truncated_coordinates(data, pos))
    }
}

/// Decodes a point of the second group from the 128 bytes at `pos`.
///
/// Two zero coordinates give the identity; any other pair is taken as it
/// stands, on the curve or not.
pub fn deserialize_g2(data: &[u8], pos: usize) -> (r: Result<G2Point, ZkeyError>)
    ensures
        r == spec_deserialize_g2(data@, pos as int),
        r matches Ok(p) ==> p.infinity == all_zero(data@, pos as int, 128),
        r matches Ok(p) ==> (p.infinity ==> p == G2Point::spec_identity()),
{
    let len: usize = data.len();
    if len >= 128 && pos <= len - 128 {
        let f1 = Fq2 {
            c0: Fq { repr: U256::read(data, pos) },
            c1: Fq { repr: U256::read(data, pos + 32) },
        };
        let f2 = Fq2 {
            c0: Fq { repr: U256::read(data, pos + 64) },
            c1: Fq { repr: U256::read(data, pos + 96) },
        };
        proof {
            lemma_g2_identity_encoding(data@, pos as int);
        }
        let infinity = f1.is_zero() && f2.is_zero();
        if infinity {
            Ok(G2Point::identity())
        } else {
            Ok(G2Point::new_unchecked(f1, f2))
        }
    } else {
        Err(truncated_coordinates(data, pos))
    }
}

/// Decodes `n` points of the first group held back to back from `pos` on.
pub fn deserialize_g1_vec(data: &[u8], pos: usize, n: usize) -> (r: Result<
    Vec<G1Point>,
    ZkeyError,
>)
    ensures
        vec_result_view(r) == spec_deserialize_g1_vec(data@, pos as int, n as nat),
{
    let len: usize = data.len();
    if pos > len || n > (len - pos) / 64 {
        return Err(truncated_coordinates(data, pos));
    }
    let mut points: Vec<G1Point> = Vec::new();
    let mut i: usize = 0;
    while i < n
        invariant
            i <= n,
            len == data@.len(),
            pos + 64 * n <= len,
            points@ == G1Point::seq_at(data@, pos as int, i as nat),
        decreases n - i,
    {
        match deserialize_g1(data, pos + 64 * i) {
            Ok(p) => {
                points.push(p);
            },
            Err(e) => {
                return Err(e);
            },
        }
        i += 1;
    }
    Ok(points)
}

/// Decodes `n` points of the second group held back to back from `pos`
/// on.
pub fn deserialize_g2_vec(data: &[u8], pos: usize, n: usize) -> (r: Result<
    Vec<G2Point>,
    ZkeyError,
>)
    ensures
        vec_result_view(r) == spec_deserialize_g2_vec(data@, pos as int, n as nat),
{
    let len: usize = data.len();
    if pos > len || n > (len - pos) / 128 {
        return Err(truncated_coordinates(data, pos));
    }
    let mut points: Vec<G2Point> = Vec::new();
    let mut i: usize = 0;
    while i < n
        invariant
            i <= n,
            len == data@.len(),
            pos + 128 * n <= len,
            points@ == G2Point::seq_at(data@, pos as int, i as nat),
        decreases n - i,
    {
        match deserialize_g2(data, pos + 128 * i) {
            Ok(p) => {
                points.push(p);
            },
            Err(e) => {
                return Err(e);
            },
        }
        i += 1;
    }
    Ok(points)
}

} // verus!
