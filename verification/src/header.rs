//! The circuit header: field parameters, the shape of the circuit, and
//! the six points of the verifying key.

use crate::bytes::{le_u32, read_u32, U256};
use crate::curve::{deserialize_g1, deserialize_g2, G1Point, G2Point};
use crate::error::{Detail, Stage, ZkeyError};
use crate::section::Section;
use vstd::arithmetic::power2::{lemma_pow2_strictly_increases, lemma_pow2_unfold, pow2};
use vstd::prelude::*;

verus! {

/// The length of an encoded verifying key: three points of each group.
pub const VERIFYING_KEY_SIZE: usize = 576;

/// The length of the header section's payload.
pub const HEADER_SIZE: usize = 660;

/// The six points of the verifying key, in the order of the file.
#[derive(Clone, Copy, Debug, PartialEq, Eq, Hash)]
pub struct ZVerifyingKey {
    pub alpha_g1: G1Point,
    pub beta_g1: G1Point,
    pub beta_g2: G2Point,
    pub gamma_g2: G2Point,
    pub delta_g1: G1Point,
    pub delta_g2: G2Point,
}

/// The header of a Groth16 key.
#[derive(Clone, Copy, Debug, PartialEq, Eq, Hash)]
pub struct HeaderGroth {
    /// The byte width of a base-field element.
    pub n8q: u32,
    /// The modulus of the base field.
    pub q: U256,
    /// The byte width of a scalar.
    pub n8r: u32,
    /// The modulus of the scalar field.
    pub r: U256,
    /// The number of variables of the circuit.
    pub n_vars: usize,
    /// The number of public inputs.
    pub n_public: usize,
    /// The size of the evaluation domain, a power of two.
    pub domain_size: u32,
    /// The exponent of the domain size.
    pub power: u32,
    pub verifying_key: ZVerifyingKey,
}

/// Whether `d` is a power of two. Zero is none.
pub open spec fn spec_is_power_of_two(d: int) -> bool {
    exists|k: nat| d == #[trigger] pow2(k)
}

/// The exponent of a power of two.
pub open spec fn exponent_of(d: int) -> nat {
    choose|k: nat| d == #[trigger] pow2(k)
}

/// Powers of two grow with their exponents.
pub proof fn lemma_pow2_monotone(a: nat, b: nat)
    requires
        a <= b,
    ensures
        pow2(a) <= pow2(b),
{
    if a < b {
        lemma_pow2_strictly_increases(a, b);
    }
}

/// A number strictly between two neighbouring powers of two, or below the
/// first of them, is no power of two; and a power of two has one exponent
/// only.
pub proof fn lemma_between_powers(d: int, i: nat)
    requires
        d <= pow2(i),
        i > 0 ==> pow2((i - 1) as nat) < d,
    ensures
        spec_is_power_of_two(d) == (d == pow2(i)),
        d == pow2(i) ==> exponent_of(d) == i,
{
    assert forall|k: nat| d == #[trigger] pow2(k) implies k == i by {
        if k < i {
            lemma_pow2_monotone(k, (i - 1) as nat);
        } else if k > i {
            lemma_pow2_strictly_increases(i, k);
        }
    }
}

/// Whether `d` is a power of two.
pub fn is_power_of_two(d: u32) -> (r: bool)
    ensures
        r == spec_is_power_of_two(d as int),
{
    let mut p: u64 = 1;
    let mut i: u32 = 0;
    assert(pow2(0) == 1) by {
        vstd::arithmetic::power2::lemma2_to64();
    }
    while p < d as u64
        invariant
            p == pow2(i as nat),
            p >= 1,
            i <= 32,
            i > 0 ==> pow2((i - 1) as nat) < d,
        decreases 2 * d - p,
    {
        proof {
            lemma_pow2_unfold((i + 1) as nat);
            if i == 32 {
                vstd::arithmetic::power2::lemma2_to64();
            }
        }
        p = p * 2;
        i += 1;
    }
    proof {
        lemma_between_powers(d as int, i as nat);
    }
    p == d as u64
}

/// Calls `ark_std::log2`, which returns the base-2 logarithm of `x`
/// rounded up, and 0 for 0: the least `r` with `x <= 2^r`.
#[verifier::external_body]
fn ceil_log2(x: usize) -> (r: u32)
    ensures
        x == 0 ==> r == 0,
        x > 0 ==> x <= pow2(r as nat),
        x > 0 && r > 0 ==> pow2((r - 1) as nat) < x,
{
    ark_std::log2(x)
}

impl ZVerifyingKey {
    /// The verifying key held in the 576 bytes at `pos`.
    pub open spec fn at(data: Seq<u8>, pos: int) -> ZVerifyingKey {
        ZVerifyingKey {
            alpha_g1: G1Point::at(data, pos),
            beta_g1: G1Point::at(data, pos + 64),
            beta_g2: G2Point::at(data, pos + 128),
            gamma_g2: G2Point::at(data, pos + 256),
            delta_g1: G1Point::at(data, pos + 384),
            delta_g2: G2Point::at(data, pos + 448),
        }
    }

    /// What `new` returns.
    pub open spec fn spec_new(data: Seq<u8>, pos: int) -> Result<ZVerifyingKey, ZkeyError> {
        if pos + VERIFYING_KEY_SIZE <= data.len() {
            Ok(ZVerifyingKey::at(data, pos))
        } else {
            Err(ZkeyError::truncated(Stage::GrothHeader, pos))
        }
    }

    /// Decodes the six points of the verifying key from the 576 bytes at
    /// `pos`: alpha1, beta1, beta2, gamma2, delta1, delta2.
    pub fn new(data: &[u8], pos: usize) -> (r: Result<ZVerifyingKey, ZkeyError>)
        ensures
            r == ZVerifyingKey::spec_new(data@, pos as int),
    {
        let len: usize = data.len();
        if len < VERIFYING_KEY_SIZE || pos > len - VERIFYING_KEY_SIZE {
            return Err(
                ZkeyError::Format {
                    stage: Stage::GrothHeader,
                    offset: pos as u64,
                    detail: Detail::UnexpectedEnd,
                },
            );
        }
        let alpha_g1 = match deserialize_g1(data, pos) {
            Ok(p) => p,
            Err(e) => { return Err(e); },
        };
        let beta_g1 = match deserialize_g1(data, pos + 64) {
            Ok(p) => p,
            Err(e) => { return Err(e); },
        };
        let beta_g2 = match deserialize_g2(data, pos + 128) {
            Ok(p) => p,
            Err(e) => { return Err(e); },
        };
        let gamma_g2 = match deserialize_g2(data, pos + 256) {
            Ok(p) => p,
            Err(e) => { return Err(e); },
        };
        let delta_g1 = match deserialize_g1(data, pos + 384) {
            Ok(p) => p,
            Err(e) => { return Err(e); },
        };
        let delta_g2 = match deserialize_g2(data, pos + 448) {
            Ok(p) => p,
            Err(e) => { return Err(e); },
        };
        Ok(ZVerifyingKey { alpha_g1, beta_g1, beta_g2, gamma_g2, delta_g1, delta_g2 })
    }
}

impl HeaderGroth {
    /// The header held in the 660 bytes at `pos`.
    pub open spec fn at(data: Seq<u8>, pos: int) -> HeaderGroth {
        HeaderGroth {
            n8q: le_u32(data, pos) as u32,
            q: U256::at(data, pos + 4),
            n8r: le_u32(data, pos + 36) as u32,
            r: U256::at(data, pos + 40),
            n_vars: le_u32(data, pos + 72) as usize,
            n_public: le_u32(data, pos + 76) as usize,
            domain_size: le_u32(data, pos + 80) as u32,
            power: exponent_of(le_u32(data, pos + 80)) as u32,
            verifying_key: ZVerifyingKey::at(data, pos + 84),
        }
    }

    /// What `read` returns.
    pub open spec fn spec_read(data: Seq<u8>, pos: int) -> Result<HeaderGroth, ZkeyError> {
        if pos + HEADER_SIZE > data.len() {
            Err(ZkeyError::truncated(Stage::GrothHeader, pos))
        } else if !spec_is_power_of_two(le_u32(data, pos + 80)) {
            Err(ZkeyError::NonPowerOfTwoDomain { domain_size: le_u32(data, pos + 80) as u32 })
        } else {
            Ok(HeaderGroth::at(data, pos))
        }
    }

    /// What `new` returns.
    pub open spec fn spec_new(data: Seq<u8>, section: Section) -> Result<HeaderGroth, ZkeyError> {
        if section.size != HEADER_SIZE {
            Err(
                ZkeyError::SizeMismatch {
                    section: section.id,
                    declared: section.size,
                    expected: HEADER_SIZE as u64,
                },
            )
        } else {
            HeaderGroth::spec_read(data, section.position as int)
        }
    }

    /// Decodes the header from a section of the file.
    ///
    /// Fails where the section's length is not that of a header, and
    /// where `read` fails.
    pub fn new(data: &[u8], section: &Section) -> (r: Result<HeaderGroth, ZkeyError>)
        ensures
            r == HeaderGroth::spec_new(data@, *section),
            r matches Ok(h) ==> h.domain_size == pow2(h.power as nat),
    {
        if section.size != HEADER_SIZE as u64 {
            return Err(
                ZkeyError::SizeMismatch {
                    section: section.id,
                    declared: section.size,
                    expected: HEADER_SIZE as u64,
                },
            );
        }
        if section.position > data.len() as u64 {
            return Err(
                ZkeyError::Format {
                    stage: Stage::GrothHeader,
                    offset: section.position,
                    detail: Detail::UnexpectedEnd,
                },
            );
        }
        HeaderGroth::read(data, section.position as usize)
    }

    /// Decodes the header from the 660 bytes at `pos`: the two field
    /// widths and moduli, the numbers of variables and of public inputs,
    /// the domain size, and the verifying key.
    ///
    /// Fails where the input ends before the header does, and where the
    /// domain size is zero or not a power of two.
    pub fn read(data: &[u8], pos: usize) -> (r: Result<HeaderGroth, ZkeyError>)
        ensures
            r == HeaderGroth::spec_read(data@, pos as int),
            r matches Ok(h) ==> h.domain_size == pow2(h.power as nat),
    {
        let len: usize = data.len();
        if len < HEADER_SIZE || pos > len - HEADER_SIZE {
            return Err(
                ZkeyError::Format {
                    stage: Stage::GrothHeader,
                    offset: pos as u64,
                    detail: Detail::UnexpectedEnd,
                },
            );
        }
        let n8q: u32 = read_u32(data, pos);
        let q = U256::read(data, pos + 4);
        let n8r: u32 = read_u32(data, pos + 36);
        let r = U256::read(data, pos + 40);
        let n_vars: usize = read_u32(data, pos + 72) as usize;
        let n_public: usize = read_u32(data, pos + 76) as usize;
        let domain_size: u32 = read_u32(data, pos + 80);
        if !is_power_of_two(domain_size) {
            return Err(ZkeyError::NonPowerOfTwoDomain { domain_size });
        }
        let power: u32 = ceil_log2(domain_size as usize);
        proof {
            let k = exponent_of(domain_size as int);
            assert(pow2(k) >= 1) by {
                vstd::arithmetic::power2::lemma_pow2_pos(k);
            }
            lemma_between_powers(domain_size as int, power as nat);
        }
        let verifying_key = match ZVerifyingKey::new(data, pos + 84) {
            Ok(k) => k,
            Err(e) => { return Err(e); },
        };
        Ok(
            HeaderGroth {
                n8q,
                q,
                n8r,
                r,
                n_vars,
                n_public,
                domain_size,
                power,
                verifying_key,
            },
        )
    }
}

} // verus!
