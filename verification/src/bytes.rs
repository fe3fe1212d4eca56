//! Little-endian integers and 256-bit words inside a byte sequence.

use vstd::prelude::*;

verus! {

/// The unsigned integer held little-endian in the four bytes at `pos`.
pub open spec fn le_u32(data: Seq<u8>, pos: int) -> int {
    data[pos] + 0x100 * data[pos + 1] + 0x1_0000 * data[pos + 2] + 0x100_0000 * data[pos + 3]
}

/// The unsigned integer held little-endian in the eight bytes at `pos`.
pub open spec fn le_u64(data: Seq<u8>, pos: int) -> int {
    le_u32(data, pos) + 0x1_0000_0000 * le_u32(data, pos + 4)
}

/// Whether the `len` bytes at `pos` are all zero.
#[verifier::opaque]
pub open spec fn all_zero(data: Seq<u8>, pos: int, len: int) -> bool {
    forall|i: int| pos <= i < pos + len ==> data[i] == 0
}

/// Two to the power 64: the radix of a 256-bit word's digits.
pub open spec fn word_radix() -> int {
    0x1_0000_0000_0000_0000
}

/// A 256-bit unsigned integer as four 64-bit digits, least significant
/// first.
#[derive(Clone, Copy, Debug, PartialEq, Eq, Hash)]
pub struct U256 {
    pub w0: u64,
    pub w1: u64,
    pub w2: u64,
    pub w3: u64,
}

impl U256 {
    /// The integer that the four digits stand for.
    pub open spec fn value(self) -> nat {
        (self.w0 + word_radix() * (self.w1 + word_radix() * (self.w2 + word_radix()
            * self.w3))) as nat
    }

    /// The word whose digits are the base-2^64 digits of `n`; digits
    /// beyond the fourth are dropped.
    pub open spec fn from_nat(n: nat) -> U256 {
        let n1 = n as int / word_radix();
        let n2 = n1 / word_radix();
        let n3 = n2 / word_radix();
        U256 {
            w0: (n as int % word_radix()) as u64,
            w1: (n1 % word_radix()) as u64,
            w2: (n2 % word_radix()) as u64,
            w3: (n3 % word_radix()) as u64,
        }
    }

    /// The word held little-endian in the 32 bytes at `pos`.
    #[verifier::opaque]
    pub open spec fn at(data: Seq<u8>, pos: int) -> U256 {
        U256 {
            w0: le_u64(data, pos) as u64,
            w1: le_u64(data, pos + 8) as u64,
            w2: le_u64(data, pos + 16) as u64,
            w3: le_u64(data, pos + 24) as u64,
        }
    }

    /// The 32 bytes that hold the word little-endian.
    #[verifier::opaque]
    pub open spec fn le_bytes(self) -> Seq<u8> {
        u64_le_bytes(self.w0) + u64_le_bytes(self.w1) + u64_le_bytes(self.w2) + u64_le_bytes(
            self.w3,
        )
    }

    /// The word zero.
    pub open spec fn spec_zero() -> U256 {
        U256 { w0: 0, w1: 0, w2: 0, w3: 0 }
    }

    /// The word zero.
    pub fn zero() -> (r: U256)
        ensures
            r == U256::spec_zero(),
            r.value() == 0,
    {
        U256 { w0: 0, w1: 0, w2: 0, w3: 0 }
    }

    /// Whether the word is zero.
    pub fn is_zero(&self) -> (r: bool)
        ensures
            r == (*self == U256::spec_zero()),
            r == (self.value() == 0),
    {
        self.w0 == 0 && self.w1 == 0 && self.w2 == 0 && self.w3 == 0
    }

    /// Reads the word held little-endian in the 32 bytes at `pos`.
    pub(crate) fn read(data: &[u8], pos: usize) -> (r: U256)
        requires
            pos + 32 <= data.len(),
        ensures
            r == U256::at(data@, pos as int),
    {
        reveal(U256::at);
        U256 {
            w0: read_u64(data, pos),
            w1: read_u64(data, pos + 8),
            w2: read_u64(data, pos + 16),
            w3: read_u64(data, pos + 24),
        }
    }
}

/// A word is the word of its own value: distinct words stand for distinct
/// integers.
pub proof fn lemma_from_nat_value(x: U256)
    ensures
        U256::from_nat(x.value()) == x,
        x.value() < word_radix() * word_radix() * word_radix() * word_radix(),
{
    let r = word_radix();
    let v3: int = x.w3 as int;
    let v2: int = x.w2 + r * v3;
    let v1: int = x.w1 + r * v2;
    let v0: int = x.w0 + r * v1;
    assert(v0 == x.value());
    vstd::arithmetic::div_mod::lemma_fundamental_div_mod_converse(v0, r, v1, x.w0 as int);
    vstd::arithmetic::div_mod::lemma_fundamental_div_mod_converse(v1, r, v2, x.w1 as int);
    vstd::arithmetic::div_mod::lemma_fundamental_div_mod_converse(v2, r, v3, x.w2 as int);
    vstd::arithmetic::div_mod::lemma_small_mod(x.w3 as nat, r as nat);
    assert(x.value() < r * r * r * r) by (nonlinear_arith)
        requires
            x.value() == x.w0 + r * (x.w1 + r * (x.w2 + r * x.w3)),
            0 <= x.w0 < r,
            0 <= x.w1 < r,
            0 <= x.w2 < r,
            0 <= x.w3 < r,
            r > 0,
    ;
}

/// A word is zero exactly when each of its 32 bytes is.
pub proof fn lemma_zero_word(data: Seq<u8>, pos: int)
    requires
        0 <= pos,
        pos + 32 <= data.len(),
    ensures
        (U256::at(data, pos) == U256::spec_zero()) == all_zero(data, pos, 32),
{
    reveal(U256::at);
    reveal(all_zero);
    if all_zero(data, pos, 32) {
        assert(le_u64(data, pos) == 0);
        assert(le_u64(data, pos + 8) == 0);
        assert(le_u64(data, pos + 16) == 0);
        assert(le_u64(data, pos + 24) == 0);
    }
    if U256::at(data, pos) == U256::spec_zero() {
        assert(le_u64(data, pos) == 0);
        assert(le_u64(data, pos + 8) == 0);
        assert(le_u64(data, pos + 16) == 0);
        assert(le_u64(data, pos + 24) == 0);
        assert forall|i: int| pos <= i < pos + 32 implies data[i] == 0 by {
            if i < pos + 8 {
            } else if i < pos + 16 {
            } else if i < pos + 24 {
            } else {
            }
        }
    }
}

/// Reads the little-endian `u32` at `pos`.
pub(crate) fn read_u32(data: &[u8], pos: usize) -> (r: u32)
    requires
        pos + 4 <= data.len(),
    ensures
        r == le_u32(data@, pos as int),
{
    let b0: u32 = data[pos] as u32;
    let b1: u32 = data[pos + 1] as u32;
    let b2: u32 = data[pos + 2] as u32;
    let b3: u32 = data[pos + 3] as u32;
    b0 + b1 * 0x100 + b2 * 0x1_0000 + b3 * 0x100_0000
}

/// Reads the little-endian `u64` at `pos`.
pub(crate) fn read_u64(data: &[u8], pos: usize) -> (r: u64)
    requires
        pos + 8 <= data.len(),
    ensures
        r == le_u64(data@, pos as int),
{
    let lo: u64 = read_u32(data, pos) as u64;
    let hi: u64 = read_u32(data, pos + 4) as u64;
    lo + hi * 0x1_0000_0000
}

/// The four bytes that hold `x` little-endian.
pub open spec fn u32_le_bytes(x: u32) -> Seq<u8> {
    seq![
        (x % 0x100) as u8,
        (x / 0x100 % 0x100) as u8,
        (x / 0x1_0000 % 0x100) as u8,
        (x / 0x100_0000) as u8,
    ]
}

/// The eight bytes that hold `x` little-endian.
#[verifier::opaque]
pub open spec fn u64_le_bytes(x: u64) -> Seq<u8> {
    u32_le_bytes((x % 0x1_0000_0000) as u32) + u32_le_bytes((x / 0x1_0000_0000) as u32)
}

/// Whether the bytes `part` stand in `data` at `pos`.
pub open spec fn holds_at(data: Seq<u8>, pos: int, part: Seq<u8>) -> bool {
    &&& 0 <= pos
    &&& pos + part.len() <= data.len()
    &&& forall|i: int| 0 <= i < part.len() ==> data[pos + i] == #[trigger] part[i]
}

/// Where two parts stand one after the other, each of them stands at its
/// place.
pub proof fn lemma_holds_split(data: Seq<u8>, pos: int, first: Seq<u8>, second: Seq<u8>)
    requires
        holds_at(data, pos, first + second),
    ensures
        holds_at(data, pos, first),
        holds_at(data, pos + first.len(), second),
{
    let both = first + second;
    assert forall|i: int| 0 <= i < first.len() implies data[pos + i] == #[trigger] first[i] by {
        assert(both[i] == first[i]);
    }
    assert forall|i: int| 0 <= i < second.len() implies data[pos + first.len() + i]
        == #[trigger] second[i] by {
        assert(both[first.len() + i] == second[i]);
    }
}

/// The eight bytes of a `u64` are eight, the 32 of a word 32.
pub proof fn lemma_encoded_lengths(x: u64, w: U256)
    ensures
        u64_le_bytes(x).len() == 8,
        w.le_bytes().len() == 32,
{
    reveal(u64_le_bytes);
    reveal(U256::le_bytes);
}

/// Reading the bytes of a `u32` gives the `u32`.
pub proof fn lemma_u32_round_trip(data: Seq<u8>, pos: int, x: u32)
    requires
        holds_at(data, pos, u32_le_bytes(x)),
    ensures
        le_u32(data, pos) == x,
{
    let b = u32_le_bytes(x);
    assert(data[pos + 0] == b[0]);
    assert(data[pos + 1] == b[1]);
    assert(data[pos + 2] == b[2]);
    assert(data[pos + 3] == b[3]);
}

/// Reading the bytes of a `u64` gives the `u64`.
pub proof fn lemma_u64_round_trip(data: Seq<u8>, pos: int, x: u64)
    requires
        holds_at(data, pos, u64_le_bytes(x)),
    ensures
        le_u64(data, pos) == x,
{
    reveal(u64_le_bytes);
    let lo = (x % 0x1_0000_0000) as u32;
    let hi = (x / 0x1_0000_0000) as u32;
    lemma_holds_split(data, pos, u32_le_bytes(lo), u32_le_bytes(hi));
    lemma_u32_round_trip(data, pos, lo);
    lemma_u32_round_trip(data, pos + 4, hi);
}

/// Reading the bytes of a word gives the word.
pub proof fn lemma_word_round_trip(data: Seq<u8>, pos: int, x: U256)
    requires
        holds_at(data, pos, x.le_bytes()),
    ensures
        U256::at(data, pos) == x,
{
    reveal(U256::at);
    reveal(U256::le_bytes);
    let a = u64_le_bytes(x.w0);
    let b = u64_le_bytes(x.w1);
    let c = u64_le_bytes(x.w2);
    let d = u64_le_bytes(x.w3);
    lemma_encoded_lengths(x.w0, x);
    lemma_encoded_lengths(x.w1, x);
    lemma_encoded_lengths(x.w2, x);
    lemma_holds_split(data, pos, a + b + c, d);
    lemma_holds_split(data, pos, a + b, c);
    lemma_holds_split(data, pos, a, b);
    lemma_u64_round_trip(data, pos, x.w0);
    lemma_u64_round_trip(data, pos + 8, x.w1);
    lemma_u64_round_trip(data, pos + 16, x.w2);
    lemma_u64_round_trip(data, pos + 24, x.w3);
}

/// Two parts that stand one after the other stand there as one.
pub proof fn lemma_holds_join(data: Seq<u8>, pos: int, first: Seq<u8>, second: Seq<u8>)
    requires
        holds_at(data, pos, first),
        holds_at(data, pos + first.len(), second),
    ensures
        holds_at(data, pos, first + second),
{
    let both = first + second;
    assert forall|i: int| 0 <= i < both.len() implies data[pos + i] == #[trigger] both[i] by {
        if i < first.len() {
            assert(both[i] == first[i]);
        } else {
            assert(both[i] == second[i - first.len()]);
        }
    }
}

/// The four bytes at a place are the bytes of the `u32` read there.
pub proof fn lemma_u32_bytes_back(data: Seq<u8>, pos: int)
    requires
        0 <= pos,
        pos + 4 <= data.len(),
    ensures
        0 <= le_u32(data, pos) <= u32::MAX,
        holds_at(data, pos, u32_le_bytes(le_u32(data, pos) as u32)),
{
    let d0 = data[pos] as int;
    let d1 = data[pos + 1] as int;
    let d2 = data[pos + 2] as int;
    let d3 = data[pos + 3] as int;
    let x = le_u32(data, pos);
    let high = d2 + 0x100 * d3;
    let upper = d1 + 0x100 * high;
    vstd::arithmetic::div_mod::lemma_fundamental_div_mod_converse(x, 0x100, upper, d0);
    vstd::arithmetic::div_mod::lemma_fundamental_div_mod_converse(upper, 0x100, high, d1);
    vstd::arithmetic::div_mod::lemma_fundamental_div_mod_converse(
        x,
        0x1_0000,
        high,
        d0 + 0x100 * d1,
    );
    vstd::arithmetic::div_mod::lemma_fundamental_div_mod_converse(high, 0x100, d3, d2);
    vstd::arithmetic::div_mod::lemma_fundamental_div_mod_converse(
        x,
        0x100_0000,
        d3,
        d0 + 0x100 * d1 + 0x1_0000 * d2,
    );
    let b = u32_le_bytes(x as u32);
    assert(b[0] == data[pos + 0]);
    assert(b[1] == data[pos + 1]);
    assert(b[2] == data[pos + 2]);
    assert(b[3] == data[pos + 3]);
}

/// The eight bytes at a place are the bytes of the `u64` read there.
pub proof fn lemma_u64_bytes_back(data: Seq<u8>, pos: int)
    requires
        0 <= pos,
        pos + 8 <= data.len(),
    ensures
        0 <= le_u64(data, pos) <= u64::MAX,
        holds_at(data, pos, u64_le_bytes(le_u64(data, pos) as u64)),
{
    reveal(u64_le_bytes);
    lemma_u32_bytes_back(data, pos);
    lemma_u32_bytes_back(data, pos + 4);
    vstd::arithmetic::div_mod::lemma_fundamental_div_mod_converse(
        le_u64(data, pos),
        0x1_0000_0000,
        le_u32(data, pos + 4),
        le_u32(data, pos),
    );
    lemma_holds_join(
        data,
        pos,
        u32_le_bytes(le_u32(data, pos) as u32),
        u32_le_bytes(le_u32(data, pos + 4) as u32),
    );
}

/// The 32 bytes at a place are the bytes of the word read there.
pub proof fn lemma_word_bytes_back(data: Seq<u8>, pos: int)
    requires
        0 <= pos,
        pos + 32 <= data.len(),
    ensures
        holds_at(data, pos, U256::at(data, pos).le_bytes()),
{
    reveal(U256::at);
    reveal(U256::le_bytes);
    let x = U256::at(data, pos);
    lemma_u64_bytes_back(data, pos);
    lemma_u64_bytes_back(data, pos + 8);
    lemma_u64_bytes_back(data, pos + 16);
    lemma_u64_bytes_back(data, pos + 24);
    lemma_encoded_lengths(x.w0, x);
    lemma_encoded_lengths(x.w1, x);
    lemma_encoded_lengths(x.w2, x);
    let a = u64_le_bytes(x.w0);
    let b = u64_le_bytes(x.w1);
    let c = u64_le_bytes(x.w2);
    let d = u64_le_bytes(x.w3);
    lemma_holds_join(data, pos, a, b);
    lemma_holds_join(data, pos, a + b, c);
    lemma_holds_join(data, pos, a + b + c, d);
}

/// Appends the four bytes that hold `x` little-endian.
pub fn put_u32(out: &mut Vec<u8>, x: u32)
    ensures
        final(out)@ == old(out)@ + u32_le_bytes(x),
{
    out.push((x % 0x100) as u8);
    out.push((x / 0x100 % 0x100) as u8);
    out.push((x / 0x1_0000 % 0x100) as u8);
    out.push((x / 0x100_0000) as u8);
    assert(out@ =~= old(out)@ + u32_le_bytes(x));
}

/// Appends the eight bytes that hold `x` little-endian.
pub fn put_u64(out: &mut Vec<u8>, x: u64)
    ensures
        final(out)@ == old(out)@ + u64_le_bytes(x),
{
    reveal(u64_le_bytes);
    put_u32(out, (x % 0x1_0000_0000) as u32);
    put_u32(out, (x / 0x1_0000_0000) as u32);
    assert(out@ =~= old(out)@ + u64_le_bytes(x));
}

/// Appends the 32 bytes that hold `x` little-endian.
pub fn put_word(out: &mut Vec<u8>, x: &U256)
    ensures
        final(out)@ == old(out)@ + x.le_bytes(),
{
    reveal(U256::le_bytes);
    put_u64(out, x.w0);
    put_u64(out, x.w1);
    put_u64(out, x.w2);
    put_u64(out, x.w3);
    assert(out@ =~= old(out)@ + x.le_bytes());
}

} // verus!
