//! Small helpers of the prover's interface.

use crate::error::MoproError;
use vstd::prelude::*;
use vstd::string::StringExecFns;

verus! {

/// Bit `j` of a byte, counted from the least significant.
pub open spec fn bit_of(byte: u8, j: u8) -> bool {
    (byte >> j) & 1 == 1
}

/// The bits of a sequence of bytes: eight for each byte, the least
/// significant first.
pub open spec fn spec_bytes_to_bits(bytes: Seq<u8>) -> Seq<bool> {
    Seq::new(8 * bytes.len(), |k: int| bit_of(bytes[k / 8], (k % 8) as u8))
}

/// Bit `j` of a byte is the digit of weight 2^j of its binary expansion.
pub proof fn lemma_bit_is_digit(byte: u8, j: u8)
    requires
        j < 8,
    ensures
        bit_of(byte, j) == ((byte / (1u8 << j)) % 2 == 1),
{
    assert(j < 8 ==> (((byte >> j) & 1 == 1) == ((byte / (1u8 << j)) % 2 == 1))) by (bit_vector);
}

/// Splits bytes into bits: eight for each byte, the least significant
/// first.
pub fn bytes_to_bits(bytes: &[u8]) -> (bits: Vec<bool>)
    ensures
        bits@ == spec_bytes_to_bits(bytes@),
        bits@.len() == 8 * bytes@.len(),
{
    let mut bits: Vec<bool> = Vec::new();
    let mut i: usize = 0;
    while i < bytes.len()
        invariant
            i <= bytes.len(),
            bits@.len() == 8 * i,
            forall|k: int| 0 <= k < 8 * i ==> bits@[k] == bit_of(bytes@[k / 8], (k % 8) as u8),
        decreases bytes.len() - i,
    {
        let byte: u8 = bytes[i];
        let mut j: u8 = 0;
        while j < 8
            invariant
                j <= 8,
                i < bytes.len(),
                byte == bytes@[i as int],
                bits@.len() == 8 * i + j,
                forall|k: int|
                    0 <= k < 8 * i + j ==> bits@[k] == bit_of(bytes@[k / 8], (k % 8) as u8),
            decreases 8 - j,
        {
            let bit: u8 = (byte >> j) & 1;
            bits.push(bit == 1);
            j += 1;
        }
        i += 1;
    }
    assert(bits@ =~= spec_bytes_to_bits(bytes@));
    bits
}

/// The public inputs of a full assignment: the values of the instance
/// variables without the constant one that comes first.
pub fn public_inputs<T: Copy>(full_assignment: &[T], num_instance_variables: usize) -> (inputs: Vec<
    T,
>)
    requires
        1 <= num_instance_variables <= full_assignment@.len(),
    ensures
        inputs@ == full_assignment@.subrange(1, num_instance_variables as int),
{
    let mut inputs: Vec<T> = Vec::new();
    let mut i: usize = 1;
    while i < num_instance_variables
        invariant
            1 <= i <= num_instance_variables <= full_assignment@.len(),
            inputs@ == full_assignment@.subrange(1, i as int),
        decreases num_instance_variables - i,
    {
        inputs.push(full_assignment[i]);
        assert(inputs@ =~= full_assignment@.subrange(1, i + 1));
        i += 1;
    }
    inputs
}

/// The message for a path at which there is no file.
pub open spec fn missing_path_message(path: Seq<char>) -> Seq<char> {
    "Path does not exist: "@ + path
}

/// The message of the error that `assert_paths_exists` returns, if it
/// returns one: the first of the two paths that is missing is named.
pub open spec fn spec_missing_path(
    wasm_path: Seq<char>,
    wasm_exists: bool,
    r1cs_path: Seq<char>,
    r1cs_exists: bool,
) -> Option<Seq<char>> {
    if !wasm_exists {
        Some(missing_path_message(wasm_path))
    } else if !r1cs_exists {
        Some(missing_path_message(r1cs_path))
    } else {
        None
    }
}

/// Checks that the two files of a circuit are there, given for each path
/// whether a file exists at it.
///
/// Succeeds where both exist. Fails otherwise, with a message that names
/// the first path that is missing: the circuit's, then the constraint
/// system's.
pub fn assert_paths_exists(
    wasm_path: &str,
    wasm_exists: bool,
    r1cs_path: &str,
    r1cs_exists: bool,
) -> (r: Result<(), MoproError>)
    ensures
        match spec_missing_path(wasm_path@, wasm_exists, r1cs_path@, r1cs_exists) {
            Some(message) => r matches Err(e) && e.message() == message,
            None => r is Ok,
        },
{
    if !wasm_exists {
        return Err(MoproError::CircomError("Path does not exist: ".to_owned().concat(wasm_path)));
    }
    if !r1cs_exists {
        return Err(MoproError::CircomError("Path does not exist: ".to_owned().concat(r1cs_path)));
    }
    Ok(())
}

} // verus!
