//! The place of the one proving key of a process.
//!
//! The key with its matrices is decoded once, from the source format or
//! from the cache, and is read-only from then on. A cell that holds a key
//! keeps it: a later initialization changes nothing.

use crate::cache::{read_arkzkey_from_bytes, spec_decode_cache};
use crate::error::ZkeyError;
use crate::matrix::{ConstraintMatrices, ConstraintSystem};
use crate::zkey::{read_zkey, spec_read_zkey, ProvingKey, ProvingKeyView};
use vstd::prelude::*;

verus! {

/// A cell that is empty or holds a proving key with its matrices.
pub struct KeyCell {
    slot: Option<(ProvingKey, ConstraintMatrices)>,
}

impl KeyCell {
    /// What the cell holds, by the views of the two structures.
    pub closed spec fn content(&self) -> Option<(ProvingKeyView, ConstraintSystem)> {
        match self.slot {
            Some((key, matrices)) => Some((key@, matrices@)),
            None => None,
        }
    }

    /// What the cell holds after it was given a decoder's result.
    pub open spec fn filled(
        before: Option<(ProvingKeyView, ConstraintSystem)>,
        decoded: Result<(ProvingKeyView, ConstraintSystem), ZkeyError>,
    ) -> Option<(ProvingKeyView, ConstraintSystem)> {
        match before {
            Some(held) => Some(held),
            None => match decoded {
                Ok(pair) => Some(pair),
                Err(_) => None,
            },
        }
    }

    /// What an initialization returns for a decoder's result.
    pub open spec fn outcome(
        before: Option<(ProvingKeyView, ConstraintSystem)>,
        decoded: Result<(ProvingKeyView, ConstraintSystem), ZkeyError>,
    ) -> Result<(), ZkeyError> {
        match before {
            Some(_) => Ok(()),
            None => match decoded {
                Ok(_) => Ok(()),
                Err(e) => Err(e),
            },
        }
    }

    /// An empty cell.
    pub fn new() -> (cell: KeyCell)
        ensures
            cell.content() is None,
    {
        KeyCell { slot: None }
    }

    /// Whether the cell holds a key.
    pub fn is_initialized(&self) -> (r: bool)
        ensures
            r == self.content() is Some,
    {
        self.slot.is_some()
    }

    /// The key and the matrices, if the cell holds them.
    pub fn get(&self) -> (r: Option<&(ProvingKey, ConstraintMatrices)>)
        ensures
            match r {
                Some(pair) => self.content() == Some((pair.0@, pair.1@)),
                None => self.content() is None,
            },
    {
        self.slot.as_ref()
    }

    /// Fills an empty cell from a cache.
    ///
    /// A cell that holds a key is left as it is, whatever the cache. An
    /// empty cell takes what the cache decodes to, and stays empty where
    /// the cache is refused.
    pub fn initialize(&mut self, cache: &[u8]) -> (r: Result<(), ZkeyError>)
        ensures
            final(self).content() == KeyCell::filled(
                old(self).content(),
                spec_decode_cache(cache@),
            ),
            r == KeyCell::outcome(old(self).content(), spec_decode_cache(cache@)),
    {
        if self.slot.is_some() {
            return Ok(());
        }
        match read_arkzkey_from_bytes(cache) {
            Ok(pair) => {
                self.slot = Some(pair);
                Ok(())
            },
            Err(e) => Err(e),
        }
    }

    /// Fills an empty cell from a file of the source format.
    ///
    /// A cell that holds a key is left as it is, whatever the file. An
    /// empty cell takes what the file decodes to, and stays empty where
    /// the file is refused.
    pub fn initialize_from_source(&mut self, data: &[u8]) -> (r: Result<(), ZkeyError>)
        ensures
            final(self).content() == KeyCell::filled(old(self).content(), spec_read_zkey(data@)),
            r == KeyCell::outcome(old(self).content(), spec_read_zkey(data@)),
    {
        if self.slot.is_some() {
            return Ok(());
        }
        match read_zkey(data) {
            Ok(pair) => {
                self.slot = Some(pair);
                Ok(())
            },
            Err(e) => Err(e),
        }
    }
}

/// A cell is filled at most once: after one initialization has
/// succeeded, any other leaves the content as it is and succeeds too.
pub proof fn lemma_cell_filled_once(
    before: Option<(ProvingKeyView, ConstraintSystem)>,
    first: Result<(ProvingKeyView, ConstraintSystem), ZkeyError>,
    second: Result<(ProvingKeyView, ConstraintSystem), ZkeyError>,
)
    requires
        KeyCell::outcome(before, first) is Ok,
    ensures
        KeyCell::filled(KeyCell::filled(before, first), second) == KeyCell::filled(before, first),
        KeyCell::outcome(KeyCell::filled(before, first), second) is Ok,
{
}

} // verus!
