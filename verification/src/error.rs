//! The errors of the decoders.

use vstd::prelude::*;
use vstd::string::StringExecFns;

verus! {

/// The part of the input that was being decoded when an error arose.
#[derive(Clone, Copy, Debug, PartialEq, Eq, Hash)]
pub enum Stage {
    /// Magic, version and section count at the start of the file.
    FileHeader,
    /// The directory of sections.
    SectionTable,
    /// The circuit header with the verifying-key points.
    GrothHeader,
    /// The constraint coefficients.
    Coefficients,
    /// A field element or curve point, alone or in a point section.
    Points,
    /// The cache encoding.
    Cache,
}

/// What was wrong with the input.
#[derive(Clone, Copy, Debug, PartialEq, Eq, Hash)]
pub enum Detail {
    /// The input ends before the item that starts at the offset.
    UnexpectedEnd,
    /// The first four bytes are not the magic of the format.
    BadMagic,
    /// The producer's version is not the one this decoder reads.
    BadVersion,
    /// No section has this id.
    MissingSection(u32),
    /// A coefficient names a matrix other than A (0) or B (1).
    BadSelector(u32),
    /// A coefficient names a constraint at or beyond the domain size.
    ConstraintOutOfRange(u32),
    /// The highest constraint index is below the number of public inputs.
    TooFewConstraints,
    /// The header counts more public inputs than the variables allow.
    TooManyPublic,
    /// A count does not fit the machine's address space.
    TooLarge,
    /// Bytes follow the last item.
    TrailingBytes,
}

/// Why a decoder gave up. No error is worth a retry: the input is what it
/// is.
#[derive(Clone, Copy, Debug, PartialEq, Eq, Hash)]
pub enum ZkeyError {
    /// Malformed or truncated input, or a magic that is not recognized.
    Format { stage: Stage, offset: u64, detail: Detail },
    /// A section's declared length is not that of the records expected in
    /// it.
    SizeMismatch { section: u32, declared: u64, expected: u64 },
    /// The header's domain size is zero or not a power of two.
    NonPowerOfTwoDomain { domain_size: u32 },
}

/// The error of the prover's interface: a message.
#[derive(Clone, Debug, PartialEq, Eq)]
pub enum MoproError {
    CircomError(String),
}

impl MoproError {
    /// The message of the error.
    pub open spec fn message(self) -> Seq<char> {
        match self {
            MoproError::CircomError(text) => text@,
        }
    }

    /// What `describe` returns: the kind of error, then its message.
    pub open spec fn spec_describe(self) -> Seq<char> {
        "CircomError: "@ + self.message()
    }

    /// The error as a line of text.
    pub fn describe(&self) -> (text: String)
        ensures
            text@ == self.spec_describe(),
    {
        match self {
            MoproError::CircomError(message) => "CircomError: ".to_owned().concat(message.as_str()),
        }
    }

    /// The error with the given message.
    pub fn circom(text: &str) -> (e: MoproError)
        ensures
            e.message() == text@,
    {
        MoproError::CircomError(text.to_owned())
    }
}

impl ZkeyError {
    /// What `text` returns.
    pub open spec fn spec_text(self) -> Seq<char> {
        match self {
            ZkeyError::Format { .. } => "malformed proving-key data"@,
            ZkeyError::SizeMismatch { .. } => "section length does not match its records"@,
            ZkeyError::NonPowerOfTwoDomain { .. } => "domain size is not a power of two"@,
        }
    }

    /// A short description of the kind of error.
    pub fn text(&self) -> (r: &'static str)
        ensures
            r@ == self.spec_text(),
    {
        match self {
            ZkeyError::Format { .. } => "malformed proving-key data",
            ZkeyError::SizeMismatch { .. } => "section length does not match its records",
            ZkeyError::NonPowerOfTwoDomain { .. } => "domain size is not a power of two",
        }
    }

    /// The error for an input that ends before the item at `offset`.
    pub open spec fn truncated(stage: Stage, offset: int) -> ZkeyError {
        ZkeyError::Format { stage, offset: offset as u64, detail: Detail::UnexpectedEnd }
    }
}

} // verus!
