//! The file header and the directory of sections.
//!
//! A file is a magic, a version, a count, and that many sections, each an
//! id, a length and a payload of that length. Sections may come in any
//! order and an id may occur more than once: the first section with an id
//! is the one that readers use.

use crate::bytes::{le_u32, le_u64, read_u32, read_u64};
use crate::error::{Detail, Stage, ZkeyError};
use vstd::prelude::*;

verus! {

/// The id of the section with the circuit header.
pub const SECTION_HEADER: u32 = 2;

/// The id of the section with the instance-commitment points.
pub const SECTION_IC: u32 = 3;

/// The id of the section with the constraint coefficients.
pub const SECTION_COEFFICIENTS: u32 = 4;

/// The id of the section with the A query.
pub const SECTION_A: u32 = 5;

/// The id of the section with the B query in the first group.
pub const SECTION_B1: u32 = 6;

/// The id of the section with the B query in the second group.
pub const SECTION_B2: u32 = 7;

/// The id of the section with the L query.
pub const SECTION_L: u32 = 8;

/// The id of the section with the H query.
pub const SECTION_H: u32 = 9;

/// A named byte range of the file.
#[derive(Clone, Copy, Debug, PartialEq, Eq, Hash)]
pub struct Section {
    pub id: u32,
    /// Where the payload starts, counted from the start of the file.
    pub position: u64,
    /// The payload's length in bytes.
    pub size: u64,
}

/// The twelve bytes that open a file.
#[derive(Clone, Copy, Debug, PartialEq, Eq, Hash)]
pub struct FileHeader {
    pub magic: [u8; 4],
    pub version: u32,
    pub section_count: u32,
}

/// The magic of the format: the ASCII letters `zkey`.
pub open spec fn spec_magic() -> Seq<u8> {
    seq![0x7au8, 0x6bu8, 0x65u8, 0x79u8]
}

impl FileHeader {
    /// Whether this is the header that opens `data`.
    pub open spec fn opens(self, data: Seq<u8>) -> bool {
        &&& data.len() >= 12
        &&& self.magic@ == data.subrange(0, 4)
        &&& self.version == le_u32(data, 4)
        &&& self.section_count == le_u32(data, 8)
    }
}

/// The error of a file whose first twelve bytes are not a header of the
/// format, if they are not.
pub open spec fn spec_file_header_error(data: Seq<u8>) -> Option<ZkeyError> {
    if data.len() < 4 {
        Some(ZkeyError::truncated(Stage::FileHeader, 0))
    } else if data.subrange(0, 4) != spec_magic() {
        Some(ZkeyError::Format { stage: Stage::FileHeader, offset: 0, detail: Detail::BadMagic })
    } else if data.len() < 8 {
        Some(ZkeyError::truncated(Stage::FileHeader, 4))
    } else if data.len() < 12 {
        Some(ZkeyError::truncated(Stage::FileHeader, 8))
    } else {
        None
    }
}

/// The section whose id and length stand at `pos`.
pub open spec fn section_at(data: Seq<u8>, pos: int) -> Section {
    Section {
        id: le_u32(data, pos) as u32,
        position: (pos + 12) as u64,
        size: le_u64(data, pos + 4) as u64,
    }
}

/// The first `k` sections after the file header, with the offset at which
/// the next one would start; or the error of the first of them that does
/// not lie within the file.
pub open spec fn spec_scan(data: Seq<u8>, k: nat) -> Result<(Seq<Section>, int), ZkeyError>
    decreases k,
{
    if k == 0 {
        Ok((Seq::empty(), 12))
    } else {
        match spec_scan(data, (k - 1) as nat) {
            Err(e) => Err(e),
            Ok((found, pos)) => {
                if pos + 12 > data.len() {
                    Err(ZkeyError::truncated(Stage::SectionTable, pos))
                } else if pos + 12 + le_u64(data, pos + 4) > data.len() {
                    Err(ZkeyError::truncated(Stage::SectionTable, pos + 12))
                } else {
                    Ok((found.push(section_at(data, pos)), pos + 12 + le_u64(data, pos + 4)))
                }
            },
        }
    }
}

/// The directory of a file: its sections in file order.
pub open spec fn spec_directory(data: Seq<u8>) -> Result<Seq<Section>, ZkeyError> {
    match spec_file_header_error(data) {
        Some(e) => Err(e),
        None => match spec_scan(data, le_u32(data, 8) as nat) {
            Ok((found, _)) => Ok(found),
            Err(e) => Err(e),
        },
    }
}

/// The first section with the given id, if there is one.
pub open spec fn spec_find(sections: Seq<Section>, id: u32) -> Option<Section>
    decreases sections.len(),
{
    if sections.len() == 0 {
        None
    } else {
        match spec_find(sections.drop_last(), id) {
            Some(s) => Some(s),
            None => if sections.last().id == id {
                Some(sections.last())
            } else {
                None
            },
        }
    }
}

/// The error for a file without a section of the given id.
pub open spec fn missing_section(id: u32) -> ZkeyError {
    ZkeyError::Format { stage: Stage::SectionTable, offset: 0, detail: Detail::MissingSection(id) }
}

/// What `BinFile::get_section` returns, given the directory.
pub open spec fn spec_get_section(sections: Seq<Section>, id: u32) -> Result<Section, ZkeyError> {
    match spec_find(sections, id) {
        Some(s) => Ok(s),
        None => Err(missing_section(id)),
    }
}

/// Whether every section lies within a file of `len` bytes.
pub open spec fn sections_within(sections: Seq<Section>, len: int) -> bool {
    forall|i: int|
        0 <= i < sections.len() ==> (#[trigger] sections[i]).position + sections[i].size <= len
}

/// Among sections that share an id, the first one wins: the section found
/// for an id is the one at the least index that has it, and none is found
/// only where no section has it.
pub proof fn lemma_first_section_wins(sections: Seq<Section>, id: u32)
    ensures
        match spec_find(sections, id) {
            Some(s) => exists|i: int|
                0 <= i < sections.len() && #[trigger] sections[i] == s && s.id == id && forall|
                    j: int,
                |
                    0 <= j < i ==> (#[trigger] sections[j]).id != id,
            None => forall|j: int| 0 <= j < sections.len() ==> (#[trigger] sections[j]).id != id,
        },
    decreases sections.len(),
{
    if sections.len() > 0 {
        let front = sections.drop_last();
        lemma_first_section_wins(front, id);
        match spec_find(front, id) {
            Some(s) => {
                let i = choose|i: int|
                    0 <= i < front.len() && #[trigger] front[i] == s && s.id == id && forall|
                        j: int,
                    |
                        0 <= j < i ==> (#[trigger] front[j]).id != id;
                assert(sections[i] == s);
                assert forall|j: int| 0 <= j < i implies (#[trigger] sections[j]).id != id by {
                    assert(front[j] == sections[j]);
                }
            },
            None => {
                assert forall|j: int| 0 <= j < sections.len() - 1 implies (
                #[trigger] sections[j]).id != id by {
                    assert(front[j] == sections[j]);
                }
                if sections.last().id == id {
                    assert(sections[sections.len() - 1] == sections.last());
                }
            },
        }
    }
}

/// Every section of a directory lies within the file, and the scan ends
/// within it.
pub proof fn lemma_scan_within(data: Seq<u8>, k: nat)
    ensures
        spec_scan(data, k) matches Ok((found, pos)) ==> {
            &&& found.len() == k
            &&& 12 <= pos
            &&& (k > 0 ==> pos <= data.len())
            &&& sections_within(found, pos)
        },
    decreases k,
{
    if k > 0 {
        lemma_scan_within(data, (k - 1) as nat);
    }
}

/// A directory is refused only for its magic or as one that ends early.
pub proof fn lemma_directory_errors(data: Seq<u8>)
    ensures
        spec_directory(data) matches Err(e) ==> e matches ZkeyError::Format { stage, detail, .. }
            && (stage == Stage::FileHeader || stage == Stage::SectionTable) && (detail
            == Detail::UnexpectedEnd || detail == Detail::BadMagic),
{
    if spec_file_header_error(data) is None {
        lemma_scan_errors(data, le_u32(data, 8) as nat);
    }
}

/// A scan fails only at a section that does not lie within the file.
pub proof fn lemma_scan_errors(data: Seq<u8>, k: nat)
    ensures
        spec_scan(data, k) matches Err(e) ==> e matches ZkeyError::Format { stage, detail, .. }
            && stage == Stage::SectionTable && detail == Detail::UnexpectedEnd,
    decreases k,
{
    if k > 0 {
        lemma_scan_errors(data, (k - 1) as nat);
    }
}

/// A scan that has failed stays failed, however many more sections are
/// asked for.
pub proof fn lemma_scan_error_persists(data: Seq<u8>, k: nat, n: nat)
    requires
        k <= n,
        spec_scan(data, k) is Err,
    ensures
        spec_scan(data, n) == spec_scan(data, k),
    decreases n - k,
{
    if k < n {
        lemma_scan_error_persists(data, k, (n - 1) as nat);
    }
}

/// A file whose directory has been read.
pub struct BinFile<'a> {
    header: FileHeader,
    sections: Vec<Section>,
    data: &'a [u8],
}

impl<'a> BinFile<'a> {
    #[verifier::type_invariant]
    spec fn well_formed(self) -> bool {
        &&& self.header.opens(self.data@)
        &&& spec_directory(self.data@) == Ok::<Seq<Section>, ZkeyError>(self.sections@)
    }

    /// The bytes of the file.
    pub closed spec fn bytes(&self) -> Seq<u8> {
        self.data@
    }

    /// Opens a file: checks the magic and reads the directory.
    ///
    /// Fails where the magic is not that of the format, and where the
    /// file ends before the header or before the end of a section that
    /// the header counts.
    pub fn new(data: &'a [u8]) -> (r: Result<BinFile<'a>, ZkeyError>)
        ensures
            match r {
                Ok(file) => file.bytes() == data@ && spec_directory(data@) is Ok,
                Err(e) => spec_directory(data@) == Err::<Seq<Section>, ZkeyError>(e),
            },
    {
        let len: usize = data.len();
        if len < 4 {
            return Err(
                ZkeyError::Format {
                    stage: Stage::FileHeader,
                    offset: 0,
                    detail: Detail::UnexpectedEnd,
                },
            );
        }
        let magic: [u8; 4] = [data[0], data[1], data[2], data[3]];
        assert(magic@ =~= data@.subrange(0, 4));
        if !(magic[0] == 0x7a && magic[1] == 0x6b && magic[2] == 0x65 && magic[3] == 0x79) {
            assert(data@.subrange(0, 4) != spec_magic()) by {
                if data@.subrange(0, 4) == spec_magic() {
                    assert(spec_magic()[0] == 0x7a);
                    assert(spec_magic()[1] == 0x6b);
                    assert(spec_magic()[2] == 0x65);
                    assert(spec_magic()[3] == 0x79);
                }
            }
            return Err(
                ZkeyError::Format { stage: Stage::FileHeader, offset: 0, detail: Detail::BadMagic },
            );
        }
        assert(data@.subrange(0, 4) =~= spec_magic());
        if len < 8 {
            return Err(
                ZkeyError::Format {
                    stage: Stage::FileHeader,
                    offset: 4,
                    detail: Detail::UnexpectedEnd,
                },
            );
        }
        let version: u32 = read_u32(data, 4);
        if len < 12 {
            return Err(
                ZkeyError::Format {
                    stage: Stage::FileHeader,
                    offset: 8,
                    detail: Detail::UnexpectedEnd,
                },
            );
        }
        let section_count: u32 = read_u32(data, 8);
        let mut sections: Vec<Section> = Vec::new();
        let mut pos: usize = 12;
        let mut k: u32 = 0;
        while k < section_count
            invariant
                k <= section_count,
                len == data@.len(),
                12 <= pos <= len,
                spec_file_header_error(data@) is None,
                section_count == le_u32(data@, 8),
                spec_scan(data@, k as nat) == Ok::<(Seq<Section>, int), ZkeyError>(
                    (sections@, pos as int),
                ),
            decreases section_count - k,
        {
            if len - pos < 12 {
                proof {
                    lemma_scan_error_persists(data@, (k + 1) as nat, section_count as nat);
                }
                return Err(
                    ZkeyError::Format {
                        stage: Stage::SectionTable,
                        offset: pos as u64,
                        detail: Detail::UnexpectedEnd,
                    },
                );
            }
            let id: u32 = read_u32(data, pos);
            let size: u64 = read_u64(data, pos + 4);
            let start: usize = pos + 12;
            if size > (len - start) as u64 {
                proof {
                    lemma_scan_error_persists(data@, (k + 1) as nat, section_count as nat);
                }
                return Err(
                    ZkeyError::Format {
                        stage: Stage::SectionTable,
                        offset: start as u64,
                        detail: Detail::UnexpectedEnd,
                    },
                );
            }
            sections.push(Section { id, position: start as u64, size });
            pos = start + size as usize;
            k += 1;
        }
        Ok(BinFile { header: FileHeader { magic, version, section_count }, sections, data })
    }

    /// The file's header.
    pub fn header(&self) -> (h: FileHeader)
        ensures
            h.opens(self.bytes()),
    {
        proof {
            use_type_invariant(self);
        }
        self.header
    }

    /// The file's version.
    pub fn version(&self) -> (v: u32)
        ensures
            v == le_u32(self.bytes(), 4),
    {
        proof {
            use_type_invariant(self);
        }
        self.header.version
    }

    /// The bytes of the file.
    pub fn data(&self) -> (d: &'a [u8])
        ensures
            d@ == self.bytes(),
    {
        self.data
    }

    /// The directory: the sections in file order.
    pub fn sections(&self) -> (s: &Vec<Section>)
        ensures
            spec_directory(self.bytes()) == Ok::<Seq<Section>, ZkeyError>(s@),
            sections_within(s@, self.bytes().len() as int),
    {
        proof {
            use_type_invariant(self);
            lemma_scan_within(self.data@, le_u32(self.data@, 8) as nat);
        }
        &self.sections
    }

    /// The first section with the given id. Fails where the file has
    /// none.
    pub fn get_section(&self, id: u32) -> (r: Result<Section, ZkeyError>)
        ensures
            spec_directory(self.bytes()) matches Ok(sections) && r == spec_get_section(
                sections,
                id,
            ),
            r matches Ok(s) ==> s.id == id && s.position + s.size <= self.bytes().len()
                <= usize::MAX,
    {
        let sections = self.sections();
        let len: usize = self.data.len();
        let mut i: usize = 0;
        while i < sections.len()
            invariant
                i <= sections.len(),
                spec_find(sections@.take(i as int), id) is None,
                spec_directory(self.bytes()) == Ok::<Seq<Section>, ZkeyError>(sections@),
                sections_within(sections@, self.bytes().len() as int),
                self.bytes().len() == len,
            decreases sections.len() - i,
        {
            assert(sections@.take(i + 1).drop_last() =~= sections@.take(i as int));
            if sections[i].id == id {
                proof {
                    lemma_find_prefix(sections@, id, i + 1);
                }
                return Ok(sections[i]);
            }
            i += 1;
        }
        assert(sections@.take(i as int) =~= sections@);
        Err(
            ZkeyError::Format {
                stage: Stage::SectionTable,
                offset: 0,
                detail: Detail::MissingSection(id),
            },
        )
    }
}

/// What is found in a prefix of the directory is what is found in the
/// whole of it.
pub proof fn lemma_find_prefix(sections: Seq<Section>, id: u32, n: int)
    requires
        0 <= n <= sections.len(),
        spec_find(sections.take(n), id) is Some,
    ensures
        spec_find(sections, id) == spec_find(sections.take(n), id),
    decreases sections.len() - n,
{
    if n < sections.len() {
        assert(sections.take(n + 1).drop_last() =~= sections.take(n));
        lemma_find_prefix(sections, id, n + 1);
    } else {
        assert(sections.take(n) =~= sections);
    }
}

/// Every section of a file's directory lies within the file.
pub proof fn lemma_directory_within(data: Seq<u8>)
    ensures
        spec_directory(data) matches Ok(sections) ==> sections_within(
            sections,
            data.len() as int,
        ),
{
    if spec_directory(data) is Ok {
        lemma_scan_within(data, le_u32(data, 8) as nat);
    }
}

/// The section found for an id is one of the directory.
pub proof fn lemma_found_is_member(sections: Seq<Section>, id: u32)
    ensures
        spec_find(sections, id) matches Some(s) ==> sections.contains(s) && s.id == id,
{
    lemma_first_section_wins(sections, id);
}

} // verus!
