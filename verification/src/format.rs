//! The versioned PLAID file format.
//!
//! A file is a header of fixed size followed by dense little-endian sections:
//! centroids, bucket cutoffs, bucket weights, row addresses, document offsets,
//! token codes, packed residuals, posting offsets and postings. The second
//! version adds public row IDs and raw token values.

use crate::codec::{bucket_count, codebook_fault, Codebook, ResidualQuantizer};
use crate::error::{Error, Fault, Result};
use crate::index::{
    following_id, ExactStore, ExactValues, InstanceIds, PlaidIndex, Segment, SegmentParts,
};
use crate::joined::{
    joined, joined_behind_head, joined_between_marks, joined_pieces, joined_step, marks_parts,
    pieces,
};
use crate::little_endian::{
    later_bytes_weigh_more, le_bytes, le_bytes_len, le_bytes_of_value, le_limits, le_value,
    le_value_of_bytes, listed_numbers_are_read_in_order, long_number, long_words, long_words_at,
    long_words_len, long_words_read_back, long_words_write_back, read_u16, read_u32, read_u32s,
    read_u64, read_u64s, short_number, words, words_at, words_len, words_read_back,
    words_write_back, write_u16, write_u32, write_u32s, write_u64, write_u64s,
};
use crate::matrix::{Grid, Matrix};
use crate::postings::MAX_DOCUMENTS;
use crate::text::{
    bracketed, decimal, hexadecimal, push_decimal, push_hexadecimal, text_bytes, text_number,
    text_number_text, text_two_numbers,
};
use vstd::prelude::*;

verus! {

/// Length of the file header.
pub const HEADER_LEN: usize = 48;

/// Marks the byte order of a file.
pub const ENDIAN_MARKER: u32 = 0x0102_0304;

/// The only flag of the second version.
pub const EXACT_STORE_FLAG: u8 = 1;

/// The first bytes of every file: `LPLDIDX` and a zero byte.
pub open spec fn magic() -> Seq<u8> {
    seq![0x4c, 0x50, 0x4c, 0x44, 0x49, 0x44, 0x58, 0x00]
}

/// Version discriminator for the stable local PLAID file format.
#[derive(Clone, Copy, Debug, PartialEq, Eq, Structural)]
pub enum PlaidFormatVersion {
    /// Initial format with fixed little-endian dense sections.
    V1,
    /// Adds public row IDs and raw token values for exact refinement.
    V2,
}

impl PlaidFormatVersion {
    /// The version with a number.
    pub open spec fn of(value: u16) -> Option<PlaidFormatVersion> {
        if value == 1 {
            Some(PlaidFormatVersion::V1)
        } else if value == 2 {
            Some(PlaidFormatVersion::V2)
        } else {
            None
        }
    }

    /// The number that a file holds for a version.
    pub fn number(self) -> (result: u16)
        ensures
            PlaidFormatVersion::of(result) == Some(self),
    {
        match self {
            PlaidFormatVersion::V1 => 1,
            PlaidFormatVersion::V2 => 2,
        }
    }

    /// The version with a number.
    pub fn try_from(value: u16) -> (result: Result<PlaidFormatVersion>)
        ensures
            match result {
                Ok(version) => PlaidFormatVersion::of(value) == Some(version),
                Err(error) => PlaidFormatVersion::of(value) is None && error@ == unknown_version(
                    value,
                ),
            },
    {
        match value {
            1 => Ok(PlaidFormatVersion::V1),
            2 => Ok(PlaidFormatVersion::V2),
            _ => Err(Error::CorruptFile(text_number("unsupported format version ", value as u64))),
        }
    }
}

/// The fault of a version number that no version has.
pub open spec fn unknown_version(value: u16) -> Fault {
    Fault::CorruptFile("unsupported format version "@ + decimal(value as nat))
}

/// The fields of a file header behind the magic bytes.
#[derive(Clone, Copy, Debug)]
pub struct Header {
    pub version: u16,
    pub nbits: u8,
    pub flags: u8,
    pub marker: u32,
    pub dimension: u32,
    pub centroids: u32,
    pub documents: u64,
    pub tokens: u64,
    pub postings: u64,
}

/// The header that the first bytes of a file hold.
pub open spec fn header_of(bytes: Seq<u8>) -> Header {
    Header {
        version: le_value(bytes.subrange(8, 10)) as u16,
        nbits: bytes[10],
        flags: bytes[11],
        marker: le_value(bytes.subrange(12, 16)) as u32,
        dimension: le_value(bytes.subrange(16, 20)) as u32,
        centroids: le_value(bytes.subrange(20, 24)) as u32,
        documents: le_value(bytes.subrange(24, 32)) as u64,
        tokens: le_value(bytes.subrange(32, 40)) as u64,
        postings: le_value(bytes.subrange(40, 48)) as u64,
    }
}

/// Why the flags of a version are refused.
pub open spec fn flags_fault(version: PlaidFormatVersion, flags: u8) -> Option<Fault> {
    match version {
        PlaidFormatVersion::V1 => if flags == 0 {
            None
        } else {
            Some(
                Fault::CorruptFile(
                    "PLAID V1 flags must be zero, got 0x"@ + hexadecimal(flags as nat, 2),
                ),
            )
        },
        PlaidFormatVersion::V2 => if flags == EXACT_STORE_FLAG {
            None
        } else if flags > EXACT_STORE_FLAG {
            Some(
                Fault::CorruptFile(
                    "PLAID V2 contains unknown flags 0x"@ + hexadecimal(flags as nat, 2),
                ),
            )
        } else {
            Some(Fault::CorruptFile("PLAID V2 requires the exact-store flag"@))
        },
    }
}

/// The fault of a count that is too large for this machine.
pub open spec fn too_wide(name: Seq<char>, value: u64) -> Fault {
    Fault::CorruptFile(name + " "@ + decimal(value as nat) + " does not fit usize"@)
}

impl Header {
    pub open spec fn has_exact_store(self) -> bool {
        self.version == 2
    }

    pub open spec fn residual_bits(self) -> nat {
        self.dimension as nat * self.nbits as nat
    }

    pub open spec fn packed_len(self) -> nat {
        self.residual_bits() / 8
    }

    /// Why no file can have these counts.
    pub open spec fn count_fault(self) -> Option<Fault> {
        if self.documents > usize::MAX {
            Some(too_wide("document count"@, self.documents))
        } else if self.tokens > usize::MAX {
            Some(too_wide("token count"@, self.tokens))
        } else if self.postings > usize::MAX {
            Some(too_wide("posting count"@, self.postings))
        } else if self.dimension == 0 || self.centroids == 0 {
            Some(Fault::CorruptFile("dimension and centroid count must be positive"@))
        } else if self.documents > MAX_DOCUMENTS {
            Some(
                Fault::CorruptFile(
                    "document count "@ + decimal(self.documents as nat)
                        + " exceeds PLAID v1 limit "@ + decimal(MAX_DOCUMENTS as nat),
                ),
            )
        } else if self.postings > self.tokens {
            Some(
                Fault::CorruptFile(
                    "posting count "@ + decimal(self.postings as nat) + " exceeds token count "@
                        + decimal(self.tokens as nat),
                ),
            )
        } else if self.residual_bits() > usize::MAX {
            Some(Fault::CorruptFile("residual bit width overflow"@))
        } else if self.residual_bits() % 8 != 0 {
            Some(
                Fault::CorruptFile(
                    "dimension * nbits must be divisible by 8, got "@ + decimal(
                        self.dimension as nat,
                    ) + " * "@ + decimal(self.nbits as nat),
                ),
            )
        } else {
            None
        }
    }

    /// Where each section starts, and where the last one ends.
    pub open spec fn cutoffs_at(self) -> int {
        HEADER_LEN + 4 * (self.centroids as nat * self.dimension as nat)
    }

    pub open spec fn weights_at(self) -> int {
        self.cutoffs_at() + 4 * (bucket_count(self.nbits) - 1)
    }

    pub open spec fn addresses_at(self) -> int {
        self.weights_at() + 4 * bucket_count(self.nbits)
    }

    pub open spec fn document_offsets_at(self) -> int {
        self.addresses_at() + 8 * self.documents
    }

    pub open spec fn codes_at(self) -> int {
        self.document_offsets_at() + 8 * (self.documents + 1)
    }

    pub open spec fn residuals_at(self) -> int {
        self.codes_at() + 4 * self.tokens
    }

    pub open spec fn posting_offsets_at(self) -> int {
        self.residuals_at() + self.tokens as nat * self.packed_len()
    }

    pub open spec fn postings_at(self) -> int {
        self.posting_offsets_at() + 8 * (self.centroids + 1)
    }

    pub open spec fn row_ids_at(self) -> int {
        self.postings_at() + 4 * self.postings
    }

    pub open spec fn raw_values_at(self) -> int {
        self.row_ids_at() + 8 * self.documents
    }

    pub open spec fn end(self) -> int {
        if self.has_exact_store() {
            self.raw_values_at() + 4 * (self.tokens as nat * self.dimension as nat)
        } else {
            self.row_ids_at()
        }
    }

    /// The length of a file with these counts, or the first section whose
    /// length cannot be told on this machine.
    pub open spec fn expected_len(self) -> core::result::Result<nat, Fault> {
        let buckets = bucket_count(self.nbits);
        let values = self.centroids as nat * self.dimension as nat;
        let raw = self.tokens as nat * self.dimension as nat;
        let s = checked_count(Ok(HEADER_LEN as nat), values, "centroid count overflow"@);
        let s = plus_section(s, values, 4, "centroids"@);
        let s = plus_section(s, (buckets - 1) as nat, 4, "bucket cutoffs"@);
        let s = plus_section(s, buckets, 4, "bucket weights"@);
        let s = plus_section(s, self.documents as nat, 8, "row addresses"@);
        let s = checked_count(s, (self.documents + 1) as nat, "document offset count overflow"@);
        let s = plus_section(s, (self.documents + 1) as nat, 8, "document offsets"@);
        let s = plus_section(s, self.tokens as nat, 4, "token codes"@);
        let s = plus_section(s, self.tokens as nat, self.packed_len(), "packed residuals"@);
        let s = checked_count(s, (self.centroids + 1) as nat, "posting offset count overflow"@);
        let s = plus_section(s, (self.centroids + 1) as nat, 8, "posting offsets"@);
        let s = plus_section(s, self.postings as nat, 4, "postings"@);
        if self.has_exact_store() {
            let s = plus_section(s, self.documents as nat, 8, "exact-store public row IDs"@);
            let s = checked_count(s, raw, "exact-store value count overflow"@);
            plus_section(s, raw, 4, "exact-store raw token values"@)
        } else {
            s
        }
    }
}

/// Refuses a count that does not fit.
pub open spec fn checked_count(
    length: core::result::Result<nat, Fault>,
    count: nat,
    message: Seq<char>,
) -> core::result::Result<nat, Fault> {
    match length {
        Err(fault) => Err(fault),
        Ok(length) => if count > usize::MAX {
            Err(Fault::CorruptFile(message))
        } else {
            Ok(length)
        },
    }
}

/// A length with one more section.
pub open spec fn plus_section(
    length: core::result::Result<nat, Fault>,
    count: nat,
    width: nat,
    name: Seq<char>,
) -> core::result::Result<nat, Fault> {
    match length {
        Err(fault) => Err(fault),
        Ok(length) => if count * width > usize::MAX {
            Err(Fault::CorruptFile(name + " byte length overflow"@))
        } else if length + count * width > usize::MAX {
            Err(Fault::CorruptFile("encoded length overflow at "@ + name))
        } else {
            Ok(length + count * width)
        },
    }
}

/// Why the length of a file does not fit its header, or the header is refused.
pub open spec fn length_fault(bytes: Seq<u8>) -> Option<Fault> {
    let header = header_of(bytes);
    if bytes.len() < HEADER_LEN {
        Some(
            Fault::CorruptFile(
                "file is shorter than the 48-byte header: "@ + decimal(bytes.len()) + " bytes"@,
            ),
        )
    } else if bytes.subrange(0, 8) != magic() {
        Some(Fault::CorruptFile("invalid magic bytes "@ + bracketed(bytes.subrange(0, 8))))
    } else if PlaidFormatVersion::of(header.version) is None {
        Some(unknown_version(header.version))
    } else if header.nbits != 2 && header.nbits != 4 {
        Some(Fault::CorruptFile("nbits must be 2 or 4, got "@ + decimal(header.nbits as nat)))
    } else if flags_fault(PlaidFormatVersion::of(header.version)->0, header.flags) is Some {
        flags_fault(PlaidFormatVersion::of(header.version)->0, header.flags)
    } else if header.marker != ENDIAN_MARKER {
        Some(
            Fault::CorruptFile(
                "invalid endian marker 0x"@ + hexadecimal(header.marker as nat, 8),
            ),
        )
    } else if header.count_fault() is Some {
        header.count_fault()
    } else {
        match header.expected_len() {
            Err(fault) => Some(fault),
            Ok(length) => if length == bytes.len() {
                None
            } else {
                Some(
                    Fault::CorruptFile(
                        "encoded length mismatch: header requires "@ + decimal(length)
                            + " bytes, file has "@ + decimal(bytes.len()),
                    ),
                )
            },
        }
    }
}

/// Checks the flags of a version and tells whether the file has an exact store.
pub fn validate_flags(version: PlaidFormatVersion, flags: u8) -> (result: Result<bool>)
    ensures
        match result {
            Ok(has_exact_store) => flags_fault(version, flags) is None && has_exact_store == (
            version == PlaidFormatVersion::V2),
            Err(error) => flags_fault(version, flags) == Some(error@),
        },
{
    match version {
        PlaidFormatVersion::V1 => {
            if flags == 0 {
                return Ok(false);
            }
            let mut text = "PLAID V1 flags must be zero, got 0x".to_owned();
            push_hexadecimal(&mut text, flags as u64, 2);
            Err(Error::CorruptFile(text))
        },
        PlaidFormatVersion::V2 => {
            if flags == EXACT_STORE_FLAG {
                return Ok(true);
            }
            if flags > EXACT_STORE_FLAG {
                let mut text = "PLAID V2 contains unknown flags 0x".to_owned();
                push_hexadecimal(&mut text, flags as u64, 2);
                return Err(Error::CorruptFile(text));
            }
            Err(Error::corrupt("PLAID V2 requires the exact-store flag"))
        },
    }
}

/// Adds the byte length of a section to the length so far.
pub fn checked_section_len(current: usize, count: usize, width: usize, name: &str) -> (result:
    Result<usize>)
    ensures
        match (result, plus_section(Ok(current as nat), count as nat, width as nat, name@)) {
            (Ok(length), Ok(expected)) => length == expected,
            (Err(error), Err(fault)) => error@ == fault,
            _ => false,
        },
{
    let bytes: usize = match count.checked_mul(width) {
        Some(bytes) => bytes,
        None => {
            let mut text = name.to_owned();
            text.push_str(" byte length overflow");
            return Err(Error::CorruptFile(text));
        },
    };
    match current.checked_add(bytes) {
        Some(length) => Ok(length),
        None => {
            let mut text = "encoded length overflow at ".to_owned();
            text.push_str(name);
            Err(Error::CorruptFile(text))
        },
    }
}

/// Takes a count of the file as a number of this machine.
pub fn usize_len(value: u64, name: &str) -> (result: Result<usize>)
    ensures
        match result {
            Ok(length) => length == value,
            Err(error) => value > usize::MAX && error@ == too_wide(name@, value),
        },
        value <= usize::MAX ==> result is Ok,
{
    if value <= usize::MAX as u64 {
        Ok(value as usize)
    } else {
        let mut text = name.to_owned();
        text.push_str(" ");
        push_decimal(&mut text, value);
        text.push_str(" does not fit usize");
        Err(Error::CorruptFile(text))
    }
}

/// The fault of a length that the file cannot hold.
pub open spec fn over_limit(name: Seq<char>, value: nat) -> Fault {
    Fault::InvalidInput(name + " "@ + decimal(value) + " exceeds u32 format limit"@)
}

/// Takes a length as the 32-bit number of the file.
pub fn u32_len(value: usize, name: &str) -> (result: Result<u32>)
    ensures
        match result {
            Ok(length) => length == value,
            Err(error) => value > u32::MAX && error@ == over_limit(name@, value as nat),
        },
        value <= u32::MAX ==> result is Ok,
{
    if value as u64 <= u32::MAX as u64 {
        Ok(value as u32)
    } else {
        let mut text = name.to_owned();
        text.push_str(" ");
        push_decimal(&mut text, value as u64);
        text.push_str(" exceeds u32 format limit");
        Err(Error::InvalidInput(text))
    }
}

fn is_magic(bytes: &[u8]) -> (result: bool)
    requires
        bytes@.len() >= 8,
    ensures
        result == (bytes@.subrange(0, 8) == magic()),
{
    let result = bytes[0] == 0x4c && bytes[1] == 0x50 && bytes[2] == 0x4c && bytes[3] == 0x44
        && bytes[4] == 0x49 && bytes[5] == 0x44 && bytes[6] == 0x58 && bytes[7] == 0x00;
    proof {
        let start = bytes@.subrange(0, 8);
        if result {
            assert(start =~= magic());
        } else if start == magic() {
            assert(start[0] == magic()[0] && start[1] == magic()[1] && start[2] == magic()[2]
                && start[3] == magic()[3] && start[4] == magic()[4] && start[5] == magic()[5]
                && start[6] == magic()[6] && start[7] == magic()[7]);
        }
    }
    result
}

fn read_header(bytes: &[u8]) -> (result: Header)
    requires
        bytes@.len() >= HEADER_LEN,
    ensures
        result == header_of(bytes@),
{
    Header {
        version: read_u16(bytes, 8),
        nbits: bytes[10],
        flags: bytes[11],
        marker: read_u32(bytes, 12),
        dimension: read_u32(bytes, 16),
        centroids: read_u32(bytes, 20),
        documents: read_u64(bytes, 24),
        tokens: read_u64(bytes, 32),
        postings: read_u64(bytes, 40),
    }
}

/// Checks the counts of a header.
fn validate_counts(header: &Header) -> (result: Result<()>)
    ensures
        match result {
            Ok(()) => header.count_fault() is None,
            Err(error) => header.count_fault() == Some(error@),
        },
{
    let num_documents: usize = usize_len(header.documents, "document count")?;
    let num_tokens: usize = usize_len(header.tokens, "token count")?;
    let num_postings: usize = usize_len(header.postings, "posting count")?;
    if header.dimension == 0 || header.centroids == 0 {
        return Err(Error::corrupt("dimension and centroid count must be positive"));
    }
    if header.documents > MAX_DOCUMENTS {
        return Err(
            Error::CorruptFile(
                text_two_numbers(
                    "document count ",
                    num_documents as u64,
                    " exceeds PLAID v1 limit ",
                    MAX_DOCUMENTS,
                ),
            ),
        );
    }
    if num_postings > num_tokens {
        return Err(
            Error::CorruptFile(
                text_two_numbers(
                    "posting count ",
                    num_postings as u64,
                    " exceeds token count ",
                    num_tokens as u64,
                ),
            ),
        );
    }
    let residual_bits: usize = match (header.dimension as usize).checked_mul(
        header.nbits as usize,
    ) {
        Some(bits) => bits,
        None => {
            return Err(Error::corrupt("residual bit width overflow"));
        },
    };
    if residual_bits % 8 != 0 {
        return Err(
            Error::CorruptFile(
                text_two_numbers(
                    "dimension * nbits must be divisible by 8, got ",
                    header.dimension as u64,
                    " * ",
                    header.nbits as u64,
                ),
            ),
        );
    }
    Ok(())
}

/// The file length that a header calls for.
fn section_lengths(header: &Header) -> (result: Result<usize>)
    requires
        header.count_fault() is None,
        header.nbits == 2 || header.nbits == 4,
    ensures
        match (result, header.expected_len()) {
            (Ok(length), Ok(expected)) => length == expected,
            (Err(error), Err(fault)) => error@ == fault,
            _ => false,
        },
{
    let dimension: usize = header.dimension as usize;
    let num_centroids: usize = header.centroids as usize;
    let num_documents: usize = header.documents as usize;
    let num_tokens: usize = header.tokens as usize;
    let num_postings: usize = header.postings as usize;
    let num_buckets: usize = if header.nbits == 2 {
        4
    } else {
        16
    };
    let values: usize = match num_centroids.checked_mul(dimension) {
        Some(count) => count,
        None => {
            return Err(Error::corrupt("centroid count overflow"));
        },
    };
    let expected: usize = checked_section_len(HEADER_LEN, values, 4, "centroids")?;
    let expected: usize = checked_section_len(expected, num_buckets - 1, 4, "bucket cutoffs")?;
    let expected: usize = checked_section_len(expected, num_buckets, 4, "bucket weights")?;
    let expected: usize = checked_section_len(expected, num_documents, 8, "row addresses")?;
    let offset_count: usize = match num_documents.checked_add(1) {
        Some(count) => count,
        None => {
            return Err(Error::corrupt("document offset count overflow"));
        },
    };
    let expected: usize = checked_section_len(expected, offset_count, 8, "document offsets")?;
    let expected: usize = checked_section_len(expected, num_tokens, 4, "token codes")?;
    let residual_bits: usize = dimension * header.nbits as usize;
    let expected: usize = checked_section_len(
        expected,
        num_tokens,
        residual_bits / 8,
        "packed residuals",
    )?;
    let posting_offset_count: usize = match num_centroids.checked_add(1) {
        Some(count) => count,
        None => {
            return Err(Error::corrupt("posting offset count overflow"));
        },
    };
    let expected: usize = checked_section_len(expected, posting_offset_count, 8, "posting offsets")?;
    let expected: usize = checked_section_len(expected, num_postings, 4, "postings")?;
    if header.version != 2 {
        return Ok(expected);
    }
    let expected: usize = checked_section_len(
        expected,
        num_documents,
        8,
        "exact-store public row IDs",
    )?;
    let raw_value_count: usize = match num_tokens.checked_mul(dimension) {
        Some(count) => count,
        None => {
            return Err(Error::corrupt("exact-store value count overflow"));
        },
    };
    checked_section_len(expected, raw_value_count, 4, "exact-store raw token values")
}

/// Checks the header of a file, and its length against the header, before
/// anything is allocated.
pub fn validate_encoded_len(bytes: &[u8]) -> (result: Result<()>)
    ensures
        match result {
            Ok(()) => length_fault(bytes@) is None,
            Err(error) => length_fault(bytes@) == Some(error@),
        },
{
    if bytes.len() < HEADER_LEN {
        return Err(
            Error::CorruptFile(
                text_number_text(
                    "file is shorter than the 48-byte header: ",
                    bytes.len() as u64,
                    " bytes",
                ),
            ),
        );
    }
    if !is_magic(bytes) {
        return Err(
            Error::CorruptFile(
                text_bytes("invalid magic bytes ", vstd::slice::slice_subrange(bytes, 0, 8)),
            ),
        );
    }
    let header = read_header(bytes);
    let version = PlaidFormatVersion::try_from(header.version)?;
    if header.nbits != 2 && header.nbits != 4 {
        return Err(
            Error::CorruptFile(text_number("nbits must be 2 or 4, got ", header.nbits as u64)),
        );
    }
    let _has_exact_store = validate_flags(version, header.flags)?;
    if header.marker != ENDIAN_MARKER {
        let mut text = "invalid endian marker 0x".to_owned();
        push_hexadecimal(&mut text, header.marker as u64, 8);
        return Err(Error::CorruptFile(text));
    }
    validate_counts(&header)?;
    let expected: usize = section_lengths(&header)?;
    if expected != bytes.len() {
        return Err(
            Error::CorruptFile(
                text_two_numbers(
                    "encoded length mismatch: header requires ",
                    expected as u64,
                    " bytes, file has ",
                    bytes.len() as u64,
                ),
            ),
        );
    }
    Ok(())
}

/// The quantizer parts that a file holds.
pub open spec fn decoded_codebook(bytes: Seq<u8>) -> Codebook {
    let header = header_of(bytes);
    let buckets = bucket_count(header.nbits);
    Codebook {
        nbits: header.nbits,
        cutoffs: words_at(bytes, header.cutoffs_at(), (buckets - 1) as nat),
        weights: words_at(bytes, header.weights_at(), buckets),
    }
}

/// The segment parts that a file holds.
pub open spec fn decoded_segment(bytes: Seq<u8>) -> Segment {
    let header = header_of(bytes);
    let documents = header.documents as nat;
    let tokens = header.tokens as nat;
    let centroids = header.centroids as nat;
    let dimension = header.dimension as nat;
    Segment {
        centroids: Grid {
            rows: centroids,
            columns: dimension,
            values: words_at(bytes, HEADER_LEN as int, centroids * dimension),
        },
        codebook: decoded_codebook(bytes),
        row_addresses: long_words_at(bytes, header.addresses_at(), documents),
        document_offsets: long_words_at(bytes, header.document_offsets_at(), documents + 1),
        token_codes: words_at(bytes, header.codes_at(), tokens),
        packed_residuals: bytes.subrange(header.residuals_at(), header.posting_offsets_at()),
        posting_offsets: long_words_at(bytes, header.posting_offsets_at(), centroids + 1),
        postings: words_at(bytes, header.postings_at(), header.postings as nat),
        exact_store: if header.has_exact_store() {
            Some(
                ExactValues {
                    public_row_ids: long_words_at(bytes, header.row_ids_at(), documents),
                    raw_token_values: words_at(bytes, header.raw_values_at(), tokens * dimension),
                },
            )
        } else {
            None
        },
    }
}

/// The first reason why a file is refused.
pub open spec fn file_fault(bytes: Seq<u8>) -> Option<Fault> {
    if length_fault(bytes) is Some {
        length_fault(bytes)
    } else if codebook_fault(decoded_codebook(bytes)) is Some {
        Some((codebook_fault(decoded_codebook(bytes))->0).in_file())
    } else if decoded_segment(bytes).fault() is Some {
        Some((decoded_segment(bytes).fault()->0).in_file())
    } else {
        None
    }
}

/// Loading uses up an identity once the sections are read.
pub open spec fn id_after_load(bytes: Seq<u8>, id: u64) -> u64 {
    if length_fault(bytes) is None && codebook_fault(decoded_codebook(bytes)) is None {
        following_id(id)
    } else {
        id
    }
}

/// Sections whose lengths were checked lie one after the other in the file.
proof fn sections_lie_in_file(header: Header)
    requires
        header.expected_len() is Ok,
        header.nbits == 2 || header.nbits == 4,
    ensures
        header.expected_len()->Ok_0 == header.end(),
        header.centroids as nat * header.dimension as nat <= usize::MAX,
        header.tokens as nat * header.packed_len() <= usize::MAX,
        header.has_exact_store() ==> header.tokens as nat * header.dimension as nat <= usize::MAX,
        HEADER_LEN <= header.cutoffs_at() <= header.weights_at() <= header.addresses_at()
            <= header.document_offsets_at() <= header.codes_at() <= header.residuals_at()
            <= header.posting_offsets_at() <= header.postings_at() <= header.row_ids_at()
            <= header.end() <= usize::MAX,
        header.has_exact_store() ==> header.row_ids_at() <= header.raw_values_at() <= header.end(),
{
    assert(header.tokens as nat * header.packed_len() >= 0) by (nonlinear_arith);
    assert(header.tokens as nat * header.dimension as nat >= 0) by (nonlinear_arith);
    assert(header.centroids as nat * header.dimension as nat >= 0) by (nonlinear_arith);
}

/// Copies bytes out of a file.
fn read_bytes(bytes: &[u8], start: usize, end: usize) -> (result: Vec<u8>)
    requires
        start <= end <= bytes@.len(),
    ensures
        result@ == bytes@.subrange(start as int, end as int),
{
    let mut copy: Vec<u8> = Vec::new();
    copy.extend_from_slice(vstd::slice::slice_subrange(bytes, start, end));
    assert(copy@ =~= bytes@.subrange(start as int, end as int));
    copy
}

/// Reads the exact store of a file that has one.
fn read_exact_store(bytes: &[u8], header: &Header) -> (result: ExactStore)
    requires
        *header == header_of(bytes@),
        length_fault(bytes@) is None,
        header.has_exact_store(),
    ensures
        decoded_segment(bytes@).exact_store == Some(result@),
{
    assert(bytes@.len() == bytes.len());
    proof {
        sections_lie_in_file(*header);
    }
    let num_documents: usize = header.documents as usize;
    let raw_count: usize = header.tokens as usize * header.dimension as usize;
    let raw_values_at: usize = bytes.len() - 4 * raw_count;
    let row_ids_at: usize = raw_values_at - 8 * num_documents;
    let public_row_ids = read_u64s(bytes, row_ids_at, num_documents);
    let raw_token_values = read_u32s(bytes, raw_values_at, raw_count);
    ExactStore { public_row_ids, raw_token_values }
}

/// Reads every section behind the quantizer's.
fn read_sections(bytes: &[u8], header: &Header, quantizer: ResidualQuantizer) -> (result: Result<
    SegmentParts,
>)
    requires
        *header == header_of(bytes@),
        length_fault(bytes@) is None,
        quantizer@ == decoded_codebook(bytes@),
    ensures
        match result {
            Ok(parts) => parts@ == decoded_segment(bytes@),
            Err(error) => false,
        },
{
    assert(bytes@.len() == bytes.len());
    proof {
        sections_lie_in_file(*header);
    }
    let dimension: usize = header.dimension as usize;
    let num_centroids: usize = header.centroids as usize;
    let num_documents: usize = header.documents as usize;
    let num_tokens: usize = header.tokens as usize;
    let num_postings: usize = header.postings as usize;
    let num_buckets: usize = if header.nbits == 2 {
        4
    } else {
        16
    };
    let centroid_values = read_u32s(bytes, HEADER_LEN, num_centroids * dimension);
    let addresses_at: usize = HEADER_LEN + 4 * (num_centroids * dimension) + 4 * (num_buckets - 1)
        + 4 * num_buckets;
    let row_addresses = read_u64s(bytes, addresses_at, num_documents);
    let document_offsets_at: usize = addresses_at + 8 * num_documents;
    let document_offsets = read_u64s(bytes, document_offsets_at, num_documents + 1);
    let codes_at: usize = document_offsets_at + 8 * (num_documents + 1);
    let token_codes = read_u32s(bytes, codes_at, num_tokens);
    let residuals_at: usize = codes_at + 4 * num_tokens;
    let packed_len: usize = dimension * header.nbits as usize / 8;
    let posting_offsets_at: usize = residuals_at + num_tokens * packed_len;
    let packed_residuals = read_bytes(bytes, residuals_at, posting_offsets_at);
    let posting_offsets = read_u64s(bytes, posting_offsets_at, num_centroids + 1);
    let postings_at: usize = posting_offsets_at + 8 * (num_centroids + 1);
    let postings = read_u32s(bytes, postings_at, num_postings);
    let exact_store = if header.version == 2 {
        Some(read_exact_store(bytes, header))
    } else {
        None
    };
    let centroids = Matrix::from_shape_vec(num_centroids, dimension, centroid_values)?;
    Ok(
        SegmentParts {
            centroids,
            quantizer,
            row_addresses,
            document_offsets,
            token_codes,
            packed_residuals,
            posting_offsets,
            postings,
            exact_store,
        },
    )
}

impl PlaidIndex {
    /// Loads and validates an index from in-memory versioned PLAID bytes.
    pub fn read_from_bytes(bytes: &[u8], ids: &mut InstanceIds) -> (result: Result<PlaidIndex>)
        ensures
            final(ids)@ == id_after_load(bytes@, old(ids)@),
            match result {
                Ok(index) => file_fault(bytes@) is None && index@ == decoded_segment(bytes@)
                    && index.identity() == old(ids)@,
                Err(error) => file_fault(bytes@) == Some(error@),
            },
    {
        validate_encoded_len(bytes)?;
        Self::read_from(bytes, ids)
    }

    /// Loads and validates an index from bytes of the right length.
    fn read_from(bytes: &[u8], ids: &mut InstanceIds) -> (result: Result<PlaidIndex>)
        requires
            length_fault(bytes@) is None,
        ensures
            final(ids)@ == id_after_load(bytes@, old(ids)@),
            match result {
                Ok(index) => file_fault(bytes@) is None && index@ == decoded_segment(bytes@)
                    && index.identity() == old(ids)@,
                Err(error) => file_fault(bytes@) == Some(error@),
            },
    {
        let header = read_header(bytes);
        assert(bytes@.len() == bytes.len());
        proof {
            sections_lie_in_file(header);
        }
        let num_buckets: usize = if header.nbits == 2 {
            4
        } else {
            16
        };
        let cutoffs_at: usize = HEADER_LEN + 4 * (header.centroids as usize
            * header.dimension as usize);
        let bucket_cutoffs = read_u32s(bytes, cutoffs_at, num_buckets - 1);
        let bucket_weights = read_u32s(bytes, cutoffs_at + 4 * (num_buckets - 1), num_buckets);
        let quantizer = match ResidualQuantizer::try_new(
            header.nbits,
            bucket_cutoffs,
            bucket_weights,
        ) {
            Ok(quantizer) => quantizer,
            Err(error) => {
                return Err(error.in_file());
            },
        };
        let parts = read_sections(bytes, &header, quantizer)?;
        match Self::try_from_parts(parts, ids) {
            Ok(index) => Ok(index),
            Err(error) => Err(error.in_file()),
        }
    }
}

/// The number of the version that holds a segment.
pub open spec fn version_of(segment: Segment) -> u16 {
    if segment.exact_store is Some {
        2
    } else {
        1
    }
}

/// The parts of a file header, in order.
pub open spec fn header_parts(segment: Segment) -> Seq<Seq<u8>> {
    seq![
        magic(),
        le_bytes(version_of(segment) as nat, 2),
        seq![segment.codebook.nbits],
        seq![if segment.exact_store is Some { EXACT_STORE_FLAG } else { 0u8 }],
        le_bytes(ENDIAN_MARKER as nat, 4),
        le_bytes(segment.dimension(), 4),
        le_bytes(segment.centroids.rows, 4),
        le_bytes(segment.documents(), 8),
        le_bytes(segment.tokens(), 8),
        le_bytes(segment.postings.len(), 8),
    ]
}

/// The sections of a file, in order.
pub open spec fn section_parts(segment: Segment) -> Seq<Seq<u8>> {
    seq![
        words(segment.centroids.values),
        words(segment.codebook.cutoffs),
        words(segment.codebook.weights),
        long_words(segment.row_addresses),
        long_words(segment.document_offsets),
        words(segment.token_codes),
        segment.packed_residuals,
        long_words(segment.posting_offsets),
        words(segment.postings),
        match segment.exact_store {
            Some(store) => long_words(store.public_row_ids),
            None => Seq::empty(),
        },
        match segment.exact_store {
            Some(store) => words(store.raw_token_values),
            None => Seq::empty(),
        },
    ]
}

/// The bytes of the file that holds a segment.
pub open spec fn encoded(segment: Segment) -> Seq<u8> {
    joined(header_parts(segment), 10) + joined(section_parts(segment), 11)
}

/// Why the format cannot hold a segment.
pub open spec fn encode_fault(segment: Segment) -> Option<Fault> {
    if segment.dimension() > u32::MAX {
        Some(over_limit("dimension"@, segment.dimension()))
    } else if segment.centroids.rows > u32::MAX {
        Some(over_limit("centroid count"@, segment.centroids.rows))
    } else {
        None
    }
}

impl PlaidIndex {
    /// Serializes the index into the versioned PLAID format.
    pub fn to_bytes(&self) -> (result: Result<Vec<u8>>)
        ensures
            match result {
                Ok(bytes) => encode_fault(self@) is None && bytes@ == encoded(self@),
                Err(error) => encode_fault(self@) == Some(error@),
            },
    {
        let mut bytes: Vec<u8> = Vec::new();
        self.write_to(&mut bytes)?;
        assert(bytes@ =~= encoded(self@));
        Ok(bytes)
    }

    /// Appends the index in the versioned PLAID format.
    fn write_to(&self, writer: &mut Vec<u8>) -> (result: Result<()>)
        ensures
            match result {
                Ok(()) => encode_fault(self@) is None && final(writer)@ == old(writer)@ + encoded(
                    self@,
                ),
                Err(error) => encode_fault(self@) == Some(error@),
            },
    {
        let ghost start = writer@;
        self.write_header(writer)?;
        self.write_sections(writer);
        assert(writer@ =~= start + encoded(self@));
        Ok(())
    }

    fn write_header(&self, writer: &mut Vec<u8>) -> (result: Result<()>)
        ensures
            match result {
                Ok(()) => encode_fault(self@) is None && final(writer)@ == old(writer)@ + joined(
                    header_parts(self@),
                    10,
                ),
                Err(error) => encode_fault(self@) == Some(error@),
            },
    {
        let parts = self.parts();
        let ghost file = header_parts(self@);
        let ghost start = writer@;
        let (version, flags): (PlaidFormatVersion, u8) = if parts.exact_store.is_some() {
            (PlaidFormatVersion::V2, EXACT_STORE_FLAG)
        } else {
            (PlaidFormatVersion::V1, 0)
        };
        let dimension: u32 = u32_len(parts.centroids.columns(), "dimension")?;
        let num_centroids: u32 = u32_len(parts.centroids.rows(), "centroid count")?;
        let magic_bytes: Vec<u8> = vec![0x4c, 0x50, 0x4c, 0x44, 0x49, 0x44, 0x58, 0x00];
        assert(magic_bytes@ =~= magic());
        assert(start =~= start + joined(file, 0));
        proof {
            joined_step(start, file, 0);
            joined_step(start, file, 1);
            joined_step(start, file, 2);
            joined_step(start, file, 3);
            joined_step(start, file, 4);
            joined_step(start, file, 5);
            joined_step(start, file, 6);
            joined_step(start, file, 7);
            joined_step(start, file, 8);
            joined_step(start, file, 9);
        }
        writer.extend_from_slice(magic_bytes.as_slice());
        assert(writer@ == start + joined(file, 1));
        write_u16(writer, version.number());
        assert(writer@ == start + joined(file, 2));
        writer.push(parts.quantizer.nbits());
        assert(writer@ == start + joined(file, 3));
        writer.push(flags);
        assert(writer@ == start + joined(file, 4));
        write_u32(writer, ENDIAN_MARKER);
        write_u32(writer, dimension);
        write_u32(writer, num_centroids);
        assert(writer@ == start + joined(file, 7));
        write_u64(writer, parts.row_addresses.len() as u64);
        write_u64(writer, parts.token_codes.len() as u64);
        write_u64(writer, parts.postings.len() as u64);
        Ok(())
    }

    fn write_sections(&self, writer: &mut Vec<u8>)
        ensures
            final(writer)@ == old(writer)@ + joined(section_parts(self@), 11),
    {
        let parts = self.parts();
        let ghost file = section_parts(self@);
        let ghost start = writer@;
        assert(start =~= start + joined(file, 0));
        proof {
            joined_step(start, file, 0);
            joined_step(start, file, 1);
            joined_step(start, file, 2);
            joined_step(start, file, 3);
            joined_step(start, file, 4);
            joined_step(start, file, 5);
            joined_step(start, file, 6);
            joined_step(start, file, 7);
            joined_step(start, file, 8);
            joined_step(start, file, 9);
            joined_step(start, file, 10);
        }
        write_u32s(writer, parts.centroids.values().as_slice());
        write_u32s(writer, parts.quantizer.bucket_cutoffs());
        write_u32s(writer, parts.quantizer.bucket_weights());
        assert(writer@ == start + joined(file, 3));
        write_u64s(writer, parts.row_addresses.as_slice());
        write_u64s(writer, parts.document_offsets.as_slice());
        write_u32s(writer, parts.token_codes.as_slice());
        assert(writer@ == start + joined(file, 6));
        writer.extend_from_slice(parts.packed_residuals.as_slice());
        assert(writer@ == start + joined(file, 7));
        write_u64s(writer, parts.posting_offsets.as_slice());
        write_u32s(writer, parts.postings.as_slice());
        assert(writer@ == start + joined(file, 9));
        match &parts.exact_store {
            Some(store) => {
                write_u64s(writer, store.public_row_ids.as_slice());
                write_u32s(writer, store.raw_token_values.as_slice());
            },
            None => {
                assert(writer@ =~= writer@ + Seq::<u8>::empty());
            },
        }
        assert(writer@ == start + joined(file, 11));
    }
}

/// Where the header parts end.
spec fn header_marks() -> Seq<int> {
    seq![0, 8, 10, 11, 12, 16, 20, 24, 32, 40, 48]
}

/// Where the sections end.
spec fn section_marks(header: Header) -> Seq<int> {
    seq![
        HEADER_LEN as int,
        header.cutoffs_at(),
        header.weights_at(),
        header.addresses_at(),
        header.document_offsets_at(),
        header.codes_at(),
        header.residuals_at(),
        header.posting_offsets_at(),
        header.postings_at(),
        header.row_ids_at(),
        if header.has_exact_store() {
            header.raw_values_at()
        } else {
            header.row_ids_at()
        },
        header.end(),
    ]
}

/// The header of the file that holds a segment.
spec fn header_for(segment: Segment) -> Header {
    Header {
        version: version_of(segment),
        nbits: segment.codebook.nbits,
        flags: if segment.exact_store is Some {
            EXACT_STORE_FLAG
        } else {
            0
        },
        marker: ENDIAN_MARKER,
        dimension: segment.dimension() as u32,
        centroids: segment.centroids.rows as u32,
        documents: segment.documents() as u64,
        tokens: segment.tokens() as u64,
        postings: segment.postings.len() as u64,
    }
}

#[verifier::spinoff_prover]
#[verifier::rlimit(30)]
proof fn encoded_header_reads_back(segment: Segment)
    requires
        segment.wf(),
        encode_fault(segment) is None,
    ensures
        joined(header_parts(segment), 10).len() == HEADER_LEN,
        encoded(segment).subrange(0, 8) == magic(),
        header_of(encoded(segment)) == header_for(segment),
        segment.tokens() <= u64::MAX,
{
    let bytes = encoded(segment);
    let parts = header_parts(segment);
    let marks = header_marks();
    let start = joined(parts, 10);
    le_limits();
    assert(segment.document_offsets[segment.documents() as int] == segment.tokens());
    le_bytes_len(version_of(segment) as nat, 2);
    le_bytes_len(ENDIAN_MARKER as nat, 4);
    le_value_of_bytes(version_of(segment) as nat, 2);
    le_value_of_bytes(ENDIAN_MARKER as nat, 4);
    le_value_of_bytes(segment.dimension(), 4);
    le_value_of_bytes(segment.centroids.rows, 4);
    le_value_of_bytes(segment.documents(), 8);
    le_value_of_bytes(segment.tokens(), 8);
    le_value_of_bytes(segment.postings.len(), 8);
    assert(marks_parts(marks, parts));
    assert forall|part: int| 0 <= part < 10 implies #[trigger] bytes.subrange(
        marks[part],
        marks[part + 1],
    ) == parts[part] by {
        joined_between_marks(marks, parts, part);
        assert(bytes.subrange(marks[part], marks[part + 1]) =~= start.subrange(
            marks[part],
            marks[part + 1],
        ));
    }
    joined_between_marks(marks, parts, 0);
    assert(bytes.subrange(marks[0], marks[1]) == parts[0]);
    assert(bytes.subrange(marks[1], marks[2]) == parts[1]);
    assert(bytes.subrange(marks[2], marks[3]) == parts[2]);
    assert(bytes.subrange(marks[3], marks[4]) == parts[3]);
    assert(bytes.subrange(marks[4], marks[5]) == parts[4]);
    assert(bytes.subrange(marks[5], marks[6]) == parts[5]);
    assert(bytes.subrange(marks[6], marks[7]) == parts[6]);
    assert(bytes.subrange(marks[7], marks[8]) == parts[7]);
    assert(bytes.subrange(marks[8], marks[9]) == parts[8]);
    assert(bytes.subrange(marks[9], marks[10]) == parts[9]);
    assert(bytes[10] == bytes.subrange(10, 11)[0]);
    assert(bytes[11] == bytes.subrange(11, 12)[0]);
}

proof fn sections_have_marks(segment: Segment)
    requires
        segment.wf(),
        encode_fault(segment) is None,
        segment.tokens() <= u64::MAX,
    ensures
        marks_parts(section_marks(header_for(segment)), section_parts(segment)),
{
    let parts = section_parts(segment);
    let header = header_for(segment);
    let marks = section_marks(header);
    words_len(segment.centroids.values);
    words_len(segment.codebook.cutoffs);
    words_len(segment.codebook.weights);
    long_words_len(segment.row_addresses);
    long_words_len(segment.document_offsets);
    words_len(segment.token_codes);
    long_words_len(segment.posting_offsets);
    words_len(segment.postings);
    if segment.exact_store is Some {
        long_words_len(segment.exact_store->0.public_row_ids);
        words_len(segment.exact_store->0.raw_token_values);
    }
    assert(header.packed_len() == segment.packed_len());
    assert forall|i: int| 0 <= i < parts.len() implies #[trigger] marks[i] + (
    #[trigger] parts[i]).len() == marks[i + 1] by {
        if i == 0 {
        } else if i == 1 {
        } else if i == 2 {
        } else if i == 3 {
        } else if i == 4 {
        } else if i == 5 {
        } else if i == 6 {
        } else if i == 7 {
        } else if i == 8 {
        } else if i == 9 {
        } else {
            assert(i == 10);
        }
    }
}

#[verifier::spinoff_prover]
#[verifier::rlimit(30)]
proof fn encoded_sections_lie_between_marks(segment: Segment, part: int)
    requires
        segment.wf(),
        encode_fault(segment) is None,
        0 <= part < 11,
    ensures
        encoded(segment).len() == section_marks(header_for(segment))[11],
        HEADER_LEN <= section_marks(header_for(segment))[part] <= section_marks(
            header_for(segment),
        )[part + 1] <= encoded(segment).len(),
        encoded(segment).subrange(
            section_marks(header_for(segment))[part],
            section_marks(header_for(segment))[part + 1],
        ) == section_parts(segment)[part],
{
    let head = joined(header_parts(segment), 10);
    let parts = section_parts(segment);
    let marks = section_marks(header_for(segment));
    encoded_header_reads_back(segment);
    sections_have_marks(segment);
    joined_behind_head(head, marks, parts, part);
}

/// A header whose sections end within this machine's range has a length.
proof fn short_sections_have_a_length(header: Header)
    requires
        header.nbits == 2 || header.nbits == 4,
        header.end() <= usize::MAX,
    ensures
        header.expected_len() == core::result::Result::<nat, Fault>::Ok(header.end() as nat),
{
    assert(header.tokens as nat * header.packed_len() >= 0) by (nonlinear_arith);
    assert(header.tokens as nat * header.dimension as nat >= 0) by (nonlinear_arith);
    assert(header.centroids as nat * header.dimension as nat >= 0) by (nonlinear_arith);
}

/// The sections of an encoded segment read back as the segment.
#[verifier::spinoff_prover]
#[verifier::rlimit(30)]
proof fn encoded_sections_read_back(segment: Segment)
    requires
        segment.wf(),
        encode_fault(segment) is None,
    ensures
        decoded_segment(encoded(segment)) == segment,
{
    let bytes = encoded(segment);
    let header = header_for(segment);
    let marks = section_marks(header);
    let parts = section_parts(segment);
    encoded_header_reads_back(segment);
    sections_have_marks(segment);
    assert forall|part: int| 0 <= part < 11 implies HEADER_LEN <= #[trigger] marks[part]
        && marks[part] + parts[part].len() <= bytes.len() && bytes.subrange(
        marks[part],
        marks[part] + parts[part].len(),
    ) == parts[part] by {
        encoded_sections_lie_between_marks(segment, part);
        assert(marks[part] + parts[part].len() == marks[part + 1]);
    }
    assert(marks[0] == HEADER_LEN && parts[0] == words(segment.centroids.values));
    words_read_back(bytes, marks[0], segment.centroids.values);
    assert(marks[1] == header.cutoffs_at() && parts[1] == words(segment.codebook.cutoffs));
    words_read_back(bytes, marks[1], segment.codebook.cutoffs);
    assert(marks[2] == header.weights_at() && parts[2] == words(segment.codebook.weights));
    words_read_back(bytes, marks[2], segment.codebook.weights);
    assert(marks[3] == header.addresses_at() && parts[3] == long_words(segment.row_addresses));
    long_words_read_back(bytes, marks[3], segment.row_addresses);
    assert(marks[4] == header.document_offsets_at() && parts[4] == long_words(
        segment.document_offsets,
    ));
    long_words_read_back(bytes, marks[4], segment.document_offsets);
    assert(marks[5] == header.codes_at() && parts[5] == words(segment.token_codes));
    words_read_back(bytes, marks[5], segment.token_codes);
    assert(marks[6] == header.residuals_at() && parts[6] == segment.packed_residuals);
    assert(marks[7] == header.posting_offsets_at() && parts[7] == long_words(
        segment.posting_offsets,
    ));
    assert(marks[6] + parts[6].len() == marks[7]);
    long_words_read_back(bytes, marks[7], segment.posting_offsets);
    assert(marks[8] == header.postings_at() && parts[8] == words(segment.postings));
    words_read_back(bytes, marks[8], segment.postings);
    if segment.exact_store is Some {
        let store = segment.exact_store->0;
        assert(marks[9] == header.row_ids_at() && parts[9] == long_words(store.public_row_ids));
        long_words_read_back(bytes, marks[9], store.public_row_ids);
        assert(marks[10] == header.raw_values_at() && parts[10] == words(store.raw_token_values));
        words_read_back(bytes, marks[10], store.raw_token_values);
        assert(decoded_segment(bytes).exact_store->0 =~= store);
    }
    assert(decoded_segment(bytes).centroids =~= segment.centroids);
    assert(decoded_segment(bytes).codebook =~= segment.codebook);
    assert(decoded_segment(bytes) =~= segment);
}

/// The counts of a stored segment are accepted.
proof fn stored_counts_are_accepted(segment: Segment)
    requires
        segment.wf(),
        encode_fault(segment) is None,
        encoded(segment).len() <= usize::MAX,
    ensures
        header_for(segment).count_fault() is None,
{
    let header = header_for(segment);
    encoded_header_reads_back(segment);
    encoded_sections_lie_between_marks(segment, 3);
    encoded_sections_lie_between_marks(segment, 5);
    long_words_len(segment.row_addresses);
    words_len(segment.token_codes);
    assert(section_parts(segment)[3] == long_words(segment.row_addresses));
    assert(section_parts(segment)[5] == words(segment.token_codes));
    assert(header.residual_bits() == segment.dimension() * (segment.codebook.nbits as nat));
}

/// The length of a stored segment is the one that its header calls for.
proof fn stored_length_is_expected(segment: Segment)
    requires
        segment.wf(),
        encode_fault(segment) is None,
        encoded(segment).len() <= usize::MAX,
    ensures
        header_for(segment).expected_len() == core::result::Result::<nat, Fault>::Ok(
            encoded(segment).len(),
        ),
{
    let header = header_for(segment);
    encoded_sections_lie_between_marks(segment, 0);
    assert(section_marks(header)[11] == header.end());
    short_sections_have_a_length(header);
}

/// Loading the bytes of a stored segment succeeds and gives the segment back.
pub proof fn loading_undoes_storing(segment: Segment)
    requires
        segment.wf(),
        encode_fault(segment) is None,
        encoded(segment).len() <= usize::MAX,
    ensures
        file_fault(encoded(segment)) is None,
        decoded_segment(encoded(segment)) == segment,
{
    encoded_header_reads_back(segment);
    encoded_sections_read_back(segment);
    stored_counts_are_accepted(segment);
    stored_length_is_expected(segment);
    encoded_sections_lie_between_marks(segment, 0);
    assert(length_fault(encoded(segment)) is None);
    assert(decoded_codebook(encoded(segment)) == segment.codebook);
}

/// The header of a stored file holds the bytes that were loaded.
#[verifier::spinoff_prover]
#[verifier::rlimit(30)]
proof fn stored_header_is_file_header(bytes: Seq<u8>)
    requires
        file_fault(bytes) is None,
    ensures
        header_parts(decoded_segment(bytes)).len() == 10,
        pieces(bytes, header_marks(), header_parts(decoded_segment(bytes))),
        encode_fault(decoded_segment(bytes)) is None,
{
    let segment = decoded_segment(bytes);
    let header = header_of(bytes);
    sections_lie_in_file(header);
    le_limits();
    le_bytes_of_value(bytes.subrange(8, 10));
    le_bytes_of_value(bytes.subrange(12, 16));
    le_bytes_of_value(bytes.subrange(16, 20));
    le_bytes_of_value(bytes.subrange(20, 24));
    le_bytes_of_value(bytes.subrange(24, 32));
    le_bytes_of_value(bytes.subrange(32, 40));
    le_bytes_of_value(bytes.subrange(40, 48));
    assert(segment.dimension() == header.dimension);
    assert(segment.centroids.rows == header.centroids);
    assert(segment.documents() == header.documents);
    assert(segment.tokens() == header.tokens);
    assert(segment.postings.len() == header.postings);
    assert(version_of(segment) == header.version);
    let head = header_parts(segment);
    let marks = header_marks();
    assert(head[0] == bytes.subrange(0, 8));
    assert(head[1] == bytes.subrange(8, 10));
    assert(head[2] =~= bytes.subrange(10, 11));
    assert(head[3] =~= bytes.subrange(11, 12));
    assert(head[4] == bytes.subrange(12, 16));
    assert(head[5] == bytes.subrange(16, 20));
    assert(head[6] == bytes.subrange(20, 24));
    assert(head[7] == bytes.subrange(24, 32));
    assert(head[8] == bytes.subrange(32, 40));
    assert(head[9] == bytes.subrange(40, 48));
    assert forall|i: int|
        #![trigger head[i]]
        0 <= i < head.len() implies 0 <= marks[i] <= marks[i + 1] <= bytes.len() && head[i]
        == bytes.subrange(marks[i], marks[i + 1]) by {
        if i == 0 {
        } else if i == 1 {
        } else if i == 2 {
        } else if i == 3 {
        } else if i == 4 {
        } else if i == 5 {
        } else if i == 6 {
        } else if i == 7 {
        } else if i == 8 {
        } else {
            assert(i == 9);
        }
    }
}

/// The header and the sections make up the bytes of a segment.
proof fn two_halves_make_up_a_file(segment: Segment, bytes: Seq<u8>)
    requires
        bytes.len() >= HEADER_LEN,
        joined(header_parts(segment), 10) == bytes.subrange(0, HEADER_LEN as int),
        joined(section_parts(segment), 11) == bytes.subrange(HEADER_LEN as int, bytes.len() as int),
    ensures
        encoded(segment) == bytes,
{
    assert(encoded(segment) =~= bytes);
}

/// Pieces of a file from its start to the end of its header.
proof fn header_pieces_join(segment: Segment, bytes: Seq<u8>)
    requires
        header_parts(segment).len() == 10,
        pieces(bytes, header_marks(), header_parts(segment)),
    ensures
        joined(header_parts(segment), 10) == bytes.subrange(0, HEADER_LEN as int),
{
    joined_pieces(bytes, header_marks(), header_parts(segment), 10);
    assert(header_marks()[0] == 0 && header_marks()[10] == HEADER_LEN);
}

/// Storing what was loaded from a file gives the bytes of the file back.
#[verifier::spinoff_prover]
#[verifier::rlimit(30)]
pub proof fn storing_undoes_loading(bytes: Seq<u8>)
    requires
        file_fault(bytes) is None,
    ensures
        encode_fault(decoded_segment(bytes)) is None,
        encoded(decoded_segment(bytes)) == bytes,
{
    let segment = decoded_segment(bytes);
    let marks = section_marks(header_of(bytes));
    stored_header_is_file_header(bytes);
    header_pieces_join(segment, bytes);
    stored_sections_are_file_sections(bytes);
    joined_pieces(bytes, marks, section_parts(segment), 11);
    two_halves_make_up_a_file(segment, bytes);
}

#[verifier::spinoff_prover]
#[verifier::rlimit(30)]
proof fn stored_sections_are_file_sections(bytes: Seq<u8>)
    requires
        file_fault(bytes) is None,
    ensures
        section_parts(decoded_segment(bytes)).len() == 11,
        section_marks(header_of(bytes))[0] == HEADER_LEN,
        section_marks(header_of(bytes))[11] == bytes.len(),
        pieces(bytes, section_marks(header_of(bytes)), section_parts(decoded_segment(bytes))),
{
    let segment = decoded_segment(bytes);
    let header = header_of(bytes);
    let marks = section_marks(header);
    let parts = section_parts(segment);
    let buckets = bucket_count(header.nbits);
    sections_lie_in_file(header);
    words_write_back(bytes, HEADER_LEN as int, header.centroids as nat * header.dimension as nat);
    words_write_back(bytes, header.cutoffs_at(), (buckets - 1) as nat);
    words_write_back(bytes, header.weights_at(), buckets);
    long_words_write_back(bytes, header.addresses_at(), header.documents as nat);
    long_words_write_back(bytes, header.document_offsets_at(), header.documents as nat + 1);
    words_write_back(bytes, header.codes_at(), header.tokens as nat);
    long_words_write_back(bytes, header.posting_offsets_at(), header.centroids as nat + 1);
    words_write_back(bytes, header.postings_at(), header.postings as nat);
    if header.has_exact_store() {
        long_words_write_back(bytes, header.row_ids_at(), header.documents as nat);
        words_write_back(
            bytes,
            header.raw_values_at(),
            header.tokens as nat * header.dimension as nat,
        );
    }
    assert forall|i: int|
        #![trigger parts[i]]
        0 <= i < parts.len() implies 0 <= marks[i] <= marks[i + 1] <= bytes.len() && parts[i]
        == bytes.subrange(marks[i], marks[i + 1]) by {
        if i == 0 {
        } else if i == 1 {
        } else if i == 2 {
        } else if i == 3 {
        } else if i == 4 {
        } else if i == 5 {
        } else if i == 6 {
        } else if i == 7 {
        } else if i == 8 {
        } else if i == 9 {
            if !header.has_exact_store() {
                assert(parts[9] =~= bytes.subrange(marks[9], marks[10]));
            }
        } else {
            assert(i == 10);
            if !header.has_exact_store() {
                assert(parts[10] =~= bytes.subrange(marks[10], marks[11]));
            }
        }
    }
}

/// The header of a file: eight bytes that name the format, the version in two, the
/// bits of a residual and the flags in one each, a marker, the dimension and the
/// number of centroids in four each, and the numbers of documents, tokens and
/// postings in eight each. All but versions 1 and 2 are refused, and a file of
/// version 2 has the flag that its exact store is there.
pub proof fn headers_lie_at_the_start(bytes: Seq<u8>)
    requires
        length_fault(bytes) is None,
    ensures
        bytes[0] == 0x4c && bytes[1] == 0x50 && bytes[2] == 0x4c && bytes[3] == 0x44,
        bytes[4] == 0x49 && bytes[5] == 0x44 && bytes[6] == 0x58 && bytes[7] == 0x00,
        bytes[8] + 0x100 * bytes[9] == 1 || bytes[8] + 0x100 * bytes[9] == 2,
        bytes[10] == 2 || bytes[10] == 4,
        bytes[11] + 1 == bytes[8] + 0x100 * bytes[9],
        short_number(bytes, 12) == 0x0102_0304,
        header_of(bytes).version == bytes[8] + 0x100 * bytes[9],
        header_of(bytes).nbits == bytes[10],
        header_of(bytes).flags == bytes[11],
        header_of(bytes).dimension == short_number(bytes, 16),
        header_of(bytes).centroids == short_number(bytes, 20),
        header_of(bytes).documents == long_number(bytes, 24),
        header_of(bytes).tokens == long_number(bytes, 32),
        header_of(bytes).postings == long_number(bytes, 40),
        short_number(bytes, 16) > 0,
        short_number(bytes, 20) > 0,
        long_number(bytes, 24) <= 0xffff_ffff,
        long_number(bytes, 40) <= long_number(bytes, 32),
        (short_number(bytes, 16) * bytes[10]) % 8 == 0,
{
    let name = bytes.subrange(0, 8);
    assert(name == magic());
    assert(bytes[0] == name[0] && bytes[1] == name[1] && bytes[2] == name[2] && bytes[3] == name[3]
        && bytes[4] == name[4] && bytes[5] == name[5] && bytes[6] == name[6] && bytes[7]
        == name[7]);
    later_bytes_weigh_more(bytes, 8);
    later_bytes_weigh_more(bytes, 12);
    later_bytes_weigh_more(bytes, 16);
    later_bytes_weigh_more(bytes, 20);
    later_bytes_weigh_more(bytes, 24);
    later_bytes_weigh_more(bytes, 32);
    later_bytes_weigh_more(bytes, 40);
}

/// The sections of a file follow its header one behind the other, each as long as
/// its numbers are: centroids, cutoffs, weights, row addresses, document offsets,
/// token codes, packed residuals, posting offsets and postings, and then, in a file
/// that has them, public row ids and raw token values. Nothing lies behind them.
#[verifier::spinoff_prover]
#[verifier::rlimit(30)]
pub proof fn sections_follow_the_header(bytes: Seq<u8>, place: int)
    requires
        file_fault(bytes) is None,
        place >= 0,
    ensures
        ({
            let header = header_of(bytes);
            let segment = decoded_segment(bytes);
            let values = header.centroids * header.dimension;
            let buckets: int = if header.nbits == 2 {
                4
            } else {
                16
            };
            let bytes_per_token = header.dimension * header.nbits / 8;
            let addresses = 48 + 4 * values + 4 * (2 * buckets - 1);
            let codes = addresses + 8 * header.documents + 8 * (header.documents + 1);
            let posting_offsets = codes + 4 * header.tokens + header.tokens * bytes_per_token;
            let postings = posting_offsets + 8 * (header.centroids + 1);
            let stored = postings + 4 * header.postings;
            &&& segment.centroids.rows == header.centroids
            &&& segment.centroids.columns == header.dimension
            &&& segment.codebook.nbits == header.nbits
            &&& place < values ==> segment.centroids.values[place] == short_number(
                bytes,
                48 + 4 * place,
            )
            &&& place < buckets - 1 ==> segment.codebook.cutoffs[place] == short_number(
                bytes,
                48 + 4 * values + 4 * place,
            )
            &&& place < buckets ==> segment.codebook.weights[place] == short_number(
                bytes,
                48 + 4 * values + 4 * (buckets - 1) + 4 * place,
            )
            &&& segment.row_addresses.len() == header.documents
            &&& place < header.documents ==> segment.row_addresses[place] == long_number(
                bytes,
                addresses + 8 * place,
            )
            &&& place <= header.documents ==> segment.document_offsets[place] == long_number(
                bytes,
                addresses + 8 * header.documents + 8 * place,
            )
            &&& segment.token_codes.len() == header.tokens
            &&& place < header.tokens ==> segment.token_codes[place] == short_number(
                bytes,
                codes + 4 * place,
            )
            &&& place < header.tokens * bytes_per_token ==> segment.packed_residuals[place]
                == bytes[codes + 4 * header.tokens + place]
            &&& place <= header.centroids ==> segment.posting_offsets[place] == long_number(
                bytes,
                posting_offsets + 8 * place,
            )
            &&& segment.postings.len() == header.postings
            &&& place < header.postings ==> segment.postings[place] == short_number(
                bytes,
                postings + 4 * place,
            )
            &&& segment.exact_store is Some <==> header.version == 2
            &&& header.version == 1 ==> bytes.len() == stored
            &&& header.version == 2 ==> {
                let store = segment.exact_store->0;
                let raw = header.tokens * header.dimension;
                &&& bytes.len() == stored + 8 * header.documents + 4 * raw
                &&& place < header.documents ==> store.public_row_ids[place] == long_number(
                    bytes,
                    stored + 8 * place,
                )
                &&& place < raw ==> store.raw_token_values[place] == short_number(
                    bytes,
                    stored + 8 * header.documents + 4 * place,
                )
            }
        }),
{
    let header = header_of(bytes);
    let values = header.centroids as nat * header.dimension as nat;
    let raw = header.tokens as nat * header.dimension as nat;
    sections_lie_in_file(header);
    assert(header.packed_len() == header.dimension * header.nbits / 8);
    if place < values {
        listed_numbers_are_read_in_order(bytes, HEADER_LEN as int, values, place);
    }
    if place < bucket_count(header.nbits) {
        listed_numbers_are_read_in_order(
            bytes,
            header.weights_at(),
            bucket_count(header.nbits),
            place,
        );
    }
    if place < bucket_count(header.nbits) - 1 {
        listed_numbers_are_read_in_order(
            bytes,
            header.cutoffs_at(),
            (bucket_count(header.nbits) - 1) as nat,
            place,
        );
    }
    if place < header.documents {
        listed_numbers_are_read_in_order(
            bytes,
            header.addresses_at(),
            header.documents as nat,
            place,
        );
    }
    if place <= header.documents {
        listed_numbers_are_read_in_order(
            bytes,
            header.document_offsets_at(),
            header.documents as nat + 1,
            place,
        );
    }
    if place < header.tokens {
        listed_numbers_are_read_in_order(bytes, header.codes_at(), header.tokens as nat, place);
    }
    if place <= header.centroids {
        listed_numbers_are_read_in_order(
            bytes,
            header.posting_offsets_at(),
            header.centroids as nat + 1,
            place,
        );
    }
    if place < header.postings {
        listed_numbers_are_read_in_order(
            bytes,
            header.postings_at(),
            header.postings as nat,
            place,
        );
    }
    if header.has_exact_store() {
        if place < header.documents {
            listed_numbers_are_read_in_order(
                bytes,
                header.row_ids_at(),
                header.documents as nat,
                place,
            );
        }
        if place < raw {
            listed_numbers_are_read_in_order(bytes, header.raw_values_at(), raw, place);
        }
    }
}

/// A segment is stored exactly where its dimension and its number of centroids fit
/// into four bytes. A file that is loaded takes the next identity, and one that is
/// refused before it is built takes none.
pub proof fn stored_segments_have_small_shapes(segment: Segment, bytes: Seq<u8>, id: u64)
    ensures
        encode_fault(segment) is None <==> segment.centroids.columns <= 0xffff_ffff
            && segment.centroids.rows <= 0xffff_ffff,
        file_fault(bytes) is None && id < u64::MAX ==> id_after_load(bytes, id) == id + 1,
        length_fault(bytes) is Some ==> id_after_load(bytes, id) == id && file_fault(bytes)
            == length_fault(bytes),
{
}

} // verus!
