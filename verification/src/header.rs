//! The 100-byte header at the start of a database file.

use crate::bytes::{byte_at, bytes_at, spec_be_u16, spec_be_u32, u16_at, u32_at};
use crate::error::{HeaderField, InvalidValueError, MyError};
use vstd::prelude::*;
use vstd::slice::slice_subrange;

verus! {

/// The size of the file header in bytes.
pub const HEADER_SIZE: usize = 100;

/// The file format version of the header's write and read version fields.
#[derive(Clone, Copy, Debug, PartialEq, Eq, Structural)]
pub enum FormatVersion {
    Legacy,
    WriteAheadLog,
}

/// The encoding in which the database stores text.
#[derive(Clone, Copy, Debug, PartialEq, Eq, Structural)]
pub enum TextEncoding {
    Utf8,
    Utf16le,
    Utf16be,
}

/// The decoded file header.
#[derive(Clone, Copy, Debug)]
pub struct Header {
    /// The database page size in bytes.
    pub page_size: usize,
    /// File format write version.
    pub write_version: FormatVersion,
    /// File format read version.
    pub read_version: FormatVersion,
    /// Bytes of unused "reserved" space at the end of each page. Usually 0.
    pub end_page_reserved_bytes: usize,
    /// File change counter.
    pub file_change_counter: usize,
    /// Size of the database file in pages. The "in-header database size".
    pub size_in_pages: usize,
    /// Page number of the first freelist trunk page.
    pub first_feerlist_trunk_page: usize,
    /// Total number of freelist pages.
    pub num_freelist_pages: usize,
    /// The schema cookie.
    pub schema_cookie: u32,
    /// The schema format number. Supported schema formats are 1, 2, 3, and 4.
    pub schema_format: u32,
    /// Default page cache size.
    pub default_page_cache_size: usize,
    /// The page number of the largest root b-tree page when in auto-vacuum or
    /// incremental-vacuum modes, or zero otherwise.
    pub largest_root_btree_page: usize,
    /// The database text encoding.
    pub text_encoding: TextEncoding,
    /// The "user version" as read and set by the user_version pragma.
    pub user_version: u32,
    /// True for incremental-vacuum mode. False otherwise.
    pub incremental_vacuum_mode: bool,
    /// The "Application ID" set by PRAGMA application_id.
    pub application_id: u32,
    /// The version-valid-for number.
    pub version_valid_for: u32,
    /// SQLITE_VERSION_NUMBER
    pub sqlite_version_number: u32,
}

/// The sixteen bytes every database file starts with: `SQLite format 3` and a
/// zero byte.
pub open spec fn magic_bytes() -> Seq<u8> {
    seq![83u8, 81, 76, 105, 116, 101, 32, 102, 111, 114, 109, 97, 116, 32, 51, 0]
}

/// The index of the first byte from `from` on at which `a` and `b` differ, or
/// the length of `a` when there is none.
pub open spec fn first_difference(a: Seq<u8>, b: Seq<u8>, from: nat) -> nat
    decreases a.len() - from,
{
    if from >= a.len() {
        a.len()
    } else if a[from as int] != b[from as int] {
        from
    } else {
        first_difference(a, b, from + 1)
    }
}

/// The page size that the 16-bit header field stands for, if it stands for
/// one: 1 means 65536, any other value must be a power of two from 512 on.
pub open spec fn spec_page_size(raw: u16) -> Option<usize> {
    if raw == 1 {
        Some(65536usize)
    } else if raw == 512 || raw == 1024 || raw == 2048 || raw == 4096 || raw == 8192 || raw
        == 16384 || raw == 32768 {
        Some(raw as usize)
    } else {
        None
    }
}

pub open spec fn spec_format_version(raw: u8) -> Option<FormatVersion> {
    if raw == 1 {
        Some(FormatVersion::Legacy)
    } else if raw == 2 {
        Some(FormatVersion::WriteAheadLog)
    } else {
        None
    }
}

pub open spec fn spec_text_encoding(raw: u32) -> Option<TextEncoding> {
    if raw == 1 {
        Some(TextEncoding::Utf8)
    } else if raw == 2 {
        Some(TextEncoding::Utf16le)
    } else if raw == 3 {
        Some(TextEncoding::Utf16be)
    } else {
        None
    }
}

/// The error that reports `value` as refused in `field`.
pub open spec fn invalid(field: HeaderField, value: int) -> MyError {
    MyError::InvalidHeader(InvalidValueError { field, value: value as u32 })
}

/// The 32-bit big-endian field at byte `at` of the header.
pub open spec fn field_u32(b: Seq<u8>, at: int) -> u32 {
    spec_be_u32(b.subrange(at, at + 4))
}

/// The first header field, in file order, that fails validation, with the
/// value found there. For the magic string and the reserved region the value
/// is the offset in the header of the first byte that is wrong.
pub open spec fn header_fault(b: Seq<u8>) -> Option<MyError> {
    let magic_at = first_difference(b.subrange(0, 16), magic_bytes(), 0);
    let zero_at = first_difference(b.subrange(72, 92), Seq::new(20, |i: int| 0u8), 0);
    if magic_at < 16 {
        Some(invalid(HeaderField::Magic, magic_at as int))
    } else if spec_page_size(spec_be_u16(b.subrange(16, 18))) is None {
        Some(invalid(HeaderField::PageSize, spec_be_u16(b.subrange(16, 18)) as int))
    } else if spec_format_version(b[18]) is None {
        Some(invalid(HeaderField::WriteVersion, b[18] as int))
    } else if spec_format_version(b[19]) is None {
        Some(invalid(HeaderField::ReadVersion, b[19] as int))
    } else if b[21] != 64 {
        Some(invalid(HeaderField::MaxPayloadFraction, b[21] as int))
    } else if b[22] != 32 {
        Some(invalid(HeaderField::MinPayloadFraction, b[22] as int))
    } else if b[23] != 32 {
        Some(invalid(HeaderField::LeafPayloadFraction, b[23] as int))
    } else if !(1 <= field_u32(b, 44) <= 4) {
        Some(invalid(HeaderField::SchemaFormat, field_u32(b, 44) as int))
    } else if spec_text_encoding(field_u32(b, 56)) is None {
        Some(invalid(HeaderField::TextEncoding, field_u32(b, 56) as int))
    } else if field_u32(b, 64) > 1 {
        Some(invalid(HeaderField::IncrementalVacuum, field_u32(b, 64) as int))
    } else if zero_at < 20 {
        Some(invalid(HeaderField::Reserved, 72 + zero_at as int))
    } else {
        None
    }
}

/// The header that 100 valid bytes spell.
pub open spec fn header_of(b: Seq<u8>) -> Header {
    Header {
        page_size: spec_page_size(spec_be_u16(b.subrange(16, 18)))->0,
        write_version: spec_format_version(b[18])->0,
        read_version: spec_format_version(b[19])->0,
        end_page_reserved_bytes: b[20] as usize,
        file_change_counter: field_u32(b, 24) as usize,
        size_in_pages: field_u32(b, 28) as usize,
        first_feerlist_trunk_page: field_u32(b, 32) as usize,
        num_freelist_pages: field_u32(b, 36) as usize,
        schema_cookie: field_u32(b, 40),
        schema_format: field_u32(b, 44),
        default_page_cache_size: field_u32(b, 48) as usize,
        largest_root_btree_page: field_u32(b, 52) as usize,
        text_encoding: spec_text_encoding(field_u32(b, 56))->0,
        user_version: field_u32(b, 60),
        incremental_vacuum_mode: field_u32(b, 64) != 0,
        application_id: field_u32(b, 68),
        version_valid_for: field_u32(b, 92),
        sqlite_version_number: field_u32(b, 96),
    }
}

/// What reading a header from `bytes` gives: `Truncated` for fewer than 100
/// bytes, the first fault of the header if it has one, else the header.
pub open spec fn spec_parse_header(bytes: Seq<u8>) -> Result<Header, MyError> {
    if bytes.len() < 100 {
        Err(MyError::Truncated)
    } else {
        match header_fault(bytes) {
            Some(e) => Err(e),
            None => Ok(header_of(bytes)),
        }
    }
}

impl FormatVersion {
    /// The version that a header byte stands for.
    pub fn try_from(value: u8) -> (r: Option<FormatVersion>)
        ensures
            r == spec_format_version(value),
    {
        if value == 1 {
            Some(FormatVersion::Legacy)
        } else if value == 2 {
            Some(FormatVersion::WriteAheadLog)
        } else {
            None
        }
    }
}

impl TextEncoding {
    /// The encoding that the header's 32-bit field stands for.
    pub fn try_from(value: u32) -> (r: Option<TextEncoding>)
        ensures
            r == spec_text_encoding(value),
    {
        if value == 1 {
            Some(TextEncoding::Utf8)
        } else if value == 2 {
            Some(TextEncoding::Utf16le)
        } else if value == 3 {
            Some(TextEncoding::Utf16be)
        } else {
            None
        }
    }
}

/// The index of the first byte at which `a` differs from `expected`, or the
/// length of `a`.
fn find_difference(a: &[u8], expected: &[u8]) -> (r: usize)
    requires
        a@.len() == expected@.len(),
    ensures
        r == first_difference(a@, expected@, 0),
{
    let mut i: usize = 0;
    while i < a.len()
        invariant
            i <= a@.len(),
            a@.len() == expected@.len(),
            first_difference(a@, expected@, i as nat) == first_difference(a@, expected@, 0),
        decreases a@.len() - i,
    {
        if a[i] != expected[i] {
            return i;
        }
        i = i + 1;
    }
    i
}

fn invalid_header(field: HeaderField, value: u32) -> (e: MyError)
    ensures
        e == invalid(field, value as int),
{
    MyError::InvalidHeader(InvalidValueError { field, value })
}

fn decode_page_size(raw: u16) -> (r: Option<usize>)
    ensures
        r == spec_page_size(raw),
{
    if raw == 1 {
        Some(65536)
    } else if raw == 512 || raw == 1024 || raw == 2048 || raw == 4096 || raw == 8192 || raw
        == 16384 || raw == 32768 {
        Some(raw as usize)
    } else {
        None
    }
}

impl Header {
    /// A header as `parse` returns it: a page size the format allows and at
    /// most 255 reserved bytes.
    pub open spec fn wf(&self) -> bool {
        &&& 512 <= self.page_size <= 65536
        &&& self.end_page_reserved_bytes <= 255
        &&& 1 <= self.schema_format <= 4
    }

    /// Page size minus the reserved bytes at the end of each page.
    pub open spec fn spec_usable_page_size(&self) -> int {
        self.page_size - self.end_page_reserved_bytes
    }

    /// The part of each page that B-tree content may use.
    pub fn usable_page_size(&self) -> (r: usize)
        requires
            self.wf(),
        ensures
            r == self.spec_usable_page_size(),
            257 <= r <= 65536,
    {
        self.page_size - self.end_page_reserved_bytes
    }

    /// Reads the file header from the first 100 bytes of `input` and returns
    /// it with the bytes that follow. Fields are validated in file order and
    /// the first one that fails is reported.
    pub fn parse(input: &[u8]) -> (r: Result<(&[u8], Header), MyError>)
        ensures
            match r {
                Ok((rest, header)) => {
                    &&& spec_parse_header(input@) == Ok::<Header, MyError>(header)
                    &&& header.wf()
                    &&& rest@ == input@.subrange(100, input@.len() as int)
                },
                Err(e) => spec_parse_header(input@) == Err::<Header, MyError>(e),
            },
    {
        if input.len() < HEADER_SIZE {
            return Err(MyError::Truncated);
        }
        let magic: [u8; 16] = [83, 81, 76, 105, 116, 101, 32, 102, 111, 114, 109, 97, 116, 32, 51, 0];
        assert(magic@ =~= magic_bytes());
        let magic_at = find_difference(bytes_at(input, 0, 16), magic.as_slice());
        if magic_at < 16 {
            return Err(invalid_header(HeaderField::Magic, magic_at as u32));
        }
        let raw_page_size = u16_at(input, 16);
        let page_size = match decode_page_size(raw_page_size) {
            Some(size) => size,
            None => { return Err(invalid_header(HeaderField::PageSize, raw_page_size as u32)); },
        };
        let raw_write_version = byte_at(input, 18);
        let write_version = match FormatVersion::try_from(raw_write_version) {
            Some(v) => v,
            None => {
                return Err(invalid_header(HeaderField::WriteVersion, raw_write_version as u32));
            },
        };
        let raw_read_version = byte_at(input, 19);
        let read_version = match FormatVersion::try_from(raw_read_version) {
            Some(v) => v,
            None => {
                return Err(invalid_header(HeaderField::ReadVersion, raw_read_version as u32));
            },
        };
        let end_page_reserved_bytes = byte_at(input, 20);
        let max_embedded_payload_fraction = byte_at(input, 21);
        if max_embedded_payload_fraction != 64 {
            return Err(
                invalid_header(
                    HeaderField::MaxPayloadFraction,
                    max_embedded_payload_fraction as u32,
                ),
            );
        }
        let min_embedded_payload_fraction = byte_at(input, 22);
        if min_embedded_payload_fraction != 32 {
            return Err(
                invalid_header(
                    HeaderField::MinPayloadFraction,
                    min_embedded_payload_fraction as u32,
                ),
            );
        }
        let leaf_payload_fraction = byte_at(input, 23);
        if leaf_payload_fraction != 32 {
            return Err(
                invalid_header(HeaderField::LeafPayloadFraction, leaf_payload_fraction as u32),
            );
        }
        let schema_format = u32_at(input, 44);
        if schema_format < 1 || schema_format > 4 {
            return Err(invalid_header(HeaderField::SchemaFormat, schema_format));
        }
        let raw_text_encoding = u32_at(input, 56);
        let text_encoding = match TextEncoding::try_from(raw_text_encoding) {
            Some(v) => v,
            None => { return Err(invalid_header(HeaderField::TextEncoding, raw_text_encoding)); },
        };
        let incremental_vacuum_mode = u32_at(input, 64);
        if incremental_vacuum_mode > 1 {
            return Err(invalid_header(HeaderField::IncrementalVacuum, incremental_vacuum_mode));
        }
        let expected_zeros: [u8; 20] = [0, 0, 0, 0, 0, 0, 0, 0, 0, 0, 0, 0, 0, 0, 0, 0, 0, 0, 0, 0];
        assert(expected_zeros@ =~= Seq::new(20, |i: int| 0u8));
        let zero_at = find_difference(bytes_at(input, 72, 20), expected_zeros.as_slice());
        if zero_at < 20 {
            return Err(invalid_header(HeaderField::Reserved, (72 + zero_at) as u32));
        }
        let header = Header {
            page_size,
            write_version,
            read_version,
            end_page_reserved_bytes: end_page_reserved_bytes as usize,
            file_change_counter: u32_at(input, 24) as usize,
            size_in_pages: u32_at(input, 28) as usize,
            first_feerlist_trunk_page: u32_at(input, 32) as usize,
            num_freelist_pages: u32_at(input, 36) as usize,
            schema_cookie: u32_at(input, 40),
            schema_format,
            default_page_cache_size: u32_at(input, 48) as usize,
            largest_root_btree_page: u32_at(input, 52) as usize,
            text_encoding,
            user_version: u32_at(input, 60),
            incremental_vacuum_mode: incremental_vacuum_mode != 0,
            application_id: u32_at(input, 68),
            version_valid_for: u32_at(input, 92),
            sqlite_version_number: u32_at(input, 96),
        };
        Ok((slice_subrange(input, HEADER_SIZE, input.len()), header))
    }
}

} // verus!
