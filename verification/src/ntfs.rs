//! Records of the NTFS change journal and master file table, and the paths they describe.
//!
//! A response of the volume is read field by field with every bound checked, so a damaged record
//! or a later layout is reported and never read beyond its end.
use crate::bytes::{get_le16, get_le32, get_le64, to_signed64};
use crate::text::{concat, join, to_decimal};
use crate::utf16;
use std::collections::{HashMap, HashSet};
use vstd::prelude::*;

pub use crate::volume::{
    probe_volume, read_journal_since, snapshot_volume, JournalDelta, JournalInfo, JournalReadError,
    MftSnapshot, VolumeProbe,
};

verus! {

broadcast use vstd::std_specs::hash::group_hash_axioms;

/// The record number of the root directory of every NTFS volume.
pub const ROOT_FILE_REFERENCE: u64 = 5;

/// The count of record numbers: a file reference holds the record number in its low 48 bits and
/// a sequence number, which grows as the record is reused, above them.
pub const RECORD_NUMBERS: u64 = 0x1_0000_0000_0000;

/// The attribute bit of a directory.
pub const FILE_ATTRIBUTE_DIRECTORY: u32 = 0x10;

/// The reason bit of a deletion.
pub const USN_REASON_FILE_DELETE: u32 = 0x200;

/// Why a response of a volume cannot be read.
#[derive(Debug, PartialEq, Eq)]
pub enum NtfsError {
    Malformed(&'static str),
    UnsupportedVersion(u16),
}

/// What an [`NtfsError`] says.
pub enum NtfsErrorView {
    Malformed(Seq<char>),
    UnsupportedVersion(u16),
}

impl View for NtfsError {
    type V = NtfsErrorView;

    open spec fn view(&self) -> NtfsErrorView {
        match *self {
            NtfsError::Malformed(detail) => NtfsErrorView::Malformed(detail@),
            NtfsError::UnsupportedVersion(version) => NtfsErrorView::UnsupportedVersion(version),
        }
    }
}

impl NtfsErrorView {
    /// The wording of an error.
    pub open spec fn wording(self) -> Seq<char> {
        match self {
            NtfsErrorView::Malformed(detail) => "USN 缓冲区不完整："@ + detail,
            NtfsErrorView::UnsupportedVersion(version) => "不支持的 USN 主版本："@
                + crate::text::decimal(version as nat),
        }
    }
}

impl NtfsError {
    /// The wording of the error.
    pub fn message(&self) -> (text: String)
        ensures
            text@ == self@.wording(),
    {
        match self {
            NtfsError::Malformed(detail) => concat("USN 缓冲区不完整：", detail),
            NtfsError::UnsupportedVersion(version) => concat(
                "不支持的 USN 主版本：",
                to_decimal(*version as u64).as_str(),
            ),
        }
    }
}

/// One record of the change journal or the master file table.
#[derive(Debug, Clone, PartialEq, Eq)]
pub struct UsnRecord {
    pub file_reference_number: u64,
    pub parent_file_reference_number: u64,
    pub usn: i64,
    pub timestamp_filetime: i64,
    pub reason: u32,
    pub file_attributes: u32,
    pub name: String,
}

/// What a [`UsnRecord`] says.
pub struct RecordView {
    pub file_reference_number: u64,
    pub parent_file_reference_number: u64,
    pub usn: i64,
    pub timestamp_filetime: i64,
    pub reason: u32,
    pub file_attributes: u32,
    pub name: Seq<char>,
}

impl View for UsnRecord {
    type V = RecordView;

    open spec fn view(&self) -> RecordView {
        RecordView {
            file_reference_number: self.file_reference_number,
            parent_file_reference_number: self.parent_file_reference_number,
            usn: self.usn,
            timestamp_filetime: self.timestamp_filetime,
            reason: self.reason,
            file_attributes: self.file_attributes,
            name: self.name@,
        }
    }
}

/// The views of a list of records.
pub open spec fn record_views(records: Seq<UsnRecord>) -> Seq<RecordView> {
    Seq::new(records.len(), |i: int| records[i]@)
}

impl RecordView {
    pub open spec fn is_directory(self) -> bool {
        self.file_attributes & FILE_ATTRIBUTE_DIRECTORY != 0
    }

    pub open spec fn is_deleted(self) -> bool {
        self.reason & USN_REASON_FILE_DELETE != 0
    }
}

/// The kind of a record is one bit of its attributes, and that it was deleted is one bit of its
/// reason: the other bits do not matter.
pub proof fn law_other_bits_do_not_matter(record: RecordView, bits: u32, more: u32)
    ensures
        (RecordView { file_attributes: bits | 0x10 | more, ..record }).is_directory(),
        !(RecordView { file_attributes: bits & !0x10, ..record }).is_directory(),
        record.is_directory() <==> record.file_attributes / 16 % 2 == 1,
        (RecordView { reason: bits | 0x200 | more, ..record }).is_deleted(),
        !(RecordView { reason: bits & !0x200, ..record }).is_deleted(),
        record.is_deleted() <==> record.reason / 512 % 2 == 1,
{
    assert((bits | 0x10 | more) & 0x10 != 0 && (bits & !0x10) & 0x10 == 0 && (bits | 0x200 | more)
        & 0x200 != 0 && (bits & !0x200) & 0x200 == 0) by (bit_vector);
    let attributes = record.file_attributes;
    let reason = record.reason;
    assert(attributes & 0x10 != 0 <==> attributes / 16 % 2 == 1) by (bit_vector);
    assert(reason & 0x200 != 0 <==> reason / 512 % 2 == 1) by (bit_vector);
}

/// Whether the record describes a directory.
pub fn is_directory(record: &UsnRecord) -> (yes: bool)
    ensures
        yes == record@.is_directory(),
{
    record.file_attributes & FILE_ATTRIBUTE_DIRECTORY != 0
}

/// Whether the record reports a deletion.
pub fn is_deleted(record: &UsnRecord) -> (yes: bool)
    ensures
        yes == record@.is_deleted(),
{
    record.reason & USN_REASON_FILE_DELETE != 0
}

// ---------------------------------------------------------------------------
// Reading a response
// ---------------------------------------------------------------------------

/// The code units of the name that stands in `bytes` from `at`, `length` bytes long.
pub open spec fn name_units(bytes: Seq<u8>, at: int, length: int) -> Seq<u16> {
    Seq::new((length / 2) as nat, |i: int| crate::bytes::le16(bytes, at + 2 * i))
}

/// The record that begins at `cursor` and the position behind it, or why there is none.
pub open spec fn record_at(buffer: Seq<u8>, cursor: int) -> Result<
    (RecordView, int),
    NtfsErrorView,
> {
    let length = crate::bytes::le32(buffer, cursor);
    let version = crate::bytes::le16(buffer, cursor + 4);
    let name_length = crate::bytes::le16(buffer, cursor + 56);
    let name_offset = crate::bytes::le16(buffer, cursor + 58);
    if buffer.len() - cursor < 4 {
        Err(NtfsErrorView::Malformed("USN 字段越界"@))
    } else if length < 60 {
        Err(NtfsErrorView::Malformed("USN_RECORD_V2 长度不足"@))
    } else if cursor + length > usize::MAX {
        Err(NtfsErrorView::Malformed("USN 记录长度溢出"@))
    } else if cursor + length > buffer.len() {
        Err(NtfsErrorView::Malformed("USN 记录超出缓冲区"@))
    } else if version != 2 {
        Err(NtfsErrorView::UnsupportedVersion(version))
    } else if name_length % 2 != 0 || name_offset < 60 || name_offset + name_length > length {
        Err(NtfsErrorView::Malformed("文件名范围无效"@))
    } else {
        Ok(
            (
                RecordView {
                    file_reference_number: crate::bytes::le64(buffer, cursor + 8) % RECORD_NUMBERS,
                    parent_file_reference_number: crate::bytes::le64(buffer, cursor + 16)
                        % RECORD_NUMBERS,
                    usn: crate::bytes::signed64(crate::bytes::le64(buffer, cursor + 24)),
                    timestamp_filetime: crate::bytes::signed64(
                        crate::bytes::le64(buffer, cursor + 32),
                    ),
                    reason: crate::bytes::le32(buffer, cursor + 40),
                    file_attributes: crate::bytes::le32(buffer, cursor + 52),
                    name: utf16::text_of(
                        name_units(buffer, cursor + name_offset, name_length as int),
                    ),
                },
                cursor + length,
            ),
        )
    }
}

/// The records from `cursor` to the end of the buffer, or why one of them cannot be read.
pub open spec fn records_from(buffer: Seq<u8>, cursor: int) -> Result<
    Seq<RecordView>,
    NtfsErrorView,
>
    decreases buffer.len() - cursor,
{
    if cursor >= buffer.len() {
        Ok(Seq::empty())
    } else {
        match record_at(buffer, cursor) {
            Err(error) => Err(error),
            Ok((record, end)) => {
                if cursor < end {
                    match records_from(buffer, end) {
                        Err(error) => Err(error),
                        Ok(rest) => Ok(seq![record] + rest),
                    }
                } else {
                    Ok(Seq::empty())
                }
            },
        }
    }
}

/// What a response holds: a next position in its first eight bytes, then records to its end.
pub open spec fn parsed(buffer: Seq<u8>) -> Result<Seq<RecordView>, NtfsErrorView> {
    if buffer.len() < 8 {
        Err(NtfsErrorView::Malformed("缺少下一 USN"@))
    } else {
        records_from(buffer, 8)
    }
}

/// The views of a result of reading records.
pub open spec fn parse_view(result: Result<Vec<UsnRecord>, NtfsError>) -> Result<
    Seq<RecordView>,
    NtfsErrorView,
> {
    match result {
        Ok(records) => Ok(record_views(records@)),
        Err(error) => Err(error@),
    }
}

fn read_u16(buffer: &[u8], offset: usize) -> (result: Result<u16, NtfsError>)
    requires
        offset <= 60,
    ensures
        offset + 2 <= buffer@.len() ==> result == Ok::<u16, NtfsError>(
            crate::bytes::le16(buffer@, offset as int),
        ),
        offset + 2 > buffer@.len() ==> (result matches Err(error) && error@
            == NtfsErrorView::Malformed("USN 字段越界"@)),
{
    if offset + 2 > buffer.len() {
        return Err(NtfsError::Malformed("USN 字段越界"));
    }
    Ok(get_le16(buffer, offset))
}

fn read_u32(buffer: &[u8], offset: usize) -> (result: Result<u32, NtfsError>)
    requires
        offset <= 60,
    ensures
        offset + 4 <= buffer@.len() ==> result == Ok::<u32, NtfsError>(
            crate::bytes::le32(buffer@, offset as int),
        ),
        offset + 4 > buffer@.len() ==> (result matches Err(error) && error@
            == NtfsErrorView::Malformed("USN 字段越界"@)),
{
    if offset + 4 > buffer.len() {
        return Err(NtfsError::Malformed("USN 字段越界"));
    }
    Ok(get_le32(buffer, offset))
}

fn read_u64(buffer: &[u8], offset: usize) -> (result: Result<u64, NtfsError>)
    requires
        offset <= 60,
    ensures
        offset + 8 <= buffer@.len() ==> result == Ok::<u64, NtfsError>(
            crate::bytes::le64(buffer@, offset as int),
        ),
        offset + 8 > buffer@.len() ==> (result matches Err(error) && error@
            == NtfsErrorView::Malformed("USN 字段越界"@)),
{
    if offset + 8 > buffer.len() {
        return Err(NtfsError::Malformed("USN 字段越界"));
    }
    Ok(get_le64(buffer, offset))
}

fn read_i64(buffer: &[u8], offset: usize) -> (result: Result<i64, NtfsError>)
    requires
        offset <= 60,
    ensures
        offset + 8 <= buffer@.len() ==> result == Ok::<i64, NtfsError>(
            crate::bytes::signed64(crate::bytes::le64(buffer@, offset as int)),
        ),
        offset + 8 > buffer@.len() ==> (result matches Err(error) && error@
            == NtfsErrorView::Malformed("USN 字段越界"@)),
{
    match read_u64(buffer, offset) {
        Ok(value) => Ok(to_signed64(value)),
        Err(error) => Err(error),
    }
}

/// The code units of a name.
fn read_units(bytes: &[u8]) -> (units: Vec<u16>)
    requires
        bytes@.len() % 2 == 0,
    ensures
        units@ == name_units(bytes@, 0, bytes@.len() as int),
{
    let mut units: Vec<u16> = Vec::new();
    let mut i: usize = 0;
    while i < bytes.len()
        invariant
            i <= bytes.len(),
            i % 2 == 0,
            bytes.len() % 2 == 0,
            units@ == name_units(bytes@, 0, bytes@.len() as int).take(i as int / 2),
        decreases bytes.len() - i,
    {
        assert(i + 2 <= bytes.len());
        units.push(get_le16(bytes, i));
        i += 2;
    }
    units
}

/// The record that begins at `cursor` and the position behind it.
#[verifier::spinoff_prover]
#[verifier::rlimit(40)]
fn read_record(buffer: &[u8], cursor: usize) -> (result: Result<(UsnRecord, usize), NtfsError>)
    requires
        cursor < buffer@.len(),
    ensures
        result matches Ok((record, end)) ==> record_at(buffer@, cursor as int) == Ok::<
            (RecordView, int),
            NtfsErrorView,
        >((record@, end as int)) && cursor < end <= buffer@.len(),
        result matches Err(error) ==> record_at(buffer@, cursor as int) == Err::<
            (RecordView, int),
            NtfsErrorView,
        >(error@),
{
    let rest = vstd::slice::slice_subrange(buffer, cursor, buffer.len());
    let ghost b = buffer@;
    let ghost c = cursor as int;
    let record_length: usize = match read_u32(rest, 0) {
        Ok(length) => length as usize,
        Err(error) => return Err(error),
    };
    assert(record_length == crate::bytes::le32(b, c));
    if record_length < 60 {
        return Err(NtfsError::Malformed("USN_RECORD_V2 长度不足"));
    }
    let end: usize = match cursor.checked_add(record_length) {
        Some(end) => end,
        None => return Err(NtfsError::Malformed("USN 记录长度溢出")),
    };
    if end > buffer.len() {
        return Err(NtfsError::Malformed("USN 记录超出缓冲区"));
    }
    let record = vstd::slice::slice_subrange(buffer, cursor, end);
    assert(forall|i: int| 0 <= i < record_length ==> record@[i] == b[c + i]);
    let major_version: u16 = match read_u16(record, 4) {
        Ok(version) => version,
        Err(error) => return Err(error),
    };
    if major_version != 2 {
        return Err(NtfsError::UnsupportedVersion(major_version));
    }
    let name_length: usize = match read_u16(record, 56) {
        Ok(length) => length as usize,
        Err(error) => return Err(error),
    };
    let name_offset: usize = match read_u16(record, 58) {
        Ok(offset) => offset as usize,
        Err(error) => return Err(error),
    };
    let name_end: usize = name_offset + name_length;
    if name_length % 2 != 0 || name_offset < 60 || name_end > record.len() {
        return Err(NtfsError::Malformed("文件名范围无效"));
    }
    let name_bytes = vstd::slice::slice_subrange(record, name_offset, name_end);
    let units = read_units(name_bytes);
    assert(units@ =~= name_units(b, c + name_offset, name_length as int));
    let name = utf16::decode(units.as_slice());
    let file_reference: u64 = match read_u64(record, 8) {
        Ok(value) => value,
        Err(error) => return Err(error),
    };
    let parent_reference: u64 = match read_u64(record, 16) {
        Ok(value) => value,
        Err(error) => return Err(error),
    };
    let usn: i64 = match read_i64(record, 24) {
        Ok(value) => value,
        Err(error) => return Err(error),
    };
    let timestamp_filetime: i64 = match read_i64(record, 32) {
        Ok(value) => value,
        Err(error) => return Err(error),
    };
    let reason: u32 = match read_u32(record, 40) {
        Ok(value) => value,
        Err(error) => return Err(error),
    };
    let file_attributes: u32 = match read_u32(record, 52) {
        Ok(value) => value,
        Err(error) => return Err(error),
    };
    Ok(
        (
            UsnRecord {
                // Only the record number connects the tree: with the sequence number in it the
                // root would never equal `ROOT_FILE_REFERENCE`.
                file_reference_number: file_reference % RECORD_NUMBERS,
                parent_file_reference_number: parent_reference % RECORD_NUMBERS,
                usn,
                timestamp_filetime,
                reason,
                file_attributes,
                name,
            },
            end,
        ),
    )
}

/// Reads a response to an enumeration of the master file table or to a read of the journal. Its
/// first eight bytes are the position for the next request and belong to no record.
pub fn parse_usn_buffer(buffer: &[u8]) -> (result: Result<Vec<UsnRecord>, NtfsError>)
    ensures
        parse_view(result) == parsed(buffer@),
{
    if buffer.len() < 8 {
        return Err(NtfsError::Malformed("缺少下一 USN"));
    }
    let mut records: Vec<UsnRecord> = Vec::new();
    let mut cursor: usize = 8;
    while cursor < buffer.len()
        invariant
            8 <= cursor <= buffer.len(),
            match records_from(buffer@, cursor as int) {
                Ok(rest) => records_from(buffer@, 8) == Ok::<Seq<RecordView>, NtfsErrorView>(
                    record_views(records@) + rest,
                ),
                Err(error) => records_from(buffer@, 8) == Err::<Seq<RecordView>, NtfsErrorView>(
                    error,
                ),
            },
        decreases buffer.len() - cursor,
    {
        match read_record(buffer, cursor) {
            Err(error) => return Err(error),
            Ok((record, end)) => {
                let ghost before = record_views(records@);
                let ghost view = record@;
                records.push(record);
                proof {
                    assert(record_views(records@) =~= before + seq![view]);
                    if let Ok(rest) = records_from(buffer@, end as int) {
                        assert(before + (seq![view] + rest) =~= record_views(records@) + rest);
                    }
                }
                cursor = end;
            },
        }
    }
    assert(record_views(records@) + Seq::<RecordView>::empty() =~= record_views(records@));
    Ok(records)
}

/// The numbers of records that were read carry no sequence bits, so that they lead to each other.
pub proof fn law_record_numbers_have_no_sequence_bits(buffer: Seq<u8>, cursor: int)
    ensures
        match records_from(buffer, cursor) {
            Ok(records) => forall|i: int|
                0 <= i < records.len() ==> (#[trigger] records[i]).file_reference_number
                    < RECORD_NUMBERS && records[i].parent_file_reference_number < RECORD_NUMBERS,
            Err(_) => true,
        },
    decreases buffer.len() - cursor,
{
    if cursor < buffer.len() {
        if let Ok((record, end)) = record_at(buffer, cursor) {
            if cursor < end {
                law_record_numbers_have_no_sequence_bits(buffer, end);
            }
        }
    }
}

// ---------------------------------------------------------------------------
// Writing a response
// ---------------------------------------------------------------------------

/// The bytes of code units, the low byte of each first.
pub open spec fn unit_bytes(units: Seq<u16>) -> Seq<u8> {
    Seq::new(
        units.len() * 2,
        |i: int|
            if i % 2 == 0 {
                (units[i / 2] % 0x100) as u8
            } else {
                (units[i / 2] / 0x100) as u8
            },
    )
}

/// How many bytes a record with the given name has.
pub open spec fn encoded_length(name: Seq<char>) -> nat {
    60 + 2 * utf16::units_of(name).len()
}

/// A record as a volume writes it, with what it says of sources and owners left at zero: its length
/// and version, the references, the position, the time, the reason, the attributes, the length and
/// the place of the name, and the name.
#[verifier::opaque]
pub open spec fn encoded(record: RecordView) -> Seq<u8> {
    let units = utf16::units_of(record.name);
    crate::bytes::le_bytes(encoded_length(record.name), 4) + crate::bytes::le_bytes(2, 2)
        + crate::bytes::le_bytes(0, 2) + crate::bytes::le_bytes(
        record.file_reference_number as nat,
        8,
    ) + crate::bytes::le_bytes(record.parent_file_reference_number as nat, 8)
        + crate::bytes::le_bytes(crate::bytes::unsigned64(record.usn) as nat, 8)
        + crate::bytes::le_bytes(crate::bytes::unsigned64(record.timestamp_filetime) as nat, 8)
        + crate::bytes::le_bytes(record.reason as nat, 4) + crate::bytes::le_bytes(0, 8)
        + crate::bytes::le_bytes(record.file_attributes as nat, 4) + crate::bytes::le_bytes(
        2 * units.len(),
        2,
    ) + crate::bytes::le_bytes(60, 2) + unit_bytes(units)
}

/// Records as a volume writes them, one behind the other.
pub open spec fn encoded_all(records: Seq<RecordView>) -> Seq<u8>
    decreases records.len(),
{
    if records.len() == 0 {
        Seq::empty()
    } else {
        encoded(records[0]) + encoded_all(records.skip(1))
    }
}

/// A file reference with its sequence bits cleared.
pub open spec fn record_number(reference: u64) -> u64 {
    reference & 0xffff_ffff_ffff
}

/// A record with the sequence bits of its references cleared.
pub open spec fn without_sequences(record: RecordView) -> RecordView {
    RecordView {
        file_reference_number: record_number(record.file_reference_number),
        parent_file_reference_number: record_number(record.parent_file_reference_number),
        ..record
    }
}

/// Whether the name of a record fits into it.
pub open spec fn has_writable_name(record: RecordView) -> bool {
    utf16::units_of(record.name).len() <= 32767
}

/// The bytes of code units are read as those code units.
proof fn lemma_name_units(bytes: Seq<u8>, at: int, units: Seq<u16>)
    requires
        0 <= at,
        at + 2 * units.len() <= bytes.len(),
        bytes.subrange(at, at + 2 * units.len()) == unit_bytes(units),
    ensures
        name_units(bytes, at, (2 * units.len()) as int) == units,
{
    let part = bytes.subrange(at, at + 2 * units.len());
    let read = name_units(bytes, at, (2 * units.len()) as int);
    assert forall|i: int| 0 <= i < units.len() implies read[i] == units[i] by {
        assert(part[2 * i] == bytes[at + 2 * i]);
        assert(part[2 * i + 1] == bytes[at + 2 * i + 1]);
        assert((2 * i) / 2 == i && (2 * i + 1) / 2 == i);
    }
    assert(read =~= units);
}

/// Where the fields of a record stand.
#[verifier::spinoff_prover]
#[verifier::rlimit(40)]
proof fn lemma_fields(record: RecordView)
    requires
        has_writable_name(record),
    ensures
        ({
            let bytes = encoded(record);
            let units = utf16::units_of(record.name);
            &&& bytes.len() == encoded_length(record.name)
            &&& bytes.subrange(0, 4) == crate::bytes::le_bytes(encoded_length(record.name), 4)
            &&& bytes.subrange(4, 6) == crate::bytes::le_bytes(2, 2)
            &&& bytes.subrange(8, 16) == crate::bytes::le_bytes(
                record.file_reference_number as nat,
                8,
            )
            &&& bytes.subrange(16, 24) == crate::bytes::le_bytes(
                record.parent_file_reference_number as nat,
                8,
            )
            &&& bytes.subrange(24, 32) == crate::bytes::le_bytes(
                crate::bytes::unsigned64(record.usn) as nat,
                8,
            )
            &&& bytes.subrange(32, 40) == crate::bytes::le_bytes(
                crate::bytes::unsigned64(record.timestamp_filetime) as nat,
                8,
            )
            &&& bytes.subrange(40, 44) == crate::bytes::le_bytes(record.reason as nat, 4)
            &&& bytes.subrange(52, 56) == crate::bytes::le_bytes(record.file_attributes as nat, 4)
            &&& bytes.subrange(56, 58) == crate::bytes::le_bytes(2 * units.len(), 2)
            &&& bytes.subrange(58, 60) == crate::bytes::le_bytes(60, 2)
            &&& bytes.subrange(60, (60 + 2 * units.len()) as int) == unit_bytes(units)
        }),
{
    reveal(encoded);
    let units = utf16::units_of(record.name);
    crate::bytes::lemma_le_bytes_len(encoded_length(record.name), 4);
    crate::bytes::lemma_le_bytes_len(2, 2);
    crate::bytes::lemma_le_bytes_len(0, 2);
    crate::bytes::lemma_le_bytes_len(record.file_reference_number as nat, 8);
    crate::bytes::lemma_le_bytes_len(record.parent_file_reference_number as nat, 8);
    crate::bytes::lemma_le_bytes_len(crate::bytes::unsigned64(record.usn) as nat, 8);
    crate::bytes::lemma_le_bytes_len(crate::bytes::unsigned64(record.timestamp_filetime) as nat, 8);
    crate::bytes::lemma_le_bytes_len(record.reason as nat, 4);
    crate::bytes::lemma_le_bytes_len(0, 8);
    crate::bytes::lemma_le_bytes_len(record.file_attributes as nat, 4);
    crate::bytes::lemma_le_bytes_len(2 * units.len(), 2);
    crate::bytes::lemma_le_bytes_len(60, 2);
    let bytes = encoded(record);
    assert(bytes.subrange(0, 4) =~= crate::bytes::le_bytes(encoded_length(record.name), 4));
    assert(bytes.subrange(4, 6) =~= crate::bytes::le_bytes(2, 2));
    assert(bytes.subrange(8, 16) =~= crate::bytes::le_bytes(
        record.file_reference_number as nat,
        8,
    ));
    assert(bytes.subrange(16, 24) =~= crate::bytes::le_bytes(
        record.parent_file_reference_number as nat,
        8,
    ));
    assert(bytes.subrange(24, 32) =~= crate::bytes::le_bytes(
        crate::bytes::unsigned64(record.usn) as nat,
        8,
    ));
    assert(bytes.subrange(32, 40) =~= crate::bytes::le_bytes(
        crate::bytes::unsigned64(record.timestamp_filetime) as nat,
        8,
    ));
    assert(bytes.subrange(40, 44) =~= crate::bytes::le_bytes(record.reason as nat, 4));
    assert(bytes.subrange(52, 56) =~= crate::bytes::le_bytes(record.file_attributes as nat, 4));
    assert(bytes.subrange(56, 58) =~= crate::bytes::le_bytes(2 * units.len(), 2));
    assert(bytes.subrange(58, 60) =~= crate::bytes::le_bytes(60, 2));
    assert(bytes.subrange(60, (60 + 2 * units.len()) as int) =~= unit_bytes(units));
}

/// A field of a record stands as far behind its beginning in a buffer.
proof fn lemma_field_in_buffer(buffer: Seq<u8>, cursor: int, record: Seq<u8>, from: int, to: int)
    requires
        0 <= cursor,
        0 <= from <= to <= record.len(),
        cursor + record.len() <= buffer.len(),
        buffer.subrange(cursor, cursor + record.len()) == record,
    ensures
        buffer.subrange(cursor + from, cursor + to) == record.subrange(from, to),
{
    let part = buffer.subrange(cursor, cursor + record.len());
    assert(part.subrange(from, to) =~= buffer.subrange(cursor + from, cursor + to));
}

/// A record that was written anywhere in a buffer is read there, up to the sequence bits of its
/// references.
pub proof fn law_record_is_read_as_it_was_written(
    buffer: Seq<u8>,
    cursor: int,
    record: RecordView,
)
    requires
        has_writable_name(record),
        0 <= cursor,
        cursor + encoded(record).len() <= buffer.len() <= usize::MAX,
        buffer.subrange(cursor, cursor + encoded(record).len()) == encoded(record),
    ensures
        record_at(buffer, cursor) == Ok::<(RecordView, int), NtfsErrorView>(
            (without_sequences(record), cursor + encoded(record).len()),
        ),
{
    let bytes = encoded(record);
    let units = utf16::units_of(record.name);
    let file = record.file_reference_number;
    let parent = record.parent_file_reference_number;
    lemma_fields(record);
    lemma_field_in_buffer(buffer, cursor, bytes, 0, 4);
    lemma_field_in_buffer(buffer, cursor, bytes, 4, 6);
    lemma_field_in_buffer(buffer, cursor, bytes, 8, 16);
    lemma_field_in_buffer(buffer, cursor, bytes, 16, 24);
    lemma_field_in_buffer(buffer, cursor, bytes, 24, 32);
    lemma_field_in_buffer(buffer, cursor, bytes, 32, 40);
    lemma_field_in_buffer(buffer, cursor, bytes, 40, 44);
    lemma_field_in_buffer(buffer, cursor, bytes, 52, 56);
    lemma_field_in_buffer(buffer, cursor, bytes, 56, 58);
    lemma_field_in_buffer(buffer, cursor, bytes, 58, 60);
    lemma_field_in_buffer(buffer, cursor, bytes, 60, (60 + 2 * units.len()) as int);
    crate::bytes::lemma_le32_at(buffer, cursor, bytes.len() as u32);
    crate::bytes::law_le16_gives_back_what_le_bytes_wrote(buffer, cursor + 4, 2);
    crate::bytes::law_le64_gives_back_what_le_bytes_wrote(buffer, cursor + 8, file);
    crate::bytes::law_le64_gives_back_what_le_bytes_wrote(buffer, cursor + 16, parent);
    crate::bytes::law_le64_gives_back_what_le_bytes_wrote(
        buffer,
        cursor + 24,
        crate::bytes::unsigned64(record.usn),
    );
    crate::bytes::law_le64_gives_back_what_le_bytes_wrote(
        buffer,
        cursor + 32,
        crate::bytes::unsigned64(record.timestamp_filetime),
    );
    crate::bytes::lemma_le32_at(buffer, cursor + 40, record.reason);
    crate::bytes::lemma_le32_at(buffer, cursor + 52, record.file_attributes);
    crate::bytes::law_le16_gives_back_what_le_bytes_wrote(
        buffer,
        cursor + 56,
        (2 * units.len()) as u16,
    );
    crate::bytes::law_le16_gives_back_what_le_bytes_wrote(buffer, cursor + 58, 60);
    lemma_name_units(buffer, cursor + 60, units);
    utf16::law_decode_gives_back_what_was_encoded(record.name);
    assert(file % 0x1_0000_0000_0000 == file & 0xffff_ffff_ffff) by (bit_vector);
    assert(parent % 0x1_0000_0000_0000 == parent & 0xffff_ffff_ffff) by (bit_vector);
}

/// Reading undoes writing: whatever stands in the first eight bytes, records that were written
/// behind them are read, up to the sequence bits of their references.
pub proof fn law_reading_undoes_writing(head: Seq<u8>, records: Seq<RecordView>)
    requires
        head.len() == 8,
        forall|i: int| 0 <= i < records.len() ==> has_writable_name(#[trigger] records[i]),
        (head + encoded_all(records)).len() <= usize::MAX,
    ensures
        parsed(head + encoded_all(records)) == Ok::<Seq<RecordView>, NtfsErrorView>(
            Seq::new(records.len(), |i: int| without_sequences(records[i])),
        ),
{
    lemma_written_records(head, records);
}

proof fn lemma_written_records(before: Seq<u8>, records: Seq<RecordView>)
    requires
        forall|i: int| 0 <= i < records.len() ==> has_writable_name(#[trigger] records[i]),
        (before + encoded_all(records)).len() <= usize::MAX,
    ensures
        records_from(before + encoded_all(records), before.len() as int) == Ok::<
            Seq<RecordView>,
            NtfsErrorView,
        >(Seq::new(records.len(), |i: int| without_sequences(records[i]))),
    decreases records.len(),
{
    let buffer = before + encoded_all(records);
    let read = Seq::new(records.len(), |i: int| without_sequences(records[i]));
    if records.len() == 0 {
        assert(read =~= Seq::empty());
    } else {
        let first = encoded(records[0]);
        let rest = records.skip(1);
        let cursor = before.len() as int;
        assert(has_writable_name(records[0]));
        assert(first.len() >= 60) by {
            lemma_fields(records[0]);
        }
        assert(buffer =~= before + first + encoded_all(rest));
        assert(record_at(buffer, cursor) == Ok::<(RecordView, int), NtfsErrorView>(
            (without_sequences(records[0]), cursor + first.len()),
        )) by {
            assert(buffer.subrange(cursor, cursor + first.len()) =~= first);
            law_record_is_read_as_it_was_written(buffer, cursor, records[0]);
        }
        assert forall|i: int| 0 <= i < rest.len() implies has_writable_name(#[trigger] rest[i]) by {
            assert(rest[i] == records[i + 1]);
        }
        lemma_written_records(before + first, rest);
        let others = Seq::new(rest.len(), |i: int| without_sequences(rest[i]));
        assert(read =~= seq![without_sequences(records[0])] + others);
    }
}

// ---------------------------------------------------------------------------
// Paths
// ---------------------------------------------------------------------------

/// The last record with the given number.
pub open spec fn last_record(records: Seq<RecordView>, reference: u64) -> Option<RecordView>
    decreases records.len(),
{
    if records.len() == 0 {
        None
    } else if records.last().file_reference_number == reference {
        Some(records.last())
    } else {
        last_record(records.drop_last(), reference)
    }
}

/// The number reached from `reference` by going `steps` times to the parent. It is not defined
/// beyond the root, nor beyond a number that has no record.
pub open spec fn ancestor(records: Seq<RecordView>, reference: u64, steps: nat) -> Option<u64>
    decreases steps,
{
    if steps == 0 {
        Some(reference)
    } else {
        match ancestor(records, reference, (steps - 1) as nat) {
            None => None,
            Some(number) => {
                if number == ROOT_FILE_REFERENCE {
                    None
                } else {
                    match last_record(records, number) {
                        Some(record) => Some(record.parent_file_reference_number),
                        None => None,
                    }
                }
            },
        }
    }
}

/// The names on the way down to `reference` from its ancestor `steps` above, that ancestor's own
/// name left out.
pub open spec fn names_below(records: Seq<RecordView>, reference: u64, steps: nat) -> Seq<Seq<char>>
    decreases steps,
{
    if steps == 0 {
        Seq::empty()
    } else {
        let number = ancestor(records, reference, (steps - 1) as nat)->0;
        seq![last_record(records, number)->0.name] + names_below(
            records,
            reference,
            (steps - 1) as nat,
        )
    }
}

/// Whether the root is reached from `reference` in `steps` steps.
pub open spec fn reaches_root(records: Seq<RecordView>, reference: u64, steps: nat) -> bool {
    ancestor(records, reference, steps) == Some(ROOT_FILE_REFERENCE)
}

/// The path of a record below the root: the names from the root down, joined by `/`. A record
/// from which the root is not reached has none.
pub open spec fn resolved_path(records: Seq<RecordView>, reference: u64) -> Option<Seq<char>> {
    if exists|steps: nat| reaches_root(records, reference, steps) {
        let steps = choose|steps: nat| reaches_root(records, reference, steps);
        Some(crate::text::joined(names_below(records, reference, steps), "/"@))
    } else {
        None
    }
}

/// Once the way up has ended, it stays ended.
proof fn lemma_ancestor_ends(records: Seq<RecordView>, reference: u64, end: nat, later: nat)
    requires
        end < later,
        ancestor(records, reference, end) is None || reaches_root(records, reference, end),
    ensures
        ancestor(records, reference, later) is None,
    decreases later,
{
    if later > end + 1 {
        lemma_ancestor_ends(records, reference, end, (later - 1) as nat);
    }
}

/// The root is reached in one number of steps at most.
proof fn lemma_reaches_root_once(records: Seq<RecordView>, reference: u64, a: nat, b: nat)
    requires
        reaches_root(records, reference, a),
        reaches_root(records, reference, b),
    ensures
        a == b,
{
    if a < b {
        lemma_ancestor_ends(records, reference, a, b);
    } else if b < a {
        lemma_ancestor_ends(records, reference, b, a);
    }
}

/// Where a number recurs, what follows it recurs.
proof fn lemma_ancestor_repeats(
    records: Seq<RecordView>,
    reference: u64,
    first: nat,
    second: nat,
    more: nat,
)
    requires
        ancestor(records, reference, first) == ancestor(records, reference, second),
    ensures
        ancestor(records, reference, first + more) == ancestor(records, reference, second + more),
    decreases more,
{
    if more > 0 {
        lemma_ancestor_repeats(records, reference, first, second, (more - 1) as nat);
    }
}

/// Where a number recurs on the way up, the record has no path.
pub proof fn law_cycle_has_no_path(
    records: Seq<RecordView>,
    reference: u64,
    first: nat,
    second: nat,
)
    requires
        first < second,
        ancestor(records, reference, first) == ancestor(records, reference, second),
        ancestor(records, reference, second) is Some,
    ensures
        resolved_path(records, reference) is None,
{
    assert forall|steps: nat| !reaches_root(records, reference, steps) by {
        if reaches_root(records, reference, steps) {
            if steps < second {
                lemma_ancestor_ends(records, reference, steps, second);
            } else {
                let more = (steps - second) as nat;
                lemma_ancestor_repeats(records, reference, first, second, more);
                lemma_ancestor_ends(records, reference, first + more, steps);
            }
        }
    }
}

/// Where the way up meets a number without a record, the record has no path.
pub proof fn law_gap_has_no_path(records: Seq<RecordView>, reference: u64, steps: nat)
    requires
        ancestor(records, reference, steps) is Some,
        !reaches_root(records, reference, steps),
        last_record(records, ancestor(records, reference, steps)->0) is None,
    ensures
        resolved_path(records, reference) is None,
{
    assert forall|other: nat| !reaches_root(records, reference, other) by {
        if reaches_root(records, reference, other) {
            if other < steps {
                lemma_ancestor_ends(records, reference, other, steps);
            } else if other > steps {
                assert(ancestor(records, reference, steps + 1) is None);
                if other > steps + 1 {
                    lemma_ancestor_ends(records, reference, steps + 1, other);
                }
            }
        }
    }
}

/// Of several records of the same number the last one counts.
pub proof fn law_last_record_of_a_number_counts(
    records: Seq<RecordView>,
    record: RecordView,
    number: u64,
)
    ensures
        last_record(records.push(record), record.file_reference_number) == Some(record),
        number != record.file_reference_number ==> last_record(records.push(record), number)
            == last_record(records, number),
        last_record(Seq::empty(), number) is None,
{
    assert(records.push(record).drop_last() =~= records);
}

/// What lies one step further from a number lies one step nearer to its parent.
proof fn lemma_ancestor_of_parent(records: Seq<RecordView>, reference: u64, steps: nat)
    requires
        reference != 5,
        last_record(records, reference) is Some,
    ensures
        ({
            let record = last_record(records, reference)->0;
            let parent = record.parent_file_reference_number;
            &&& ancestor(records, reference, steps + 1) == ancestor(records, parent, steps)
            &&& ancestor(records, parent, steps) is Some ==> names_below(
                records,
                reference,
                steps + 1,
            ) == names_below(records, parent, steps).push(record.name)
        }),
    decreases steps,
{
    let record = last_record(records, reference)->0;
    let parent = record.parent_file_reference_number;
    if steps == 0 {
        assert(ancestor(records, reference, 0) == Some(reference));
        assert(names_below(records, reference, 0) =~= Seq::<Seq<char>>::empty());
        assert(names_below(records, reference, 1) =~= seq![record.name]);
        assert(names_below(records, parent, 0).push(record.name) =~= seq![record.name]);
    } else {
        let before = (steps - 1) as nat;
        lemma_ancestor_of_parent(records, reference, before);
        assert(ancestor(records, reference, steps) == ancestor(records, parent, before));
        if ancestor(records, parent, steps) is Some {
            let number = ancestor(records, parent, before)->0;
            assert(names_below(records, reference, steps + 1) == seq![
                last_record(records, number)->0.name,
            ] + names_below(records, reference, steps));
            assert(names_below(records, reference, steps + 1) =~= names_below(
                records,
                parent,
                steps,
            ).push(record.name));
        }
    }
}

/// A path is the path of the parent and the name behind it: what lies directly in the root has its
/// name as its path, what has no record has no path, and what lies in a directory without a path
/// has none either.
pub proof fn law_path_is_that_of_the_parent_and_the_name(records: Seq<RecordView>, reference: u64)
    requires
        reference != 5,
    ensures
        last_record(records, reference) is None ==> resolved_path(records, reference) is None,
        last_record(records, reference) matches Some(record) ==> {
            let parent = record.parent_file_reference_number;
            &&& parent == 5 ==> resolved_path(records, reference) == Some(record.name)
            &&& parent != 5 ==> resolved_path(records, reference) == match resolved_path(
                records,
                parent,
            ) {
                Some(path) => Some(path + seq!['/'] + record.name),
                None => None,
            }
        },
{
    if last_record(records, reference) is None {
        assert(ancestor(records, reference, 0) == Some(reference));
        law_gap_has_no_path(records, reference, 0);
    } else {
        let record = last_record(records, reference)->0;
        let parent = record.parent_file_reference_number;
        reveal_strlit("/");
        assert("/"@ =~= seq!['/']);
        if resolved_path(records, reference) is Some {
            let steps = choose|steps: nat| reaches_root(records, reference, steps);
            assert(ancestor(records, reference, 0) == Some(reference));
            assert(steps > 0);
            let before = (steps - 1) as nat;
            lemma_ancestor_of_parent(records, reference, before);
            assert(reaches_root(records, parent, before));
            lemma_parent_path(records, reference, parent, before);
        } else if resolved_path(records, parent) is Some {
            let steps = choose|steps: nat| reaches_root(records, parent, steps);
            lemma_ancestor_of_parent(records, reference, steps);
            assert(reaches_root(records, reference, steps + 1));
        } else {
            assert(ancestor(records, parent, 0) == Some(parent));
            if parent == 5 {
                assert(reaches_root(records, parent, 0));
            }
        }
    }
}

/// The two paths are joined from the same names.
proof fn lemma_parent_path(records: Seq<RecordView>, reference: u64, parent: u64, steps: nat)
    requires
        reference != 5,
        last_record(records, reference) is Some,
        last_record(records, reference)->0.parent_file_reference_number == parent,
        reaches_root(records, parent, steps),
    ensures
        ({
            let name = last_record(records, reference)->0.name;
            let path = resolved_path(records, parent)->0;
            &&& resolved_path(records, parent) is Some
            &&& resolved_path(records, reference) == Some(
                if parent == 5 {
                    name
                } else {
                    path + "/"@ + name
                },
            )
        }),
{
    let name = last_record(records, reference)->0.name;
    lemma_ancestor_of_parent(records, reference, steps);
    assert(reaches_root(records, reference, steps + 1));
    let long = choose|steps: nat| reaches_root(records, reference, steps);
    let short = choose|steps: nat| reaches_root(records, parent, steps);
    lemma_reaches_root_once(records, reference, long, steps + 1);
    lemma_reaches_root_once(records, parent, short, steps);
    assert(ancestor(records, parent, 0) == Some(parent));
    let names = names_below(records, parent, steps);
    if parent == 5 {
        assert(reaches_root(records, parent, 0));
        lemma_reaches_root_once(records, parent, 0, steps);
        assert(names.push(name) =~= seq![name]);
    } else {
        assert(steps > 0);
        assert(names.len() > 0);
        assert(names.push(name).drop_last() =~= names);
    }
}

/// The name of a record is the text of the units that stand where the record says, however far into
/// it that is.
pub proof fn law_name_lies_where_the_record_says(buffer: Seq<u8>, cursor: int, units: Seq<u16>)
    requires
        0 <= cursor < buffer.len(),
        record_at(buffer, cursor) is Ok,
        ({
            let length = crate::bytes::le16(buffer, cursor + 56);
            let offset = crate::bytes::le16(buffer, cursor + 58);
            buffer.subrange(cursor + offset, cursor + offset + length) == unit_bytes(units)
        }),
    ensures
        (record_at(buffer, cursor)->Ok_0).0.name == utf16::text_of(units),
{
    let length = crate::bytes::le16(buffer, cursor + 56);
    let offset = crate::bytes::le16(buffer, cursor + 58);
    assert(unit_bytes(units).len() == length);
    assert(length == 2 * units.len());
    lemma_name_units(buffer, cursor + offset, units);
}

/// Which bytes are a record: at least sixty, no more than there are, of the second version, with a
/// name of whole units that lies behind the fields and within the record.
pub proof fn law_which_bytes_are_a_record(buffer: Seq<u8>, cursor: int)
    requires
        0 <= cursor,
        cursor + 60 <= buffer.len() <= usize::MAX,
    ensures
        ({
            let length = crate::bytes::le32(buffer, cursor);
            let version = crate::bytes::le16(buffer, cursor + 4);
            let name_length = crate::bytes::le16(buffer, cursor + 56);
            let name_offset = crate::bytes::le16(buffer, cursor + 58);
            let whole = 60 <= length && cursor + length <= buffer.len();
            &&& record_at(buffer, cursor) is Ok <==> whole && version == 2 && name_length % 2 == 0
                && name_offset >= 60 && name_offset + name_length <= length
            &&& whole && version != 2 ==> record_at(buffer, cursor) == Err::<
                (RecordView, int),
                NtfsErrorView,
            >(NtfsErrorView::UnsupportedVersion(version))
        }),
{
}

/// A record has its fields where the system puts them: its length in the first four bytes, the two
/// numbers, without their upper two bytes, from the bytes 8 and 16 on, its position and its time
/// from 24 and 32, its reason from 40 and its attributes from 52.
pub proof fn law_fields_lie_where_the_system_puts_them(buffer: Seq<u8>, cursor: int)
    requires
        0 <= cursor < buffer.len(),
        record_at(buffer, cursor) is Ok,
    ensures
        ({
            let (record, end) = record_at(buffer, cursor)->Ok_0;
            let field = |from: int, to: int| buffer.subrange(cursor + from, cursor + to);
            &&& cursor + 60 <= end <= buffer.len()
            &&& field(0, 4) == crate::bytes::le_bytes((end - cursor) as nat, 4)
            &&& field(4, 6) == seq![2u8, 0u8]
            &&& field(8, 14) == crate::bytes::le_bytes(record.file_reference_number as nat, 6)
            &&& field(16, 22) == crate::bytes::le_bytes(
                record.parent_file_reference_number as nat,
                6,
            )
            &&& field(24, 32) == crate::bytes::le_bytes(
                crate::bytes::unsigned64(record.usn) as nat,
                8,
            )
            &&& field(32, 40) == crate::bytes::le_bytes(
                crate::bytes::unsigned64(record.timestamp_filetime) as nat,
                8,
            )
            &&& field(40, 44) == crate::bytes::le_bytes(record.reason as nat, 4)
            &&& field(52, 56) == crate::bytes::le_bytes(record.file_attributes as nat, 4)
        }),
{
    crate::bytes::lemma_le32_bytes(buffer, cursor);
    crate::bytes::lemma_le16_bytes(buffer, cursor + 4);
    crate::bytes::lemma_le_bytes_two();
    crate::bytes::lemma_le48_bytes(buffer, cursor + 8);
    crate::bytes::lemma_le48_bytes(buffer, cursor + 16);
    crate::bytes::lemma_le64_bytes(buffer, cursor + 24);
    crate::bytes::lemma_le64_bytes(buffer, cursor + 32);
    crate::bytes::lemma_le32_bytes(buffer, cursor + 40);
    crate::bytes::lemma_le32_bytes(buffer, cursor + 52);
}

/// Whether `index` leads from each number to its last record.
spec fn indexes(index: Map<u64, usize>, records: Seq<UsnRecord>) -> bool {
    &&& forall|number: u64| #[trigger]
        index.contains_key(number) <==> last_record(record_views(records), number) is Some
    &&& forall|number: u64| #[trigger]
        index.contains_key(number) ==> index[number] < records.len() && last_record(
            record_views(records),
            number,
        ) == Some(records[index[number] as int]@)
}

/// Finds each number's last record.
fn index_records(records: &[UsnRecord]) -> (index: HashMap<u64, usize>)
    ensures
        indexes(index@, records@),
        index@.dom().finite(),
{
    let mut index: HashMap<u64, usize> = HashMap::new();
    let mut i: usize = 0;
    while i < records.len()
        invariant
            i <= records.len(),
            indexes(index@, records@.take(i as int)),
            index@.dom().finite(),
        decreases records.len() - i,
    {
        let ghost before = index@;
        let number: u64 = records[i].file_reference_number;
        index.insert(number, i);
        proof {
            let done = record_views(records@.take(i as int));
            let more = record_views(records@.take(i + 1));
            assert(more.drop_last() =~= done);
            assert(more.last() == records@[i as int]@);
            assert forall|other: u64| #[trigger]
                index@.contains_key(other) <==> last_record(more, other) is Some by {
                if other != number {
                    assert(before.contains_key(other) <==> last_record(done, other) is Some);
                }
            }
            assert forall|other: u64| #[trigger] index@.contains_key(other) implies index@[other]
                < records@.take(i + 1).len() && last_record(more, other) == Some(
                records@.take(i + 1)[index@[other] as int]@,
            ) by {
                if other != number {
                    assert(before.contains_key(other));
                }
            }
        }
        i += 1;
    }
    assert(records@.take(i as int) =~= records@);
    index
}

/// The path of the record with the given number.
fn resolve_path(
    file_reference_number: u64,
    records: &[UsnRecord],
    index: &HashMap<u64, usize>,
) -> (path: Option<String>)
    requires
        indexes(index@, records@),
        index@.dom().finite(),
    ensures
        (path is Some) == (resolved_path(record_views(records@), file_reference_number) is Some),
        path matches Some(text) ==> text@ == resolved_path(
            record_views(records@),
            file_reference_number,
        )->0,
{
    let ghost views = record_views(records@);
    let ghost start = file_reference_number;
    // The names from the record upwards.
    let mut chain: Vec<String> = Vec::new();
    let mut visited: HashSet<u64> = HashSet::new();
    let mut current: u64 = file_reference_number;
    let ghost mut steps: nat = 0;
    assert(crate::text::views(chain@).reverse() =~= names_below(views, start, 0));
    while current != ROOT_FILE_REFERENCE
        invariant
            views == record_views(records@),
            start == file_reference_number,
            indexes(index@, records@),
            index@.dom().finite(),
            visited@.subset_of(index@.dom()),
            visited@.finite(),
            ancestor(views, start, steps) == Some(current),
            chain@.len() == steps,
            forall|number: u64| #[trigger]
                visited@.contains(number) <==> exists|n: nat|
                    n < steps && ancestor(views, start, n) == Some(number),
            crate::text::views(chain@).reverse() == names_below(views, start, steps),
        decreases index@.dom().len() - visited@.len(),
    {
        let ghost seen = visited@;
        if !visited.insert(current) {
            proof {
                let n = choose|n: nat| n < steps && ancestor(views, start, n) == Some(current);
                law_cycle_has_no_path(views, start, n, steps);
            }
            return None;
        }
        match index.get(&current) {
            None => {
                proof {
                    law_gap_has_no_path(views, start, steps);
                }
                return None;
            },
            Some(position) => {
                let record = &records[*position];
                let ghost before = crate::text::views(chain@);
                chain.push(record.name.clone());
                proof {
                    let now = crate::text::views(chain@);
                    assert(now =~= before.push(record.name@));
                    assert(now.reverse() =~= seq![record.name@] + before.reverse());
                    vstd::set_lib::lemma_len_subset(visited@, index@.dom());
                    assert forall|number: u64| #[trigger] visited@.contains(number) implies exists|
                        n: nat,
                    |
                        n < steps + 1 && ancestor(views, start, n) == Some(number) by {
                        if number == current {
                            assert(ancestor(views, start, steps) == Some(number));
                        } else {
                            assert(seen.contains(number));
                        }
                    }
                    assert forall|number: u64|
                        (exists|n: nat|
                            n < steps + 1 && ancestor(views, start, n) == Some(
                                number,
                            )) implies #[trigger] visited@.contains(number) by {
                        let n = choose|n: nat|
                            n < steps + 1 && ancestor(views, start, n) == Some(number);
                        if n < steps {
                            assert(seen.contains(number));
                        }
                    }
                    steps = steps + 1;
                }
                current = record.parent_file_reference_number;
            },
        }
    }
    proof {
        assert(reaches_root(views, start, steps));
        let chosen = choose|n: nat| reaches_root(views, start, n);
        lemma_reaches_root_once(views, start, chosen, steps);
    }
    let names = reversed(&chain);
    Some(join(names.as_slice(), "/"))
}

/// The texts in the opposite order.
fn reversed(texts: &Vec<String>) -> (result: Vec<String>)
    ensures
        crate::text::views(result@) == crate::text::views(texts@).reverse(),
{
    let mut result: Vec<String> = Vec::new();
    let mut left: usize = texts.len();
    while left > 0
        invariant
            left <= texts.len(),
            result@.len() == texts.len() - left,
            forall|i: int|
                0 <= i < result@.len() ==> (#[trigger] result@[i])@ == texts@[texts.len() - 1 - i]@,
        decreases left,
    {
        left -= 1;
        result.push(texts[left].clone());
    }
    assert(crate::text::views(result@) =~= crate::text::views(texts@).reverse());
    result
}

/// Whether some record has the given number.
pub open spec fn has_record(records: Seq<RecordView>, reference: u64) -> bool {
    exists|i: int| 0 <= i < records.len() && (#[trigger] records[i]).file_reference_number
        == reference
}

/// The paths below the root of all records that have one, by record number. A record that hangs
/// below none that is known, or below itself, has no path and is left out; so is the root.
pub fn resolve_relative_paths(records: &[UsnRecord]) -> (paths: HashMap<u64, String>)
    ensures
        forall|number: u64| #[trigger]
            paths@.contains_key(number) <==> number != ROOT_FILE_REFERENCE && has_record(
                record_views(records@),
                number,
            ) && resolved_path(record_views(records@), number) is Some,
        forall|number: u64| #[trigger]
            paths@.contains_key(number) ==> paths@[number]@ == resolved_path(
                record_views(records@),
                number,
            )->0,
{
    let ghost views = record_views(records@);
    let index = index_records(records);
    let mut paths: HashMap<u64, String> = HashMap::new();
    let mut i: usize = 0;
    while i < records.len()
        invariant
            i <= records.len(),
            views == record_views(records@),
            indexes(index@, records@),
            index@.dom().finite(),
            forall|number: u64| #[trigger]
                paths@.contains_key(number) <==> number != ROOT_FILE_REFERENCE && has_record(
                    views.take(i as int),
                    number,
                ) && resolved_path(views, number) is Some,
            forall|number: u64| #[trigger]
                paths@.contains_key(number) ==> paths@[number]@ == resolved_path(views, number)->0,
        decreases records.len() - i,
    {
        let number: u64 = records[i].file_reference_number;
        let ghost before = paths@;
        if number != ROOT_FILE_REFERENCE {
            if let Some(path) = resolve_path(number, records, &index) {
                paths.insert(number, path);
            }
        }
        proof {
            let done = views.take(i as int);
            let more = views.take(i + 1);
            assert forall|other: u64| has_record(more, other) <==> has_record(done, other)
                || other == number by {
                if has_record(done, other) {
                    let k = choose|k: int|
                        0 <= k < done.len() && (#[trigger] done[k]).file_reference_number == other;
                    assert(more[k].file_reference_number == other);
                }
                if other == number {
                    assert(more[i as int].file_reference_number == other);
                }
                if has_record(more, other) && other != number {
                    let k = choose|k: int|
                        0 <= k < more.len() && (#[trigger] more[k]).file_reference_number == other;
                    assert(done[k].file_reference_number == other);
                }
            }
        }
        i += 1;
    }
    assert(views.take(i as int) =~= views);
    paths
}

} // verus!
