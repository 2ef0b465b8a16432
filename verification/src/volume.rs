//! Reading an NTFS volume in a sequence of requests and replies.
//!
//! Nothing here touches a volume. A scan gives the bytes of its next request; what the volume
//! answered comes back as a reply, and the scan says whether it goes on, is done or has failed.
use crate::bytes::{get_le64, put_le, to_signed64, to_unsigned64};
use crate::errors::{IoError, IoErrorView, IoKind};
use crate::ntfs::{parse_usn_buffer, NtfsError, NtfsErrorView, RecordView, UsnRecord};
use crate::text::{is_ascii_letter, to_ascii_upper};
use vstd::prelude::*;

verus! {

/// The room for one reply to an enumeration of the master file table.
pub const MFT_BUFFER_BYTES: usize = 1_048_576;

/// The room for one reply to a read of the journal.
pub const JOURNAL_BUFFER_BYTES: usize = 16_384;

/// The most replies that one synchronisation takes from the journal.
pub const MAX_JOURNAL_BATCHES_PER_SYNC: usize = 128;

/// The changes that are asked for: creation, deletion and both halves of a rename.
pub const JOURNAL_REASON_MASK: u32 = 0x3300;

/// The code of the operating system for the end of an enumeration.
pub const ERROR_HANDLE_EOF: i32 = 38;

/// The code of the operating system for a volume without a journal.
pub const ERROR_JOURNAL_NOT_ACTIVE: i32 = 1179;

/// The extent of a journal.
#[derive(Debug, Clone, Copy, PartialEq, Eq)]
pub struct JournalInfo {
    pub journal_id: u64,
    pub first_usn: i64,
    pub next_usn: i64,
}

/// All records of a volume, and where its journal stood. Without a journal, both numbers are zero.
#[derive(Debug, Clone)]
pub struct MftSnapshot {
    pub volume: char,
    pub journal_id: u64,
    pub next_usn: i64,
    pub records: Vec<UsnRecord>,
}

/// What an [`MftSnapshot`] says.
pub struct SnapshotView {
    pub volume: char,
    pub journal_id: u64,
    pub next_usn: i64,
    pub records: Seq<RecordView>,
}

impl View for MftSnapshot {
    type V = SnapshotView;

    open spec fn view(&self) -> SnapshotView {
        SnapshotView {
            volume: self.volume,
            journal_id: self.journal_id,
            next_usn: self.next_usn,
            records: crate::ntfs::record_views(self.records@),
        }
    }
}

/// The changes since a position of the journal.
#[derive(Debug, Clone)]
pub struct JournalDelta {
    pub journal: JournalInfo,
    pub next_usn: i64,
    pub records: Vec<UsnRecord>,
}

/// What a [`JournalDelta`] says.
pub struct DeltaView {
    pub journal: JournalInfo,
    pub next_usn: i64,
    pub records: Seq<RecordView>,
}

impl View for JournalDelta {
    type V = DeltaView;

    open spec fn view(&self) -> DeltaView {
        DeltaView {
            journal: self.journal,
            next_usn: self.next_usn,
            records: crate::ntfs::record_views(self.records@),
        }
    }
}

/// Why the journal cannot be read from the asked position.
#[derive(Debug)]
pub enum JournalReadError {
    /// The journal is another one, or no longer reaches back to the position.
    Reset,
    Io(IoError),
    Parse(NtfsError),
}

/// What a [`JournalReadError`] says.
pub enum JournalErrorView {
    Reset,
    Io(IoErrorView),
    Parse(NtfsErrorView),
}

impl View for JournalReadError {
    type V = JournalErrorView;

    open spec fn view(&self) -> JournalErrorView {
        match *self {
            JournalReadError::Reset => JournalErrorView::Reset,
            JournalReadError::Io(error) => JournalErrorView::Io(error@),
            JournalReadError::Parse(error) => JournalErrorView::Parse(error@),
        }
    }
}

/// The outcome of a look at a volume.
#[derive(Debug, Clone, PartialEq, Eq)]
pub struct VolumeProbe {
    pub volume: char,
    pub journal_id: u64,
    pub first_usn: i64,
    pub next_usn: i64,
    pub first_batch_records: usize,
}

/// What came back from the volume: the bytes it returned, or why it failed.
pub type Reply = Result<Vec<u8>, IoError>;

/// The view of a reply.
pub open spec fn reply_view(reply: Reply) -> Result<Seq<u8>, IoErrorView> {
    match reply {
        Ok(bytes) => Ok(bytes@),
        Err(error) => Err(error@),
    }
}

/// The view of a result whose value is plain.
pub open spec fn io_view<T>(result: Result<T, IoError>) -> Result<T, IoErrorView> {
    match result {
        Ok(value) => Ok(value),
        Err(error) => Err(error@),
    }
}

// ---------------------------------------------------------------------------
// Naming a volume
// ---------------------------------------------------------------------------

/// The error for what is no drive letter.
pub open spec fn bad_letter() -> IoErrorView {
    crate::errors::raised(IoKind::InvalidInput, "卷标必须是单个英文字母，例如 C"@)
}

/// The drive letter in upper case.
pub fn normalize_volume_letter(volume: char) -> (result: Result<char, IoError>)
    ensures
        io_view(result) == if crate::text::ascii_letter(volume) {
            Ok::<char, IoErrorView>(crate::text::ascii_upper(volume))
        } else {
            Err(bad_letter())
        },
{
    if is_ascii_letter(volume) {
        Ok(to_ascii_upper(volume))
    } else {
        Err(IoError::new(IoKind::InvalidInput, "卷标必须是单个英文字母，例如 C"))
    }
}

/// The name under which the volume itself is opened.
pub fn volume_device_path(volume: char) -> (path: String)
    ensures
        path@ == r"\\.\"@.push(volume).push(':'),
{
    let mut path = r"\\.\".to_owned();
    path.push(volume);
    path.push(':');
    path
}

// ---------------------------------------------------------------------------
// The extent of the journal
// ---------------------------------------------------------------------------

/// What the bytes of a reply say about the extent of the journal.
pub open spec fn journal_of(bytes: Seq<u8>) -> Result<JournalInfo, IoErrorView> {
    if bytes.len() < 56 {
        Err(crate::errors::raised(IoKind::InvalidData, "FSCTL_QUERY_USN_JOURNAL 返回的数据不完整"@))
    } else {
        Ok(
            JournalInfo {
                journal_id: crate::bytes::le64(bytes, 0),
                first_usn: crate::bytes::signed64(crate::bytes::le64(bytes, 8)),
                next_usn: crate::bytes::signed64(crate::bytes::le64(bytes, 16)),
            },
        )
    }
}

/// The extent of the journal that a reply describes.
pub fn query_journal(reply: Reply) -> (result: Result<JournalInfo, IoError>)
    ensures
        io_view(result) == match reply_view(reply) {
            Ok(bytes) => journal_of(bytes),
            Err(error) => Err(error),
        },
{
    match reply {
        Err(error) => Err(error),
        Ok(bytes) => {
            if bytes.len() < 56 {
                return Err(
                    IoError::new(
                        IoKind::InvalidData,
                        "FSCTL_QUERY_USN_JOURNAL 返回的数据不完整",
                    ),
                );
            }
            let all = bytes.as_slice();
            Ok(
                JournalInfo {
                    journal_id: get_le64(all, 0),
                    first_usn: to_signed64(get_le64(all, 8)),
                    next_usn: to_signed64(get_le64(all, 16)),
                },
            )
        },
    }
}

// ---------------------------------------------------------------------------
// Enumerating the master file table
// ---------------------------------------------------------------------------

/// The records of a batch, and where the next batch begins, or why the batch cannot be read.
pub open spec fn batch_of(bytes: Seq<u8>) -> Result<(u64, Seq<RecordView>), IoErrorView> {
    if bytes.len() < 8 {
        Err(
            crate::errors::raised(
                IoKind::InvalidData,
                "FSCTL_ENUM_USN_DATA 返回的缓冲区不足 8 字节"@,
            ),
        )
    } else {
        match crate::ntfs::parsed(bytes) {
            Err(error) => Err(crate::errors::raised(IoKind::InvalidData, error.wording())),
            Ok(records) => Ok((crate::bytes::le64(bytes, 0), records)),
        }
    }
}

/// The records of a batch, and where the next batch begins.
pub fn enumerate_mft_batch(bytes: &[u8]) -> (result: Result<(u64, Vec<UsnRecord>), IoError>)
    ensures
        match result {
            Ok((next, records)) => batch_of(bytes@) == Ok::<
                (u64, Seq<RecordView>),
                IoErrorView,
            >((next, crate::ntfs::record_views(records@))),
            Err(error) => batch_of(bytes@) == Err::<(u64, Seq<RecordView>), IoErrorView>(error@),
        },
{
    if bytes.len() < 8 {
        return Err(
            IoError::new(
                IoKind::InvalidData,
                "FSCTL_ENUM_USN_DATA 返回的缓冲区不足 8 字节",
            ),
        );
    }
    let next: u64 = get_le64(bytes, 0);
    match parse_usn_buffer(bytes) {
        Ok(records) => Ok((next, records)),
        Err(error) => Err(ntfs_error_to_io(error)),
    }
}

/// A record that cannot be read, as a failure of the volume.
pub fn ntfs_error_to_io(error: NtfsError) -> (result: IoError)
    ensures
        result@ == crate::errors::raised(IoKind::InvalidData, error@.wording()),
{
    IoError::new(IoKind::InvalidData, error.message().as_str())
}

/// An enumeration of all records of a volume that is under way.
#[derive(Debug)]
pub struct SnapshotScan {
    volume: char,
    journal: Option<JournalInfo>,
    start: u64,
    records: Vec<UsnRecord>,
}

/// The state of a [`SnapshotScan`].
pub struct SnapshotScanView {
    pub volume: char,
    pub journal: Option<JournalInfo>,
    pub start: u64,
    pub records: Seq<RecordView>,
}

impl View for SnapshotScan {
    type V = SnapshotScanView;

    closed spec fn view(&self) -> SnapshotScanView {
        SnapshotScanView {
            volume: self.volume,
            journal: self.journal,
            start: self.start,
            records: crate::ntfs::record_views(self.records@),
        }
    }
}

impl SnapshotScanView {
    /// The enumeration ends where the journal stood when it began; without one it has no end.
    pub open spec fn high_usn(self) -> i64 {
        match self.journal {
            Some(journal) => journal.next_usn,
            None => i64::MAX,
        }
    }

    /// What has been enumerated so far, as a snapshot.
    pub open spec fn snapshot(self) -> SnapshotView {
        SnapshotView {
            volume: self.volume,
            journal_id: match self.journal {
                Some(journal) => journal.journal_id,
                None => 0,
            },
            next_usn: match self.journal {
                Some(journal) => journal.next_usn,
                None => 0,
            },
            records: self.records,
        }
    }

    /// What a reply does to the enumeration.
    pub open spec fn after(self, reply: Result<Seq<u8>, IoErrorView>) -> SnapshotStepView {
        match reply {
            Err(error) => {
                if error.code == Some(ERROR_HANDLE_EOF) {
                    SnapshotStepView::Done(self.snapshot())
                } else {
                    SnapshotStepView::Failed(error)
                }
            },
            Ok(bytes) => match batch_of(bytes) {
                Err(error) => SnapshotStepView::Failed(error),
                Ok((next, batch)) => {
                    if batch.len() == 0 {
                        SnapshotStepView::Done(self.snapshot())
                    } else if next == self.start {
                        SnapshotStepView::Failed(
                            crate::errors::raised(
                                IoKind::InvalidData,
                                "FSCTL_ENUM_USN_DATA 未推进文件引用号"@,
                            ),
                        )
                    } else {
                        SnapshotStepView::Continue(
                            SnapshotScanView {
                                volume: self.volume,
                                journal: self.journal,
                                start: next,
                                records: self.records + batch,
                            },
                        )
                    }
                },
            },
        }
    }
}

/// Where an enumeration stands after a reply.
#[derive(Debug)]
pub enum SnapshotStep {
    Continue(SnapshotScan),
    Done(MftSnapshot),
    Failed(IoError),
}

/// What a [`SnapshotStep`] says.
pub enum SnapshotStepView {
    Continue(SnapshotScanView),
    Done(SnapshotView),
    Failed(IoErrorView),
}

impl View for SnapshotStep {
    type V = SnapshotStepView;

    open spec fn view(&self) -> SnapshotStepView {
        match *self {
            SnapshotStep::Continue(scan) => SnapshotStepView::Continue(scan@),
            SnapshotStep::Done(snapshot) => SnapshotStepView::Done(snapshot@),
            SnapshotStep::Failed(error) => SnapshotStepView::Failed(error@),
        }
    }
}

/// How an enumeration of a volume begins.
pub open spec fn snapshot_begun(
    volume: char,
    journal: Result<JournalInfo, IoErrorView>,
) -> Result<SnapshotScanView, IoErrorView> {
    let upper = crate::text::ascii_upper(volume);
    if !crate::text::ascii_letter(volume) {
        Err(bad_letter())
    } else {
        match journal {
            Ok(info) => Ok(
                SnapshotScanView {
                    volume: upper,
                    journal: Some(info),
                    start: 0,
                    records: Seq::empty(),
                },
            ),
            Err(error) => {
                if error.code == Some(ERROR_JOURNAL_NOT_ACTIVE) {
                    Ok(
                        SnapshotScanView {
                            volume: upper,
                            journal: None,
                            start: 0,
                            records: Seq::empty(),
                        },
                    )
                } else {
                    Err(error)
                }
            },
        }
    }
}

/// Begins to enumerate all records of a volume. `journal` is the extent of its journal; a volume
/// whose journal is not active is enumerated without one.
pub fn snapshot_volume(volume: char, journal: Result<JournalInfo, IoError>) -> (result: Result<
    SnapshotScan,
    IoError,
>)
    ensures
        match result {
            Ok(scan) => snapshot_begun(volume, io_view(journal)) == Ok::<
                SnapshotScanView,
                IoErrorView,
            >(scan@),
            Err(error) => snapshot_begun(volume, io_view(journal)) == Err::<
                SnapshotScanView,
                IoErrorView,
            >(error@),
        },
{
    let volume: char = match normalize_volume_letter(volume) {
        Ok(letter) => letter,
        Err(error) => return Err(error),
    };
    let records: Vec<UsnRecord> = Vec::new();
    assert(crate::ntfs::record_views(records@) =~= Seq::<RecordView>::empty());
    match journal {
        Ok(info) => Ok(SnapshotScan { volume, journal: Some(info), start: 0, records }),
        Err(error) => {
            let inactive = match error.code {
                Some(code) => code == ERROR_JOURNAL_NOT_ACTIVE,
                None => false,
            };
            if inactive {
                Ok(SnapshotScan { volume, journal: None, start: 0, records })
            } else {
                Err(error)
            }
        },
    }
}

impl SnapshotScan {
    /// The bytes of the next request: the record to start from and the bounds of the journal.
    pub fn request(&self) -> (bytes: Vec<u8>)
        ensures
            bytes@ == crate::bytes::le_bytes(self@.start as nat, 8) + crate::bytes::le_bytes(0, 8)
                + crate::bytes::le_bytes(
                crate::bytes::unsigned64(self@.high_usn()) as nat,
                8,
            ),
    {
        let high_usn: i64 = match &self.journal {
            Some(journal) => journal.next_usn,
            None => i64::MAX,
        };
        let mut bytes: Vec<u8> = Vec::new();
        put_le(&mut bytes, self.start, 8);
        put_le(&mut bytes, 0, 8);
        put_le(&mut bytes, to_unsigned64(high_usn), 8);
        bytes
    }

    fn finish(self) -> (snapshot: MftSnapshot)
        ensures
            snapshot@ == self@.snapshot(),
    {
        MftSnapshot {
            volume: self.volume,
            journal_id: match &self.journal {
                Some(journal) => journal.journal_id,
                None => 0,
            },
            next_usn: match &self.journal {
                Some(journal) => journal.next_usn,
                None => 0,
            },
            records: self.records,
        }
    }

    /// Takes a reply to the last request.
    pub fn step(self, reply: Reply) -> (step: SnapshotStep)
        ensures
            step@ == self@.after(reply_view(reply)),
    {
        match reply {
            Err(error) => {
                let ended = match error.code {
                    Some(code) => code == ERROR_HANDLE_EOF,
                    None => false,
                };
                if ended {
                    SnapshotStep::Done(self.finish())
                } else {
                    SnapshotStep::Failed(error)
                }
            },
            Ok(bytes) => match enumerate_mft_batch(bytes.as_slice()) {
                Err(error) => SnapshotStep::Failed(error),
                Ok((next, batch)) => {
                    if batch.len() == 0 {
                        return SnapshotStep::Done(self.finish());
                    }
                    if next == self.start {
                        return SnapshotStep::Failed(
                            IoError::new(
                                IoKind::InvalidData,
                                "FSCTL_ENUM_USN_DATA 未推进文件引用号",
                            ),
                        );
                    }
                    let mut batch = batch;
                    let mut records = self.records;
                    let ghost old_records = records@;
                    let ghost old_batch = batch@;
                    records.append(&mut batch);
                    assert(crate::ntfs::record_views(records@) =~= crate::ntfs::record_views(
                        old_records,
                    ) + crate::ntfs::record_views(old_batch));
                    SnapshotStep::Continue(
                        SnapshotScan {
                            volume: self.volume,
                            journal: self.journal,
                            start: next,
                            records,
                        },
                    )
                },
            },
        }
    }
}

// ---------------------------------------------------------------------------
// Reading the journal
// ---------------------------------------------------------------------------

/// A read of the journal that is under way.
#[derive(Debug)]
pub struct JournalScan {
    journal: JournalInfo,
    start_usn: i64,
    batches_left: usize,
    records: Vec<UsnRecord>,
}

/// The state of a [`JournalScan`].
pub struct JournalScanView {
    pub journal: JournalInfo,
    pub start_usn: i64,
    pub batches_left: usize,
    pub records: Seq<RecordView>,
}

impl View for JournalScan {
    type V = JournalScanView;

    closed spec fn view(&self) -> JournalScanView {
        JournalScanView {
            journal: self.journal,
            start_usn: self.start_usn,
            batches_left: self.batches_left,
            records: crate::ntfs::record_views(self.records@),
        }
    }
}

/// Where a read of the journal stands after a reply.
#[derive(Debug)]
pub enum JournalStep {
    Continue(JournalScan),
    Done(JournalDelta),
    Failed(JournalReadError),
}

/// What a [`JournalStep`] says.
pub enum JournalStepView {
    Continue(JournalScanView),
    Done(DeltaView),
    Failed(JournalErrorView),
}

impl View for JournalStep {
    type V = JournalStepView;

    open spec fn view(&self) -> JournalStepView {
        match *self {
            JournalStep::Continue(scan) => JournalStepView::Continue(scan@),
            JournalStep::Done(delta) => JournalStepView::Done(delta@),
            JournalStep::Failed(error) => JournalStepView::Failed(error@),
        }
    }
}

impl JournalScanView {
    /// What a reply does to the read. It ends where the journal stood when it began, where the
    /// position no longer moves, and after a fixed number of replies: what is then left is read
    /// by the next synchronisation.
    pub open spec fn after(self, reply: Result<Seq<u8>, IoErrorView>) -> JournalStepView {
        match reply {
            Err(error) => JournalStepView::Failed(JournalErrorView::Io(error)),
            Ok(bytes) => {
                if bytes.len() < 8 {
                    JournalStepView::Failed(
                        JournalErrorView::Io(
                            crate::errors::raised(
                                IoKind::InvalidData,
                                "FSCTL_READ_USN_JOURNAL 返回的缓冲区不足 8 字节"@,
                            ),
                        ),
                    )
                } else {
                    let next = crate::bytes::signed64(crate::bytes::le64(bytes, 0));
                    match crate::ntfs::parsed(bytes) {
                        Err(error) => JournalStepView::Failed(JournalErrorView::Parse(error)),
                        Ok(batch) => {
                            if next == self.start_usn || next >= self.journal.next_usn
                                || self.batches_left <= 1 {
                                JournalStepView::Done(
                                    DeltaView {
                                        journal: self.journal,
                                        next_usn: next,
                                        records: self.records + batch,
                                    },
                                )
                            } else {
                                JournalStepView::Continue(
                                    JournalScanView {
                                        journal: self.journal,
                                        start_usn: next,
                                        batches_left: (self.batches_left - 1) as usize,
                                        records: self.records + batch,
                                    },
                                )
                            }
                        },
                    }
                }
            },
        }
    }
}

/// How a read of the journal begins.
pub open spec fn journal_begun(
    volume: char,
    expected_journal_id: u64,
    start_usn: i64,
    journal: Result<JournalInfo, IoErrorView>,
) -> Result<JournalScanView, JournalErrorView> {
    if !crate::text::ascii_letter(volume) {
        Err(JournalErrorView::Io(bad_letter()))
    } else {
        match journal {
            Err(error) => Err(JournalErrorView::Io(error)),
            Ok(info) => {
                if info.journal_id != expected_journal_id || start_usn < info.first_usn {
                    Err(JournalErrorView::Reset)
                } else {
                    Ok(
                        JournalScanView {
                            journal: info,
                            start_usn,
                            batches_left: MAX_JOURNAL_BATCHES_PER_SYNC,
                            records: Seq::empty(),
                        },
                    )
                }
            },
        }
    }
}

/// Begins to read the changes of a volume since `start_usn`. `journal` is the extent of its
/// journal: another journal than the expected one, and one that no longer reaches back to the
/// position, is reported as reset.
pub fn read_journal_since(
    volume: char,
    expected_journal_id: u64,
    start_usn: i64,
    journal: Result<JournalInfo, IoError>,
) -> (result: Result<JournalScan, JournalReadError>)
    ensures
        match result {
            Ok(scan) => journal_begun(volume, expected_journal_id, start_usn, io_view(journal))
                == Ok::<JournalScanView, JournalErrorView>(scan@),
            Err(error) => journal_begun(volume, expected_journal_id, start_usn, io_view(journal))
                == Err::<JournalScanView, JournalErrorView>(error@),
        },
{
    if let Err(error) = normalize_volume_letter(volume) {
        return Err(JournalReadError::Io(error));
    }
    match journal {
        Err(error) => Err(JournalReadError::Io(error)),
        Ok(info) => {
            if info.journal_id != expected_journal_id || start_usn < info.first_usn {
                return Err(JournalReadError::Reset);
            }
            let records: Vec<UsnRecord> = Vec::new();
            assert(crate::ntfs::record_views(records@) =~= Seq::<RecordView>::empty());
            Ok(
                JournalScan {
                    journal: info,
                    start_usn,
                    batches_left: MAX_JOURNAL_BATCHES_PER_SYNC,
                    records,
                },
            )
        },
    }
}

impl JournalScan {
    /// The bytes of the next request: the position, the changes asked for, only those of files
    /// that were closed, no waiting, and the journal.
    pub fn request(&self) -> (bytes: Vec<u8>)
        ensures
            bytes@ == crate::bytes::le_bytes(
                crate::bytes::unsigned64(self@.start_usn) as nat,
                8,
            ) + crate::bytes::le_bytes(JOURNAL_REASON_MASK as nat, 4) + crate::bytes::le_bytes(1, 4)
                + crate::bytes::le_bytes(0, 8) + crate::bytes::le_bytes(0, 8)
                + crate::bytes::le_bytes(self@.journal.journal_id as nat, 8),
    {
        let mut bytes: Vec<u8> = Vec::new();
        put_le(&mut bytes, to_unsigned64(self.start_usn), 8);
        put_le(&mut bytes, JOURNAL_REASON_MASK as u64, 4);
        put_le(&mut bytes, 1, 4);
        put_le(&mut bytes, 0, 8);
        put_le(&mut bytes, 0, 8);
        put_le(&mut bytes, self.journal.journal_id, 8);
        bytes
    }

    /// Takes a reply to the last request.
    pub fn step(self, reply: Reply) -> (step: JournalStep)
        ensures
            step@ == self@.after(reply_view(reply)),
    {
        let bytes = match reply {
            Err(error) => return JournalStep::Failed(JournalReadError::Io(error)),
            Ok(bytes) => bytes,
        };
        if bytes.len() < 8 {
            return JournalStep::Failed(
                JournalReadError::Io(
                    IoError::new(
                        IoKind::InvalidData,
                        "FSCTL_READ_USN_JOURNAL 返回的缓冲区不足 8 字节",
                    ),
                ),
            );
        }
        let next: i64 = to_signed64(get_le64(bytes.as_slice(), 0));
        let mut batch = match parse_usn_buffer(bytes.as_slice()) {
            Err(error) => return JournalStep::Failed(JournalReadError::Parse(error)),
            Ok(batch) => batch,
        };
        let mut records = self.records;
        let ghost old_records = records@;
        let ghost old_batch = batch@;
        records.append(&mut batch);
        assert(crate::ntfs::record_views(records@) =~= crate::ntfs::record_views(old_records)
            + crate::ntfs::record_views(old_batch));
        if next == self.start_usn || next >= self.journal.next_usn || self.batches_left <= 1 {
            JournalStep::Done(JournalDelta { journal: self.journal, next_usn: next, records })
        } else {
            JournalStep::Continue(
                JournalScan {
                    journal: self.journal,
                    start_usn: next,
                    batches_left: self.batches_left - 1,
                    records,
                },
            )
        }
    }
}

// ---------------------------------------------------------------------------
// A look at a volume
// ---------------------------------------------------------------------------

/// What a look at a volume finds: the extent of its journal and the size of its first batch.
pub open spec fn probed(
    volume: char,
    journal: Result<JournalInfo, IoErrorView>,
    batch: Result<Seq<u8>, IoErrorView>,
) -> Result<(char, JournalInfo, nat), IoErrorView> {
    if !crate::text::ascii_letter(volume) {
        Err(bad_letter())
    } else {
        match journal {
            Err(error) => Err(error),
            Ok(info) => match batch {
                Err(error) => Err(error),
                Ok(bytes) => match batch_of(bytes) {
                    Err(error) => Err(error),
                    Ok((next, records)) => Ok(
                        (crate::text::ascii_upper(volume), info, records.len()),
                    ),
                },
            },
        }
    }
}

/// The bytes of the request for the first batch of a look at a volume.
pub fn probe_request(journal: &JournalInfo) -> (bytes: Vec<u8>)
    ensures
        bytes@ == crate::bytes::le_bytes(0, 8) + crate::bytes::le_bytes(0, 8)
            + crate::bytes::le_bytes(crate::bytes::unsigned64(journal.next_usn) as nat, 8),
{
    let mut bytes: Vec<u8> = Vec::new();
    put_le(&mut bytes, 0, 8);
    put_le(&mut bytes, 0, 8);
    put_le(&mut bytes, to_unsigned64(journal.next_usn), 8);
    bytes
}

/// Looks at the journal and the first batch of a volume; neither the volume nor an index changes.
pub fn probe_volume(volume: char, journal: Result<JournalInfo, IoError>, batch: Reply) -> (result:
    Result<VolumeProbe, IoError>)
    ensures
        match result {
            Ok(probe) => probed(volume, io_view(journal), reply_view(batch)) == Ok::<
                (char, JournalInfo, nat),
                IoErrorView,
            >(
                (
                    probe.volume,
                    (JournalInfo {
                        journal_id: probe.journal_id,
                        first_usn: probe.first_usn,
                        next_usn: probe.next_usn,
                    }),
                    probe.first_batch_records as nat,
                ),
            ),
            Err(error) => probed(volume, io_view(journal), reply_view(batch)) == Err::<
                (char, JournalInfo, nat),
                IoErrorView,
            >(error@),
        },
{
    let volume: char = match normalize_volume_letter(volume) {
        Ok(letter) => letter,
        Err(error) => return Err(error),
    };
    let info = match journal {
        Ok(info) => info,
        Err(error) => return Err(error),
    };
    let bytes = match batch {
        Ok(bytes) => bytes,
        Err(error) => return Err(error),
    };
    match enumerate_mft_batch(bytes.as_slice()) {
        Err(error) => Err(error),
        Ok((_next, records)) => Ok(
            VolumeProbe {
                volume,
                journal_id: info.journal_id,
                first_usn: info.first_usn,
                next_usn: info.next_usn,
                first_batch_records: records.len(),
            },
        ),
    }
}

} // verus!
