//! The master file table: finding it, and finding records in it.

use crate::attribute::{select, AttributeContent, ContentView, DATA};
use crate::attribute_list::{complete, full_record};
use crate::boot::BootSectorInfo;
use crate::bytes::{u16_at, ByteBuffer};
use crate::disk::{read_result, DiskAccessor};
use crate::error::{agrees, NtfsError};
use crate::record::{
    flags_in_use,
    parse_record,
    read_record,
    FileRecord,
    FileRecordView,
    FileReference,
};
use crate::runs::Extent;
use crate::stream::{read_range, stream_range, StreamFault};
use vstd::prelude::*;

verus! {

/// The number of the record that describes the master file table itself.
pub const MFT_SEGMENT: u64 = 0;

/// The number of the record of the root directory.
pub const ROOT_SEGMENT: u64 = 5;

/// What the proofs know of the master file table: where it lies, how
/// long it says it is, and the sizes it is counted in.
pub ghost struct MftView {
    pub extents: Seq<Extent>,
    pub cluster_size: nat,
    pub record_size: nat,
    pub declared_size: nat,
}

/// The way from a record number to the record's bytes.
#[derive(Debug)]
pub struct MftReader {
    extents: Vec<Extent>,
    cluster_size: u32,
    record_size: u32,
    declared_size: u64,
}

impl View for MftReader {
    type V = MftView;

    closed spec fn view(&self) -> MftView {
        MftView {
            extents: self.extents@,
            cluster_size: self.cluster_size as nat,
            record_size: self.record_size as nat,
            declared_size: self.declared_size as nat,
        }
    }
}

/// The table that the record `record` of the table itself describes: the
/// extents of its unnamed data attribute, which must not be resident, and
/// that attribute's real size.
pub open spec fn table_of(record: FileRecordView, boot: BootSectorInfo) -> Result<
    MftView,
    NtfsError,
> {
    if !flags_in_use(record.flags) {
        Err(NtfsError::RecordNotInUse)
    } else {
        match select(record.attributes, DATA, Seq::empty()) {
            None => Err(NtfsError::AttributeNotFound),
            Some(attribute) => match attribute.content {
                ContentView::Resident { .. } => Err(NtfsError::MalformedRecord),
                ContentView::NonResident { real_size, extents, .. } => Ok(
                    MftView {
                        extents,
                        cluster_size: boot.spec_cluster_size(),
                        record_size: boot.bytes_per_file_record_segment as nat,
                        declared_size: real_size as nat,
                    },
                ),
            },
        }
    }
}

/// What finding the master file table on the device `image` returns. The
/// record of the table, read from the cluster that the boot sector names,
/// describes the table's beginning; through that beginning the record is
/// made whole, and the whole record describes the table.
pub open spec fn bootstrap_result(image: Seq<u8>, boot: BootSectorInfo) -> Result<
    MftView,
    NtfsError,
> {
    match read_result(
        image,
        boot.mft_start_cluster as nat * boot.spec_cluster_size(),
        boot.bytes_per_file_record_segment as nat,
    ) {
        Err(e) => Err(e),
        Ok(raw) => match parse_record(raw, MFT_SEGMENT) {
            Err(e) => Err(e),
            Ok(record) => match table_of(record, boot) {
                Err(e) => Err(e),
                Ok(first) => match full_record(image, first, record) {
                    Err(e) => Err(e),
                    Ok(whole) => table_of(whole, boot),
                },
            },
        },
    }
}

/// The bytes of record `segment` as they lie on the volume. A record that
/// does not lie inside the size that the table declares, or inside its
/// extents, is out of range; one whose header says that it is free is
/// not in use.
pub open spec fn raw_record_result(image: Seq<u8>, mft: MftView, segment: u64) -> Result<
    Seq<u8>,
    NtfsError,
> {
    if (segment + 1) * mft.record_size > mft.declared_size {
        Err(NtfsError::RecordOutOfRange)
    } else {
        match stream_range(
            image,
            mft.extents,
            mft.cluster_size,
            segment as nat * mft.record_size,
            mft.record_size,
        ) {
            Err(StreamFault::OutsideRuns) => Err(NtfsError::RecordOutOfRange),
            Err(StreamFault::Device) => Err(NtfsError::IoFault),
            Ok(raw) => if raw.len() < 24 {
                Err(NtfsError::MalformedRecord)
            } else if !flags_in_use(u16_at(raw, 0x16).unwrap()) {
                Err(NtfsError::RecordNotInUse)
            } else {
                Ok(raw)
            },
        }
    }
}

/// Record `segment`, parsed.
#[verifier::opaque]
pub open spec fn record_result(image: Seq<u8>, mft: MftView, segment: u64) -> Result<
    FileRecordView,
    NtfsError,
> {
    match raw_record_result(image, mft, segment) {
        Err(e) => Err(e),
        Ok(raw) => parse_record(raw, segment),
    }
}

/// The record that `reference` points to. Where the record at that
/// segment bears another sequence number, the segment has been given to
/// another file since: the reference is stale.
#[verifier::opaque]
pub open spec fn reference_result(image: Seq<u8>, mft: MftView, reference: FileReference) -> Result<
    FileRecordView,
    NtfsError,
> {
    match record_result(image, mft, reference.segment) {
        Err(e) => Err(e),
        Ok(record) => if record.reference.sequence != reference.sequence {
            Err(NtfsError::StaleReference)
        } else {
            Ok(record)
        },
    }
}

/// A record that is read by its number is in use and bears that number.
pub proof fn lemma_record_in_use(image: Seq<u8>, mft: MftView, segment: u64)
    ensures
        record_result(image, mft, segment) matches Ok(record) ==> flags_in_use(record.flags)
            && record.reference.segment == segment,
{
    reveal(record_result);
    if raw_record_result(image, mft, segment) is Ok {
        let raw = raw_record_result(image, mft, segment).unwrap();
        if parse_record(raw, segment) is Ok {
            let s = crate::record::fixup_result(raw).unwrap();
            assert(s[0x16] == raw[0x16]);
            assert(s[0x17] == raw[0x17]);
        }
    }
}

/// A reference whose sequence number is not that of the record at its
/// segment is refused as stale, and a reference that is accepted leads to
/// the record that bears its segment and its sequence number, and that is
/// in use: no other record is ever handed out for it.
pub proof fn lemma_stale_reference(image: Seq<u8>, mft: MftView, reference: FileReference)
    ensures
        record_result(image, mft, reference.segment) matches Ok(record)
            && record.reference.sequence != reference.sequence ==> reference_result(
            image,
            mft,
            reference,
        ) == Err::<FileRecordView, NtfsError>(NtfsError::StaleReference),
        reference_result(image, mft, reference) matches Ok(record) ==> record.reference
            == reference && flags_in_use(record.flags),
{
    reveal(reference_result);
    lemma_record_in_use(image, mft, reference.segment);
}

impl MftReader {
    /// A table is usable when its records have a size above zero.
    pub open spec fn wf(&self) -> bool {
        self@.record_size > 0
    }

    /// Finds the master file table: reads the record of the table itself
    /// at the cluster that the boot sector names, makes it whole through
    /// the part of the table that it describes by itself, and takes the
    /// table's extents and size from its unnamed data attribute.
    pub fn bootstrap(disk: &mut DiskAccessor, boot: &BootSectorInfo) -> (r: Result<
        MftReader,
        NtfsError,
    >)
        requires
            old(disk).wf(),
            boot.wf(),
        ensures
            final(disk).wf(),
            final(disk)@.image == old(disk)@.image,
            final(disk)@.sector_size == old(disk)@.sector_size,
            final(disk)@.reads >= old(disk)@.reads,
            agrees(r, bootstrap_result(old(disk)@.image, *boot)),
            r matches Ok(mft) ==> mft.wf(),
    {
        let cluster_size: u32 = boot.cluster_size();
        let size: u64 = disk.size();
        let offset: u64 = match boot.cluster_to_byte_offset(boot.mft_start_cluster) {
            Some(v) => v,
            None => { return Err(NtfsError::IoFault); },
        };
        let raw = disk.read_bytes(offset, boot.bytes_per_file_record_segment)?;
        let record = read_record(&raw, MFT_SEGMENT)?;
        if !record.is_in_use() {
            return Err(NtfsError::RecordNotInUse);
        }
        proof {
            crate::attribute_list::lemma_full_record_header(
                disk@.image,
                table_of(record@, *boot).unwrap(),
                record@,
            );
        }
        let first = Self::from_record(&record, boot)?;
        let whole = complete(&first, disk, record)?;
        Self::from_record(&whole, boot)
    }

    /// The table that `record` describes.
    fn from_record(record: &FileRecord, boot: &BootSectorInfo) -> (r: Result<MftReader, NtfsError>)
        requires
            boot.wf(),
            flags_in_use(record.flags),
        ensures
            agrees(r, table_of(record@, *boot)),
            r matches Ok(mft) ==> mft.wf(),
    {
        let unnamed: Vec<u16> = Vec::new();
        let index: usize = match record.find_attribute(DATA, unnamed.as_slice()) {
            Some(i) => i,
            None => { return Err(NtfsError::AttributeNotFound); },
        };
        assert(unnamed@ =~= Seq::<u16>::empty());
        assert(record@.attributes[index as int] == record.attributes@[index as int]@);
        match &record.attributes[index].content {
            AttributeContent::Resident { .. } => Err(NtfsError::MalformedRecord),
            AttributeContent::NonResident { real_size, extents, .. } => {
                Ok(
                    MftReader {
                        extents: vstd::slice::slice_to_vec(extents.as_slice()),
                        cluster_size: boot.cluster_size(),
                        record_size: boot.bytes_per_file_record_segment,
                        declared_size: *real_size,
                    },
                )
            },
        }
    }

    /// The size of a file record, in bytes.
    pub fn record_size(&self) -> (n: u32)
        ensures
            n == self@.record_size,
    {
        self.record_size
    }

    /// The size of a cluster, in bytes.
    pub fn cluster_size(&self) -> (n: u32)
        ensures
            n == self@.cluster_size,
    {
        self.cluster_size
    }

    /// The number of records that the table declares.
    pub fn record_count(&self) -> (n: u64)
        requires
            self.wf(),
        ensures
            n == self@.declared_size / self@.record_size,
    {
        self.declared_size / (self.record_size as u64)
    }

    /// Reads the bytes of record `segment` as they lie on the volume.
    pub fn read_record(&self, disk: &mut DiskAccessor, segment: u64) -> (r: Result<
        ByteBuffer,
        NtfsError,
    >)
        requires
            old(disk).wf(),
            self.wf(),
        ensures
            final(disk).wf(),
            final(disk)@.image == old(disk)@.image,
            final(disk)@.sector_size == old(disk)@.sector_size,
            final(disk)@.reads >= old(disk)@.reads,
            agrees(r, raw_record_result(old(disk)@.image, self@, segment)),
    {
        assert((segment as u128 + 1) * (self.record_size as u128) <= 0x1_0000_0000_0000_0000
            * 0xFFFF_FFFF) by (nonlinear_arith)
            requires
                segment <= 0xFFFF_FFFF_FFFF_FFFF,
                self.record_size <= 0xFFFF_FFFF,
        ;
        let end: u128 = (segment as u128 + 1) * (self.record_size as u128);
        if end > self.declared_size as u128 {
            assert((segment + 1) * self@.record_size == end) by (nonlinear_arith)
                requires
                    end == (segment as u128 + 1) * (self.record_size as u128),
                    self@.record_size == self.record_size,
            ;
            return Err(NtfsError::RecordOutOfRange);
        }
        assert((segment + 1) * self@.record_size == end && segment as nat * self@.record_size
            == end - self.record_size) by (nonlinear_arith)
            requires
                end == (segment as u128 + 1) * (self.record_size as u128),
                self@.record_size == self.record_size,
        ;
        let pos: u64 = (end - self.record_size as u128) as u64;
        let raw = match read_range(disk, &self.extents, self.cluster_size, pos, self.record_size) {
            Ok(b) => b,
            Err(StreamFault::OutsideRuns) => { return Err(NtfsError::RecordOutOfRange); },
            Err(StreamFault::Device) => { return Err(NtfsError::IoFault); },
        };
        if raw.len() < 24 {
            return Err(NtfsError::MalformedRecord);
        }
        let flags: u16 = match raw.read_u16(0x16) {
            Some(v) => v,
            None => { return Err(NtfsError::MalformedRecord); },
        };
        if flags % 2 != 1 {
            return Err(NtfsError::RecordNotInUse);
        }
        Ok(raw)
    }

    /// Reads and parses record `segment`.
    pub fn load(&self, disk: &mut DiskAccessor, segment: u64) -> (r: Result<FileRecord, NtfsError>)
        requires
            old(disk).wf(),
            self.wf(),
        ensures
            final(disk).wf(),
            final(disk)@.image == old(disk)@.image,
            final(disk)@.sector_size == old(disk)@.sector_size,
            final(disk)@.reads >= old(disk)@.reads,
            agrees(r, record_result(old(disk)@.image, self@, segment)),
    {
        proof {
            reveal(record_result);
        }
        let raw = self.read_record(disk, segment)?;
        read_record(&raw, segment)
    }

    /// Reads and parses the record that `reference` points to, and
    /// refuses a reference whose sequence number is not the record's.
    pub fn open(&self, disk: &mut DiskAccessor, reference: FileReference) -> (r: Result<
        FileRecord,
        NtfsError,
    >)
        requires
            old(disk).wf(),
            self.wf(),
        ensures
            final(disk).wf(),
            final(disk)@.image == old(disk)@.image,
            final(disk)@.sector_size == old(disk)@.sector_size,
            final(disk)@.reads >= old(disk)@.reads,
            agrees(r, reference_result(old(disk)@.image, self@, reference)),
    {
        proof {
            reveal(reference_result);
        }
        let record = self.load(disk, reference.segment)?;
        if record.reference.sequence != reference.sequence {
            return Err(NtfsError::StaleReference);
        }
        Ok(record)
    }
}

} // verus!
