//! Attribute lists: records whose attributes do not fit one segment.

use crate::attribute::{
    attribute_views,
    select,
    Attribute,
    AttributeContent,
    AttributeView,
    ContentView,
    ATTRIBUTE_LIST,
};
use crate::bytes::{u16_at, u16s_at, u32_at, u64_at, ByteBuffer};
use crate::cursor::run_content;
use crate::disk::DiskAccessor;
use crate::error::{agrees, NtfsError};
use crate::mft::{record_result, reference_result, MftReader, MftView};
use crate::record::{FileRecord, FileRecordView, FileReference};
use crate::runs::{glue, Extent};
use crate::stream::{prefix_len, read_range, stream_len, StreamFault};
use vstd::prelude::*;

verus! {

/// The length of an entry of an attribute list up to its name.
pub const LIST_ENTRY_HEADER_SIZE: usize = 26;

/// The largest size of an attribute list.
pub const MAX_LIST_SIZE: u64 = 0x4_0000;

/// One entry of an attribute list: the type, name and first virtual
/// cluster number of a piece of an attribute, and the record that holds
/// the piece.
#[derive(Debug, PartialEq, Eq)]
pub struct ListEntry {
    pub type_code: u32,
    pub name: Vec<u16>,
    pub start_vcn: u64,
    pub holder: FileReference,
}

/// An entry of an attribute list, as the proofs see it.
pub ghost struct ListEntryView {
    pub type_code: u32,
    pub name: Seq<u16>,
    pub start_vcn: u64,
    pub holder: FileReference,
}

impl View for ListEntry {
    type V = ListEntryView;

    open spec fn view(&self) -> ListEntryView {
        ListEntryView {
            type_code: self.type_code,
            name: self.name@,
            start_vcn: self.start_vcn,
            holder: self.holder,
        }
    }
}

/// The views of the entries in `v`.
pub open spec fn entry_views(v: Seq<ListEntry>) -> Seq<ListEntryView> {
    v.map_values(|e: ListEntry| e@)
}

/// The length that the list entry at `pos` states.
pub open spec fn list_entry_len(s: Seq<u8>, pos: int) -> int {
    u16_at(s, pos + 4).unwrap() as int
}

/// Whether the list entry at `pos` lies inside `s`, with its name inside
/// its stated length.
pub open spec fn list_entry_fits(s: Seq<u8>, pos: int) -> bool {
    &&& 0 <= pos
    &&& pos + LIST_ENTRY_HEADER_SIZE <= s.len()
    &&& LIST_ENTRY_HEADER_SIZE <= list_entry_len(s, pos)
    &&& pos + list_entry_len(s, pos) <= s.len()
    &&& s[pos + 6] != 0 ==> s[pos + 7] + 2 * s[pos + 6] <= list_entry_len(s, pos)
}

/// The list entry at `pos`.
pub open spec fn list_entry_at(s: Seq<u8>, pos: int) -> ListEntryView {
    ListEntryView {
        type_code: u32_at(s, pos).unwrap(),
        name: if s[pos + 6] == 0 {
            Seq::empty()
        } else {
            u16s_at(s, pos + s[pos + 7], s[pos + 6] as int).unwrap()
        },
        start_vcn: u64_at(s, pos + 8).unwrap(),
        holder: FileReference::unpack(u64_at(s, pos + 16).unwrap()),
    }
}

/// The entries of the attribute list whose contents are `s`, from `pos` to
/// the end.
pub open spec fn parse_list(s: Seq<u8>, pos: int) -> Result<Seq<ListEntryView>, NtfsError>
    decreases s.len() - pos,
{
    if pos < 0 || pos >= s.len() {
        Ok(Seq::empty())
    } else if !list_entry_fits(s, pos) {
        Err(NtfsError::MalformedRecord)
    } else {
        glue(seq![list_entry_at(s, pos)], parse_list(s, pos + list_entry_len(s, pos)))
    }
}

/// The contents of the attribute list `list`: the bytes inside the
/// record, or what its extents spell. A list above the largest size is
/// malformed.
pub open spec fn list_content(image: Seq<u8>, cs: nat, list: AttributeView) -> Result<
    Seq<u8>,
    NtfsError,
> {
    match list.content {
        ContentView::Resident { data } => Ok(data),
        ContentView::NonResident { real_size, extents, .. } => if real_size > MAX_LIST_SIZE {
            Err(NtfsError::MalformedRecord)
        } else {
            run_content(image, extents, cs, real_size as nat)
        },
    }
}

/// The first virtual cluster number that the attribute holds: 0 for
/// contents inside the record.
pub open spec fn start_of(a: AttributeView) -> u64 {
    match a.content {
        ContentView::Resident { .. } => 0,
        ContentView::NonResident { start_vcn, .. } => start_vcn,
    }
}

/// Whether `a` is the piece that the list entry `e` names.
pub open spec fn is_piece(a: AttributeView, e: ListEntryView) -> bool {
    a.type_code == e.type_code && a.name == e.name && start_of(a) == e.start_vcn
}

/// The index of the first attribute among `attributes`, from `from` on,
/// that is the piece that `e` names.
pub open spec fn piece_from(attributes: Seq<AttributeView>, e: ListEntryView, from: int) -> Option<
    int,
>
    decreases attributes.len() - from,
{
    if from < 0 || from >= attributes.len() {
        None
    } else if is_piece(attributes[from], e) {
        Some(from)
    } else {
        piece_from(attributes, e, from + 1)
    }
}

/// The number of clusters that `extents` hold.
pub open spec fn cluster_total(extents: Seq<Extent>) -> nat {
    stream_len(extents, 1)
}

/// Whether `piece` goes on where `last` ends: the same attribute, in
/// clusters, from the virtual cluster number that follows the clusters of
/// `last`.
pub open spec fn continues(last: AttributeView, piece: AttributeView) -> bool {
    &&& last.type_code == piece.type_code
    &&& last.name == piece.name
    &&& last.content is NonResident
    &&& piece.content is NonResident
    &&& start_of(piece) == start_of(last) + cluster_total(last.content->extents)
}

/// `last` with the extents of `piece` behind its own.
pub open spec fn joined(last: AttributeView, piece: AttributeView) -> AttributeView {
    AttributeView {
        type_code: last.type_code,
        flags: last.flags,
        name: last.name,
        content: ContentView::NonResident {
            start_vcn: last.content->start_vcn,
            allocated_size: last.content->allocated_size,
            real_size: last.content->real_size,
            extents: last.content->extents + piece.content->extents,
        },
    }
}

/// The attributes `merged` with `piece` added: as a new attribute where
/// the piece begins at virtual cluster number 0, else joined to the last
/// attribute, which it must go on.
pub open spec fn merge(merged: Seq<AttributeView>, piece: AttributeView) -> Result<
    Seq<AttributeView>,
    NtfsError,
> {
    if start_of(piece) == 0 {
        Ok(merged.push(piece))
    } else if merged.len() > 0 && continues(merged.last(), piece) {
        Ok(merged.drop_last().push(joined(merged.last(), piece)))
    } else {
        Err(NtfsError::MalformedRecord)
    }
}

/// The record that holds a piece: the base record itself, or the record
/// that `holder` points to, which must name the base record as its base.
pub open spec fn holder_result(
    image: Seq<u8>,
    mft: MftView,
    base: FileRecordView,
    holder: FileReference,
) -> Result<FileRecordView, NtfsError> {
    if holder.segment == base.reference.segment {
        if holder.sequence != base.reference.sequence {
            Err(NtfsError::StaleReference)
        } else {
            Ok(base)
        }
    } else {
        match reference_result(image, mft, holder) {
            Err(e) => Err(e),
            Ok(record) => if record.base != base.reference {
                Err(NtfsError::MalformedRecord)
            } else {
                Ok(record)
            },
        }
    }
}

/// `merged` with the piece that the list entry `e` names, taken from the
/// record that holds it.
pub open spec fn add_piece(
    image: Seq<u8>,
    mft: MftView,
    base: FileRecordView,
    e: ListEntryView,
    merged: Seq<AttributeView>,
) -> Result<Seq<AttributeView>, NtfsError> {
    match holder_result(image, mft, base, e.holder) {
        Err(x) => Err(x),
        Ok(record) => match piece_from(record.attributes, e, 0) {
            None => Err(NtfsError::MalformedRecord),
            Some(i) => merge(merged, record.attributes[i]),
        },
    }
}

/// The attributes that the list entries from `from` on add to `merged`,
/// in the order of the list.
pub open spec fn assemble(
    image: Seq<u8>,
    mft: MftView,
    base: FileRecordView,
    entries: Seq<ListEntryView>,
    from: int,
    merged: Seq<AttributeView>,
) -> Result<Seq<AttributeView>, NtfsError>
    decreases entries.len() - from,
{
    if from < 0 || from >= entries.len() {
        Ok(merged)
    } else {
        match add_piece(image, mft, base, entries[from], merged) {
            Err(e) => Err(e),
            Ok(more) => assemble(image, mft, base, entries, from + 1, more),
        }
    }
}

/// The record `base` with `attributes` in place of its own, where there
/// are any.
pub open spec fn with_attributes(
    base: FileRecordView,
    attributes: Result<Seq<AttributeView>, NtfsError>,
) -> Result<FileRecordView, NtfsError> {
    match attributes {
        Err(e) => Err(e),
        Ok(attributes) => Ok(
            FileRecordView {
                reference: base.reference,
                flags: base.flags,
                base: base.base,
                attributes,
            },
        ),
    }
}

/// The whole record of which `base` is the first segment. A record
/// without attribute list is whole as it is. Else its attributes are
/// those that the list names, each taken from the record that holds it,
/// the pieces of one attribute joined in one.
#[verifier::opaque]
pub open spec fn full_record(image: Seq<u8>, mft: MftView, base: FileRecordView) -> Result<
    FileRecordView,
    NtfsError,
> {
    match select(base.attributes, ATTRIBUTE_LIST, Seq::empty()) {
        None => Ok(base),
        Some(list) => match list_content(image, mft.cluster_size, list) {
            Err(e) => Err(e),
            Ok(bytes) => match parse_list(bytes, 0) {
                Err(e) => Err(e),
                Ok(entries) => with_attributes(
                    base,
                    assemble(image, mft, base, entries, 0, Seq::empty()),
                ),
            },
        },
    }
}

/// The whole record of segment `segment`.
pub open spec fn full_record_result(image: Seq<u8>, mft: MftView, segment: u64) -> Result<
    FileRecordView,
    NtfsError,
> {
    match record_result(image, mft, segment) {
        Err(e) => Err(e),
        Ok(base) => full_record(image, mft, base),
    }
}

/// The whole record that `reference` points to.
pub open spec fn full_reference_result(
    image: Seq<u8>,
    mft: MftView,
    reference: FileReference,
) -> Result<FileRecordView, NtfsError> {
    match reference_result(image, mft, reference) {
        Err(e) => Err(e),
        Ok(base) => full_record(image, mft, base),
    }
}

/// A whole record has the reference and the flags of its first segment.
pub proof fn lemma_full_record_header(image: Seq<u8>, mft: MftView, base: FileRecordView)
    ensures
        full_record(image, mft, base) matches Ok(record) ==> record.reference == base.reference
            && record.flags == base.flags,
{
    reveal(full_record);
}

/// Parses the entries of an attribute list from its contents.
pub fn read_list(bytes: &ByteBuffer) -> (r: Result<Vec<ListEntry>, NtfsError>)
    ensures
        match r {
            Ok(v) => parse_list(bytes@, 0) == Ok::<Seq<ListEntryView>, NtfsError>(entry_views(v@)),
            Err(e) => parse_list(bytes@, 0) == Err::<Seq<ListEntryView>, NtfsError>(e),
        },
{
    let n: usize = bytes.len();
    let s = bytes.as_slice();
    let mut entries: Vec<ListEntry> = Vec::new();
    let mut pos: usize = 0;
    assert(entry_views(entries@) =~= Seq::<ListEntryView>::empty());
    while pos < n
        invariant
            n == bytes@.len(),
            s@ == bytes@,
            parse_list(bytes@, 0) == glue(entry_views(entries@), parse_list(bytes@, pos as int)),
        decreases n - pos,
    {
        if n - pos < LIST_ENTRY_HEADER_SIZE {
            return Err(NtfsError::MalformedRecord);
        }
        let length: usize = match bytes.read_u16(pos + 4) {
            Some(v) => v as usize,
            None => { return Err(NtfsError::MalformedRecord); },
        };
        if length < LIST_ENTRY_HEADER_SIZE || length > n - pos {
            return Err(NtfsError::MalformedRecord);
        }
        let name_length: usize = s[pos + 6] as usize;
        let name_offset: usize = s[pos + 7] as usize;
        let name: Vec<u16> = if name_length == 0 {
            Vec::new()
        } else {
            if name_offset + 2 * name_length > length {
                return Err(NtfsError::MalformedRecord);
            }
            match bytes.read_u16s(pos + name_offset, name_length) {
                Some(v) => v,
                None => { return Err(NtfsError::MalformedRecord); },
            }
        };
        let type_code: u32 = match bytes.read_u32(pos) {
            Some(v) => v,
            None => { return Err(NtfsError::MalformedRecord); },
        };
        let start_vcn: u64 = match bytes.read_u64(pos + 8) {
            Some(v) => v,
            None => { return Err(NtfsError::MalformedRecord); },
        };
        let holder: u64 = match bytes.read_u64(pos + 16) {
            Some(v) => v,
            None => { return Err(NtfsError::MalformedRecord); },
        };
        let entry = ListEntry {
            type_code,
            name,
            start_vcn,
            holder: FileReference::from_raw(holder),
        };
        proof {
            assert(entry@ == list_entry_at(bytes@, pos as int));
            let next = parse_list(bytes@, pos + length);
            assert(entry_views(entries@.push(entry)) =~= entry_views(entries@).push(entry@));
            if next is Ok {
                assert(entry_views(entries@) + (seq![entry@] + next.unwrap()) =~= entry_views(
                    entries@,
                ).push(entry@) + next.unwrap());
            }
        }
        entries.push(entry);
        pos = pos + length;
    }
    assert(entry_views(entries@) + Seq::<ListEntryView>::empty() =~= entry_views(entries@));
    Ok(entries)
}

/// The number of clusters that `extents` hold, where 64 bits hold it.
fn count_clusters(extents: &Vec<Extent>) -> (r: Option<u64>)
    ensures
        match r {
            Some(n) => n == cluster_total(extents@),
            None => cluster_total(extents@) > u64::MAX,
        },
{
    let mut total: u64 = 0;
    let mut k: usize = 0;
    while k < extents.len()
        invariant
            k <= extents.len(),
            total == prefix_len(extents@, 1, k as int),
        decreases extents.len() - k,
    {
        total = match total.checked_add(extents[k].clusters) {
            Some(v) => v,
            None => {
                proof {
                    crate::stream::lemma_prefix_monotone(
                        extents@,
                        1,
                        k + 1,
                        extents@.len() as int,
                    );
                }
                return None;
            },
        };
        k = k + 1;
    }
    Some(total)
}

/// Whether `a` is the piece that `e` names.
fn names_piece(a: &Attribute, e: &ListEntry) -> (b: bool)
    ensures
        b == is_piece(a@, e@),
{
    let start: u64 = match &a.content {
        AttributeContent::Resident { .. } => 0,
        AttributeContent::NonResident { start_vcn, .. } => *start_vcn,
    };
    start == e.start_vcn && a.has_name(e.type_code, e.name.as_slice())
}

/// Finds the piece that `e` names among the attributes of `record`.
fn find_piece(record: &FileRecord, e: &ListEntry) -> (r: Option<usize>)
    ensures
        match r {
            Some(i) => piece_from(record@.attributes, e@, 0) == Some(i as int) && i
                < record.attributes@.len(),
            None => piece_from(record@.attributes, e@, 0) is None,
        },
{
    let mut i: usize = 0;
    while i < record.attributes.len()
        invariant
            i <= record.attributes@.len(),
            piece_from(record@.attributes, e@, 0) == piece_from(record@.attributes, e@, i as int),
        decreases record.attributes.len() - i,
    {
        assert(record@.attributes[i as int] == record.attributes@[i as int]@);
        if names_piece(&record.attributes[i], e) {
            return Some(i);
        }
        i = i + 1;
    }
    None
}

/// Adds `piece` to `merged`.
fn merge_piece(merged: &mut Vec<Attribute>, piece: Attribute) -> (r: Result<(), NtfsError>)
    ensures
        match r {
            Ok(_) => merge(attribute_views(old(merged)@), piece@) == Ok::<
                Seq<AttributeView>,
                NtfsError,
            >(attribute_views(final(merged)@)),
            Err(e) => merge(attribute_views(old(merged)@), piece@) == Err::<
                Seq<AttributeView>,
                NtfsError,
            >(e),
        },
{
    let ghost before = attribute_views(merged@);
    let (piece_start, piece_extents) = match piece.content {
        AttributeContent::Resident { data } => {
            let whole = Attribute {
                type_code: piece.type_code,
                flags: piece.flags,
                name: piece.name,
                content: AttributeContent::Resident { data },
            };
            assert(attribute_views(merged@.push(whole)) =~= before.push(whole@));
            merged.push(whole);
            return Ok(());
        },
        AttributeContent::NonResident { start_vcn, allocated_size, real_size, extents } => {
            if start_vcn == 0 {
                let whole = Attribute {
                    type_code: piece.type_code,
                    flags: piece.flags,
                    name: piece.name,
                    content: AttributeContent::NonResident {
                        start_vcn,
                        allocated_size,
                        real_size,
                        extents,
                    },
                };
                assert(attribute_views(merged@.push(whole)) =~= before.push(whole@));
                merged.push(whole);
                return Ok(());
            }
            (start_vcn, extents)
        },
    };
    let last = match merged.pop() {
        Some(a) => a,
        None => { return Err(NtfsError::MalformedRecord); },
    };
    assert(before.last() == last@);
    assert(attribute_views(merged@) =~= before.drop_last());
    if !last.has_name(piece.type_code, piece.name.as_slice()) {
        return Err(NtfsError::MalformedRecord);
    }
    match last.content {
        AttributeContent::Resident { .. } => Err(NtfsError::MalformedRecord),
        AttributeContent::NonResident { start_vcn, allocated_size, real_size, extents } => {
            let held: u64 = match count_clusters(&extents) {
                Some(n) => n,
                None => { return Err(NtfsError::MalformedRecord); },
            };
            let next: u64 = match start_vcn.checked_add(held) {
                Some(n) => n,
                None => { return Err(NtfsError::MalformedRecord); },
            };
            if next != piece_start {
                return Err(NtfsError::MalformedRecord);
            }
            let mut all = extents;
            let ghost first = all@;
            all.extend_from_slice(piece_extents.as_slice());
            assert(all@ =~= first + piece_extents@);
            let whole = Attribute {
                type_code: last.type_code,
                flags: last.flags,
                name: last.name,
                content: AttributeContent::NonResident {
                    start_vcn,
                    allocated_size,
                    real_size,
                    extents: all,
                },
            };
            assert(attribute_views(merged@.push(whole)) =~= before.drop_last().push(whole@));
            merged.push(whole);
            Ok(())
        },
    }
}

/// The contents of an attribute list.
fn read_list_content(disk: &mut DiskAccessor, cluster_size: u32, list: &Attribute) -> (r: Result<
    ByteBuffer,
    NtfsError,
>)
    requires
        old(disk).wf(),
    ensures
        final(disk).wf(),
        final(disk)@.image == old(disk)@.image,
        final(disk)@.sector_size == old(disk)@.sector_size,
        final(disk)@.reads >= old(disk)@.reads,
        agrees(r, list_content(old(disk)@.image, cluster_size as nat, list@)),
{
    match &list.content {
        AttributeContent::Resident { data } => Ok(data.clone()),
        AttributeContent::NonResident { real_size, extents, .. } => {
            if *real_size > MAX_LIST_SIZE {
                return Err(NtfsError::MalformedRecord);
            }
            match read_range(disk, extents, cluster_size, 0, *real_size as u32) {
                Ok(b) => Ok(b),
                Err(StreamFault::OutsideRuns) => Err(NtfsError::MalformedRecord),
                Err(StreamFault::Device) => Err(NtfsError::IoFault),
            }
        },
    }
}

/// Makes the record whole of which `base` is the first segment: reads the
/// attribute list, if the record has one, fetches each piece that it
/// names from the record that holds it, and joins the pieces in the
/// order of the list.
pub fn complete(mft: &MftReader, disk: &mut DiskAccessor, base: FileRecord) -> (r: Result<
    FileRecord,
    NtfsError,
>)
    requires
        old(disk).wf(),
        mft.wf(),
    ensures
        final(disk).wf(),
        final(disk)@.image == old(disk)@.image,
        final(disk)@.sector_size == old(disk)@.sector_size,
        final(disk)@.reads >= old(disk)@.reads,
        agrees(r, full_record(old(disk)@.image, mft@, base@)),
{
    proof {
        reveal(full_record);
    }
    let ghost image = disk@.image;
    let unnamed: Vec<u16> = Vec::new();
    assert(unnamed@ =~= Seq::<u16>::empty());
    let at: usize = match base.find_attribute(ATTRIBUTE_LIST, unnamed.as_slice()) {
        Some(i) => i,
        None => { return Ok(base); },
    };
    assert(base@.attributes[at as int] == base.attributes@[at as int]@);
    let bytes = read_list_content(disk, mft.cluster_size(), &base.attributes[at])?;
    let entries = read_list(&bytes)?;
    let mut merged: Vec<Attribute> = Vec::new();
    let mut i: usize = 0;
    assert(attribute_views(merged@) =~= Seq::<AttributeView>::empty());
    while i < entries.len()
        invariant
            disk.wf(),
            mft.wf(),
            disk@.image == image,
            image == old(disk)@.image,
            disk@.sector_size == old(disk)@.sector_size,
            disk@.reads >= old(disk)@.reads,
            i <= entries@.len(),
            full_record(image, mft@, base@) == with_attributes(
                base@,
                assemble(image, mft@, base@, entry_views(entries@), 0, Seq::empty()),
            ),
            assemble(image, mft@, base@, entry_views(entries@), 0, Seq::empty()) == assemble(
                image,
                mft@,
                base@,
                entry_views(entries@),
                i as int,
                attribute_views(merged@),
            ),
        decreases entries.len() - i,
    {
        let entry = &entries[i];
        assert(entry_views(entries@)[i as int] == entry@);
        let piece = if entry.holder.segment == base.reference.segment {
            if entry.holder.sequence != base.reference.sequence {
                return Err(NtfsError::StaleReference);
            }
            let found: usize = match find_piece(&base, entry) {
                Some(k) => k,
                None => { return Err(NtfsError::MalformedRecord); },
            };
            assert(base@.attributes[found as int] == base.attributes@[found as int]@);
            base.attributes[found].duplicate()
        } else {
            let record = mft.open(disk, entry.holder)?;
            if record.base != base.reference {
                return Err(NtfsError::MalformedRecord);
            }
            let found: usize = match find_piece(&record, entry) {
                Some(k) => k,
                None => { return Err(NtfsError::MalformedRecord); },
            };
            assert(record@.attributes[found as int] == record.attributes@[found as int]@);
            record.attributes[found].duplicate()
        };
        merge_piece(&mut merged, piece)?;
        i = i + 1;
    }
    Ok(
        FileRecord {
            reference: base.reference,
            flags: base.flags,
            base: base.base,
            attributes: merged,
        },
    )
}

/// Reads record `segment` and makes it whole.
pub fn load_complete(mft: &MftReader, disk: &mut DiskAccessor, segment: u64) -> (r: Result<
    FileRecord,
    NtfsError,
>)
    requires
        old(disk).wf(),
        mft.wf(),
    ensures
        final(disk).wf(),
        final(disk)@.image == old(disk)@.image,
        final(disk)@.sector_size == old(disk)@.sector_size,
        final(disk)@.reads >= old(disk)@.reads,
        agrees(r, full_record_result(old(disk)@.image, mft@, segment)),
{
    let base = mft.load(disk, segment)?;
    complete(mft, disk, base)
}

/// Reads the record that `reference` points to and makes it whole.
pub fn open_complete(mft: &MftReader, disk: &mut DiskAccessor, reference: FileReference) -> (r:
    Result<FileRecord, NtfsError>)
    requires
        old(disk).wf(),
        mft.wf(),
    ensures
        final(disk).wf(),
        final(disk)@.image == old(disk)@.image,
        final(disk)@.sector_size == old(disk)@.sector_size,
        final(disk)@.reads >= old(disk)@.reads,
        agrees(r, full_reference_result(old(disk)@.image, mft@, reference)),
{
    let base = mft.open(disk, reference)?;
    complete(mft, disk, base)
}

} // verus!
