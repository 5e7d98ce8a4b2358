//! File records: the update sequence that guards them, their header and
//! their attributes.

use crate::attribute::{
    attribute_views,
    first_named,
    parse_attribute,
    read_attribute,
    Attribute,
    AttributeView,
    ATTRIBUTE_HEADER_SIZE,
};
use crate::bytes::{field, u16_at, u32_at, u64_at, ByteBuffer};
use crate::error::{agrees, NtfsError};
use crate::runs::glue;
use vstd::prelude::*;

verus! {

/// The length of the chunks whose last two bytes the update sequence
/// guards.
pub const FIXUP_STRIDE: usize = 512;

/// The length of the header of a file record, up to the update sequence.
pub const RECORD_HEADER_SIZE: usize = 42;

/// The type code that ends the attributes of a record.
pub const END_OF_ATTRIBUTES: u32 = 0xFFFF_FFFF;

/// The number of segment numbers: 2 to the power 48.
pub const SEGMENT_LIMIT: u64 = 0x1_0000_0000_0000;

/// A reference to a file record: the number of the record's segment in
/// the master file table and the sequence number that the record had
/// when the reference was made.
#[derive(Clone, Copy, Debug, PartialEq, Eq, Structural)]
pub struct FileReference {
    pub segment: u64,
    pub sequence: u16,
}

impl FileReference {
    /// The reference that the 64-bit number `raw` packs: the segment in
    /// the low 48 bits, the sequence number in the high 16.
    pub open spec fn unpack(raw: u64) -> FileReference {
        FileReference {
            segment: (raw % SEGMENT_LIMIT) as u64,
            sequence: (raw / SEGMENT_LIMIT) as u16,
        }
    }

    /// The 64-bit number that packs the reference. Of the segment only the
    /// low 48 bits count.
    pub open spec fn pack(self) -> u64 {
        ((self.segment % SEGMENT_LIMIT) + self.sequence as u64 * SEGMENT_LIMIT) as u64
    }

    /// Unpacks a reference from its 64-bit form.
    pub fn from_raw(raw: u64) -> (r: FileReference)
        ensures
            r == Self::unpack(raw),
            r.segment < SEGMENT_LIMIT,
    {
        FileReference { segment: raw % SEGMENT_LIMIT, sequence: (raw / SEGMENT_LIMIT) as u16 }
    }

    /// Packs the reference into its 64-bit form.
    pub fn to_raw(&self) -> (raw: u64)
        ensures
            raw == self.pack(),
    {
        (self.segment % SEGMENT_LIMIT) + self.sequence as u64 * SEGMENT_LIMIT
    }

    /// Packing and unpacking undo each other.
    pub proof fn lemma_pack_unpack(raw: u64, reference: FileReference)
        ensures
            Self::unpack(raw).pack() == raw,
            reference.segment < SEGMENT_LIMIT ==> Self::unpack(reference.pack()) == reference,
    {
    }
}

/// Whether the record begins with the letters `FILE`.
pub open spec fn has_file_signature(s: Seq<u8>) -> bool {
    &&& s.len() >= 4
    &&& s[0] == 0x46
    &&& s[1] == 0x49
    &&& s[2] == 0x4C
    &&& s[3] == 0x45
}

/// The offset of the update sequence array in a record.
pub open spec fn usa_offset(s: Seq<u8>) -> int {
    u16_at(s, 4).unwrap() as int
}

/// The number of 16-bit entries of the update sequence array: the update
/// sequence number and one saved pair of bytes for each chunk.
pub open spec fn usa_count(s: Seq<u8>) -> int {
    u16_at(s, 6).unwrap() as int
}

/// The number of whole chunks in a record.
pub open spec fn chunk_count(s: Seq<u8>) -> int {
    s.len() as int / (FIXUP_STRIDE as int)
}

/// Whether the update sequence array lies inside the record and has one
/// entry for each whole chunk besides the update sequence number.
pub open spec fn fixup_layout_ok(s: Seq<u8>) -> bool {
    &&& s.len() >= 8
    &&& usa_count(s) == chunk_count(s) + 1
    &&& usa_offset(s) + 2 * usa_count(s) <= s.len()
}

/// Whether the last two bytes of chunk `c` are the update sequence number.
pub open spec fn chunk_intact(s: Seq<u8>, c: int) -> bool {
    &&& s[c * 512 + 510] == s[usa_offset(s)]
    &&& s[c * 512 + 511] == s[usa_offset(s) + 1]
}

/// Whether every chunk ends in the update sequence number: no write of
/// the record was torn.
pub open spec fn fixup_intact(s: Seq<u8>) -> bool {
    forall|c: int| 0 <= c < chunk_count(s) ==> #[trigger] chunk_intact(s, c)
}

/// Byte `i` of the record once the saved bytes are back in place.
pub open spec fn fixed_byte(s: Seq<u8>, i: int) -> u8 {
    if i % 512 >= 510 && i / 512 < chunk_count(s) {
        s[usa_offset(s) + 2 + 2 * (i / 512) + (i % 512 - 510)]
    } else {
        s[i]
    }
}

/// The record with the saved bytes back in place at the end of each
/// chunk.
pub open spec fn fixed(s: Seq<u8>) -> Seq<u8> {
    Seq::new(s.len(), |i: int| fixed_byte(s, i))
}

/// What undoing the update sequence of `s` returns.
pub open spec fn fixup_result(s: Seq<u8>) -> Result<Seq<u8>, NtfsError> {
    if !fixup_layout_ok(s) {
        Err(NtfsError::MalformedRecord)
    } else if !fixup_intact(s) {
        Err(NtfsError::RecordDamaged)
    } else {
        Ok(fixed(s))
    }
}

/// Checks the update sequence of a record or index block and puts the
/// saved bytes back. A chunk that does not end in the update sequence
/// number means a torn write: `RecordDamaged`.
pub fn apply_fixups(raw: &ByteBuffer) -> (r: Result<ByteBuffer, NtfsError>)
    ensures
        match r {
            Ok(b) => fixup_result(raw@) == Ok::<Seq<u8>, NtfsError>(b@),
            Err(e) => fixup_result(raw@) == Err::<Seq<u8>, NtfsError>(e),
        },
{
    let n: usize = raw.len();
    if n < 8 {
        return Err(NtfsError::MalformedRecord);
    }
    let offset: usize = match raw.read_u16(4) {
        Some(v) => v as usize,
        None => { return Err(NtfsError::MalformedRecord); },
    };
    let count: usize = match raw.read_u16(6) {
        Some(v) => v as usize,
        None => { return Err(NtfsError::MalformedRecord); },
    };
    let chunks: usize = n / FIXUP_STRIDE;
    if count != chunks + 1 || 2 * count > n || offset > n - 2 * count {
        return Err(NtfsError::MalformedRecord);
    }
    let s = raw.as_slice();
    let mut out = ByteBuffer::from_slice(s);
    let mut c: usize = 0;
    while c < chunks
        invariant
            c <= chunks,
            fixup_layout_ok(raw@),
            chunks == chunk_count(raw@),
            n == raw@.len(),
            s@ == raw@,
            offset == usa_offset(raw@),
            offset + 2 * (chunks + 1) <= n,
            out@.len() == n,
            forall|d: int| 0 <= d < c ==> #[trigger] chunk_intact(raw@, d),
            forall|i: int|
                0 <= i < n ==> out@[i] == if i / 512 < c {
                    fixed_byte(raw@, i)
                } else {
                    raw@[i]
                },
        decreases chunks - c,
    {
        let tail: usize = c * FIXUP_STRIDE + 510;
        if s[tail] != s[offset] || s[tail + 1] != s[offset + 1] {
            assert(!chunk_intact(raw@, c as int));
            return Err(NtfsError::RecordDamaged);
        }
        let saved: usize = offset + 2 + 2 * c;
        out.set(tail, s[saved]);
        out.set(tail + 1, s[saved + 1]);
        c = c + 1;
    }
    assert(out@ =~= fixed(raw@));
    Ok(out)
}

/// A file record, parsed: the reference it answers to, the flags of its
/// header and its attributes in the order of the record.
#[derive(Debug, PartialEq, Eq)]
pub struct FileRecord {
    pub reference: FileReference,
    /// Bit 0 is set on a record in use, bit 1 on a directory.
    pub flags: u16,
    /// The record that this one continues; segment 0 and sequence 0 in a
    /// record that continues none.
    pub base: FileReference,
    pub attributes: Vec<Attribute>,
}

/// A file record, as the proofs see it.
pub ghost struct FileRecordView {
    pub reference: FileReference,
    pub flags: u16,
    pub base: FileReference,
    pub attributes: Seq<AttributeView>,
}

impl View for FileRecord {
    type V = FileRecordView;

    open spec fn view(&self) -> FileRecordView {
        FileRecordView {
            reference: self.reference,
            flags: self.flags,
            base: self.base,
            attributes: attribute_views(self.attributes@),
        }
    }
}

/// Whether header flags `flags` mark a record in use.
pub open spec fn flags_in_use(flags: u16) -> bool {
    flags as int % 2 == 1
}

/// Whether header flags `flags` mark a directory.
pub open spec fn flags_directory(flags: u16) -> bool {
    (flags as int / 2) % 2 == 1
}

/// The attributes of the record `s` from offset `pos` up to the end
/// marker. An attribute whose header or stated length reaches past the end
/// of the record is malformed, and so is a record without end marker.
pub open spec fn parse_attributes(s: Seq<u8>, pos: int) -> Result<Seq<AttributeView>, NtfsError>
    decreases s.len() - pos,
{
    if pos < 0 || pos + 4 > s.len() {
        Err(NtfsError::MalformedRecord)
    } else if u32_at(s, pos).unwrap() == END_OF_ATTRIBUTES {
        Ok(Seq::empty())
    } else if pos + ATTRIBUTE_HEADER_SIZE > s.len() {
        Err(NtfsError::MalformedRecord)
    } else {
        let length = u32_at(s, pos + 4).unwrap() as int;
        if length < ATTRIBUTE_HEADER_SIZE || pos + length > s.len() {
            Err(NtfsError::MalformedRecord)
        } else {
            match parse_attribute(field(s, pos, length)) {
                Err(e) => Err(e),
                Ok(attribute) => glue(seq![attribute], parse_attributes(s, pos + length)),
            }
        }
    }
}

/// The record that the bytes `raw`, as they lie on the volume, hold for
/// segment `segment`. Without the letters `FILE` or a whole header the
/// record is malformed; its update sequence is undone before anything
/// else is read.
pub open spec fn parse_record(raw: Seq<u8>, segment: u64) -> Result<FileRecordView, NtfsError> {
    if raw.len() < RECORD_HEADER_SIZE || !has_file_signature(raw) {
        Err(NtfsError::MalformedRecord)
    } else {
        match fixup_result(raw) {
            Err(e) => Err(e),
            Ok(s) => match parse_attributes(s, u16_at(s, 0x14).unwrap() as int) {
                Err(e) => Err(e),
                Ok(attributes) => Ok(
                    FileRecordView {
                        reference: FileReference {
                            segment,
                            sequence: u16_at(s, 0x10).unwrap(),
                        },
                        flags: u16_at(s, 0x16).unwrap(),
                        base: FileReference::unpack(u64_at(s, 0x20).unwrap()),
                        attributes,
                    },
                ),
            },
        }
    }
}

fn read_attributes(s: &ByteBuffer, first: usize) -> (r: Result<Vec<Attribute>, NtfsError>)
    ensures
        match r {
            Ok(v) => parse_attributes(s@, first as int) == Ok::<Seq<AttributeView>, NtfsError>(
                attribute_views(v@),
            ),
            Err(e) => parse_attributes(s@, first as int) == Err::<Seq<AttributeView>, NtfsError>(e),
        },
{
    let n: usize = s.len();
    let mut attributes: Vec<Attribute> = Vec::new();
    let mut pos: usize = first;
    loop
        invariant
            n == s@.len(),
            first <= pos,
            parse_attributes(s@, first as int) == glue(
                attribute_views(attributes@),
                parse_attributes(s@, pos as int),
            ),
        decreases n - pos,
    {
        if pos > n || n - pos < 4 {
            return Err(NtfsError::MalformedRecord);
        }
        let type_code: u32 = match s.read_u32(pos) {
            Some(v) => v,
            None => { return Err(NtfsError::MalformedRecord); },
        };
        if type_code == END_OF_ATTRIBUTES {
            assert(attribute_views(attributes@) + Seq::<AttributeView>::empty()
                =~= attribute_views(attributes@));
            return Ok(attributes);
        }
        if n - pos < ATTRIBUTE_HEADER_SIZE {
            return Err(NtfsError::MalformedRecord);
        }
        let length: usize = match s.read_u32(pos + 4) {
            Some(v) => v as usize,
            None => { return Err(NtfsError::MalformedRecord); },
        };
        if length < ATTRIBUTE_HEADER_SIZE || length > n - pos {
            return Err(NtfsError::MalformedRecord);
        }
        let bytes = match s.slice(pos, length) {
            Some(b) => b,
            None => { return Err(NtfsError::MalformedRecord); },
        };
        let attribute = read_attribute(&bytes)?;
        proof {
            let next = parse_attributes(s@, pos + length);
            assert(attribute_views(attributes@.push(attribute)) =~= attribute_views(
                attributes@,
            ).push(attribute@));
            if next is Ok {
                assert(attribute_views(attributes@) + (seq![attribute@] + next.unwrap())
                    =~= attribute_views(attributes@).push(attribute@) + next.unwrap());
            }
        }
        attributes.push(attribute);
        pos = pos + length;
    }
}

/// Parses the file record of segment `segment` from its bytes as they lie
/// on the volume. Nothing but the bytes is needed, so that the record of
/// the master file table itself can be parsed before any record can be
/// looked up.
pub fn read_record(raw: &ByteBuffer, segment: u64) -> (r: Result<FileRecord, NtfsError>)
    ensures
        agrees(r, parse_record(raw@, segment)),
{
    if raw.len() < RECORD_HEADER_SIZE {
        return Err(NtfsError::MalformedRecord);
    }
    let head = raw.as_slice();
    if !(head[0] == 0x46 && head[1] == 0x49 && head[2] == 0x4C && head[3] == 0x45) {
        return Err(NtfsError::MalformedRecord);
    }
    let s = apply_fixups(raw)?;
    let sequence: u16 = match s.read_u16(0x10) {
        Some(v) => v,
        None => { return Err(NtfsError::MalformedRecord); },
    };
    let first: usize = match s.read_u16(0x14) {
        Some(v) => v as usize,
        None => { return Err(NtfsError::MalformedRecord); },
    };
    let flags: u16 = match s.read_u16(0x16) {
        Some(v) => v,
        None => { return Err(NtfsError::MalformedRecord); },
    };
    let base: u64 = match s.read_u64(0x20) {
        Some(v) => v,
        None => { return Err(NtfsError::MalformedRecord); },
    };
    let attributes = read_attributes(&s, first)?;
    Ok(
        FileRecord {
            reference: FileReference { segment, sequence },
            flags,
            base: FileReference::from_raw(base),
            attributes,
        },
    )
}

impl FileRecord {
    /// Whether the record is in use.
    pub fn is_in_use(&self) -> (b: bool)
        ensures
            b == flags_in_use(self.flags),
    {
        self.flags % 2 == 1
    }

    /// Whether the record is a directory.
    pub fn is_directory(&self) -> (b: bool)
        ensures
            b == flags_directory(self.flags),
    {
        (self.flags / 2) % 2 == 1
    }

    /// Finds the first attribute of type `type_code` and name `name`.
    pub fn find_attribute(&self, type_code: u32, name: &[u16]) -> (r: Option<usize>)
        ensures
            match r {
                Some(i) => first_named(self@.attributes, type_code, name@, 0) == Some(i as int)
                    && i < self.attributes@.len(),
                None => first_named(self@.attributes, type_code, name@, 0) is None,
            },
    {
        let mut i: usize = 0;
        while i < self.attributes.len()
            invariant
                i <= self.attributes@.len(),
                first_named(self@.attributes, type_code, name@, 0) == first_named(
                    self@.attributes,
                    type_code,
                    name@,
                    i as int,
                ),
            decreases self.attributes.len() - i,
        {
            assert(self@.attributes[i as int] == self.attributes@[i as int]@);
            if self.attributes[i].has_name(type_code, name) {
                return Some(i);
            }
            i = i + 1;
        }
        None
    }
}

} // verus!
