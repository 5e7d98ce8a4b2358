//! Attributes: the typed parts of a file record.

use crate::bytes::{field, in_bounds, u16_at, u16s_at, u32_at, u64_at, ByteBuffer};
use crate::error::{agrees, NtfsError};
use crate::runs::{decode_run_list, decode_runs, resolve_run_list, resolve_runs, Extent};
use vstd::prelude::*;

verus! {

/// The length of the part of an attribute header that every attribute
/// has.
pub const ATTRIBUTE_HEADER_SIZE: usize = 16;

/// The length of the header of a resident attribute.
pub const RESIDENT_HEADER_SIZE: usize = 24;

/// The length of the header of a non-resident attribute.
pub const NON_RESIDENT_HEADER_SIZE: usize = 64;

/// The type code of an attribute list.
pub const ATTRIBUTE_LIST: u32 = 0x20;

/// The type code of a data attribute.
pub const DATA: u32 = 0x80;

/// The type code of the root of a directory index.
pub const INDEX_ROOT: u32 = 0x90;

/// The type code of the blocks of a directory index.
pub const INDEX_ALLOCATION: u32 = 0xA0;

/// Where the contents of an attribute are.
#[derive(Debug, PartialEq, Eq)]
pub enum AttributeContent {
    /// Inside the record: the bytes themselves.
    Resident { data: ByteBuffer },
    /// In clusters elsewhere on the volume. The extents are those of the
    /// attribute's data runs and hold the clusters from `start_vcn` on;
    /// the contents are `real_size` bytes long.
    NonResident { start_vcn: u64, allocated_size: u64, real_size: u64, extents: Vec<Extent> },
}

/// An attribute's contents, as the proofs see them.
pub ghost enum ContentView {
    Resident { data: Seq<u8> },
    NonResident { start_vcn: u64, allocated_size: u64, real_size: u64, extents: Seq<Extent> },
}

impl View for AttributeContent {
    type V = ContentView;

    open spec fn view(&self) -> ContentView {
        match self {
            AttributeContent::Resident { data } => ContentView::Resident { data: data@ },
            AttributeContent::NonResident { start_vcn, allocated_size, real_size, extents } =>
                ContentView::NonResident {
                    start_vcn: *start_vcn,
                    allocated_size: *allocated_size,
                    real_size: *real_size,
                    extents: extents@,
                },
        }
    }
}

/// One attribute of a file record.
#[derive(Debug, PartialEq, Eq)]
pub struct Attribute {
    pub type_code: u32,
    /// Bit 0 is set on compressed contents, bit 14 on encrypted ones, bit
    /// 15 on sparse ones.
    pub flags: u16,
    /// The name, in UTF-16; empty for an unnamed attribute.
    pub name: Vec<u16>,
    pub content: AttributeContent,
}

/// An attribute, as the proofs see it.
pub ghost struct AttributeView {
    pub type_code: u32,
    pub flags: u16,
    pub name: Seq<u16>,
    pub content: ContentView,
}

impl View for Attribute {
    type V = AttributeView;

    open spec fn view(&self) -> AttributeView {
        AttributeView {
            type_code: self.type_code,
            flags: self.flags,
            name: self.name@,
            content: self.content@,
        }
    }
}

/// The views of the attributes in `v`.
pub open spec fn attribute_views(v: Seq<Attribute>) -> Seq<AttributeView> {
    v.map_values(|a: Attribute| a@)
}

/// The index of the first attribute among `attributes`, from index `from`
/// on, that has type `type_code` and name `name`.
pub open spec fn first_named(
    attributes: Seq<AttributeView>,
    type_code: u32,
    name: Seq<u16>,
    from: int,
) -> Option<int>
    decreases attributes.len() - from,
{
    if from < 0 || from >= attributes.len() {
        None
    } else if attributes[from].type_code == type_code && attributes[from].name == name {
        Some(from)
    } else {
        first_named(attributes, type_code, name, from + 1)
    }
}

/// The first attribute among `attributes` that has type `type_code` and
/// name `name`.
pub open spec fn select(attributes: Seq<AttributeView>, type_code: u32, name: Seq<u16>) -> Option<
    AttributeView,
> {
    match first_named(attributes, type_code, name, 0) {
        Some(i) => Some(attributes[i]),
        None => None,
    }
}

/// The name of the attribute whose bytes are `a`: as many UTF-16 units as
/// byte 9 says, at the offset that bytes 10 and 11 give.
pub open spec fn attribute_name(a: Seq<u8>) -> Option<Seq<u16>> {
    if a[9] == 0 {
        Some(Seq::empty())
    } else {
        u16s_at(a, u16_at(a, 0x0A).unwrap() as int, a[9] as int)
    }
}

/// The contents of the resident attribute whose bytes are `a`.
pub open spec fn parse_resident(a: Seq<u8>) -> Result<ContentView, NtfsError> {
    if a.len() < RESIDENT_HEADER_SIZE {
        Err(NtfsError::MalformedRecord)
    } else if !in_bounds(a, u16_at(a, 0x14).unwrap() as int, u32_at(a, 0x10).unwrap() as int) {
        Err(NtfsError::MalformedRecord)
    } else {
        Ok(
            ContentView::Resident {
                data: field(a, u16_at(a, 0x14).unwrap() as int, u32_at(a, 0x10).unwrap() as int),
            },
        )
    }
}

/// The sizes and extents of the non-resident attribute whose bytes are
/// `a`: its data runs, decoded and turned into extents on the volume.
pub open spec fn parse_non_resident(a: Seq<u8>) -> Result<ContentView, NtfsError> {
    if a.len() < NON_RESIDENT_HEADER_SIZE {
        Err(NtfsError::MalformedRecord)
    } else {
        match decode_runs(a, u16_at(a, 0x20).unwrap() as int) {
            Err(e) => Err(e),
            Ok(runs) => match resolve_runs(runs) {
                Err(e) => Err(e),
                Ok(extents) => Ok(
                    ContentView::NonResident {
                        start_vcn: u64_at(a, 0x10).unwrap(),
                        allocated_size: u64_at(a, 0x28).unwrap(),
                        real_size: u64_at(a, 0x30).unwrap(),
                        extents,
                    },
                ),
            },
        }
    }
}

/// The attribute whose bytes, header and all, are `a`. An attribute whose
/// name, contents or runs do not lie inside `a` is malformed.
pub open spec fn parse_attribute(a: Seq<u8>) -> Result<AttributeView, NtfsError> {
    if a.len() < ATTRIBUTE_HEADER_SIZE {
        Err(NtfsError::MalformedRecord)
    } else {
        match attribute_name(a) {
            None => Err(NtfsError::MalformedRecord),
            Some(name) => {
                let content = if a[8] == 0 {
                    parse_resident(a)
                } else {
                    parse_non_resident(a)
                };
                match content {
                    Err(e) => Err(e),
                    Ok(content) => Ok(
                        AttributeView {
                            type_code: u32_at(a, 0).unwrap(),
                            flags: u16_at(a, 0x0C).unwrap(),
                            name,
                            content,
                        },
                    ),
                }
            },
        }
    }
}

fn read_resident(a: &ByteBuffer) -> (r: Result<AttributeContent, NtfsError>)
    ensures
        agrees(r, parse_resident(a@)),
{
    if a.len() < RESIDENT_HEADER_SIZE {
        return Err(NtfsError::MalformedRecord);
    }
    let length: usize = match a.read_u32(0x10) {
        Some(v) => v as usize,
        None => { return Err(NtfsError::MalformedRecord); },
    };
    let offset: usize = match a.read_u16(0x14) {
        Some(v) => v as usize,
        None => { return Err(NtfsError::MalformedRecord); },
    };
    match a.slice(offset, length) {
        Some(data) => Ok(AttributeContent::Resident { data }),
        None => Err(NtfsError::MalformedRecord),
    }
}

fn read_non_resident(a: &ByteBuffer) -> (r: Result<AttributeContent, NtfsError>)
    ensures
        agrees(r, parse_non_resident(a@)),
{
    if a.len() < NON_RESIDENT_HEADER_SIZE {
        return Err(NtfsError::MalformedRecord);
    }
    let start_vcn: u64 = match a.read_u64(0x10) {
        Some(v) => v,
        None => { return Err(NtfsError::MalformedRecord); },
    };
    let runs_offset: usize = match a.read_u16(0x20) {
        Some(v) => v as usize,
        None => { return Err(NtfsError::MalformedRecord); },
    };
    let allocated_size: u64 = match a.read_u64(0x28) {
        Some(v) => v,
        None => { return Err(NtfsError::MalformedRecord); },
    };
    let real_size: u64 = match a.read_u64(0x30) {
        Some(v) => v,
        None => { return Err(NtfsError::MalformedRecord); },
    };
    let runs = decode_run_list(a, runs_offset)?;
    let extents = resolve_run_list(&runs)?;
    Ok(AttributeContent::NonResident { start_vcn, allocated_size, real_size, extents })
}

/// Parses one attribute from its bytes, header and all.
pub fn read_attribute(a: &ByteBuffer) -> (r: Result<Attribute, NtfsError>)
    ensures
        agrees(r, parse_attribute(a@)),
{
    if a.len() < ATTRIBUTE_HEADER_SIZE {
        return Err(NtfsError::MalformedRecord);
    }
    let s = a.as_slice();
    let type_code: u32 = match a.read_u32(0) {
        Some(v) => v,
        None => { return Err(NtfsError::MalformedRecord); },
    };
    let flags: u16 = match a.read_u16(0x0C) {
        Some(v) => v,
        None => { return Err(NtfsError::MalformedRecord); },
    };
    let name_length: usize = s[9] as usize;
    let name: Vec<u16> = if name_length == 0 {
        Vec::new()
    } else {
        let name_offset: usize = match a.read_u16(0x0A) {
            Some(v) => v as usize,
            None => { return Err(NtfsError::MalformedRecord); },
        };
        match a.read_u16s(name_offset, name_length) {
            Some(v) => v,
            None => { return Err(NtfsError::MalformedRecord); },
        }
    };
    let content = if s[8] == 0 {
        read_resident(a)?
    } else {
        read_non_resident(a)?
    };
    Ok(Attribute { type_code, flags, name, content })
}

impl Attribute {
    /// A copy of the attribute.
    pub fn duplicate(&self) -> (copy: Attribute)
        ensures
            copy@ == self@,
    {
        let content = match &self.content {
            AttributeContent::Resident { data } => AttributeContent::Resident {
                data: data.clone(),
            },
            AttributeContent::NonResident { start_vcn, allocated_size, real_size, extents } =>
                AttributeContent::NonResident {
                    start_vcn: *start_vcn,
                    allocated_size: *allocated_size,
                    real_size: *real_size,
                    extents: vstd::slice::slice_to_vec(extents.as_slice()),
                },
        };
        Attribute {
            type_code: self.type_code,
            flags: self.flags,
            name: vstd::slice::slice_to_vec(self.name.as_slice()),
            content,
        }
    }

    /// Whether the attribute has type `type_code` and name `name`.
    pub open spec fn is_named(&self, type_code: u32, name: Seq<u16>) -> bool {
        self.type_code == type_code && self.name@ == name
    }

    /// Whether the attribute has type `type_code` and name `name`.
    pub fn has_name(&self, type_code: u32, name: &[u16]) -> (b: bool)
        ensures
            b == self.is_named(type_code, name@),
    {
        if self.type_code != type_code || self.name.len() != name.len() {
            return false;
        }
        let mut i: usize = 0;
        while i < name.len()
            invariant
                i <= name.len(),
                self.name@.len() == name@.len(),
                forall|j: int| 0 <= j < i ==> self.name@[j] == name@[j],
            decreases name.len() - i,
        {
            if self.name[i] != name[i] {
                return false;
            }
            i = i + 1;
        }
        assert(self.name@ =~= name@);
        true
    }

    /// Whether the contents are encrypted. They are delivered as they lie
    /// on the volume.
    pub fn is_encrypted(&self) -> (b: bool)
        ensures
            b == ((self.flags as int / 0x4000) % 2 == 1),
    {
        (self.flags / 0x4000) % 2 == 1
    }

    /// Whether the contents are compressed. They are delivered as they lie
    /// on the volume.
    pub fn is_compressed(&self) -> (b: bool)
        ensures
            b == (self.flags as int % 2 == 1),
    {
        self.flags % 2 == 1
    }
}

} // verus!
