//! Directory indexes: finding one name among the entries of a directory.

use crate::attribute::{Attribute, AttributeContent, AttributeView, ContentView};
use crate::bytes::{u16_at, u16s_at, u32_at, u64_at, ByteBuffer};
use crate::disk::DiskAccessor;
use crate::error::NtfsError;
use crate::record::{apply_fixups, fixup_result, FileReference};
use crate::runs::Extent;
use crate::stream::{read_range, stream_range, StreamFault};
use vstd::prelude::*;

verus! {

/// The length of the header of an index entry.
pub const ENTRY_HEADER_SIZE: usize = 16;

/// The offset of the file name in an entry that has one.
pub const ENTRY_NAME_OFFSET: usize = 0x52;

/// The offset of the node header in the root of an index.
pub const ROOT_NODE_OFFSET: usize = 0x10;

/// The offset of the node header in a block of an index.
pub const BLOCK_NODE_OFFSET: usize = 0x18;

/// The number of blocks that a search may go down through. A tree that is
/// deeper holds a cycle: with two entries to a node it would hold more
/// files than a volume can number.
pub const MAX_INDEX_DEPTH: u32 = 32;

/// How one name stands to another in the order of a directory.
#[derive(Clone, Copy, Debug, PartialEq, Eq, Structural)]
pub enum NameOrder {
    Less,
    Equal,
    Greater,
}

/// What the search of one node ends in.
#[derive(Clone, Copy, Debug, PartialEq, Eq, Structural)]
pub enum Scan {
    /// An entry bears the name.
    Found(FileReference),
    /// The name can only be in the block with this virtual cluster number.
    Descend(u64),
    /// The name is not in the directory.
    Missing,
    /// The node is not laid out as a node must be.
    Corrupt,
}

/// The upper-case form of the UTF-16 unit `unit`: what `table` holds for
/// it, and beyond the table's end the capital of an ASCII letter, or the
/// unit itself.
pub open spec fn fold(table: Seq<u16>, unit: u16) -> u16 {
    if (unit as int) < table.len() {
        table[unit as int]
    } else if 0x61 <= unit <= 0x7A {
        (unit - 0x20) as u16
    } else {
        unit
    }
}

/// How `a` stands to `b` from unit `from` on: unit by unit in upper case,
/// a name that ends first coming first.
pub open spec fn collate_from(table: Seq<u16>, a: Seq<u16>, b: Seq<u16>, from: int) -> NameOrder
    decreases a.len() - from,
{
    if from < 0 || from >= a.len() {
        if from >= b.len() {
            NameOrder::Equal
        } else {
            NameOrder::Less
        }
    } else if from >= b.len() {
        NameOrder::Greater
    } else if fold(table, a[from]) < fold(table, b[from]) {
        NameOrder::Less
    } else if fold(table, a[from]) > fold(table, b[from]) {
        NameOrder::Greater
    } else {
        collate_from(table, a, b, from + 1)
    }
}

/// How `a` stands to `b` in the order of a directory: without regard to
/// case, by the numbers of the units.
pub open spec fn collate(table: Seq<u16>, a: Seq<u16>, b: Seq<u16>) -> NameOrder {
    collate_from(table, a, b, 0)
}

/// The length that the entry at `pos` states.
pub open spec fn entry_len(b: Seq<u8>, pos: int) -> int {
    u16_at(b, pos + 8).unwrap() as int
}

/// Whether the entry at `pos` points to a block below it.
pub open spec fn entry_has_child(b: Seq<u8>, pos: int) -> bool {
    b[pos + 12] as int % 2 == 1
}

/// Whether the entry at `pos` is the last of its node. Such an entry
/// bears no name.
pub open spec fn entry_is_last(b: Seq<u8>, pos: int) -> bool {
    (b[pos + 12] as int / 2) % 2 == 1
}

/// Whether the entry at `pos` lies inside the entries that end at `end`,
/// with a length that holds its header and, where it has one, the number
/// of the block below.
pub open spec fn entry_fits(b: Seq<u8>, pos: int, end: int) -> bool {
    &&& 0 <= pos
    &&& pos + ENTRY_HEADER_SIZE <= end <= b.len()
    &&& ENTRY_HEADER_SIZE <= entry_len(b, pos)
    &&& pos + entry_len(b, pos) <= end
    &&& entry_has_child(b, pos) ==> entry_len(b, pos) >= ENTRY_HEADER_SIZE + 8
}

/// The virtual cluster number of the block below the entry at `pos`: the
/// last eight bytes of the entry.
pub open spec fn entry_child(b: Seq<u8>, pos: int) -> u64 {
    u64_at(b, pos + entry_len(b, pos) - 8).unwrap()
}

/// The file that the entry at `pos` stands for.
pub open spec fn entry_reference(b: Seq<u8>, pos: int) -> FileReference {
    FileReference::unpack(u64_at(b, pos).unwrap())
}

/// The name that the entry at `pos` bears, if the entry is long enough to
/// hold it.
pub open spec fn entry_name(b: Seq<u8>, pos: int) -> Option<Seq<u16>> {
    if entry_len(b, pos) < ENTRY_NAME_OFFSET {
        None
    } else if ENTRY_NAME_OFFSET + 2 * b[pos + 0x50] > entry_len(b, pos) {
        None
    } else {
        u16s_at(b, pos + ENTRY_NAME_OFFSET, b[pos + 0x50] as int)
    }
}

/// One entry of a node: the name of a file, the reference to its record,
/// and, where the entry points to a block below it, the virtual cluster
/// number of that block. The last entry of a node bears no name.
#[derive(Debug, PartialEq, Eq)]
pub struct IndexEntry {
    pub name: Vec<u16>,
    pub reference: FileReference,
    pub is_subnode: bool,
    pub child_vcn: u64,
    pub is_last: bool,
    /// The length of the entry in its node, in bytes.
    pub length: u16,
}

/// An entry of a node, as the proofs see it.
pub ghost struct IndexEntryView {
    pub name: Seq<u16>,
    pub reference: FileReference,
    pub is_subnode: bool,
    pub child_vcn: u64,
    pub is_last: bool,
    pub length: u16,
}

impl View for IndexEntry {
    type V = IndexEntryView;

    open spec fn view(&self) -> IndexEntryView {
        IndexEntryView {
            name: self.name@,
            reference: self.reference,
            is_subnode: self.is_subnode,
            child_vcn: self.child_vcn,
            is_last: self.is_last,
            length: self.length,
        }
    }
}

/// The entry at `pos` among the entries that end at `end`, if one lies
/// there whole. Where the entry points to no block, `child_vcn` is 0.
pub open spec fn parse_entry(b: Seq<u8>, pos: int, end: int) -> Option<IndexEntryView> {
    if !entry_fits(b, pos, end) {
        None
    } else if !entry_is_last(b, pos) && entry_name(b, pos) is None {
        None
    } else {
        Some(
            IndexEntryView {
                name: if entry_is_last(b, pos) {
                    Seq::empty()
                } else {
                    entry_name(b, pos).unwrap()
                },
                reference: entry_reference(b, pos),
                is_subnode: entry_has_child(b, pos),
                child_vcn: if entry_has_child(b, pos) {
                    entry_child(b, pos)
                } else {
                    0
                },
                is_last: entry_is_last(b, pos),
                length: entry_len(b, pos) as u16,
            },
        )
    }
}

/// Where the search goes on when the name is not in this node and would
/// stand before the entry `e`.
pub open spec fn before_entry(e: IndexEntryView) -> Scan {
    if e.is_subnode {
        Scan::Descend(e.child_vcn)
    } else {
        Scan::Missing
    }
}

/// The search for `name` among the entries of one node, from the entry at
/// `pos` up to `end`. The entries stand in the order of the directory: the
/// search ends at the first entry that bears the name, or that must stand
/// after it.
pub open spec fn scan_node(table: Seq<u16>, b: Seq<u8>, pos: int, end: int, name: Seq<u16>) -> Scan
    decreases end - pos,
{
    match parse_entry(b, pos, end) {
        None => Scan::Corrupt,
        Some(e) => if e.is_last {
            before_entry(e)
        } else {
            match collate(table, name, e.name) {
                NameOrder::Equal => Scan::Found(e.reference),
                NameOrder::Less => before_entry(e),
                NameOrder::Greater => scan_node(table, b, pos + e.length, end, name),
            }
        },
    }
}

/// The search for `name` in the node whose header lies at `header`: the
/// header says where the entries begin and end, counted from itself.
pub open spec fn scan_from_header(
    table: Seq<u16>,
    b: Seq<u8>,
    header: int,
    name: Seq<u16>,
) -> Scan {
    if header + 16 > b.len() {
        Scan::Corrupt
    } else if u32_at(b, header).unwrap() > u32_at(b, header + 4).unwrap() || header + u32_at(
        b,
        header + 4,
    ).unwrap() > b.len() {
        Scan::Corrupt
    } else {
        scan_node(
            table,
            b,
            header + u32_at(b, header).unwrap(),
            header + u32_at(b, header + 4).unwrap(),
            name,
        )
    }
}

/// Whether the block begins with the letters `INDX`.
pub open spec fn has_index_signature(s: Seq<u8>) -> bool {
    &&& s.len() >= 4
    &&& s[0] == 0x49
    &&& s[1] == 0x4E
    &&& s[2] == 0x44
    &&& s[3] == 0x58
}

/// The search for `name` in the index block whose bytes on the volume are
/// `raw`. The block's update sequence is undone first.
pub open spec fn scan_block(table: Seq<u16>, raw: Seq<u8>, name: Seq<u16>) -> Result<
    Scan,
    NtfsError,
> {
    if !has_index_signature(raw) {
        Err(NtfsError::IndexCorrupt)
    } else {
        match fixup_result(raw) {
            Err(e) => Err(e),
            Ok(b) => Ok(scan_from_header(table, b, BLOCK_NODE_OFFSET as int, name)),
        }
    }
}

/// The number of bytes that one virtual cluster number of an index
/// stands for: a cluster, or a sector where a block is smaller than a
/// cluster.
pub open spec fn vcn_unit(block_size: nat, cluster_size: nat, sector_size: nat) -> nat {
    if block_size >= cluster_size {
        cluster_size
    } else {
        sector_size
    }
}

/// What a device, an order of names and the blocks of one index are to the
/// proofs.
pub ghost struct IndexView {
    pub image: Seq<u8>,
    pub table: Seq<u16>,
    pub extents: Seq<Extent>,
    pub cluster_size: nat,
    pub unit: nat,
    pub block_size: nat,
}

/// The search for `name` from the block with virtual cluster number `vcn`
/// downwards, through at most `fuel` blocks. A block that the index's
/// extents do not hold, or a way down that does not end, means a corrupt
/// index.
pub open spec fn descend(index: IndexView, vcn: u64, name: Seq<u16>, fuel: nat) -> Result<
    Option<FileReference>,
    NtfsError,
>
    decreases fuel,
{
    if fuel == 0 {
        Err(NtfsError::IndexCorrupt)
    } else if vcn * index.unit > u64::MAX {
        Err(NtfsError::IndexCorrupt)
    } else {
        match stream_range(
            index.image,
            index.extents,
            index.cluster_size,
            vcn as nat * index.unit,
            index.block_size,
        ) {
            Err(StreamFault::OutsideRuns) => Err(NtfsError::IndexCorrupt),
            Err(StreamFault::Device) => Err(NtfsError::IoFault),
            Ok(raw) => match scan_block(index.table, raw, name) {
                Err(e) => Err(e),
                Ok(Scan::Found(reference)) => Ok(Some(reference)),
                Ok(Scan::Missing) => Ok(None),
                Ok(Scan::Corrupt) => Err(NtfsError::IndexCorrupt),
                Ok(Scan::Descend(child)) => descend(index, child, name, (fuel - 1) as nat),
            },
        }
    }
}

/// The search for `name` in the directory whose index root is `root` and
/// whose index blocks, if it has any, are the contents of `allocation`.
/// `Ok(None)` says that the directory holds no such name.
pub open spec fn lookup_result(
    image: Seq<u8>,
    table: Seq<u16>,
    cluster_size: nat,
    sector_size: nat,
    root: AttributeView,
    allocation: Option<AttributeView>,
    name: Seq<u16>,
) -> Result<Option<FileReference>, NtfsError> {
    match root.content {
        ContentView::NonResident { .. } => Err(NtfsError::IndexCorrupt),
        ContentView::Resident { data } => match scan_from_header(
            table,
            data,
            ROOT_NODE_OFFSET as int,
            name,
        ) {
            Scan::Found(reference) => Ok(Some(reference)),
            Scan::Missing => Ok(None),
            Scan::Corrupt => Err(NtfsError::IndexCorrupt),
            Scan::Descend(vcn) => match allocation {
                None => Err(NtfsError::IndexCorrupt),
                Some(blocks) => match blocks.content {
                    ContentView::Resident { .. } => Err(NtfsError::IndexCorrupt),
                    ContentView::NonResident { extents, .. } => descend(
                        IndexView {
                            image,
                            table,
                            extents,
                            cluster_size,
                            unit: vcn_unit(
                                u32_at(data, 8).unwrap() as nat,
                                cluster_size,
                                sector_size,
                            ),
                            block_size: u32_at(data, 8).unwrap() as nat,
                        },
                        vcn,
                        name,
                        MAX_INDEX_DEPTH as nat,
                    ),
                },
            },
        },
    }
}

/// Whether `a` and `b` are one name but for the case of their letters:
/// as long as one another, with the same upper-case form unit by unit.
pub open spec fn same_name(table: Seq<u16>, a: Seq<u16>, b: Seq<u16>) -> bool {
    &&& a.len() == b.len()
    &&& forall|i: int| 0 <= i < a.len() ==> fold(table, #[trigger] a[i]) == fold(table, b[i])
}

/// Two names stand equal in the order of a directory exactly where they
/// are one name but for the case of their letters.
pub proof fn lemma_collate_equal(table: Seq<u16>, a: Seq<u16>, b: Seq<u16>)
    ensures
        collate(table, a, b) == NameOrder::Equal <==> same_name(table, a, b),
{
    lemma_collate_equal_from(table, a, b, 0);
}

proof fn lemma_collate_equal_from(table: Seq<u16>, a: Seq<u16>, b: Seq<u16>, from: int)
    requires
        0 <= from,
    ensures
        collate_from(table, a, b, from) == NameOrder::Equal <==> {
            &&& a.len() == b.len() || (from >= a.len() && from >= b.len())
            &&& forall|i: int|
                from <= i < a.len() ==> fold(table, #[trigger] a[i]) == fold(table, b[i])
        },
    decreases a.len() - from,
{
    if from < a.len() && from < b.len() {
        lemma_collate_equal_from(table, a, b, from + 1);
        if fold(table, a[from]) != fold(table, b[from]) {
            assert(!(forall|i: int|
                from <= i < a.len() ==> fold(table, #[trigger] a[i]) == fold(table, b[i])));
        }
    } else if from < a.len() {
        assert(a.len() != b.len());
    }
}

/// Whether the entry at `at` bears `name`, but for the case of its
/// letters.
pub open spec fn names_entry(
    table: Seq<u16>,
    b: Seq<u8>,
    at: int,
    end: int,
    name: Seq<u16>,
) -> bool {
    match parse_entry(b, at, end) {
        Some(e) => !e.is_last && same_name(table, name, e.name),
        None => false,
    }
}

/// The place of the entry at which the search for `name` from `pos` on
/// ends.
pub open spec fn found_at(table: Seq<u16>, b: Seq<u8>, pos: int, end: int, name: Seq<u16>) -> int
    decreases end - pos,
{
    match parse_entry(b, pos, end) {
        None => pos,
        Some(e) => if e.is_last || collate(table, name, e.name) != NameOrder::Greater {
            pos
        } else {
            found_at(table, b, pos + e.length, end, name)
        },
    }
}

/// A name that the search of a node finds is the name of an entry of that
/// node, but for the case of its letters, and the reference found is that
/// entry's.
pub proof fn lemma_found_is_an_entry(
    table: Seq<u16>,
    b: Seq<u8>,
    pos: int,
    end: int,
    name: Seq<u16>,
)
    requires
        scan_node(table, b, pos, end, name) is Found,
    ensures
        scan_node(table, b, pos, end, name) == Scan::Found(
            parse_entry(b, found_at(table, b, pos, end, name), end).unwrap().reference,
        ),
        names_entry(table, b, found_at(table, b, pos, end, name), end, name),
        pos <= found_at(table, b, pos, end, name) < end,
    decreases end - pos,
{
    let e = parse_entry(b, pos, end).unwrap();
    lemma_collate_equal(table, name, e.name);
    if collate(table, name, e.name) != NameOrder::Equal {
        lemma_found_is_an_entry(table, b, pos + e.length, end, name);
    }
}

/// The entries of a node from the entry at `pos` up to its last entry,
/// where each of them lies there whole.
pub open spec fn entries_from(b: Seq<u8>, pos: int, end: int) -> Option<Seq<IndexEntryView>>
    decreases end - pos,
{
    match parse_entry(b, pos, end) {
        None => None,
        Some(e) => if e.is_last {
            Some(seq![e])
        } else {
            match entries_from(b, pos + e.length, end) {
                None => None,
                Some(rest) => Some(seq![e] + rest),
            }
        },
    }
}

/// Whether the names of `entries` stand in the order of a directory: each
/// before all that follow it.
pub open spec fn in_order(table: Seq<u16>, entries: Seq<IndexEntryView>) -> bool {
    forall|i: int, j: int|
        0 <= i < j < entries.len() && !entries[j].is_last ==> collate(
            table,
            (#[trigger] entries[i]).name,
            (#[trigger] entries[j]).name,
        ) == NameOrder::Less
}

/// Whether one of `entries` bears `name`, but for the case of its letters.
pub open spec fn holds_name(table: Seq<u16>, entries: Seq<IndexEntryView>, name: Seq<u16>) -> bool {
    exists|k: int|
        0 <= k < entries.len() && !(#[trigger] entries[k]).is_last && same_name(
            table,
            name,
            entries[k].name,
        )
}

/// A name stands before another exactly where the other stands after it.
pub proof fn lemma_collate_mirror(table: Seq<u16>, a: Seq<u16>, b: Seq<u16>, from: int)
    requires
        0 <= from,
    ensures
        collate_from(table, a, b, from) == NameOrder::Less <==> collate_from(table, b, a, from)
            == NameOrder::Greater,
    decreases a.len() - from,
{
    if from < a.len() && from < b.len() {
        lemma_collate_mirror(table, a, b, from + 1);
    }
}

/// Names that are one but for the case of their letters stand alike to
/// every other name.
pub proof fn lemma_collate_same(
    table: Seq<u16>,
    x: Seq<u16>,
    n: Seq<u16>,
    m: Seq<u16>,
    from: int,
)
    requires
        0 <= from,
        same_name(table, n, m),
    ensures
        collate_from(table, x, n, from) == collate_from(table, x, m, from),
    decreases x.len() - from,
{
    if from < x.len() && from < n.len() {
        assert(fold(table, n[from]) == fold(table, m[from]));
        lemma_collate_same(table, x, n, m, from + 1);
    }
}

/// In a node whose entries stand in order, a search that does not find a
/// name shows that no entry of the node bears it: the search goes on
/// below the node, or the directory does not hold the name.
pub proof fn lemma_not_found_is_absent(
    table: Seq<u16>,
    b: Seq<u8>,
    pos: int,
    end: int,
    name: Seq<u16>,
)
    requires
        entries_from(b, pos, end) is Some,
        in_order(table, entries_from(b, pos, end).unwrap()),
    ensures
        !(scan_node(table, b, pos, end, name) is Corrupt),
        scan_node(table, b, pos, end, name) is Found <==> holds_name(
            table,
            entries_from(b, pos, end).unwrap(),
            name,
        ),
    decreases end - pos,
{
    let entries = entries_from(b, pos, end).unwrap();
    let e = parse_entry(b, pos, end).unwrap();
    assert(entries[0] == e);
    if e.is_last {
        assert(!holds_name(table, entries, name));
    } else {
        let rest = entries_from(b, pos + e.length, end).unwrap();
        assert forall|k: int| 0 <= k < rest.len() implies rest[k] == entries[k + 1] by {}
        lemma_collate_equal(table, name, e.name);
        match collate(table, name, e.name) {
            NameOrder::Equal => {
                assert(!entries[0].is_last && same_name(table, name, entries[0].name));
            },
            NameOrder::Greater => {
                assert forall|i: int, j: int|
                    0 <= i < j < rest.len() && !rest[j].is_last implies collate(
                    table,
                    (#[trigger] rest[i]).name,
                    (#[trigger] rest[j]).name,
                ) == NameOrder::Less by {
                    assert(rest[i] == entries[i + 1] && rest[j] == entries[j + 1]);
                }
                lemma_not_found_is_absent(table, b, pos + e.length, end, name);
                if holds_name(table, rest, name) {
                    let k = choose|k: int|
                        0 <= k < rest.len() && !(#[trigger] rest[k]).is_last && same_name(
                            table,
                            name,
                            rest[k].name,
                        );
                    assert(!entries[k + 1].is_last && same_name(table, name, entries[k + 1].name));
                }
                if holds_name(table, entries, name) {
                    let k = choose|k: int|
                        0 <= k < entries.len() && !(#[trigger] entries[k]).is_last && same_name(
                            table,
                            name,
                            entries[k].name,
                        );
                    assert(k != 0);
                    assert(!rest[k - 1].is_last && same_name(table, name, rest[k - 1].name));
                }
            },
            NameOrder::Less => {
                if holds_name(table, entries, name) {
                    let k = choose|k: int|
                        0 <= k < entries.len() && !(#[trigger] entries[k]).is_last && same_name(
                            table,
                            name,
                            entries[k].name,
                        );
                    assert(k != 0);
                    assert(collate(table, entries[0].name, entries[k].name) == NameOrder::Less);
                    assert(same_name(table, entries[k].name, name));
                    lemma_collate_same(table, e.name, entries[k].name, name, 0);
                    lemma_collate_mirror(table, name, e.name, 0);
                }
            },
        }
    }
}

/// Looking a name up twice in one directory gives the same answer: the
/// answer rests on the bytes of the device alone, and a lookup leaves
/// them as they are, whatever the number of reads it has cost.
pub proof fn lemma_lookup_repeats(
    first: crate::disk::DeviceView,
    second: crate::disk::DeviceView,
    walker: WalkerView,
    root: AttributeView,
    allocation: Option<AttributeView>,
    name: Seq<u16>,
)
    requires
        second.image == first.image,
    ensures
        lookup_result(
            second.image,
            walker.table,
            walker.cluster_size,
            walker.sector_size,
            root,
            allocation,
            name,
        ) == lookup_result(
            first.image,
            walker.table,
            walker.cluster_size,
            walker.sector_size,
            root,
            allocation,
            name,
        ),
{
}

/// The upper-case form of `unit`.
fn fold_unit(table: &Vec<u16>, unit: u16) -> (r: u16)
    ensures
        r == fold(table@, unit),
{
    if (unit as usize) < table.len() {
        table[unit as usize]
    } else if 0x61 <= unit && unit <= 0x7A {
        unit - 0x20
    } else {
        unit
    }
}

/// Compares two names in the order of a directory.
pub fn collate_names(table: &Vec<u16>, a: &[u16], b: &[u16]) -> (r: NameOrder)
    ensures
        r == collate(table@, a@, b@),
{
    let mut i: usize = 0;
    while i < a.len() && i < b.len()
        invariant
            i <= a@.len(),
            i <= b@.len(),
            collate(table@, a@, b@) == collate_from(table@, a@, b@, i as int),
        decreases a.len() - i,
    {
        let x: u16 = fold_unit(table, a[i]);
        let y: u16 = fold_unit(table, b[i]);
        if x < y {
            return NameOrder::Less;
        }
        if x > y {
            return NameOrder::Greater;
        }
        i = i + 1;
    }
    if i < a.len() {
        NameOrder::Greater
    } else if i < b.len() {
        NameOrder::Less
    } else {
        NameOrder::Equal
    }
}

/// Reads the entry at `pos` among the entries that end at `end`.
pub fn read_entry(b: &ByteBuffer, pos: usize, end: usize) -> (r: Option<IndexEntry>)
    ensures
        match r {
            Some(e) => parse_entry(b@, pos as int, end as int) == Some(e@),
            None => parse_entry(b@, pos as int, end as int) is None,
        },
{
    let n: usize = b.len();
    let s = b.as_slice();
    if end > n || pos > end || end - pos < ENTRY_HEADER_SIZE {
        return None;
    }
    let length: u16 = match b.read_u16(pos + 8) {
        Some(v) => v,
        None => { return None; },
    };
    let size: usize = length as usize;
    let flags: u8 = s[pos + 12];
    let is_subnode: bool = flags % 2 == 1;
    let is_last: bool = (flags / 2) % 2 == 1;
    if size < ENTRY_HEADER_SIZE || size > end - pos || (is_subnode && size < ENTRY_HEADER_SIZE
        + 8) {
        return None;
    }
    let child_vcn: u64 = if is_subnode {
        match b.read_u64(pos + size - 8) {
            Some(v) => v,
            None => { return None; },
        }
    } else {
        0
    };
    let name: Vec<u16> = if is_last {
        Vec::new()
    } else {
        if size < ENTRY_NAME_OFFSET {
            return None;
        }
        let units: usize = s[pos + 0x50] as usize;
        if ENTRY_NAME_OFFSET + 2 * units > size {
            return None;
        }
        match b.read_u16s(pos + ENTRY_NAME_OFFSET, units) {
            Some(v) => v,
            None => { return None; },
        }
    };
    let raw: u64 = match b.read_u64(pos) {
        Some(v) => v,
        None => { return None; },
    };
    Some(
        IndexEntry {
            name,
            reference: FileReference::from_raw(raw),
            is_subnode,
            child_vcn,
            is_last,
            length,
        },
    )
}

/// Searches the entries of one node from `start` up to `end`.
fn scan_entries(table: &Vec<u16>, b: &ByteBuffer, start: usize, end: usize, name: &[u16]) -> (r:
    Scan)
    ensures
        r == scan_node(table@, b@, start as int, end as int, name@),
{
    let mut pos: usize = start;
    loop
        invariant
            start <= pos,
            scan_node(table@, b@, start as int, end as int, name@) == scan_node(
                table@,
                b@,
                pos as int,
                end as int,
                name@,
            ),
        decreases end - pos,
    {
        let entry = match read_entry(b, pos, end) {
            Some(e) => e,
            None => { return Scan::Corrupt; },
        };
        let before: Scan = if entry.is_subnode {
            Scan::Descend(entry.child_vcn)
        } else {
            Scan::Missing
        };
        if entry.is_last {
            return before;
        }
        match collate_names(table, name, entry.name.as_slice()) {
            NameOrder::Equal => { return Scan::Found(entry.reference); },
            NameOrder::Less => { return before; },
            NameOrder::Greater => {
                pos = pos + entry.length as usize;
            },
        }
    }
}

/// Searches the node whose header lies at `header`.
fn scan_header(table: &Vec<u16>, b: &ByteBuffer, header: usize, name: &[u16]) -> (r: Scan)
    requires
        header <= 0x100,
    ensures
        r == scan_from_header(table@, b@, header as int, name@),
{
    let n: usize = b.len();
    if n < header + 16 {
        return Scan::Corrupt;
    }
    let first: usize = match b.read_u32(header) {
        Some(v) => v as usize,
        None => { return Scan::Corrupt; },
    };
    let total: usize = match b.read_u32(header + 4) {
        Some(v) => v as usize,
        None => { return Scan::Corrupt; },
    };
    if first > total || total > n - header {
        return Scan::Corrupt;
    }
    scan_entries(table, b, header + first, header + total, name)
}

/// Searches one index block as it lies on the volume.
fn scan_raw_block(table: &Vec<u16>, raw: &ByteBuffer, name: &[u16]) -> (r: Result<Scan, NtfsError>)
    ensures
        r == scan_block(table@, raw@, name@),
{
    if raw.len() < 4 {
        return Err(NtfsError::IndexCorrupt);
    }
    let head = raw.as_slice();
    if !(head[0] == 0x49 && head[1] == 0x4E && head[2] == 0x44 && head[3] == 0x58) {
        return Err(NtfsError::IndexCorrupt);
    }
    let b = apply_fixups(raw)?;
    Ok(scan_header(table, &b, BLOCK_NODE_OFFSET, name))
}

/// The search of directories, with the geometry it needs and the table
/// that says which letters differ in case only.
pub struct IndexWalker {
    cluster_size: u32,
    sector_size: u16,
    table: Vec<u16>,
}

/// What the proofs know of a walker.
pub ghost struct WalkerView {
    pub cluster_size: nat,
    pub sector_size: nat,
    pub table: Seq<u16>,
}

impl View for IndexWalker {
    type V = WalkerView;

    closed spec fn view(&self) -> WalkerView {
        WalkerView {
            cluster_size: self.cluster_size as nat,
            sector_size: self.sector_size as nat,
            table: self.table@,
        }
    }
}

impl IndexWalker {
    /// A walker for a volume with clusters of `cluster_size` and sectors of
    /// `sector_size` bytes. `table` gives the upper-case form of each
    /// UTF-16 unit below its length; an empty table folds the ASCII
    /// letters only.
    pub fn new(cluster_size: u32, sector_size: u16, table: Vec<u16>) -> (w: IndexWalker)
        ensures
            w@ == (WalkerView {
                cluster_size: cluster_size as nat,
                sector_size: sector_size as nat,
                table: table@,
            }),
    {
        IndexWalker { cluster_size, sector_size, table }
    }

    /// Searches the blocks of an index from the block `first` downwards.
    fn search_blocks(
        &self,
        disk: &mut DiskAccessor,
        extents: &Vec<Extent>,
        block_size: u32,
        first: u64,
        name: &[u16],
    ) -> (r: Result<Option<FileReference>, NtfsError>)
        requires
            old(disk).wf(),
        ensures
            final(disk).wf(),
            final(disk)@.image == old(disk)@.image,
            final(disk)@.sector_size == old(disk)@.sector_size,
            final(disk)@.reads >= old(disk)@.reads,
            r == descend(
                IndexView {
                    image: old(disk)@.image,
                    table: self@.table,
                    extents: extents@,
                    cluster_size: self@.cluster_size,
                    unit: vcn_unit(block_size as nat, self@.cluster_size, self@.sector_size),
                    block_size: block_size as nat,
                },
                first,
                name@,
                MAX_INDEX_DEPTH as nat,
            ),
    {
        let ghost index = IndexView {
            image: disk@.image,
            table: self@.table,
            extents: extents@,
            cluster_size: self@.cluster_size,
            unit: vcn_unit(block_size as nat, self@.cluster_size, self@.sector_size),
            block_size: block_size as nat,
        };
        let unit: u32 = if block_size >= self.cluster_size {
            self.cluster_size
        } else {
            self.sector_size as u32
        };
        let mut vcn: u64 = first;
        let mut depth: u32 = 0;
        while depth < MAX_INDEX_DEPTH
            invariant
                disk.wf(),
                disk@.image == old(disk)@.image,
                disk@.sector_size == old(disk)@.sector_size,
                disk@.reads >= old(disk)@.reads,
                index == (IndexView {
                    image: old(disk)@.image,
                    table: self@.table,
                    extents: extents@,
                    cluster_size: self@.cluster_size,
                    unit: vcn_unit(block_size as nat, self@.cluster_size, self@.sector_size),
                    block_size: block_size as nat,
                }),
                index.unit == unit,
                depth <= MAX_INDEX_DEPTH,
                descend(index, first, name@, MAX_INDEX_DEPTH as nat) == descend(
                    index,
                    vcn,
                    name@,
                    (MAX_INDEX_DEPTH - depth) as nat,
                ),
            decreases MAX_INDEX_DEPTH - depth,
        {
            assert(vcn as nat * unit as nat <= 0xFFFF_FFFF_FFFF_FFFF * 0xFFFF_FFFF)
                by (nonlinear_arith)
                requires
                    vcn <= 0xFFFF_FFFF_FFFF_FFFF,
                    unit <= 0xFFFF_FFFF,
            ;
            let pos: u128 = vcn as u128 * unit as u128;
            assert(pos == vcn * index.unit && pos == vcn as nat * index.unit) by (nonlinear_arith)
                requires
                    pos == vcn as int * unit as int,
                    index.unit == unit,
            ;
            if pos > u64::MAX as u128 {
                return Err(NtfsError::IndexCorrupt);
            }
            let raw = match read_range(disk, extents, self.cluster_size, pos as u64, block_size) {
                Ok(b) => b,
                Err(StreamFault::OutsideRuns) => { return Err(NtfsError::IndexCorrupt); },
                Err(StreamFault::Device) => { return Err(NtfsError::IoFault); },
            };
            match scan_raw_block(&self.table, &raw, name)? {
                Scan::Found(reference) => { return Ok(Some(reference)); },
                Scan::Missing => { return Ok(None); },
                Scan::Corrupt => { return Err(NtfsError::IndexCorrupt); },
                Scan::Descend(child) => {
                    vcn = child;
                    depth = depth + 1;
                },
            }
        }
        Err(NtfsError::IndexCorrupt)
    }

    /// Looks up `name` in the directory whose index root is `root` and
    /// whose index blocks, if it has any, are the contents of
    /// `allocation`. `Ok(None)` says that the directory holds no such
    /// name.
    pub fn lookup(
        &self,
        disk: &mut DiskAccessor,
        root: &Attribute,
        allocation: Option<&Attribute>,
        name: &[u16],
    ) -> (r: Result<Option<FileReference>, NtfsError>)
        requires
            old(disk).wf(),
        ensures
            final(disk).wf(),
            final(disk)@.image == old(disk)@.image,
            final(disk)@.sector_size == old(disk)@.sector_size,
            final(disk)@.reads >= old(disk)@.reads,
            r == lookup_result(
                old(disk)@.image,
                self@.table,
                self@.cluster_size,
                self@.sector_size,
                root@,
                match allocation {
                    Some(a) => Some(a@),
                    None => None,
                },
                name@,
            ),
    {
        let data = match &root.content {
            AttributeContent::NonResident { .. } => { return Err(NtfsError::IndexCorrupt); },
            AttributeContent::Resident { data } => data,
        };
        match scan_header(&self.table, data, ROOT_NODE_OFFSET, name) {
            Scan::Found(reference) => Ok(Some(reference)),
            Scan::Missing => Ok(None),
            Scan::Corrupt => Err(NtfsError::IndexCorrupt),
            Scan::Descend(vcn) => {
                let blocks = match allocation {
                    None => { return Err(NtfsError::IndexCorrupt); },
                    Some(a) => a,
                };
                let extents = match &blocks.content {
                    AttributeContent::Resident { .. } => { return Err(NtfsError::IndexCorrupt); },
                    AttributeContent::NonResident { extents, .. } => extents,
                };
                let block_size: u32 = match data.read_u32(8) {
                    Some(v) => v,
                    None => { return Err(NtfsError::IndexCorrupt); },
                };
                self.search_blocks(disk, extents, block_size, vcn, name)
            },
        }
    }
}

} // verus!
