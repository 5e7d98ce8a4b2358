//! The contents of a non-resident attribute: the bytes that its extents
//! spell, cluster after cluster, with zeroes for the holes.

use crate::bytes::{zeros, ByteBuffer};
use crate::disk::DiskAccessor;
use crate::runs::Extent;
use vstd::prelude::*;

verus! {

/// A place in a list of extents: the index of an extent and a byte offset
/// from its beginning.
pub ghost struct Spot {
    pub index: int,
    pub rel: nat,
}

/// Why a range of an attribute's contents cannot be read.
#[derive(Clone, Copy, Debug, PartialEq, Eq, Structural)]
pub enum StreamFault {
    /// The range does not lie inside the extents.
    OutsideRuns,
    /// An extent points outside the device.
    Device,
}

/// The length of `e` in bytes, with clusters of `cs` bytes.
pub open spec fn extent_len(e: Extent, cs: nat) -> nat {
    e.clusters as nat * cs
}

/// The length in bytes of the first `k` extents together.
pub open spec fn prefix_len(extents: Seq<Extent>, cs: nat, k: int) -> nat
    decreases k,
{
    if k <= 0 {
        0
    } else {
        prefix_len(extents, cs, k - 1) + extent_len(extents[k - 1], cs)
    }
}

/// The length in bytes of all the extents together.
pub open spec fn stream_len(extents: Seq<Extent>, cs: nat) -> nat {
    prefix_len(extents, cs, extents.len() as int)
}

/// The place of the byte that lies `rel` bytes after the beginning of
/// extent `k`, which may be in a later extent, or nowhere.
pub open spec fn locate_from(extents: Seq<Extent>, cs: nat, k: int, rel: nat) -> Option<Spot>
    decreases extents.len() - k,
{
    if k < 0 || k >= extents.len() {
        None
    } else if rel < extent_len(extents[k], cs) {
        Some(Spot { index: k, rel })
    } else {
        locate_from(extents, cs, k + 1, (rel - extent_len(extents[k], cs)) as nat)
    }
}

/// The place of byte `pos` of the contents.
pub open spec fn locate(extents: Seq<Extent>, cs: nat, pos: nat) -> Option<Spot> {
    locate_from(extents, cs, 0, pos)
}

/// The byte that lies `rel` bytes after the beginning of `e`: zero in a
/// hole, else the byte of the device at that place, if the device has it.
pub open spec fn extent_byte(image: Seq<u8>, e: Extent, cs: nat, rel: nat) -> Option<u8> {
    if e.sparse {
        Some(0u8)
    } else if e.lcn as nat * cs + rel < image.len() {
        Some(image[(e.lcn as nat * cs + rel) as int])
    } else {
        None
    }
}

/// Byte `pos` of the contents, if the extents reach that far and the
/// device holds it.
pub open spec fn stream_byte(image: Seq<u8>, extents: Seq<Extent>, cs: nat, pos: nat) -> Option<
    u8,
> {
    match locate(extents, cs, pos) {
        None => None,
        Some(spot) => extent_byte(image, extents[spot.index], cs, spot.rel),
    }
}

/// Whether the device holds each of the `len` bytes of the contents from
/// `pos` on.
pub open spec fn stream_readable(
    image: Seq<u8>,
    extents: Seq<Extent>,
    cs: nat,
    pos: nat,
    len: nat,
) -> bool {
    forall|i: nat| pos <= i < pos + len ==> (#[trigger] stream_byte(image, extents, cs, i)) is Some
}

/// The `len` bytes of the contents from `pos` on.
pub open spec fn stream_bytes(
    image: Seq<u8>,
    extents: Seq<Extent>,
    cs: nat,
    pos: nat,
    len: nat,
) -> Seq<u8> {
    Seq::new(len, |i: int| stream_byte(image, extents, cs, (pos + i) as nat).unwrap())
}

/// What reading the `len` bytes of the contents from `pos` on returns.
pub open spec fn stream_range(
    image: Seq<u8>,
    extents: Seq<Extent>,
    cs: nat,
    pos: nat,
    len: nat,
) -> Result<Seq<u8>, StreamFault> {
    if pos + len > stream_len(extents, cs) {
        Err(StreamFault::OutsideRuns)
    } else if !stream_readable(image, extents, cs, pos, len) {
        Err(StreamFault::Device)
    } else {
        Ok(stream_bytes(image, extents, cs, pos, len))
    }
}

/// Whether every extent is a hole.
pub open spec fn all_sparse(extents: Seq<Extent>) -> bool {
    forall|k: int| 0 <= k < extents.len() ==> (#[trigger] extents[k]).sparse
}

/// Whether the device holds the `take` bytes that lie `rel` bytes after the
/// beginning of `e`. A hole needs no device.
pub open spec fn part_readable(image: Seq<u8>, e: Extent, cs: nat, rel: nat, take: nat) -> bool {
    e.sparse || take == 0 || e.lcn as nat * cs + rel + take <= image.len()
}

/// The `take` bytes that lie `rel` bytes after the beginning of `e`.
pub open spec fn part_bytes(image: Seq<u8>, e: Extent, cs: nat, rel: nat, take: nat) -> Seq<u8> {
    if e.sparse || take == 0 {
        zeros(take)
    } else {
        image.subrange((e.lcn as nat * cs + rel) as int, (e.lcn as nat * cs + rel + take) as int)
    }
}

/// The number of device reads that fetching those bytes costs: one for
/// bytes on the device, none for a hole, for nothing, or for what the
/// device does not hold.
pub open spec fn part_cost(image: Seq<u8>, e: Extent, cs: nat, rel: nat, take: nat) -> nat {
    if !e.sparse && take > 0 && part_readable(image, e, cs, rel, take) {
        1
    } else {
        0
    }
}

pub proof fn lemma_prefix_monotone(extents: Seq<Extent>, cs: nat, a: int, b: int)
    requires
        a <= b,
    ensures
        prefix_len(extents, cs, a) <= prefix_len(extents, cs, b),
    decreases b - a,
{
    if a < b {
        lemma_prefix_monotone(extents, cs, a, b - 1);
    }
}

/// A byte that lies in extent `k` is found there, from whichever earlier
/// extent the search sets out.
pub proof fn lemma_locate_from(extents: Seq<Extent>, cs: nat, j: int, k: int, x: nat)
    requires
        0 <= j <= k < extents.len(),
        prefix_len(extents, cs, k) <= x < prefix_len(extents, cs, k + 1),
    ensures
        prefix_len(extents, cs, j) <= x,
        locate_from(extents, cs, j, (x - prefix_len(extents, cs, j)) as nat) == Some(
            Spot { index: k, rel: (x - prefix_len(extents, cs, k)) as nat },
        ),
    decreases k - j,
{
    lemma_prefix_monotone(extents, cs, j, k);
    if j < k {
        lemma_prefix_monotone(extents, cs, j + 1, k);
        lemma_locate_from(extents, cs, j + 1, k, x);
    }
}

/// The byte of the contents that lies `rel` bytes into extent `k` is the
/// byte of that extent.
pub proof fn lemma_stream_byte_in_extent(
    image: Seq<u8>,
    extents: Seq<Extent>,
    cs: nat,
    k: int,
    rel: nat,
)
    requires
        0 <= k < extents.len(),
        rel < extent_len(extents[k], cs),
    ensures
        stream_byte(image, extents, cs, prefix_len(extents, cs, k) + rel) == extent_byte(
            image,
            extents[k],
            cs,
            rel,
        ),
{
    lemma_locate_from(extents, cs, 0, k, prefix_len(extents, cs, k) + rel);
}

/// Every byte below the length of the contents has a place in one of the
/// extents.
pub proof fn lemma_locate_inside(extents: Seq<Extent>, cs: nat, j: int, x: nat)
    requires
        0 <= j <= extents.len(),
        prefix_len(extents, cs, j) <= x < stream_len(extents, cs),
    ensures
        locate_from(extents, cs, j, (x - prefix_len(extents, cs, j)) as nat) matches Some(spot)
            && j <= spot.index < extents.len() && spot.rel < extent_len(
            extents[spot.index],
            cs,
        ),
    decreases extents.len() - j,
{
    if j < extents.len() {
        let rel = (x - prefix_len(extents, cs, j)) as nat;
        if rel >= extent_len(extents[j], cs) {
            lemma_locate_inside(extents, cs, j + 1, x);
        }
    }
}

/// Where every extent is a hole, the contents are zeroes as far as the
/// extents reach, whatever the device holds.
pub proof fn lemma_holes_are_zeroes(image: Seq<u8>, extents: Seq<Extent>, cs: nat, len: nat)
    requires
        all_sparse(extents),
        len <= stream_len(extents, cs),
    ensures
        stream_range(image, extents, cs, 0, len) == Ok::<Seq<u8>, StreamFault>(zeros(len)),
{
    assert forall|i: nat| 0 <= i < len implies stream_byte(image, extents, cs, i) == Some(
        0u8,
    ) by {
        lemma_locate_inside(extents, cs, 0, i);
    }
    assert(stream_bytes(image, extents, cs, 0, len) =~= zeros(len));
}

/// Fetches the `take` bytes that lie `rel` bytes after the beginning of
/// `extent`: zeroes for a hole, without a read; else one read of the
/// device.
pub(crate) fn fetch(
    disk: &mut DiskAccessor,
    extent: &Extent,
    cluster_size: u32,
    rel: u128,
    take: u32,
) -> (r: Option<ByteBuffer>)
    requires
        old(disk).wf(),
        rel <= 0x1_0000_0000_0000_0000_0000_0000,
    ensures
        final(disk).wf(),
        final(disk)@.image == old(disk)@.image,
        final(disk)@.sector_size == old(disk)@.sector_size,
        final(disk)@.reads == old(disk)@.reads + part_cost(
            old(disk)@.image,
            *extent,
            cluster_size as nat,
            rel as nat,
            take as nat,
        ),
        match r {
            Some(b) => {
                &&& part_readable(
                    old(disk)@.image,
                    *extent,
                    cluster_size as nat,
                    rel as nat,
                    take as nat,
                )
                &&& b@ == part_bytes(
                    old(disk)@.image,
                    *extent,
                    cluster_size as nat,
                    rel as nat,
                    take as nat,
                )
            },
            None => !part_readable(
                old(disk)@.image,
                *extent,
                cluster_size as nat,
                rel as nat,
                take as nat,
            ),
        },
{
    if extent.sparse {
        let mut out = ByteBuffer::new();
        out.append_zeros(take as usize);
        assert(out@ =~= zeros(take as nat));
        return Some(out);
    }
    if take == 0 {
        let out = ByteBuffer::new();
        assert(out@ =~= part_bytes(
            disk@.image,
            *extent,
            cluster_size as nat,
            rel as nat,
            take as nat,
        ));
        return Some(out);
    }
    assert(extent.lcn as nat * cluster_size as nat <= 0xFFFF_FFFF_FFFF_FFFF * 0xFFFF_FFFF)
        by (nonlinear_arith)
        requires
            extent.lcn <= 0xFFFF_FFFF_FFFF_FFFF,
            cluster_size <= 0xFFFF_FFFF,
    ;
    let at: u128 = extent.lcn as u128 * cluster_size as u128 + rel;
    let size: u64 = disk.size();
    if at > size as u128 || take as u128 > size as u128 - at {
        return None;
    }
    match disk.read_bytes(at as u64, take) {
        Ok(b) => Some(b),
        Err(_) => None,
    }
}

/// Whether the extents hold at least `end` bytes.
pub(crate) fn covers(extents: &Vec<Extent>, cluster_size: u32, end: u128) -> (b: bool)
    requires
        end <= 0x2_0000_0000_0000_0000,
    ensures
        b == (end <= stream_len(extents@, cluster_size as nat)),
{
    if end == 0 {
        return true;
    }
    let mut total: u128 = 0;
    let mut k: usize = 0;
    while k < extents.len()
        invariant
            k <= extents.len(),
            total == prefix_len(extents@, cluster_size as nat, k as int),
            total < end <= 0x2_0000_0000_0000_0000,
        decreases extents.len() - k,
    {
        assert(extents[k as int].clusters as nat * cluster_size as nat <= 0xFFFF_FFFF_FFFF_FFFF
            * 0xFFFF_FFFF) by (nonlinear_arith)
            requires
                extents[k as int].clusters <= 0xFFFF_FFFF_FFFF_FFFF,
                cluster_size <= 0xFFFF_FFFF,
        ;
        let size: u128 = extents[k].clusters as u128 * cluster_size as u128;
        total = total + size;
        k = k + 1;
        if total >= end {
            proof {
                lemma_prefix_monotone(
                    extents@,
                    cluster_size as nat,
                    k as int,
                    extents@.len() as int,
                );
            }
            return true;
        }
    }
    false
}

/// Reads the `len` bytes of an attribute's contents from byte `pos` on,
/// through its extents. A range that the extents do not hold is refused
/// before any read; a range that they place outside the device is a
/// device fault. Holes are read as zeroes, without a read of the device.
pub fn read_range(
    disk: &mut DiskAccessor,
    extents: &Vec<Extent>,
    cluster_size: u32,
    pos: u64,
    len: u32,
) -> (r: Result<ByteBuffer, StreamFault>)
    requires
        old(disk).wf(),
    ensures
        final(disk).wf(),
        final(disk)@.image == old(disk)@.image,
        final(disk)@.sector_size == old(disk)@.sector_size,
        final(disk)@.reads >= old(disk)@.reads,
        all_sparse(extents@) ==> final(disk)@.reads == old(disk)@.reads,
        match r {
            Ok(b) => stream_range(
                old(disk)@.image,
                extents@,
                cluster_size as nat,
                pos as nat,
                len as nat,
            ) == Ok::<Seq<u8>, StreamFault>(b@),
            Err(f) => stream_range(
                old(disk)@.image,
                extents@,
                cluster_size as nat,
                pos as nat,
                len as nat,
            ) == Err::<Seq<u8>, StreamFault>(f),
        },
{
    let ghost image = disk@.image;
    let ghost cs = cluster_size as nat;
    if !covers(extents, cluster_size, pos as u128 + len as u128) {
        return Err(StreamFault::OutsideRuns);
    }
    let mut out = ByteBuffer::new();
    let mut rel: u128 = pos as u128;
    let mut need: u32 = len;
    let mut k: usize = 0;
    assert(out@ =~= stream_bytes(image, extents@, cs, pos as nat, 0));
    while need > 0
        invariant
            disk.wf(),
            disk@.image == image,
            disk@.sector_size == old(disk)@.sector_size,
            disk@.reads >= old(disk)@.reads,
            all_sparse(extents@) ==> disk@.reads == old(disk)@.reads,
            image == old(disk)@.image,
            cs == cluster_size as nat,
            k <= extents.len(),
            need <= len,
            rel <= pos,
            pos + (len - need) == prefix_len(extents@, cs, k as int) + rel,
            pos + len <= stream_len(extents@, cs),
            out@ == stream_bytes(image, extents@, cs, pos as nat, (len - need) as nat),
            stream_readable(image, extents@, cs, pos as nat, (len - need) as nat),
        decreases extents.len() - k,
    {
        let ghost done = (len - need) as nat;
        let ghost base = prefix_len(extents@, cs, k as int);
        assert(k < extents.len());
        let extent = extents[k];
        assert(extent.clusters as nat * cluster_size as nat <= 0xFFFF_FFFF_FFFF_FFFF * 0xFFFF_FFFF)
            by (nonlinear_arith)
            requires
                extent.clusters <= 0xFFFF_FFFF_FFFF_FFFF,
                cluster_size <= 0xFFFF_FFFF,
        ;
        let size: u128 = extent.clusters as u128 * cluster_size as u128;
        if rel < size {
            let avail: u128 = size - rel;
            let take: u32 = if need as u128 <= avail {
                need
            } else {
                avail as u32
            };
            let ghost before = out@;
            match fetch(disk, &extent, cluster_size, rel, take) {
                None => {
                    proof {
                        let bad = (rel + take - 1) as nat;
                        lemma_stream_byte_in_extent(image, extents@, cs, k as int, bad);
                        assert(stream_byte(image, extents@, cs, base + bad) is None);
                        assert(!stream_readable(image, extents@, cs, pos as nat, len as nat));
                    }
                    return Err(StreamFault::Device);
                },
                Some(part) => {
                    out.append(part.as_slice());
                    proof {
                        assert forall|i: nat| pos <= i < pos + done + take implies (
                        #[trigger] stream_byte(image, extents@, cs, i)) is Some by {
                            if i >= pos + done {
                                let r = (i - base) as nat;
                                lemma_stream_byte_in_extent(image, extents@, cs, k as int, r);
                            }
                        }
                        assert forall|i: int| 0 <= i < done + take implies out@[i] == stream_bytes(
                            image,
                            extents@,
                            cs,
                            pos as nat,
                            (done + take) as nat,
                        )[i] by {
                            if i >= done {
                                let r = (pos + i - base) as nat;
                                lemma_stream_byte_in_extent(image, extents@, cs, k as int, r);
                                assert(out@[i] == part@[i - done]);
                            } else {
                                assert(out@[i] == before[i]);
                            }
                        }
                        assert(out@ =~= stream_bytes(
                            image,
                            extents@,
                            cs,
                            pos as nat,
                            (done + take) as nat,
                        ));
                    }
                },
            }
            need = need - take;
            if need == 0 {
                return Ok(out);
            }
            rel = 0;
        } else {
            rel = rel - size;
        }
        k = k + 1;
    }
    Ok(out)
}

} // verus!
