//! Delivery of a non-resident attribute's contents, extent by extent.

use crate::bytes::zeros;
use crate::disk::DiskAccessor;
use crate::error::NtfsError;
use crate::runs::{lemma_resolve_shape, resolve_runs, DataRun, Extent};
use crate::stream::{
    covers,
    extent_len,
    fetch,
    lemma_stream_byte_in_extent,
    part_bytes,
    part_readable,
    prefix_len,
    stream_byte,
    stream_bytes,
    stream_len,
    stream_range,
    stream_readable,
    StreamFault,
};
use crate::writer::DataWriter;
use vstd::prelude::*;

verus! {

/// The largest number of bytes that one read delivers.
pub const MAX_CHUNK: u32 = 0xFFFF_FFFF;

/// Where a delivery stands: the contents to deliver, the number of bytes
/// delivered, and the extent and the byte in it that come next.
pub ghost struct CursorView {
    pub extents: Seq<Extent>,
    pub cluster_size: nat,
    pub real_size: nat,
    pub index: nat,
    pub rel: nat,
    pub delivered: nat,
}

/// A delivery in progress.
#[derive(Debug)]
pub struct RunCursor {
    extents: Vec<Extent>,
    cluster_size: u32,
    real_size: u64,
    index: usize,
    rel: u128,
    delivered: u64,
}

impl View for RunCursor {
    type V = CursorView;

    closed spec fn view(&self) -> CursorView {
        CursorView {
            extents: self.extents@,
            cluster_size: self.cluster_size as nat,
            real_size: self.real_size as nat,
            index: self.index as nat,
            rel: self.rel as nat,
            delivered: self.delivered as nat,
        }
    }
}

/// The contents of `real_size` bytes that `extents` spell on `image`.
/// Extents that are shorter than the contents make the attribute
/// malformed; extents that lead outside the device are a fault of the
/// device.
pub open spec fn run_content(
    image: Seq<u8>,
    extents: Seq<Extent>,
    cs: nat,
    real_size: nat,
) -> Result<Seq<u8>, NtfsError> {
    match stream_range(image, extents, cs, 0, real_size) {
        Err(StreamFault::OutsideRuns) => Err(NtfsError::MalformedRecord),
        Err(StreamFault::Device) => Err(NtfsError::IoFault),
        Ok(bytes) => Ok(bytes),
    }
}

/// Runs whose clusters hold at least `real_size` bytes, all of them on the
/// device or in holes, give contents of exactly `real_size` bytes: the
/// last run is cut where the contents end.
pub proof fn lemma_runs_rebuild_real_size(
    image: Seq<u8>,
    runs: Seq<DataRun>,
    cs: nat,
    real_size: nat,
)
    requires
        resolve_runs(runs) is Ok,
        real_size <= stream_len(resolve_runs(runs).unwrap(), cs),
        stream_readable(image, resolve_runs(runs).unwrap(), cs, 0, real_size),
    ensures
        resolve_runs(runs).unwrap().len() == runs.len(),
        forall|i: int|
            0 <= i < runs.len() ==> (#[trigger] resolve_runs(runs).unwrap()[i]).clusters
                == runs[i].cluster_count,
        run_content(image, resolve_runs(runs).unwrap(), cs, real_size) is Ok,
        run_content(image, resolve_runs(runs).unwrap(), cs, real_size).unwrap().len() == real_size,
{
    lemma_resolve_shape(runs, 0, 0);
}

/// Contents that runs spell are as long as the attribute says, never
/// longer or shorter.
pub proof fn lemma_run_content_length(
    image: Seq<u8>,
    extents: Seq<Extent>,
    cs: nat,
    real_size: nat,
)
    ensures
        run_content(image, extents, cs, real_size) matches Ok(bytes) ==> bytes.len() == real_size,
{
}

/// The number of bytes that the next chunk holds: what is left of the
/// extent, of the contents and of the largest chunk, whichever is least;
/// nothing once all is delivered.
pub open spec fn next_take(c: CursorView) -> nat {
    let avail = (extent_len(c.extents[c.index as int], c.cluster_size) - c.rel) as nat;
    let left = (c.real_size - c.delivered) as nat;
    if c.delivered >= c.real_size {
        0
    } else if left <= avail && left <= MAX_CHUNK {
        left
    } else if avail <= MAX_CHUNK {
        avail
    } else {
        MAX_CHUNK as nat
    }
}

/// Two stretches of the contents that follow one another are one stretch.
pub proof fn lemma_stream_bytes_join(
    image: Seq<u8>,
    extents: Seq<Extent>,
    cs: nat,
    pos: nat,
    a: nat,
    b: nat,
)
    ensures
        stream_bytes(image, extents, cs, pos, a) + stream_bytes(image, extents, cs, pos + a, b)
            == stream_bytes(image, extents, cs, pos, a + b),
{
    assert(stream_bytes(image, extents, cs, pos, a) + stream_bytes(image, extents, cs, pos + a, b)
        =~= stream_bytes(image, extents, cs, pos, a + b));
}

/// The bytes of a part of one extent are bytes of the contents.
pub proof fn lemma_part_is_stream(
    image: Seq<u8>,
    extents: Seq<Extent>,
    cs: nat,
    k: int,
    rel: nat,
    take: nat,
)
    requires
        0 <= k < extents.len(),
        rel + take <= extent_len(extents[k], cs),
        part_readable(image, extents[k], cs, rel, take),
    ensures
        stream_readable(image, extents, cs, prefix_len(extents, cs, k) + rel, take),
        stream_bytes(image, extents, cs, prefix_len(extents, cs, k) + rel, take) == part_bytes(
            image,
            extents[k],
            cs,
            rel,
            take,
        ),
{
    let base = prefix_len(extents, cs, k);
    assert forall|i: nat| base + rel <= i < base + rel + take implies (#[trigger] stream_byte(
        image,
        extents,
        cs,
        i,
    )) is Some by {
        lemma_stream_byte_in_extent(image, extents, cs, k, (i - base) as nat);
    }
    assert forall|i: int| 0 <= i < take implies stream_bytes(
        image,
        extents,
        cs,
        base + rel,
        take,
    )[i] == part_bytes(image, extents[k], cs, rel, take)[i] by {
        lemma_stream_byte_in_extent(image, extents, cs, k, (rel + i) as nat);
    }
    assert(stream_bytes(image, extents, cs, base + rel, take) =~= part_bytes(
        image,
        extents[k],
        cs,
        rel,
        take,
    ));
}

impl RunCursor {
    /// A cursor stands inside the contents: the extents hold all of them,
    /// and while bytes are left to deliver, the cursor points at the next.
    pub open spec fn wf(&self) -> bool {
        let c = self@;
        &&& c.real_size <= stream_len(c.extents, c.cluster_size)
        &&& c.delivered <= c.real_size
        &&& c.index <= c.extents.len()
        &&& c.delivered == prefix_len(c.extents, c.cluster_size, c.index as int) + c.rel
        &&& c.delivered < c.real_size ==> c.index < c.extents.len() && c.rel < extent_len(
            c.extents[c.index as int],
            c.cluster_size,
        )
    }

    /// Whether all the contents are delivered.
    pub fn is_done(&self) -> (b: bool)
        ensures
            b == (self@.delivered >= self@.real_size),
    {
        self.delivered >= self.real_size
    }

    /// The number of bytes delivered.
    pub fn delivered(&self) -> (n: u64)
        ensures
            n == self@.delivered,
    {
        self.delivered
    }

    /// Moves past the extents of which nothing is left.
    fn settle(&mut self)
        requires
            old(self)@.real_size <= stream_len(old(self)@.extents, old(self)@.cluster_size),
            old(self)@.delivered <= old(self)@.real_size,
            old(self)@.index <= old(self)@.extents.len(),
            old(self)@.delivered == prefix_len(
                old(self)@.extents,
                old(self)@.cluster_size,
                old(self)@.index as int,
            ) + old(self)@.rel,
        ensures
            final(self).wf(),
            final(self)@.extents == old(self)@.extents,
            final(self)@.cluster_size == old(self)@.cluster_size,
            final(self)@.real_size == old(self)@.real_size,
            final(self)@.delivered == old(self)@.delivered,
    {
        while self.index < self.extents.len()
            invariant
                self@.extents == old(self)@.extents,
                self@.cluster_size == old(self)@.cluster_size,
                self@.real_size == old(self)@.real_size,
                self@.delivered == old(self)@.delivered,
                self@.real_size <= stream_len(self@.extents, self@.cluster_size),
                self@.delivered <= self@.real_size,
                self@.index <= self@.extents.len(),
                self@.delivered == prefix_len(
                    self@.extents,
                    self@.cluster_size,
                    self@.index as int,
                ) + self@.rel,
            decreases self.extents.len() - self.index,
        {
            let extent = self.extents[self.index];
            assert(extent.clusters as nat * self.cluster_size as nat <= 0xFFFF_FFFF_FFFF_FFFF
                * 0xFFFF_FFFF) by (nonlinear_arith)
                requires
                    extent.clusters <= 0xFFFF_FFFF_FFFF_FFFF,
                    self.cluster_size <= 0xFFFF_FFFF,
            ;
            let size: u128 = extent.clusters as u128 * self.cluster_size as u128;
            if self.rel < size {
                return ;
            }
            self.rel = self.rel - size;
            self.index = self.index + 1;
        }
    }

    /// Sets out to deliver the `real_size` bytes that `extents` spell.
    /// Extents that hold fewer bytes make the attribute malformed.
    pub fn start(extents: Vec<Extent>, cluster_size: u32, real_size: u64) -> (r: Result<
        RunCursor,
        NtfsError,
    >)
        ensures
            match r {
                Ok(c) => {
                    &&& c.wf()
                    &&& c@.extents == extents@
                    &&& c@.cluster_size == cluster_size
                    &&& c@.real_size == real_size
                    &&& c@.delivered == 0
                },
                Err(e) => e == NtfsError::MalformedRecord && real_size > stream_len(
                    extents@,
                    cluster_size as nat,
                ),
            },
    {
        if !covers(&extents, cluster_size, real_size as u128) {
            return Err(NtfsError::MalformedRecord);
        }
        let mut cursor = RunCursor {
            extents,
            cluster_size,
            real_size,
            index: 0,
            rel: 0,
            delivered: 0,
        };
        cursor.settle();
        Ok(cursor)
    }

    /// Delivers the next chunk to `writer`: what is left of the extent at
    /// which the cursor stands, up to the end of the contents. A hole
    /// gives zeroes and costs no read; any other extent costs one read.
    /// A fault leaves the writer as it was. Once all is delivered nothing
    /// happens, and the answer is 0.
    pub fn advance(&mut self, disk: &mut DiskAccessor, writer: &mut DataWriter) -> (r: Result<
        u32,
        NtfsError,
    >)
        requires
            old(self).wf(),
            old(disk).wf(),
        ensures
            final(self)@.extents == old(self)@.extents,
            final(self)@.cluster_size == old(self)@.cluster_size,
            final(self)@.real_size == old(self)@.real_size,
            final(disk).wf(),
            final(disk)@.image == old(disk)@.image,
            final(disk)@.sector_size == old(disk)@.sector_size,
            match r {
                Ok(take) => {
                    &&& final(self).wf()
                    &&& take >= 1 <==> old(self)@.delivered < old(self)@.real_size
                    &&& take == next_take(old(self)@)
                    &&& final(self)@.delivered == old(self)@.delivered + take
                    &&& stream_readable(
                        old(disk)@.image,
                        old(self)@.extents,
                        old(self)@.cluster_size,
                        old(self)@.delivered,
                        take as nat,
                    )
                    &&& final(writer)@.data == old(writer)@.data + stream_bytes(
                        old(disk)@.image,
                        old(self)@.extents,
                        old(self)@.cluster_size,
                        old(self)@.delivered,
                        take as nat,
                    )
                    &&& final(writer)@.chunks == if take == 0 {
                        old(writer)@.chunks
                    } else {
                        old(writer)@.chunks.push(take as usize)
                    }
                    &&& take > 0 && old(self)@.extents[old(self)@.index as int].sparse
                        ==> final(writer)@.data == old(writer)@.data + zeros(take as nat)
                    &&& final(disk)@.reads == old(disk)@.reads + if take == 0 || old(
                        self,
                    )@.extents[old(self)@.index as int].sparse {
                        0nat
                    } else {
                        1nat
                    }
                },
                Err(e) => {
                    &&& e == NtfsError::IoFault
                    &&& old(self)@.delivered < old(self)@.real_size
                    &&& *final(self) == *old(self)
                    &&& final(writer)@ == old(writer)@
                    &&& final(disk)@.reads == old(disk)@.reads
                    &&& !old(self)@.extents[old(self)@.index as int].sparse
                    &&& !stream_readable(
                        old(disk)@.image,
                        old(self)@.extents,
                        old(self)@.cluster_size,
                        0,
                        old(self)@.real_size,
                    )
                },
            },
    {
        let ghost image = disk@.image;
        let ghost cs = self.cluster_size as nat;
        let ghost base = prefix_len(self@.extents, cs, self.index as int);
        if self.delivered >= self.real_size {
            assert(writer@.data + stream_bytes(image, self@.extents, cs, self@.delivered, 0)
                =~= writer@.data);
            return Ok(0);
        }
        let extent = self.extents[self.index];
        assert(extent.clusters as nat * self.cluster_size as nat <= 0xFFFF_FFFF_FFFF_FFFF
            * 0xFFFF_FFFF) by (nonlinear_arith)
            requires
                extent.clusters <= 0xFFFF_FFFF_FFFF_FFFF,
                self.cluster_size <= 0xFFFF_FFFF,
        ;
        let size: u128 = extent.clusters as u128 * self.cluster_size as u128;
        let avail: u128 = size - self.rel;
        let left: u64 = self.real_size - self.delivered;
        let take: u32 = if left as u128 <= avail && left <= MAX_CHUNK as u64 {
            left as u32
        } else if avail <= MAX_CHUNK as u128 {
            avail as u32
        } else {
            MAX_CHUNK
        };
        match fetch(disk, &extent, self.cluster_size, self.rel, take) {
            None => {
                proof {
                    let bad = (self.rel + take - 1) as nat;
                    lemma_stream_byte_in_extent(image, self@.extents, cs, self.index as int, bad);
                    assert(stream_byte(image, self@.extents, cs, base + bad) is None);
                }
                Err(NtfsError::IoFault)
            },
            Some(part) => {
                proof {
                    lemma_part_is_stream(
                        image,
                        self@.extents,
                        cs,
                        self.index as int,
                        self.rel as nat,
                        take as nat,
                    );
                }
                writer.write(part.as_slice());
                self.delivered = self.delivered + take as u64;
                self.rel = self.rel + take as u128;
                self.settle();
                Ok(take)
            },
        }
    }
}

} // verus!
