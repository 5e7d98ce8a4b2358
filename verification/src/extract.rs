//! Extraction: from a target to the bytes of one of its attributes, one
//! state after the other.

use crate::attribute::{select, AttributeContent, AttributeView, ContentView, DATA};
use crate::attribute_list::{
    full_record_result,
    full_reference_result,
    load_complete,
    open_complete,
};
use crate::cursor::{lemma_stream_bytes_join, next_take, run_content, CursorView, RunCursor};
use crate::disk::DiskAccessor;
use crate::error::{Failure, NtfsError, Site};
use crate::mft::ROOT_SEGMENT;
use crate::path::{
    failing_component,
    resolve_from_result,
    resolve_result,
    root_result,
    split_path,
    PathResolver,
    VolumeView,
};
use crate::record::{FileRecord, FileRecordView};
use crate::runs::Extent;
use crate::stream::{all_sparse, stream_bytes, stream_len, stream_readable};
use crate::writer::DataWriter;
use vstd::prelude::*;

verus! {

/// What to extract from: a file named by its path from the root
/// directory, or a record named by its number.
#[derive(Debug, PartialEq, Eq)]
pub enum Target {
    Path(Vec<u16>),
    Record(u64),
}

/// A target, as the proofs see it.
pub ghost enum TargetView {
    Path(Seq<u16>),
    Record(u64),
}

impl View for Target {
    type V = TargetView;

    open spec fn view(&self) -> TargetView {
        match self {
            Target::Path(path) => TargetView::Path(path@),
            Target::Record(segment) => TargetView::Record(*segment),
        }
    }
}

/// One extraction: the target, the name of the data stream to take, which
/// is empty for the unnamed stream, and the number of bytes extracted so
/// far.
#[derive(Debug, PartialEq, Eq)]
pub struct ExtractionJob {
    pub target: Target,
    pub stream: Vec<u16>,
    pub bytes_extracted: u64,
}

/// The states of an extraction. `Failed` is left by no transition.
#[derive(Debug)]
pub enum ExtractionProcessor {
    /// The target is not looked up yet.
    Resolving,
    /// The target's record is read.
    Located { record: FileRecord },
    /// The contents are being delivered from clusters.
    Extracting { cursor: RunCursor },
    /// All `bytes` bytes of the contents are delivered.
    Done { bytes: u64 },
    /// The extraction failed; what was delivered is no result.
    Failed { failure: Failure },
}

/// A state of an extraction, as the proofs see it.
pub ghost enum ProcessorView {
    Resolving,
    Located { record: FileRecordView },
    Extracting { cursor: CursorView },
    Done { bytes: u64 },
    Failed { failure: Failure },
}

impl View for ExtractionProcessor {
    type V = ProcessorView;

    open spec fn view(&self) -> ProcessorView {
        match self {
            ExtractionProcessor::Resolving => ProcessorView::Resolving,
            ExtractionProcessor::Located { record } => ProcessorView::Located { record: record@ },
            ExtractionProcessor::Extracting { cursor } => ProcessorView::Extracting {
                cursor: cursor@,
            },
            ExtractionProcessor::Done { bytes } => ProcessorView::Done { bytes: *bytes },
            ExtractionProcessor::Failed { failure } => ProcessorView::Failed {
                failure: *failure,
            },
        }
    }
}

/// The record of the target, made whole: the record that the path leads
/// to, or the record with the number, which must be in use.
#[verifier::opaque]
pub open spec fn target_record(vol: VolumeView, target: TargetView) -> Result<
    FileRecordView,
    NtfsError,
> {
    match target {
        TargetView::Path(path) => match resolve_result(vol, path) {
            Err(e) => Err(e),
            Ok(reference) => full_reference_result(vol.image, vol.mft, reference),
        },
        TargetView::Record(segment) => full_record_result(vol.image, vol.mft, segment),
    }
}

/// The place at which looking `target` up fails, where it fails: the
/// record named by number; for a path, the record of the root directory,
/// the name at which the path breaks off, or the record that the path
/// leads to.
pub open spec fn target_site(vol: VolumeView, target: TargetView) -> Site {
    match target {
        TargetView::Record(segment) => Site::Record(segment),
        TargetView::Path(path) => match root_result(vol) {
            Err(_) => Site::Record(ROOT_SEGMENT),
            Ok(root) => match resolve_from_result(vol, root, path) {
                Err(_) => Site::Component(
                    failing_component(vol, root, split_path(path)) as usize,
                ),
                Ok(found) => Site::Record(found.segment),
            },
        },
    }
}

/// The contents of `attribute` on the device `image`: the bytes inside
/// the record, or the first `real_size` bytes that the runs spell.
pub open spec fn attribute_content(image: Seq<u8>, cs: nat, attribute: AttributeView) -> Result<
    Seq<u8>,
    NtfsError,
> {
    match attribute.content {
        ContentView::Resident { data } => Ok(data),
        ContentView::NonResident { real_size, extents, .. } => run_content(
            image,
            extents,
            cs,
            real_size as nat,
        ),
    }
}

/// The contents of the data stream `stream` of `record`.
pub open spec fn record_content(
    image: Seq<u8>,
    cs: nat,
    record: FileRecordView,
    stream: Seq<u16>,
) -> Result<Seq<u8>, NtfsError> {
    match select(record.attributes, DATA, stream) {
        None => Err(NtfsError::AttributeNotFound),
        Some(attribute) => attribute_content(image, cs, attribute),
    }
}

/// What an extraction of the data stream `stream` of `target` delivers.
pub open spec fn extraction_result(vol: VolumeView, target: TargetView, stream: Seq<u16>) -> Result<
    Seq<u8>,
    NtfsError,
> {
    match target_record(vol, target) {
        Err(e) => Err(e),
        Ok(record) => record_content(vol.image, vol.mft.cluster_size, record, stream),
    }
}

/// The contents of the data stream `stream` of `record` where they lie
/// inside the record.
pub open spec fn resident_data(record: FileRecordView, stream: Seq<u16>) -> Option<Seq<u8>> {
    match select(record.attributes, DATA, stream) {
        None => None,
        Some(attribute) => match attribute.content {
            ContentView::Resident { data } => Some(data),
            ContentView::NonResident { .. } => None,
        },
    }
}

/// The failure `error` at the data attribute.
pub open spec fn at_data(error: NtfsError) -> Failure {
    Failure { error, site: Site::Attribute(DATA) }
}

/// The failure in which selecting the data stream `stream` of `record`
/// ends, if it fails: the record has no such stream, or the stream's runs
/// are malformed or hold fewer bytes than the stream's size.
pub open spec fn selection_failure(cs: nat, record: FileRecordView, stream: Seq<u16>) -> Option<
    Failure,
> {
    match select(record.attributes, DATA, stream) {
        None => Some(at_data(NtfsError::AttributeNotFound)),
        Some(attribute) => match attribute.content {
            ContentView::Resident { .. } => None,
            ContentView::NonResident { real_size, extents, .. } => if real_size > stream_len(
                extents,
                cs,
            ) {
                Some(at_data(NtfsError::MalformedRecord))
            } else {
                None
            },
        },
    }
}

/// The failure in which looking `target` up and selecting its data stream
/// `stream` ends, if it fails.
pub open spec fn opening_failure(vol: VolumeView, target: TargetView, stream: Seq<u16>) -> Option<
    Failure,
> {
    match target_record(vol, target) {
        Err(error) => Some(Failure { error, site: target_site(vol, target) }),
        Ok(record) => selection_failure(vol.mft.cluster_size, record, stream),
    }
}

/// The state after the contents were selected in `record`, as far as it
/// does not depend on where a cursor stands.
pub open spec fn selected(
    state: ProcessorView,
    cs: nat,
    record: FileRecordView,
    stream: Seq<u16>,
) -> bool {
    match select(record.attributes, DATA, stream) {
        None => state == (ProcessorView::Failed {
            failure: at_data(NtfsError::AttributeNotFound),
        }),
        Some(attribute) => match attribute.content {
            ContentView::Resident { data } => state == (ProcessorView::Done {
                bytes: data.len() as u64,
            }),
            ContentView::NonResident { real_size, extents, .. } => if real_size > stream_len(
                extents,
                cs,
            ) {
                state == (ProcessorView::Failed { failure: at_data(NtfsError::MalformedRecord) })
            } else if real_size == 0 {
                state == (ProcessorView::Done { bytes: 0 })
            } else {
                &&& state is Extracting
                &&& state->cursor.extents == extents
                &&& state->cursor.cluster_size == cs
                &&& state->cursor.real_size == real_size
                &&& state->cursor.delivered == 0
            },
        },
    }
}

/// A number that every step from `Extracting` makes smaller: the number
/// of bytes that are left to deliver, and one.
pub open spec fn steps_left(state: ProcessorView) -> nat {
    match state {
        ProcessorView::Extracting { cursor } => (cursor.real_size - cursor.delivered) as nat + 1,
        _ => 0,
    }
}

/// How a state that set out from the cursor `from` stands to what the
/// writer has taken since: the writer holds the contents from where the
/// cursor stood up to where the state stands, or up to the byte at which
/// the device failed.
pub open spec fn delivered_since(
    state: ProcessorView,
    from: CursorView,
    image: Seq<u8>,
    before: Seq<u8>,
    now: Seq<u8>,
) -> bool {
    match state {
        ProcessorView::Extracting { cursor } => {
            &&& cursor.extents == from.extents
            &&& cursor.cluster_size == from.cluster_size
            &&& cursor.real_size == from.real_size
            &&& from.delivered <= cursor.delivered
            &&& stream_readable(
                image,
                from.extents,
                from.cluster_size,
                from.delivered,
                (cursor.delivered - from.delivered) as nat,
            )
            &&& now == before + stream_bytes(
                image,
                from.extents,
                from.cluster_size,
                from.delivered,
                (cursor.delivered - from.delivered) as nat,
            )
        },
        ProcessorView::Done { bytes } => {
            &&& bytes == from.real_size
            &&& stream_readable(
                image,
                from.extents,
                from.cluster_size,
                from.delivered,
                (from.real_size - from.delivered) as nat,
            )
            &&& now == before + stream_bytes(
                image,
                from.extents,
                from.cluster_size,
                from.delivered,
                (from.real_size - from.delivered) as nat,
            )
        },
        ProcessorView::Failed { failure } => {
            &&& failure.error == NtfsError::IoFault
            &&& failure.site is Contents
            &&& from.delivered <= failure.site->Contents_0 < from.real_size
            &&& !stream_readable(image, from.extents, from.cluster_size, 0, from.real_size)
            &&& stream_readable(
                image,
                from.extents,
                from.cluster_size,
                from.delivered,
                (failure.site->Contents_0 - from.delivered) as nat,
            )
            &&& now == before + stream_bytes(
                image,
                from.extents,
                from.cluster_size,
                from.delivered,
                (failure.site->Contents_0 - from.delivered) as nat,
            )
        },
        _ => false,
    }
}

/// An attribute whose runs are all sparse has zeroes for contents, as
/// many as its size says, on whatever device: no byte of the device is
/// part of them.
pub proof fn lemma_sparse_content_is_zeroes(
    image: Seq<u8>,
    extents: Seq<Extent>,
    cs: nat,
    real_size: nat,
)
    requires
        all_sparse(extents),
        real_size <= stream_len(extents, cs),
    ensures
        run_content(image, extents, cs, real_size) == Ok::<Seq<u8>, NtfsError>(
            crate::bytes::zeros(real_size),
        ),
{
    crate::stream::lemma_holes_are_zeroes(image, extents, cs, real_size);
}

/// Reading on from where a readable stretch ends: the two stretches are
/// readable as one.
pub proof fn lemma_readable_join(
    image: Seq<u8>,
    extents: Seq<Extent>,
    cs: nat,
    pos: nat,
    a: nat,
    b: nat,
)
    requires
        stream_readable(image, extents, cs, pos, a),
        stream_readable(image, extents, cs, pos + a, b),
    ensures
        stream_readable(image, extents, cs, pos, a + b),
{
}

impl ExtractionProcessor {
    /// A state that delivers stands inside its contents.
    pub open spec fn wf(&self) -> bool {
        match self {
            ExtractionProcessor::Extracting { cursor } => cursor.wf(),
            _ => true,
        }
    }

    /// A number that every step from `Extracting` makes smaller.
    pub open spec fn measure(&self) -> nat {
        steps_left(self@)
    }

    /// The state in which every extraction begins.
    pub fn new() -> (p: ExtractionProcessor)
        ensures
            p@ == ProcessorView::Resolving,
            p.wf(),
    {
        ExtractionProcessor::Resolving
    }

    /// Whether the contents are being delivered.
    pub fn is_extracting(&self) -> (b: bool)
        ensures
            b == (self@ is Extracting),
    {
        match self {
            ExtractionProcessor::Extracting { .. } => true,
            _ => false,
        }
    }

    /// From `Resolving`: looks the target up and reads its record. The
    /// state that follows is `Located`, or `Failed` with the failure of
    /// the lookup and the place at which it came up. Any other state stays
    /// as it is.
    pub fn locate(self, disk: &mut DiskAccessor, resolver: &PathResolver, target: &Target) -> (r:
        ExtractionProcessor)
        requires
            self.wf(),
            old(disk).wf(),
            resolver.wf(),
        ensures
            r.wf(),
            final(disk).wf(),
            final(disk)@.image == old(disk)@.image,
            final(disk)@.sector_size == old(disk)@.sector_size,
            final(disk)@.reads >= old(disk)@.reads,
            self@ is Resolving ==> r@ == match target_record(
                resolver.on(old(disk)@.image),
                target@,
            ) {
                Ok(record) => ProcessorView::Located { record },
                Err(error) => ProcessorView::Failed {
                    failure: Failure {
                        error,
                        site: target_site(resolver.on(old(disk)@.image), target@),
                    },
                },
            },
            !(self@ is Resolving) ==> r == self && final(disk)@.reads == old(disk)@.reads,
    {
        match self {
            ExtractionProcessor::Resolving => {
                proof {
                    reveal(target_record);
                    reveal(resolve_result);
                }
                let found = match target {
                    Target::Path(path) => match resolver.root(disk) {
                        Err(e) => Err((e, Site::Record(ROOT_SEGMENT))),
                        Ok(root) => match resolver.resolve_traced(disk, root, path.as_slice()) {
                            Err((e, at)) => Err((e, Site::Component(at))),
                            Ok(reference) => match open_complete(resolver.mft(), disk, reference) {
                                Ok(record) => Ok(record),
                                Err(e) => Err((e, Site::Record(reference.segment))),
                            },
                        },
                    },
                    Target::Record(segment) => match load_complete(
                        resolver.mft(),
                        disk,
                        *segment,
                    ) {
                        Ok(record) => Ok(record),
                        Err(e) => Err((e, Site::Record(*segment))),
                    },
                };
                match found {
                    Ok(record) => ExtractionProcessor::Located { record },
                    Err((error, site)) => ExtractionProcessor::Failed {
                        failure: Failure { error, site },
                    },
                }
            },
            other => other,
        }
    }

    /// From `Located`: picks the data stream `stream` of the record.
    /// Contents inside the record go to the writer at once, as one chunk,
    /// and the state is `Done`. Contents in clusters lead to `Extracting`,
    /// or to `Done` where they are empty. A record without that stream, or
    /// with runs that do not hold the contents, leads to `Failed`. Any
    /// other state stays as it is.
    pub fn select(self, writer: &mut DataWriter, cluster_size: u32, stream: &[u16]) -> (r:
        ExtractionProcessor)
        requires
            self.wf(),
        ensures
            r.wf(),
            self@ matches ProcessorView::Located { record } ==> {
                &&& selected(r@, cluster_size as nat, record, stream@)
                &&& match resident_data(record, stream@) {
                    Some(data) => {
                        &&& final(writer)@.data == old(writer)@.data + data
                        &&& final(writer)@.chunks == old(writer)@.chunks.push(data.len() as usize)
                    },
                    None => final(writer)@ == old(writer)@,
                }
            },
            !(self@ is Located) ==> r == self && final(writer)@ == old(writer)@,
    {
        match self {
            ExtractionProcessor::Located { record } => {
                let at: usize = match record.find_attribute(DATA, stream) {
                    Some(i) => i,
                    None => {
                        return ExtractionProcessor::Failed {
                            failure: Failure {
                                error: NtfsError::AttributeNotFound,
                                site: Site::Attribute(DATA),
                            },
                        };
                    },
                };
                assert(record@.attributes[at as int] == record.attributes@[at as int]@);
                match &record.attributes[at].content {
                    AttributeContent::Resident { data } => {
                        writer.write(data.as_slice());
                        ExtractionProcessor::Done { bytes: data.len() as u64 }
                    },
                    AttributeContent::NonResident { real_size, extents, .. } => {
                        let extents = vstd::slice::slice_to_vec(extents.as_slice());
                        match RunCursor::start(extents, cluster_size, *real_size) {
                            Err(error) => ExtractionProcessor::Failed {
                                failure: Failure { error, site: Site::Attribute(DATA) },
                            },
                            Ok(cursor) => {
                                if cursor.is_done() {
                                    ExtractionProcessor::Done { bytes: 0 }
                                } else {
                                    ExtractionProcessor::Extracting { cursor }
                                }
                            },
                        }
                    },
                }
            },
            other => other,
        }
    }

    /// From `Extracting`: delivers the next chunk. A hole gives zeroes
    /// without a read of the device; any other extent costs one read. The
    /// last chunk ends where the contents end, and the state is `Done`. A
    /// fault of the device leads to `Failed`, with the offset of the first
    /// byte that was not delivered, and leaves the writer as it was. Any
    /// other state stays as it is.
    pub fn step(self, disk: &mut DiskAccessor, writer: &mut DataWriter) -> (r: ExtractionProcessor)
        requires
            self.wf(),
            old(disk).wf(),
        ensures
            r.wf(),
            final(disk).wf(),
            final(disk)@.image == old(disk)@.image,
            final(disk)@.sector_size == old(disk)@.sector_size,
            self@ matches ProcessorView::Extracting { cursor } ==> {
                &&& delivered_since(
                    r@,
                    cursor,
                    old(disk)@.image,
                    old(writer)@.data,
                    final(writer)@.data,
                )
                &&& r.measure() < self.measure()
                &&& r@ is Extracting ==> r@->cursor.delivered < r@->cursor.real_size
                &&& r@ is Failed ==> {
                    &&& r@->failure.site == Site::Contents(cursor.delivered as u64)
                    &&& final(writer)@ == old(writer)@
                    &&& final(disk)@.reads == old(disk)@.reads
                    &&& cursor.delivered < cursor.real_size
                    &&& !cursor.extents[cursor.index as int].sparse
                }
                &&& !(r@ is Failed) ==> {
                    &&& final(writer)@.data.len() == old(writer)@.data.len() + next_take(cursor)
                    &&& final(writer)@.chunks == if next_take(cursor) == 0 {
                        old(writer)@.chunks
                    } else {
                        old(writer)@.chunks.push(next_take(cursor) as usize)
                    }
                    &&& cursor.delivered + next_take(cursor) == if r@ is Done {
                        cursor.real_size
                    } else {
                        r@->cursor.delivered
                    }
                    &&& final(disk)@.reads == old(disk)@.reads + if next_take(cursor) == 0
                        || cursor.extents[cursor.index as int].sparse {
                        0nat
                    } else {
                        1nat
                    }
                }
            },
            !(self@ is Extracting) ==> {
                &&& r == self
                &&& final(writer)@ == old(writer)@
                &&& final(disk)@.reads == old(disk)@.reads
            },
    {
        match self {
            ExtractionProcessor::Extracting { cursor } => {
                let mut cursor = cursor;
                let ghost from = cursor@;
                let at: u64 = cursor.delivered();
                match cursor.advance(disk, writer) {
                    Err(error) => {
                        assert(writer@.data =~= writer@.data + stream_bytes(
                            disk@.image,
                            from.extents,
                            from.cluster_size,
                            from.delivered,
                            0,
                        ));
                        ExtractionProcessor::Failed {
                            failure: Failure { error, site: Site::Contents(at) },
                        }
                    },
                    Ok(take) => {
                        proof {
                            assert(stream_bytes(
                                disk@.image,
                                from.extents,
                                from.cluster_size,
                                from.delivered,
                                take as nat,
                            ).len() == take);
                        }
                        if cursor.is_done() {
                            ExtractionProcessor::Done { bytes: cursor.delivered() }
                        } else {
                            ExtractionProcessor::Extracting { cursor }
                        }
                    },
                }
            },
            other => other,
        }
    }

    /// From `Extracting`: delivers chunk after chunk until the state is
    /// `Done` or `Failed`. Where every extent is a hole the device is not
    /// read at all. Any other state stays as it is.
    pub fn run(self, disk: &mut DiskAccessor, writer: &mut DataWriter) -> (r: ExtractionProcessor)
        requires
            self.wf(),
            old(disk).wf(),
        ensures
            r.wf(),
            final(disk).wf(),
            final(disk)@.image == old(disk)@.image,
            final(disk)@.sector_size == old(disk)@.sector_size,
            final(disk)@.reads >= old(disk)@.reads,
            self@ matches ProcessorView::Extracting { cursor } ==> {
                &&& r@ is Done || r@ is Failed
                &&& delivered_since(
                    r@,
                    cursor,
                    old(disk)@.image,
                    old(writer)@.data,
                    final(writer)@.data,
                )
                &&& all_sparse(cursor.extents) ==> final(disk)@.reads == old(disk)@.reads && r@
                    is Done
            },
            !(self@ is Extracting) ==> {
                &&& r == self
                &&& final(writer)@ == old(writer)@
                &&& final(disk)@.reads == old(disk)@.reads
            },
    {
        if !self.is_extracting() {
            return self;
        }
        let ghost from: CursorView = self@->cursor;
        let ghost image = disk@.image;
        let ghost before = writer@.data;
        let mut state = self;
        proof {
            assert(stream_bytes(image, from.extents, from.cluster_size, from.delivered, 0)
                =~= Seq::<u8>::empty());
            assert(before + Seq::<u8>::empty() =~= before);
        }
        while state.is_extracting()
            invariant
                state.wf(),
                disk.wf(),
                disk@.image == image,
                image == old(disk)@.image,
                disk@.sector_size == old(disk)@.sector_size,
                disk@.reads >= old(disk)@.reads,
                delivered_since(state@, from, image, before, writer@.data),
                all_sparse(from.extents) ==> disk@.reads == old(disk)@.reads && !(state@
                    is Failed),
            decreases state.measure(),
        {
            let ghost at: CursorView = state@->cursor;
            let ghost so_far = writer@.data;
            state = state.step(disk, writer);
            proof {
                let gone = (at.delivered - from.delivered) as nat;
                assert(at.extents == from.extents);
                if at.delivered < at.real_size {
                    assert(all_sparse(from.extents) ==> from.extents[at.index as int].sparse);
                }
                if state@ is Failed {
                    assert(writer@.data == so_far);
                } else {
                    let more = next_take(at);
                    lemma_readable_join(
                        image,
                        from.extents,
                        from.cluster_size,
                        from.delivered,
                        gone,
                        more,
                    );
                    lemma_stream_bytes_join(
                        image,
                        from.extents,
                        from.cluster_size,
                        from.delivered,
                        gone,
                        more,
                    );
                    assert(writer@.data =~= before + stream_bytes(
                        image,
                        from.extents,
                        from.cluster_size,
                        from.delivered,
                        gone + more,
                    ));
                }
            }
        }
        state
    }
}

} // verus!
