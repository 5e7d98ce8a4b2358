//! One operation on one volume, from setup to teardown.

use crate::attribute::{select, ContentView, DATA};
use crate::boot::{parse_boot_sector, parse_boot_sector_result, BOOT_SECTOR_SIZE};
use crate::cursor::{lemma_stream_bytes_join, next_take, run_content};
use crate::disk::{read_result, DiskAccessor};
use crate::error::{Failure, NtfsError, Site};
use crate::extract::{
    extraction_result,
    lemma_readable_join,
    opening_failure,
    steps_left,
    ExtractionJob,
    ExtractionProcessor,
    ProcessorView,
    TargetView,
};
use crate::index::{IndexWalker, WalkerView};
use crate::mft::{bootstrap_result, MftReader};
use crate::path::{PathResolver, VolumeView};
use crate::stream::{stream_bytes, stream_readable};
use crate::writer::DataWriter;
use vstd::prelude::*;

verus! {

/// What the proofs know of an operation: the volume, what is to be
/// extracted, how far the extraction is, what was delivered, and the
/// number of reads that the device has served.
pub ghost struct ContextView {
    pub vol: VolumeView,
    pub target: TargetView,
    pub stream: Seq<u16>,
    pub state: ProcessorView,
    pub written: Seq<u8>,
    pub reads: nat,
    pub bytes_extracted: u64,
}

/// The device, the volume found on it and one extraction. The context
/// owns the device: giving the context up closes it, once, on every way
/// out.
pub struct ExecutionContext {
    disk: DiskAccessor,
    resolver: PathResolver,
    job: ExtractionJob,
    writer: DataWriter,
    state: ExtractionProcessor,
}

impl View for ExecutionContext {
    type V = ContextView;

    closed spec fn view(&self) -> ContextView {
        ContextView {
            vol: self.resolver.on(self.disk@.image),
            target: self.job.target@,
            stream: self.job.stream@,
            state: self.state@,
            written: self.writer@.data,
            reads: self.disk@.reads,
            bytes_extracted: self.job.bytes_extracted,
        }
    }
}

/// The volume found on a device with contents `image` and sectors of
/// `sector_size` bytes: the geometry of the boot sector in the device's
/// first 512 bytes, and the master file table found by it. `table` is
/// the order of names to search directories by.
pub open spec fn setup_result(image: Seq<u8>, sector_size: u32, table: Seq<u16>) -> Result<
    VolumeView,
    NtfsError,
> {
    if sector_size == 0 || image.len() % (sector_size as nat) != 0 {
        Err(NtfsError::IoFault)
    } else {
        match read_result(image, 0, BOOT_SECTOR_SIZE as nat) {
            Err(e) => Err(e),
            Ok(sector) => match parse_boot_sector_result(sector) {
                Err(e) => Err(e),
                Ok(boot) => match bootstrap_result(image, boot) {
                    Err(e) => Err(e),
                    Ok(mft) => Ok(
                        VolumeView {
                            image,
                            mft,
                            walker: WalkerView {
                                cluster_size: boot.spec_cluster_size(),
                                sector_size: boot.bytes_per_sector as nat,
                                table,
                            },
                        },
                    ),
                },
            },
        }
    }
}

/// Whether what was delivered is what the state says: nothing before the
/// contents are selected, the contents up to where the cursor stands while
/// they are delivered, all of them once the state is `Done`; and `Failed`
/// bears the failure that the extraction ends in, with the place at which
/// the target could not be opened, or the offset of the first byte that
/// the device did not deliver. A context looks the target up and selects
/// its contents in one move, so that it never rests in the state
/// `Located`.
pub open spec fn consistent(c: ContextView) -> bool {
    let expected = extraction_result(c.vol, c.target, c.stream);
    &&& c.bytes_extracted == c.written.len()
    &&& match c.state {
        ProcessorView::Resolving => c.written.len() == 0,
        ProcessorView::Located { .. } => false,
        ProcessorView::Extracting { cursor } => {
            &&& opening_failure(c.vol, c.target, c.stream) is None
            &&& cursor.delivered < cursor.real_size
            &&& cursor.cluster_size == c.vol.mft.cluster_size
            &&& expected == run_content(
                c.vol.image,
                cursor.extents,
                cursor.cluster_size,
                cursor.real_size,
            )
            &&& stream_readable(
                c.vol.image,
                cursor.extents,
                cursor.cluster_size,
                0,
                cursor.delivered,
            )
            &&& c.written == stream_bytes(
                c.vol.image,
                cursor.extents,
                cursor.cluster_size,
                0,
                cursor.delivered,
            )
        },
        ProcessorView::Done { bytes } => {
            &&& expected == Ok::<_, NtfsError>(c.written)
            &&& bytes == c.written.len()
        },
        ProcessorView::Failed { failure } => {
            &&& expected == Err::<Seq<u8>, _>(failure.error)
            &&& match opening_failure(c.vol, c.target, c.stream) {
                Some(f) => failure == f,
                None => failure.site == Site::Contents(c.written.len() as u64),
            }
        },
    }
}

/// What an operation returns: the length of the contents, or the failure.
pub open spec fn operation_result(c: ContextView) -> Result<u64, NtfsError> {
    match extraction_result(c.vol, c.target, c.stream) {
        Ok(content) => Ok(content.len() as u64),
        Err(e) => Err(e),
    }
}

impl ExecutionContext {
    /// The parts of a context are usable.
    pub closed spec fn parts_wf(&self) -> bool {
        &&& self.disk.wf()
        &&& self.resolver.wf()
        &&& self.state.wf()
        &&& self.resolver@.mft.cluster_size == self.resolver@.walker.cluster_size
    }

    /// A context is usable, and what it has delivered is what its state
    /// says.
    pub open spec fn inv(&self) -> bool {
        self.parts_wf() && consistent(self@)
    }

    /// Opens the device whose contents are `image`, reads the boot sector
    /// and finds the master file table. The context that is returned has
    /// delivered nothing and is in the state `Resolving`.
    pub fn setup(image: Vec<u8>, sector_size: u32, table: Vec<u16>, job: ExtractionJob) -> (r:
        Result<ExecutionContext, NtfsError>)
        ensures
            match r {
                Ok(c) => {
                    &&& c.inv()
                    &&& setup_result(image@, sector_size, table@) == Ok::<_, NtfsError>(c@.vol)
                    &&& c@.target == job.target@
                    &&& c@.stream == job.stream@
                    &&& c@.state == ProcessorView::Resolving
                    &&& c@.written == Seq::<u8>::empty()
                },
                Err(e) => setup_result(image@, sector_size, table@) == Err::<VolumeView, _>(e),
            },
    {
        let mut job = job;
        job.bytes_extracted = 0;
        let mut disk = DiskAccessor::new(image, sector_size)?;
        let sector = disk.read_bytes(0, BOOT_SECTOR_SIZE as u32)?;
        let boot = parse_boot_sector(&sector)?;
        let mft = MftReader::bootstrap(&mut disk, &boot)?;
        let walker = IndexWalker::new(boot.cluster_size(), boot.bytes_per_sector, table);
        let resolver = PathResolver::new(mft, walker);
        Ok(
            ExecutionContext {
                disk,
                resolver,
                job,
                writer: DataWriter::new(),
                state: ExtractionProcessor::new(),
            },
        )
    }

    /// Looks the target up and selects its contents: from `Resolving` to
    /// `Extracting`, `Done` or `Failed`. Contents that lie inside the
    /// record are delivered at once. In any other state nothing happens.
    pub fn begin(&mut self)
        requires
            old(self).inv(),
        ensures
            final(self).inv(),
            final(self)@.vol == old(self)@.vol,
            final(self)@.target == old(self)@.target,
            final(self)@.stream == old(self)@.stream,
            final(self)@.reads >= old(self)@.reads,
            !(final(self)@.state is Resolving),
            old(self)@.state is Resolving ==> match opening_failure(
                old(self)@.vol,
                old(self)@.target,
                old(self)@.stream,
            ) {
                Some(failure) => final(self)@.state == (ProcessorView::Failed { failure }),
                None => !(final(self)@.state is Failed),
            },
            !(old(self)@.state is Resolving) ==> final(self)@ == old(self)@,
    {
        if !self.is_resolving() {
            return ;
        }
        let ghost vol = self@.vol;
        let mut state = ExtractionProcessor::Resolving;
        std::mem::swap(&mut state, &mut self.state);
        let state = state.locate(&mut self.disk, &self.resolver, &self.job.target);
        let cluster_size: u32 = self.resolver.mft().cluster_size();
        let ghost before = self.writer@.data;
        let ghost located = state@;
        let state = state.select(&mut self.writer, cluster_size, self.job.stream.as_slice());
        proof {
            assert(before =~= Seq::<u8>::empty());
            if located is Located {
                let record = located->record;
                match select(record.attributes, DATA, self.job.stream@) {
                    None => {},
                    Some(attribute) => match attribute.content {
                        ContentView::Resident { data } => {
                            assert(before + data =~= data);
                        },
                        ContentView::NonResident { extents, .. } => {
                            assert(stream_bytes(vol.image, extents, cluster_size as nat, 0, 0)
                                =~= before);
                        },
                    },
                }
            }
        }
        self.state = state;
        self.note_progress();
    }

    /// Delivers the next chunk of the contents. In any state but
    /// `Extracting` nothing happens.
    pub fn pump(&mut self)
        requires
            old(self).inv(),
        ensures
            final(self).inv(),
            final(self)@.vol == old(self)@.vol,
            final(self)@.target == old(self)@.target,
            final(self)@.stream == old(self)@.stream,
            final(self)@.reads >= old(self)@.reads,
            old(self)@.written.is_prefix_of(final(self)@.written),
            old(self)@.state is Extracting ==> {
                &&& steps_left(final(self)@.state) < steps_left(old(self)@.state)
                &&& final(self)@.state is Failed || final(self)@.written.len() > old(
                    self,
                )@.written.len()
            },
            !(old(self)@.state is Extracting) ==> final(self)@ == old(self)@,
    {
        if !self.state.is_extracting() {
            return ;
        }
        let ghost from = self@.state->cursor;
        let ghost image = self@.vol.image;
        let ghost before = self.writer@.data;
        let mut state = ExtractionProcessor::Resolving;
        std::mem::swap(&mut state, &mut self.state);
        let state = state.step(&mut self.disk, &mut self.writer);
        proof {
            if !(state@ is Failed) {
                let more = next_take(from);
                lemma_readable_join(
                    image,
                    from.extents,
                    from.cluster_size,
                    0,
                    from.delivered,
                    more,
                );
                lemma_stream_bytes_join(
                    image,
                    from.extents,
                    from.cluster_size,
                    0,
                    from.delivered,
                    more,
                );
                assert(before.is_prefix_of(self.writer@.data));
            }
        }
        self.state = state;
        self.note_progress();
    }

    /// Carries the operation through: looks the target up, selects its
    /// contents and delivers them all. The answer is the length of the
    /// contents, which are then what the context has delivered, or the
    /// failure; nothing that was delivered before a failure counts.
    pub fn perform_operation(&mut self) -> (r: Result<u64, NtfsError>)
        requires
            old(self).inv(),
        ensures
            final(self).inv(),
            final(self)@.vol == old(self)@.vol,
            final(self)@.target == old(self)@.target,
            final(self)@.stream == old(self)@.stream,
            final(self)@.reads >= old(self)@.reads,
            final(self)@.state is Done || final(self)@.state is Failed,
            r == operation_result(old(self)@),
            r is Ok ==> extraction_result(old(self)@.vol, old(self)@.target, old(self)@.stream)
                == Ok::<_, NtfsError>(final(self)@.written),
            r matches Ok(n) ==> final(self)@.bytes_extracted == n,
    {
        self.begin();
        while self.state.is_extracting()
            invariant
                self.inv(),
                self@.vol == old(self)@.vol,
                self@.target == old(self)@.target,
                self@.stream == old(self)@.stream,
                self@.reads >= old(self)@.reads,
                !(self@.state is Resolving),
            decreases steps_left(self@.state),
        {
            self.pump();
        }
        match self.failure() {
            Some(failure) => Err(failure.error),
            None => Ok(self.job.bytes_extracted),
        }
    }

    /// Whether the target is not looked up yet.
    pub fn is_resolving(&self) -> (b: bool)
        ensures
            b == (self@.state is Resolving),
    {
        match &self.state {
            ExtractionProcessor::Resolving => true,
            _ => false,
        }
    }

    /// Whether all the contents are delivered.
    pub fn is_done(&self) -> (b: bool)
        ensures
            b == (self@.state is Done),
    {
        match &self.state {
            ExtractionProcessor::Done { .. } => true,
            _ => false,
        }
    }

    /// The failure that the extraction ended in, if it did, and the place
    /// at which it came up.
    pub fn failure(&self) -> (f: Option<Failure>)
        ensures
            f == match self@.state {
                ProcessorView::Failed { failure } => Some(failure),
                _ => None,
            },
    {
        match &self.state {
            ExtractionProcessor::Failed { failure } => Some(*failure),
            _ => None,
        }
    }

    /// What was delivered so far.
    pub fn written(&self) -> (s: &[u8])
        ensures
            s@ == self@.written,
    {
        self.writer.as_slice()
    }

    /// The number of reads that the device has served, as far as 64 bits
    /// can hold it.
    pub fn device_reads(&self) -> (n: u64)
        requires
            self.inv(),
        ensures
            n == if self@.reads <= u64::MAX {
                self@.reads
            } else {
                u64::MAX as nat
            },
    {
        self.disk.read_count()
    }

    /// The job, with the number of bytes extracted so far.
    pub fn job(&self) -> (j: &ExtractionJob)
        ensures
            j.target@ == self@.target,
            j.stream@ == self@.stream,
            j.bytes_extracted == self@.bytes_extracted,
    {
        &self.job
    }

    /// Ends the operation: closes the device and hands out the sink with
    /// what was delivered.
    pub fn cleanup(self) -> (w: DataWriter)
        ensures
            w@.data == self@.written,
    {
        self.writer
    }

    /// Writes the number of bytes delivered into the job.
    fn note_progress(&mut self)
        ensures
            final(self).disk == old(self).disk,
            final(self).resolver == old(self).resolver,
            final(self).writer == old(self).writer,
            final(self).state == old(self).state,
            final(self).job.target == old(self).job.target,
            final(self).job.stream == old(self).job.stream,
            final(self).job.bytes_extracted == old(self).writer@.data.len() as u64,
            old(self).writer@.data.len() <= usize::MAX,
    {
        self.job.bytes_extracted = self.writer.len() as u64;
    }
}

} // verus!
