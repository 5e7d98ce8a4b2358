//! The contents of one file as a stream of bytes.

use crate::context::{setup_result, ExecutionContext};
use crate::extract::{opening_failure, ExtractionJob, ProcessorView, TargetView};
use crate::path::VolumeView;
use vstd::prelude::*;

verus! {

/// Why a stream could not be opened or read.
#[derive(Clone, Copy, Debug, PartialEq, Eq, Structural)]
pub enum StreamError {
    /// The stream could not be opened: the volume or the file was not
    /// found on the device.
    NotFound,
    /// The stream is closed.
    BrokenPipe,
    /// The extraction failed while the stream was read.
    Other,
}

/// What the proofs know of an open stream: the operation behind it and
/// the number of bytes handed out.
pub ghost struct StreamView {
    pub volume: VolumeView,
    pub target: TargetView,
    pub name: Seq<u16>,
    pub state: ProcessorView,
    pub delivered: Seq<u8>,
    pub position: nat,
}

/// Whether all the contents are delivered and handed out.
pub open spec fn at_end(stream: StreamView) -> bool {
    stream.state is Done && stream.position == stream.delivered.len()
}

/// A stream over the contents of one file on a raw volume. It is open
/// from `new` to the first `close`.
pub struct RawFileReader {
    context: Option<ExecutionContext>,
    position: usize,
}

impl View for RawFileReader {
    type V = Option<StreamView>;

    closed spec fn view(&self) -> Option<StreamView> {
        match self.context {
            None => None,
            Some(c) => Some(
                StreamView {
                    volume: c@.vol,
                    target: c@.target,
                    name: c@.stream,
                    state: c@.state,
                    delivered: c@.written,
                    position: self.position as nat,
                },
            ),
        }
    }
}

impl RawFileReader {
    /// An open stream stands on a usable operation that has selected its
    /// contents, and has handed out no more than was delivered.
    pub closed spec fn inv(&self) -> bool {
        match self.context {
            None => true,
            Some(c) => {
                &&& c.inv()
                &&& self.position <= c@.written.len()
                &&& !(c@.state is Resolving)
            },
        }
    }

    /// What an open stream has delivered is the beginning of the contents
    /// that the extraction of its target gives; once the state is `Done`
    /// it is all of them.
    pub proof fn lemma_delivered_is_content(&self)
        requires
            self.inv(),
            self@ is Some,
        ensures
            self@.unwrap().state is Done ==> crate::extract::extraction_result(
                self@.unwrap().volume,
                self@.unwrap().target,
                self@.unwrap().name,
            ) == Ok::<_, crate::error::NtfsError>(self@.unwrap().delivered),
            self@.unwrap().state is Failed ==> crate::extract::extraction_result(
                self@.unwrap().volume,
                self@.unwrap().target,
                self@.unwrap().name,
            ) is Err,
            self@.unwrap().position <= self@.unwrap().delivered.len(),
    {
    }

    /// Opens a stream over the data stream of the job's target on the
    /// device whose contents are `image`. The stream cannot be opened
    /// where no volume is found on the device, or where looking the target
    /// up or selecting its contents fails.
    pub fn new(image: Vec<u8>, sector_size: u32, table: Vec<u16>, job: ExtractionJob) -> (r: Result<
        RawFileReader,
        StreamError,
    >)
        ensures
            match r {
                Ok(reader) => {
                    &&& reader.inv()
                    &&& reader@ is Some
                    &&& setup_result(image@, sector_size, table@) == Ok::<
                        _,
                        crate::error::NtfsError,
                    >(reader@.unwrap().volume)
                    &&& reader@.unwrap().target == job.target@
                    &&& reader@.unwrap().name == job.stream@
                    &&& reader@.unwrap().position == 0
                    &&& opening_failure(reader@.unwrap().volume, job.target@, job.stream@) is None
                },
                Err(e) => {
                    &&& e == StreamError::NotFound
                    &&& match setup_result(image@, sector_size, table@) {
                        Err(_) => true,
                        Ok(volume) => opening_failure(volume, job.target@, job.stream@) is Some,
                    }
                },
            },
    {
        let mut context = match ExecutionContext::setup(image, sector_size, table, job) {
            Ok(c) => c,
            Err(_) => { return Err(StreamError::NotFound); },
        };
        context.begin();
        if context.failure().is_some() {
            return Err(StreamError::NotFound);
        }
        Ok(RawFileReader { context: Some(context), position: 0 })
    }

    /// Whether the stream is open.
    pub fn is_open(&self) -> (b: bool)
        ensures
            b == (self@ is Some),
    {
        self.context.is_some()
    }

    /// Appends to `out` the next bytes of the contents, at most `max` of
    /// them, and answers their number. The answer 0 to a `max` above zero
    /// says that the contents have ended. A closed stream is a
    /// `BrokenPipe`; a failure of the extraction is `Other`, and `out`
    /// stays as it was.
    pub fn read(&mut self, out: &mut Vec<u8>, max: usize) -> (r: Result<usize, StreamError>)
        requires
            old(self).inv(),
        ensures
            final(self).inv(),
            old(self)@ is None ==> {
                &&& r == Err::<usize, _>(StreamError::BrokenPipe)
                &&& final(self)@ is None
                &&& final(out)@ == old(out)@
            },
            old(self)@ matches Some(before) ==> {
                &&& final(self)@ is Some
                &&& final(self)@.unwrap().volume == before.volume
                &&& final(self)@.unwrap().target == before.target
                &&& final(self)@.unwrap().name == before.name
                &&& before.delivered.is_prefix_of(final(self)@.unwrap().delivered)
                &&& match r {
                    Ok(n) => {
                        &&& n == if max < final(self)@.unwrap().delivered.len() - before.position {
                            max as int
                        } else {
                            final(self)@.unwrap().delivered.len() - before.position
                        }
                        &&& final(self)@.unwrap().position == before.position + n
                        &&& final(out)@ == old(out)@ + final(self)@.unwrap().delivered.subrange(
                            before.position as int,
                            before.position + n,
                        )
                        &&& (n == 0 && max > 0) ==> at_end(final(self)@.unwrap())
                    },
                    Err(e) => {
                        &&& e == StreamError::Other
                        &&& final(self)@.unwrap().state is Failed
                        &&& final(self)@.unwrap().position == before.position
                        &&& final(out)@ == old(out)@
                    },
                }
            },
    {
        let mut context = match self.context.take() {
            None => { return Err(StreamError::BrokenPipe); },
            Some(c) => c,
        };
        if self.position >= context.written().len() {
            context.pump();
        }
        let result = if context.failure().is_some() {
            Err(StreamError::Other)
        } else {
            let delivered = context.written();
            let left: usize = delivered.len() - self.position;
            let n: usize = if max < left {
                max
            } else {
                left
            };
            let part = vstd::slice::slice_subrange(delivered, self.position, self.position + n);
            out.extend_from_slice(part);
            assert(out@ =~= old(out)@ + context@.written.subrange(
                self.position as int,
                self.position + n,
            ));
            self.position = self.position + n;
            Ok(n)
        };
        self.context = Some(context);
        result
    }

    /// Closes the stream and gives up all that it held. Closing a closed
    /// stream does nothing.
    pub fn close(&mut self)
        ensures
            final(self)@ is None,
            final(self).inv(),
    {
        self.context = None;
    }
}

} // verus!
