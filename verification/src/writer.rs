//! The sink that takes what is extracted.

use vstd::prelude::*;

verus! {

/// What a writer has taken so far: all the bytes in order, and the length
/// of each chunk in which they came.
pub ghost struct WriterView {
    pub data: Seq<u8>,
    pub chunks: Seq<usize>,
}

/// A sink that keeps what it is given, chunk after chunk. Zeroes that
/// stand for a hole are chunks like any other.
#[derive(Debug)]
pub struct DataWriter {
    data: Vec<u8>,
    chunks: Vec<usize>,
}

impl View for DataWriter {
    type V = WriterView;

    closed spec fn view(&self) -> WriterView {
        WriterView { data: self.data@, chunks: self.chunks@ }
    }
}

impl DataWriter {
    /// A writer that has taken nothing.
    pub fn new() -> (w: DataWriter)
        ensures
            w@.data == Seq::<u8>::empty(),
            w@.chunks == Seq::<usize>::empty(),
    {
        DataWriter { data: Vec::new(), chunks: Vec::new() }
    }

    /// Takes one chunk.
    pub fn write(&mut self, bytes: &[u8])
        ensures
            final(self)@.data == old(self)@.data + bytes@,
            final(self)@.chunks == old(self)@.chunks.push(bytes@.len() as usize),
    {
        self.data.extend_from_slice(bytes);
        self.chunks.push(bytes.len());
        assert(self.data@ =~= old(self).data@ + bytes@);
    }

    /// The number of bytes taken.
    pub fn len(&self) -> (n: usize)
        ensures
            n == self@.data.len(),
    {
        self.data.len()
    }

    /// The number of chunks taken.
    pub fn chunk_count(&self) -> (n: usize)
        ensures
            n == self@.chunks.len(),
    {
        self.chunks.len()
    }

    /// The lengths of the chunks taken, in order.
    pub fn chunk_lengths(&self) -> (c: &[usize])
        ensures
            c@ == self@.chunks,
    {
        self.chunks.as_slice()
    }

    /// The bytes taken, in order.
    pub fn as_slice(&self) -> (s: &[u8])
        ensures
            s@ == self@.data,
    {
        self.data.as_slice()
    }

    /// Gives up the bytes taken.
    pub fn into_vec(self) -> (v: Vec<u8>)
        ensures
            v@ == self@.data,
    {
        self.data
    }
}

} // verus!
