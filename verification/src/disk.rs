//! Access to the raw device, one sector-aligned read at a time.

use crate::bytes::ByteBuffer;
use crate::error::NtfsError;
use vstd::arithmetic::div_mod::{
    lemma_fundamental_div_mod,
    lemma_mod_add_multiples_vanish,
    lemma_mod_multiples_basic,
    lemma_mod_pos_bound,
};
use vstd::prelude::*;

verus! {

/// What a device is to the proofs: its bytes, the size of its physical
/// sectors, and the number of reads it has served.
pub ghost struct DeviceView {
    pub image: Seq<u8>,
    pub sector_size: nat,
    pub reads: nat,
}

/// The largest multiple of `unit` that is not above `x`.
pub open spec fn round_down(x: nat, unit: nat) -> nat {
    (x - x % unit) as nat
}

/// The smallest multiple of `unit` that is not below `x`.
pub open spec fn round_up(x: nat, unit: nat) -> nat {
    if x % unit == 0 {
        x
    } else {
        (x - x % unit + unit) as nat
    }
}

/// Whether the `length` bytes at `offset` lie inside the device.
pub open spec fn readable(image: Seq<u8>, offset: nat, length: nat) -> bool {
    offset + length <= image.len()
}

/// What a read of `length` bytes at `offset` returns.
pub open spec fn read_result(image: Seq<u8>, offset: nat, length: nat) -> Result<
    Seq<u8>,
    NtfsError,
> {
    if readable(image, offset, length) {
        Ok(image.subrange(offset as int, (offset + length) as int))
    } else {
        Err(NtfsError::IoFault)
    }
}

/// The number of device reads that a read of `length` bytes at `offset`
/// costs: one, unless it is refused or asks for nothing.
pub open spec fn read_cost(image: Seq<u8>, offset: nat, length: nat) -> nat {
    if readable(image, offset, length) && length > 0 {
        1
    } else {
        0
    }
}

pub proof fn lemma_round_down(x: nat, unit: nat)
    requires
        unit > 0,
    ensures
        round_down(x, unit) % unit == 0,
        round_down(x, unit) <= x < round_down(x, unit) + unit,
        round_down(x, unit) == unit * (x / unit),
        x % unit <= x,
        x % unit < unit,
{
    lemma_fundamental_div_mod(x as int, unit as int);
    lemma_mod_pos_bound(x as int, unit as int);
    lemma_mod_multiples_basic((x / unit) as int, unit as int);
    assert((x / unit) * unit == unit * (x / unit)) by (nonlinear_arith);
}

pub proof fn lemma_round_up(x: nat, unit: nat, limit: nat)
    requires
        unit > 0,
        limit % unit == 0,
        x <= limit,
    ensures
        round_up(x, unit) % unit == 0,
        x <= round_up(x, unit) < x + unit,
        round_up(x, unit) <= limit,
{
    lemma_round_down(x, unit);
    lemma_round_down(limit, unit);
    if x % unit != 0 {
        let q = x / unit;
        let k = limit / unit;
        let down = round_down(x, unit) as int;
        lemma_mod_add_multiples_vanish(down, unit as int);
        assert(round_up(x, unit) as int == unit as int + down);
        assert((unit as int + down) % (unit as int) == down % (unit as int));
        assert(q < k) by (nonlinear_arith)
            requires
                unit * q < unit * k,
                unit > 0,
        ;
        assert(unit * q + unit <= unit * k) by (nonlinear_arith)
            requires
                q < k,
                unit > 0,
        ;
    }
}

/// A raw volume, held as the bytes of its image, and the only way to its
/// contents. It never writes.
pub struct DiskAccessor {
    image: Vec<u8>,
    sector_size: u32,
    reads: u64,
    issued: Ghost<nat>,
}

impl View for DiskAccessor {
    type V = DeviceView;

    closed spec fn view(&self) -> DeviceView {
        DeviceView {
            image: self.image@,
            sector_size: self.sector_size as nat,
            reads: self.issued@,
        }
    }
}

impl DiskAccessor {
    /// The counter of reads shows the number of reads served, as far as 64
    /// bits can hold it.
    pub closed spec fn counter_agrees(&self) -> bool {
        self.reads as nat == if self.issued@ <= u64::MAX {
            self.issued@
        } else {
            u64::MAX as nat
        }
    }

    /// A device has sectors of a size above zero and holds a whole number
    /// of them.
    pub open spec fn wf(&self) -> bool {
        &&& self@.sector_size > 0
        &&& self@.image.len() % self@.sector_size == 0
        &&& self.counter_agrees()
    }

    /// Opens the device whose contents are `image` and whose physical
    /// sectors are `sector_size` bytes long. A sector size of zero, or an
    /// image that is no whole number of sectors, is an `IoFault`.
    pub fn new(image: Vec<u8>, sector_size: u32) -> (r: Result<DiskAccessor, NtfsError>)
        ensures
            match r {
                Ok(d) => {
                    &&& d.wf()
                    &&& d@.image == image@
                    &&& d@.sector_size == sector_size
                    &&& d@.reads == 0
                },
                Err(e) => {
                    &&& e == NtfsError::IoFault
                    &&& (sector_size == 0 || image@.len() % (sector_size as nat) != 0)
                },
            },
    {
        if sector_size == 0 || image.len() % (sector_size as usize) != 0 {
            return Err(NtfsError::IoFault);
        }
        Ok(DiskAccessor { image, sector_size, reads: 0, issued: Ghost(0) })
    }

    /// The size that the device reports, in bytes.
    pub fn size(&self) -> (n: u64)
        ensures
            n == self@.image.len(),
    {
        self.image.len() as u64
    }

    /// The size of a physical sector, in bytes.
    pub fn sector_size(&self) -> (n: u32)
        ensures
            n == self@.sector_size,
    {
        self.sector_size
    }

    /// The number of reads that the device has served, as far as 64 bits
    /// can hold it.
    pub fn read_count(&self) -> (n: u64)
        requires
            self.wf(),
        ensures
            n == if self@.reads <= u64::MAX {
                self@.reads
            } else {
                u64::MAX as nat
            },
    {
        self.reads
    }

    /// The device's own read: whole sectors only, from a sector boundary.
    fn read_at(&mut self, offset: u64, length: u64) -> (block: Vec<u8>)
        requires
            old(self).wf(),
            offset % (old(self)@.sector_size as u64) == 0,
            length % (old(self)@.sector_size as u64) == 0,
            offset + length <= old(self)@.image.len(),
        ensures
            final(self).wf(),
            final(self)@.image == old(self)@.image,
            final(self)@.sector_size == old(self)@.sector_size,
            final(self)@.reads == old(self)@.reads + 1,
            block@ == old(self)@.image.subrange(offset as int, offset + length),
    {
        let size: usize = self.image.len();
        if self.reads < u64::MAX {
            self.reads = self.reads + 1;
        }
        proof {
            self.issued@ = self.issued@ + 1;
        }
        let first: usize = offset as usize;
        let last: usize = (offset + length) as usize;
        let part = vstd::slice::slice_subrange(self.image.as_slice(), first, last);
        vstd::slice::slice_to_vec(part)
    }

    /// Reads `length` bytes at byte `offset`. The range is widened to whole
    /// physical sectors, read, and cut back to what was asked for. A range
    /// that does not lie inside the device is an `IoFault`, and no read is
    /// issued for it, nor for an empty range.
    pub fn read_bytes(&mut self, offset: u64, length: u32) -> (r: Result<ByteBuffer, NtfsError>)
        requires
            old(self).wf(),
        ensures
            final(self).wf(),
            final(self)@.image == old(self)@.image,
            final(self)@.sector_size == old(self)@.sector_size,
            final(self)@.reads == old(self)@.reads + read_cost(
                old(self)@.image,
                offset as nat,
                length as nat,
            ),
            match r {
                Ok(b) => read_result(old(self)@.image, offset as nat, length as nat) == Ok::<
                    Seq<u8>,
                    NtfsError,
                >(b@),
                Err(e) => read_result(old(self)@.image, offset as nat, length as nat) == Err::<
                    Seq<u8>,
                    NtfsError,
                >(e),
            },
    {
        let size: u64 = self.image.len() as u64;
        if length as u64 > size || offset > size - length as u64 {
            return Err(NtfsError::IoFault);
        }
        if length == 0 {
            let empty = ByteBuffer::new();
            assert(empty@ =~= self@.image.subrange(offset as int, offset + length));
            return Ok(empty);
        }
        let end: u64 = offset + length as u64;
        let sector: u64 = self.sector_size as u64;
        proof {
            lemma_round_down(offset as nat, sector as nat);
            lemma_round_up(end as nat, sector as nat, size as nat);
            lemma_round_down(end as nat, sector as nat);
        }
        let first: u64 = offset - offset % sector;
        let over: u64 = end % sector;
        let last: u64 = if over == 0 {
            end
        } else {
            end - over + sector
        };
        assert(first == round_down(offset as nat, sector as nat));
        assert(last == round_up(end as nat, sector as nat));
        proof {
            let a = offset as int / sector as int;
            let b = last as int / sector as int;
            lemma_fundamental_div_mod(last as int, sector as int);
            assert(last - first == sector * (b - a)) by (nonlinear_arith)
                requires
                    last == sector * b,
                    first == sector * a,
            ;
            lemma_mod_multiples_basic(b - a, sector as int);
            assert(sector * (b - a) == (b - a) * sector) by (nonlinear_arith);
        }
        let block = self.read_at(first, last - first);
        let skip: usize = (offset - first) as usize;
        let part = vstd::slice::slice_subrange(block.as_slice(), skip, skip + length as usize);
        let out = ByteBuffer::from_slice(part);
        assert(out@ =~= old(self)@.image.subrange(offset as int, offset + length));
        Ok(out)
    }
}

} // verus!
