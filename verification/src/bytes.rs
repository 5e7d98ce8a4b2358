//! Byte sequences and the little-endian numbers stored in them.

use vstd::prelude::*;

verus! {

/// 256 to the power `n`.
pub open spec fn pow256(n: nat) -> nat
    decreases n,
{
    if n == 0 {
        1
    } else {
        256 * pow256((n - 1) as nat)
    }
}

/// The number that `s` spells when read as little-endian digits in base 256.
pub open spec fn le_value(s: Seq<u8>) -> nat
    decreases s.len(),
{
    if s.len() == 0 {
        0
    } else {
        s[0] as nat + 256 * le_value(s.drop_first())
    }
}

/// The two's complement reading of `s`: the little-endian value, taken as
/// negative when the top bit of the last byte is set.
pub open spec fn le_signed(s: Seq<u8>) -> int {
    if s.len() > 0 && 2 * le_value(s) >= pow256(s.len()) {
        le_value(s) - pow256(s.len())
    } else {
        le_value(s) as int
    }
}

/// Whether `width` bytes starting at `offset` lie inside `s`.
pub open spec fn in_bounds(s: Seq<u8>, offset: int, width: int) -> bool {
    0 <= offset && 0 <= width && offset + width <= s.len()
}

/// The bytes of the field of `width` bytes at `offset`.
pub open spec fn field(s: Seq<u8>, offset: int, width: int) -> Seq<u8> {
    s.subrange(offset, offset + width)
}

/// The unsigned little-endian field of `width` bytes at `offset`, if it lies
/// inside `s` and fits 64 bits.
pub open spec fn le_at(s: Seq<u8>, offset: int, width: int) -> Option<u64> {
    if width <= 8 && in_bounds(s, offset, width) {
        Some(le_value(field(s, offset, width)) as u64)
    } else {
        None
    }
}

/// The signed little-endian field of `width` bytes at `offset`, if it lies
/// inside `s` and fits 64 bits.
pub open spec fn le_signed_at(s: Seq<u8>, offset: int, width: int) -> Option<i64> {
    if width <= 8 && in_bounds(s, offset, width) {
        Some(le_signed(field(s, offset, width)) as i64)
    } else {
        None
    }
}

/// The byte at `offset`, if there is one.
pub open spec fn u8_at(s: Seq<u8>, offset: int) -> Option<u8> {
    if 0 <= offset < s.len() {
        Some(s[offset])
    } else {
        None
    }
}

/// The 16-bit little-endian number at `offset`, if it lies inside `s`.
pub open spec fn u16_at(s: Seq<u8>, offset: int) -> Option<u16> {
    if in_bounds(s, offset, 2) {
        Some((s[offset] as nat + 256 * (s[offset + 1] as nat)) as u16)
    } else {
        None
    }
}

/// The 32-bit little-endian number at `offset`, if it lies inside `s`.
pub open spec fn u32_at(s: Seq<u8>, offset: int) -> Option<u32> {
    if in_bounds(s, offset, 4) {
        Some(le_value(field(s, offset, 4)) as u32)
    } else {
        None
    }
}

/// The 64-bit little-endian number at `offset`, if it lies inside `s`.
pub open spec fn u64_at(s: Seq<u8>, offset: int) -> Option<u64> {
    le_at(s, offset, 8)
}

/// The `count` 16-bit little-endian numbers that begin at `offset`.
pub open spec fn u16s_at(s: Seq<u8>, offset: int, count: int) -> Option<Seq<u16>> {
    if in_bounds(s, offset, 2 * count) {
        Some(Seq::new(count as nat, |i: int| u16_at(s, offset + 2 * i).unwrap()))
    } else {
        None
    }
}

/// A sequence of `n` zero bytes.
pub open spec fn zeros(n: nat) -> Seq<u8> {
    Seq::new(n, |i: int| 0u8)
}

pub proof fn lemma_pow256_values()
    ensures
        pow256(0) == 1,
        pow256(1) == 0x100,
        pow256(2) == 0x1_0000,
        pow256(3) == 0x100_0000,
        pow256(4) == 0x1_0000_0000,
        pow256(5) == 0x100_0000_0000,
        pow256(6) == 0x1_0000_0000_0000,
        pow256(7) == 0x100_0000_0000_0000,
        pow256(8) == 0x1_0000_0000_0000_0000,
{
    reveal_with_fuel(pow256, 9);
}

/// A little-endian value is below 256 to the power of its length.
pub proof fn lemma_le_value_bound(s: Seq<u8>)
    ensures
        le_value(s) < pow256(s.len()),
    decreases s.len(),
{
    if s.len() > 0 {
        lemma_le_value_bound(s.drop_first());
    }
}

/// Reading one byte more in front: the field that starts one byte earlier
/// is that byte plus 256 times the rest.
pub proof fn lemma_le_value_prepend(s: Seq<u8>, offset: int, width: int)
    requires
        0 <= offset,
        0 < width,
        offset + width <= s.len(),
    ensures
        le_value(field(s, offset, width)) == s[offset] as nat + 256 * le_value(
            field(s, offset + 1, width - 1),
        ),
{
    assert(field(s, offset, width).drop_first() =~= field(s, offset + 1, width - 1));
}

/// A growable byte container with bounds-checked access. Every copy of bytes
/// taken from the volume lives in one.
#[derive(Debug, PartialEq, Eq)]
pub struct ByteBuffer {
    data: Vec<u8>,
}

impl Clone for ByteBuffer {
    fn clone(&self) -> (copy: ByteBuffer)
        ensures
            copy@ == self@,
    {
        ByteBuffer { data: vstd::slice::slice_to_vec(self.data.as_slice()) }
    }
}

impl View for ByteBuffer {
    type V = Seq<u8>;

    closed spec fn view(&self) -> Seq<u8> {
        self.data@
    }
}

impl ByteBuffer {
    /// An empty buffer.
    pub fn new() -> (b: ByteBuffer)
        ensures
            b@ == Seq::<u8>::empty(),
    {
        ByteBuffer { data: Vec::new() }
    }

    /// A buffer that holds the bytes of `data`.
    pub fn from_vec(data: Vec<u8>) -> (b: ByteBuffer)
        ensures
            b@ == data@,
    {
        ByteBuffer { data }
    }

    /// A buffer that holds a copy of `data`.
    pub fn from_slice(data: &[u8]) -> (b: ByteBuffer)
        ensures
            b@ == data@,
    {
        ByteBuffer { data: vstd::slice::slice_to_vec(data) }
    }

    /// The bytes, as a vector.
    pub fn into_vec(self) -> (v: Vec<u8>)
        ensures
            v@ == self@,
    {
        self.data
    }

    /// The bytes, borrowed.
    pub fn as_slice(&self) -> (s: &[u8])
        ensures
            s@ == self@,
    {
        self.data.as_slice()
    }

    /// The number of bytes held.
    pub fn len(&self) -> (n: usize)
        ensures
            n == self@.len(),
    {
        self.data.len()
    }

    /// Whether the buffer holds no byte.
    pub fn is_empty(&self) -> (b: bool)
        ensures
            b == (self@.len() == 0),
    {
        self.data.len() == 0
    }

    /// The byte at `offset`, or `None` past the end.
    pub fn get(&self, offset: usize) -> (r: Option<u8>)
        ensures
            r == u8_at(self@, offset as int),
    {
        if offset < self.data.len() {
            Some(self.data[offset])
        } else {
            None
        }
    }

    /// Puts `byte` at `offset`. Past the end nothing changes and the answer
    /// is `false`.
    pub fn set(&mut self, offset: usize, byte: u8) -> (done: bool)
        ensures
            done == (offset < old(self)@.len()),
            final(self)@ == if done {
                old(self)@.update(offset as int, byte)
            } else {
                old(self)@
            },
    {
        if offset < self.data.len() {
            self.data.set(offset, byte);
            true
        } else {
            false
        }
    }

    /// Appends one byte.
    pub fn push(&mut self, byte: u8)
        ensures
            final(self)@ == old(self)@.push(byte),
    {
        self.data.push(byte);
    }

    /// Appends the bytes of `more`.
    pub fn append(&mut self, more: &[u8])
        ensures
            final(self)@ == old(self)@ + more@,
    {
        self.data.extend_from_slice(more);
        assert(self.data@ =~= old(self).data@ + more@);
    }

    /// Appends `count` zero bytes.
    pub fn append_zeros(&mut self, count: usize)
        ensures
            final(self)@ == old(self)@ + zeros(count as nat),
    {
        let held: usize = self.data.len();
        if count <= usize::MAX - held {
            self.data.resize(held + count, 0u8);
            assert(self.data@ =~= old(self).data@ + zeros(count as nat));
            return ;
        }
        let mut done: usize = 0;
        while done < count
            invariant
                done <= count,
                self.data@ == old(self).data@ + zeros(done as nat),
            decreases count - done,
        {
            self.data.push(0u8);
            done = done + 1;
            assert(self.data@ =~= old(self).data@ + zeros(done as nat));
        }
    }

    /// Cuts the buffer down to its first `len` bytes; a buffer that is
    /// shorter stays as it is.
    pub fn truncate(&mut self, len: usize)
        ensures
            final(self)@ == if len <= old(self)@.len() {
                old(self)@.subrange(0, len as int)
            } else {
                old(self)@
            },
    {
        self.data.truncate(len);
    }

    /// A copy of the `width` bytes at `offset`, or `None` where they do not
    /// all lie inside the buffer.
    pub fn slice(&self, offset: usize, width: usize) -> (r: Option<ByteBuffer>)
        ensures
            match r {
                Some(b) => in_bounds(self@, offset as int, width as int) && b@ == field(
                    self@,
                    offset as int,
                    width as int,
                ),
                None => !in_bounds(self@, offset as int, width as int),
            },
    {
        let n: usize = self.data.len();
        if offset > n || width > n - offset {
            return None;
        }
        let part = vstd::slice::slice_subrange(self.data.as_slice(), offset, offset + width);
        Some(ByteBuffer { data: vstd::slice::slice_to_vec(part) })
    }

    /// The unsigned little-endian number of `width` bytes at `offset`.
    /// `None` where the field does not lie inside the buffer or is wider than
    /// eight bytes.
    pub fn read_le(&self, offset: usize, width: usize) -> (r: Option<u64>)
        ensures
            r == le_at(self@, offset as int, width as int),
    {
        let n: usize = self.data.len();
        if width > 8 || offset > n || width > n - offset {
            return None;
        }
        let mut value: u64 = 0;
        let mut left: usize = width;
        proof {
            lemma_pow256_values();
            assert(field(self@, offset + width, 0) =~= Seq::<u8>::empty());
        }
        while left > 0
            invariant
                left <= width <= 8,
                offset + width <= n,
                n == self.data@.len(),
                value == le_value(field(self@, offset + left, width - left)),
            decreases left,
        {
            left = left - 1;
            let byte: u8 = self.data[offset + left];
            proof {
                lemma_le_value_prepend(self@, offset + left, width - left);
                lemma_le_value_bound(field(self@, offset + left + 1, width - left - 1));
                lemma_le_value_bound(field(self@, offset + left, width - left));
                lemma_pow256_monotone((width - left - 1) as nat, 7);
                lemma_pow256_monotone((width - left) as nat, 8);
                lemma_pow256_values();
            }
            value = value * 256 + byte as u64;
        }
        Some(value)
    }

    /// The signed little-endian number of `width` bytes at `offset`.
    /// `None` where the field does not lie inside the buffer or is wider than
    /// eight bytes.
    pub fn read_le_signed(&self, offset: usize, width: usize) -> (r: Option<i64>)
        ensures
            r == le_signed_at(self@, offset as int, width as int),
    {
        match self.read_le(offset, width) {
            None => None,
            Some(raw) => {
                proof {
                    lemma_pow256_values();
                    lemma_le_value_bound(field(self@, offset as int, width as int));
                    lemma_pow256_monotone(width as nat, 8);
                }
                if width == 0 {
                    Some(0i64)
                } else if width == 8 {
                    if raw >= 0x8000_0000_0000_0000u64 {
                        let low: u64 = raw - 0x8000_0000_0000_0000u64;
                        Some(low as i64 + i64::MIN)
                    } else {
                        Some(raw as i64)
                    }
                } else {
                    let modulus: u64 = modulus_of(width);
                    if raw >= modulus / 2 {
                        Some(raw as i64 - modulus as i64)
                    } else {
                        Some(raw as i64)
                    }
                }
            },
        }
    }

    /// The 16-bit little-endian number at `offset`.
    pub fn read_u16(&self, offset: usize) -> (r: Option<u16>)
        ensures
            r == u16_at(self@, offset as int),
    {
        match self.read_le(offset, 2) {
            None => None,
            Some(raw) => {
                proof {
                    lemma_pow256_values();
                    lemma_le_value_bound(field(self@, offset as int, 2));
                    lemma_le_value_prepend(self@, offset as int, 2);
                    lemma_le_value_prepend(self@, offset + 1, 1);
                    assert(field(self@, offset + 2, 0) =~= Seq::<u8>::empty());
                }
                Some(raw as u16)
            },
        }
    }

    /// The `count` 16-bit little-endian numbers that begin at `offset`:
    /// a text in UTF-16.
    pub fn read_u16s(&self, offset: usize, count: usize) -> (r: Option<Vec<u16>>)
        ensures
            match r {
                Some(v) => u16s_at(self@, offset as int, count as int) == Some(v@),
                None => u16s_at(self@, offset as int, count as int) is None,
            },
    {
        let n: usize = self.data.len();
        if offset > n || count > (n - offset) / 2 {
            return None;
        }
        let mut units: Vec<u16> = Vec::new();
        let mut i: usize = 0;
        while i < count
            invariant
                i <= count,
                offset + 2 * count <= n,
                n == self@.len(),
                units@ == Seq::new(i as nat, |j: int| u16_at(self@, offset + 2 * j).unwrap()),
            decreases count - i,
        {
            let unit: u16 = match self.read_u16(offset + 2 * i) {
                Some(v) => v,
                None => { return None; },
            };
            units.push(unit);
            i = i + 1;
            assert(units@ =~= Seq::new(i as nat, |j: int| u16_at(self@, offset + 2 * j).unwrap()));
        }
        Some(units)
    }

    /// The 32-bit little-endian number at `offset`.
    pub fn read_u32(&self, offset: usize) -> (r: Option<u32>)
        ensures
            r == u32_at(self@, offset as int),
    {
        match self.read_le(offset, 4) {
            None => None,
            Some(raw) => {
                proof {
                    lemma_pow256_values();
                    lemma_le_value_bound(field(self@, offset as int, 4));
                }
                Some(raw as u32)
            },
        }
    }

    /// The 64-bit little-endian number at `offset`.
    pub fn read_u64(&self, offset: usize) -> (r: Option<u64>)
        ensures
            r == u64_at(self@, offset as int),
    {
        self.read_le(offset, 8)
    }
}

/// Powers of 256 grow with the exponent.
pub proof fn lemma_pow256_monotone(a: nat, b: nat)
    requires
        a <= b,
    ensures
        pow256(a) <= pow256(b),
        pow256(a) >= 1,
    decreases b,
{
    if a < b {
        lemma_pow256_monotone(a, (b - 1) as nat);
    } else if a > 0 {
        lemma_pow256_monotone((a - 1) as nat, (a - 1) as nat);
    }
}

/// 256 to the power `width`, for a width of one to seven bytes.
fn modulus_of(width: usize) -> (m: u64)
    requires
        1 <= width <= 7,
    ensures
        m == pow256(width as nat),
{
    proof {
        lemma_pow256_values();
    }
    if width == 1 {
        0x100
    } else if width == 2 {
        0x1_0000
    } else if width == 3 {
        0x100_0000
    } else if width == 4 {
        0x1_0000_0000
    } else if width == 5 {
        0x100_0000_0000
    } else if width == 6 {
        0x1_0000_0000_0000
    } else {
        0x100_0000_0000_0000
    }
}

} // verus!
