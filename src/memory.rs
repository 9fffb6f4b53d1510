use crate::marshal::{decode_text, decode_words, words_of, BoundaryError};
use vstd::prelude::*;
use vstd::slice::slice_subrange;
use vstd::string::StringSliceAdditionalSpecFns;
use vstd::utf8::valid_utf8;

verus! {

/// The span of `len` bytes at `addr` lies inside a memory of `size` bytes.
pub open spec fn in_bounds(size: nat, addr: int, len: int) -> bool {
    0 <= addr && 0 <= len && addr + len <= size
}

/// The bytes of the span of `len` bytes at `addr`.
pub open spec fn region(mem: Seq<u8>, addr: int, len: int) -> Seq<u8> {
    mem.subrange(addr, addr + len)
}

/// `mem` with `data` placed at `addr`, every other byte kept.
pub open spec fn placed(mem: Seq<u8>, addr: int, data: Seq<u8>) -> Seq<u8> {
    mem.subrange(0, addr) + data + mem.subrange(addr + data.len(), mem.len() as int)
}

/// The guest's flat, byte-addressed memory, as both sides of the boundary
/// see it.
pub struct LinearMemory {
    bytes: Vec<u8>,
}

impl View for LinearMemory {
    type V = Seq<u8>;

    closed spec fn view(&self) -> Seq<u8> {
        self.bytes@
    }
}

impl LinearMemory {
    /// A memory of `size` bytes, all zero.
    pub fn new(size: usize) -> (m: Self)
        ensures
            m@ == Seq::new(size as nat, |i: int| 0u8),
    {
        let mut bytes: Vec<u8> = Vec::with_capacity(size);
        let mut i: usize = 0;
        while i < size
            invariant
                i <= size,
                bytes@ == Seq::new(i as nat, |j: int| 0u8),
            decreases size - i,
        {
            bytes.push(0u8);
            i = i + 1;
            assert(bytes@ =~= Seq::new(i as nat, |j: int| 0u8));
        }
        LinearMemory { bytes }
    }

    /// The number of bytes in memory.
    pub fn size(&self) -> (r: usize)
        ensures
            r == self@.len(),
    {
        self.bytes.len()
    }

    /// The span `[addr, addr + len)` as a slice of memory, or `None` where
    /// it does not lie inside memory.
    fn span(&self, addr: u64, len: u64) -> (r: Option<&[u8]>)
        ensures
            r is Some <==> in_bounds(self@.len(), addr as int, len as int),
            r matches Some(b) ==> b@ == region(self@, addr as int, len as int),
    {
        let size = self.bytes.len() as u64;
        if len > size || addr > size - len {
            return None;
        }
        let start = addr as usize;
        let end = (addr + len) as usize;
        Some(slice_subrange(self.bytes.as_slice(), start, end))
    }

    /// Borrows the `len` bytes at `addr`.
    pub fn read(&self, addr: u64, len: u64) -> (r: Result<&[u8], BoundaryError>)
        ensures
            r is Ok <==> in_bounds(self@.len(), addr as int, len as int),
            r matches Ok(b) ==> b@ == region(self@, addr as int, len as int),
            r matches Err(e) ==> e == BoundaryError::OutOfBounds,
    {
        match self.span(addr, len) {
            Some(b) => Ok(b),
            None => Err(BoundaryError::OutOfBounds),
        }
    }

    /// Borrows the `len` bytes at `addr` as text; they must be well-formed
    /// UTF-8.
    pub fn read_text(&self, addr: u64, len: u64) -> (r: Result<&str, BoundaryError>)
        ensures
            !in_bounds(self@.len(), addr as int, len as int) ==> r == Err::<&str, _>(
                BoundaryError::OutOfBounds,
            ),
            in_bounds(self@.len(), addr as int, len as int) ==> {
                &&& r is Ok <==> valid_utf8(region(self@, addr as int, len as int))
                &&& r matches Ok(s) ==> s.spec_bytes() == region(self@, addr as int, len as int)
                &&& r matches Err(e) ==> e == BoundaryError::MalformedInput
            },
    {
        match self.span(addr, len) {
            Some(b) => decode_text(b),
            None => Err(BoundaryError::OutOfBounds),
        }
    }

    /// Reads `count` little-endian 64-bit words starting at `addr`.
    pub fn read_words(&self, addr: u64, count: u64) -> (r: Result<Vec<u64>, BoundaryError>)
        ensures
            r is Ok <==> in_bounds(self@.len(), addr as int, 8 * count),
            r matches Ok(w) ==> w@ == words_of(region(self@, addr as int, 8 * count)),
            r matches Err(e) ==> e == BoundaryError::OutOfBounds,
    {
        if count > u64::MAX / 8 {
            assert(self@.len() == self.bytes.len());
            return Err(BoundaryError::OutOfBounds);
        }
        match self.span(addr, 8 * count) {
            Some(b) => {
                let r = decode_words(b);
                assert(r is Ok);
                r
            },
            None => Err(BoundaryError::OutOfBounds),
        }
    }

    /// Places `data` at `addr`; memory is left as it was where the span
    /// does not fit.
    pub fn write(&mut self, addr: u64, data: &[u8]) -> (r: Result<(), BoundaryError>)
        ensures
            r is Ok <==> in_bounds(old(self)@.len(), addr as int, data@.len() as int),
            r is Ok ==> final(self)@ == placed(old(self)@, addr as int, data@),
            r is Err ==> final(self)@ == old(self)@,
            r matches Err(e) ==> e == BoundaryError::OutOfBounds,
    {
        let size = self.bytes.len() as u64;
        let len = data.len() as u64;
        if len > size || addr > size - len {
            return Err(BoundaryError::OutOfBounds);
        }
        let start = addr as usize;
        let n = data.len();
        let ghost before = self.bytes@;
        let total = self.bytes.len();
        let mut i: usize = 0;
        while i < n
            invariant
                n == data@.len(),
                start + n <= self.bytes@.len(),
                start as int == addr as int,
                before.len() == self.bytes@.len(),
                total == self.bytes@.len(),
                i <= n,
                self.bytes@ == placed(before, addr as int, data@.subrange(0, i as int))
                    .subrange(0, start + i) + before.subrange(start + i, before.len() as int),
            decreases n - i,
        {
            self.bytes.set(start + i, data[i]);
            i = i + 1;
            assert(self.bytes@ =~= placed(before, addr as int, data@.subrange(0, i as int))
                .subrange(0, start + i) + before.subrange(start + i, before.len() as int));
        }
        assert(self.bytes@ =~= placed(before, addr as int, data@));
        Ok(())
    }
}

/// Bytes placed at an address are exactly the bytes read back from that
/// address and length; placing them changes no byte outside the span and
/// keeps the size of memory.
pub proof fn lemma_round_trip(mem: Seq<u8>, addr: int, s: Seq<u8>)
    requires
        in_bounds(mem.len(), addr, s.len() as int),
    ensures
        placed(mem, addr, s).len() == mem.len(),
        region(placed(mem, addr, s), addr, s.len() as int) == s,
        forall|i: int|
            0 <= i < mem.len() && !(addr <= i < addr + s.len()) ==> #[trigger] placed(
                mem,
                addr,
                s,
            )[i] == mem[i],
{
    assert(region(placed(mem, addr, s), addr, s.len() as int) =~= s);
}

/// Text placed at an address reads back as that same text: well-formed
/// UTF-8 bytes at (address, length) decode, and the decoded text encodes to
/// exactly those bytes.
pub proof fn lemma_text_round_trip(mem: Seq<u8>, addr: int, s: Seq<u8>)
    requires
        in_bounds(mem.len(), addr, s.len() as int),
        valid_utf8(s),
    ensures
        in_bounds(placed(mem, addr, s).len(), addr, s.len() as int),
        valid_utf8(region(placed(mem, addr, s), addr, s.len() as int)),
        region(placed(mem, addr, s), addr, s.len() as int) == s,
{
    lemma_round_trip(mem, addr, s);
}

} // verus!
