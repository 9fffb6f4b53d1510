use crate::heap::{malloc_blocks, malloc_result, malloc_top, free_blocks, free_result, AllocError, Heap, EMPTY_BLOCK};
use crate::marshal::{words_of, BoundaryError};
use crate::memory::{in_bounds, placed, region, LinearMemory};
use vstd::prelude::*;
use vstd::string::{StringExecFns, StringSliceAdditionalSpecFns};
use vstd::utf8::{encode_utf8, valid_utf8};

verus! {

/// Which fixed preprocessing the verifier checks a proof against.
#[derive(Debug, Clone, Copy, PartialEq, Eq, Structural)]
pub enum TraceVariant {
    /// The canonical preprocessed trace.
    Canonical,
    /// The canonical preprocessed trace without the Pedersen builtin.
    CanonicalWithoutPedersen,
}

/// The preprocessing selected by the host's flag: any non-zero value asks
/// for the Pedersen builtin.
pub fn trace_variant(with_pedersen: u64) -> (r: TraceVariant)
    ensures
        with_pedersen != 0 ==> r == TraceVariant::Canonical,
        with_pedersen == 0 ==> r == TraceVariant::CanonicalWithoutPedersen,
{
    if with_pedersen != 0 {
        TraceVariant::Canonical
    } else {
        TraceVariant::CanonicalWithoutPedersen
    }
}

/// Parameters of the FRI low-degree test.
#[derive(Debug, Clone, Copy, PartialEq, Eq, Structural)]
pub struct FriParams {
    pub log_last_layer_degree_bound: u32,
    pub log_blowup_factor: u32,
    pub n_queries: usize,
}

/// Parameters of the polynomial commitment scheme.
#[derive(Debug, Clone, Copy, PartialEq, Eq, Structural)]
pub struct PcsParams {
    pub pow_bits: u32,
    pub fri: FriParams,
}

/// The one security level every proof of this module is made and checked
/// at: 26 bits of proof of work, blowup factor 2, 70 queries.
pub fn secure_pcs_config() -> (r: PcsParams)
    ensures
        r.pow_bits == 26,
        r.fri.log_last_layer_degree_bound == 0,
        r.fri.log_blowup_factor == 1,
        r.fri.n_queries == 70,
{
    PcsParams {
        pow_bits: 26,
        fri: FriParams { log_last_layer_degree_bound: 0, log_blowup_factor: 1, n_queries: 70 },
    }
}

/// The text of the reply to a verification: `{"ok":true}` or
/// `{"ok":false}`.
pub open spec fn reply_text(ok: bool) -> Seq<char> {
    "{\"ok\":"@ + (if ok {
        "true"@
    } else {
        "false"@
    }) + "}"@
}

/// The reply to a verification, as text.
pub fn verify_reply(ok: bool) -> (r: String)
    ensures
        r@ == reply_text(ok),
{
    let mut s = String::from_str("{\"ok\":");
    if ok {
        s.append("true");
    } else {
        s.append("false");
    }
    s.append("}");
    s
}

/// A result handed to the host: the call token it answers and the buffer
/// that holds it.
#[derive(Debug, Clone, Copy, PartialEq, Eq, Structural)]
pub struct Delivery {
    pub call_id: u64,
    pub addr: u64,
    pub len: u64,
}

/// One guest instance: its linear memory and the heap that hands out
/// buffers in it.
pub struct Guest {
    memory: LinearMemory,
    heap: Heap,
}

impl Guest {
    /// The bytes of linear memory.
    pub closed spec fn memory(&self) -> Seq<u8> {
        self.memory@
    }

    /// The allocator's state.
    pub closed spec fn heap(&self) -> Heap {
        self.heap
    }

    /// The heap is well formed and lies inside memory.
    pub open spec fn wf(&self) -> bool {
        &&& self.heap().wf()
        &&& self.heap().limit() <= self.memory().len()
    }

    /// An instance with `size` bytes of zeroed memory whose heap starts at
    /// `base`.
    pub fn new(size: usize, base: u64) -> (g: Guest)
        requires
            EMPTY_BLOCK < base,
            base % 8 == 0,
            base <= size,
        ensures
            g.wf(),
            g.memory() == Seq::new(size as nat, |i: int| 0u8),
            g.heap().blocks() == Seq::<crate::heap::Block>::empty(),
            g.heap().base() == base,
            g.heap().top() == base,
            g.heap().limit() == size,
    {
        Guest { memory: LinearMemory::new(size), heap: Heap::new(base, size as u64) }
    }

    /// Allocates `size` bytes for the host; memory is unchanged.
    pub fn malloc(&mut self, size: u64) -> (r: Result<u64, AllocError>)
        requires
            old(self).wf(),
        ensures
            final(self).wf(),
            final(self).memory() == old(self).memory(),
            r == malloc_result(
                old(self).heap().blocks(),
                old(self).heap().top(),
                old(self).heap().limit(),
                size,
            ),
            final(self).heap().blocks() == malloc_blocks(
                old(self).heap().blocks(),
                old(self).heap().top(),
                old(self).heap().limit(),
                size,
            ),
            final(self).heap().top() == malloc_top(
                old(self).heap().blocks(),
                old(self).heap().top(),
                old(self).heap().limit(),
                size,
            ),
            final(self).heap().base() == old(self).heap().base(),
            final(self).heap().limit() == old(self).heap().limit(),
            size > 0 ==> (r matches Ok(a) ==> in_bounds(
                old(self).memory().len(),
                a as int,
                size as int,
            )),
    {
        self.heap.malloc(size)
    }

    /// Releases the block at (`addr`, `size`); memory is unchanged.
    pub fn free(&mut self, addr: u64, size: u64) -> (r: Result<(), AllocError>)
        requires
            old(self).wf(),
        ensures
            final(self).wf(),
            final(self).memory() == old(self).memory(),
            r == free_result(old(self).heap().blocks(), addr, size),
            final(self).heap().blocks() == free_blocks(old(self).heap().blocks(), addr, size),
            final(self).heap().top() == old(self).heap().top(),
            final(self).heap().base() == old(self).heap().base(),
            final(self).heap().limit() == old(self).heap().limit(),
    {
        self.heap.free(addr, size)
    }

    /// Places `data` at `addr`, as the host does with an input.
    pub fn write(&mut self, addr: u64, data: &[u8]) -> (r: Result<(), BoundaryError>)
        requires
            old(self).wf(),
        ensures
            final(self).wf(),
            final(self).heap() == old(self).heap(),
            r is Ok <==> in_bounds(old(self).memory().len(), addr as int, data@.len() as int),
            r is Ok ==> final(self).memory() == placed(old(self).memory(), addr as int, data@),
            r is Err ==> final(self).memory() == old(self).memory(),
            r matches Err(e) ==> e == BoundaryError::OutOfBounds,
    {
        self.memory.write(addr, data)
    }

    /// Borrows the `len` bytes at `addr`.
    pub fn read(&self, addr: u64, len: u64) -> (r: Result<&[u8], BoundaryError>)
        ensures
            r is Ok <==> in_bounds(self.memory().len(), addr as int, len as int),
            r matches Ok(b) ==> b@ == region(self.memory(), addr as int, len as int),
            r matches Err(e) ==> e == BoundaryError::OutOfBounds,
    {
        self.memory.read(addr, len)
    }

    /// Borrows the `len` bytes at `addr` as text.
    pub fn read_text(&self, addr: u64, len: u64) -> (r: Result<&str, BoundaryError>)
        ensures
            !in_bounds(self.memory().len(), addr as int, len as int) ==> r == Err::<&str, _>(
                BoundaryError::OutOfBounds,
            ),
            in_bounds(self.memory().len(), addr as int, len as int) ==> {
                &&& r is Ok <==> valid_utf8(region(self.memory(), addr as int, len as int))
                &&& r matches Ok(s) ==> s.spec_bytes() == region(
                    self.memory(),
                    addr as int,
                    len as int,
                )
                &&& r matches Err(e) ==> e == BoundaryError::MalformedInput
            },
    {
        self.memory.read_text(addr, len)
    }

    /// Reads `count` little-endian 64-bit words at `addr`.
    pub fn read_words(&self, addr: u64, count: u64) -> (r: Result<Vec<u64>, BoundaryError>)
        ensures
            r is Ok <==> in_bounds(self.memory().len(), addr as int, 8 * count),
            r matches Ok(w) ==> w@ == words_of(region(self.memory(), addr as int, 8 * count)),
            r matches Err(e) ==> e == BoundaryError::OutOfBounds,
    {
        self.memory.read_words(addr, count)
    }

    /// Reads the inputs of an execution: the program text of `exe_len`
    /// bytes at `exe_addr`, then `args_count` argument words at `args_addr`.
    pub fn execute_input(
        &self,
        exe_addr: u64,
        exe_len: u64,
        args_addr: u64,
        args_count: u64,
    ) -> (r: Result<(&str, Vec<u64>), BoundaryError>)
        ensures
            r is Ok <==> {
                &&& in_bounds(self.memory().len(), exe_addr as int, exe_len as int)
                &&& valid_utf8(region(self.memory(), exe_addr as int, exe_len as int))
                &&& in_bounds(self.memory().len(), args_addr as int, 8 * args_count)
            },
            r matches Ok((s, w)) ==> {
                &&& s.spec_bytes() == region(self.memory(), exe_addr as int, exe_len as int)
                &&& w@ == words_of(region(self.memory(), args_addr as int, 8 * args_count))
            },
            r matches Err(e) ==> e == (if in_bounds(
                self.memory().len(),
                exe_addr as int,
                exe_len as int,
            ) && valid_utf8(region(self.memory(), exe_addr as int, exe_len as int)) {
                BoundaryError::OutOfBounds
            } else if in_bounds(self.memory().len(), exe_addr as int, exe_len as int) {
                BoundaryError::MalformedInput
            } else {
                BoundaryError::OutOfBounds
            }),
    {
        let program = match self.memory.read_text(exe_addr, exe_len) {
            Ok(s) => s,
            Err(e) => return Err(e),
        };
        let args = match self.memory.read_words(args_addr, args_count) {
            Ok(w) => w,
            Err(e) => return Err(e),
        };
        Ok((program, args))
    }

    /// Places `payload` in a freshly allocated buffer and names it, with
    /// `call_id`, for the host.  The host reads the result at the
    /// delivered address and length, and later frees that buffer.
    pub fn deliver(&mut self, call_id: u64, payload: &[u8]) -> (r: Result<Delivery, AllocError>)
        requires
            old(self).wf(),
        ensures
            final(self).wf(),
            r is Ok <==> malloc_result(
                old(self).heap().blocks(),
                old(self).heap().top(),
                old(self).heap().limit(),
                payload@.len() as u64,
            ) is Ok,
            r matches Err(e) ==> malloc_result(
                old(self).heap().blocks(),
                old(self).heap().top(),
                old(self).heap().limit(),
                payload@.len() as u64,
            ) == Err::<u64, _>(e),
            r is Err ==> {
                &&& final(self).memory() == old(self).memory()
                &&& final(self).heap().blocks() == old(self).heap().blocks()
                &&& final(self).heap().top() == old(self).heap().top()
            },
            r matches Ok(d) ==> {
                &&& d.call_id == call_id
                &&& d.len == payload@.len()
                &&& Ok::<_, AllocError>(d.addr) == malloc_result(
                    old(self).heap().blocks(),
                    old(self).heap().top(),
                    old(self).heap().limit(),
                    payload@.len() as u64,
                )
                &&& final(self).heap().blocks() == malloc_blocks(
                    old(self).heap().blocks(),
                    old(self).heap().top(),
                    old(self).heap().limit(),
                    payload@.len() as u64,
                )
                &&& final(self).heap().top() == malloc_top(
                    old(self).heap().blocks(),
                    old(self).heap().top(),
                    old(self).heap().limit(),
                    payload@.len() as u64,
                )
                &&& final(self).memory() == placed(old(self).memory(), d.addr as int, payload@)
                &&& in_bounds(final(self).memory().len(), d.addr as int, d.len as int)
                &&& region(final(self).memory(), d.addr as int, d.len as int) == payload@
            },
    {
        let len = payload.len() as u64;
        let addr = match self.heap.malloc(len) {
            Ok(a) => a,
            Err(e) => return Err(e),
        };
        let w = self.memory.write(addr, payload);
        assert(w is Ok);
        proof {
            crate::memory::lemma_round_trip(old(self).memory(), addr as int, payload@);
        }
        Ok(Delivery { call_id, addr, len })
    }

    /// Delivers the reply to a verification.
    pub fn deliver_verdict(&mut self, call_id: u64, ok: bool) -> (r: Result<Delivery, AllocError>)
        requires
            old(self).wf(),
        ensures
            final(self).wf(),
            r is Ok <==> malloc_result(
                old(self).heap().blocks(),
                old(self).heap().top(),
                old(self).heap().limit(),
                encode_utf8(reply_text(ok)).len() as u64,
            ) is Ok,
            r matches Err(e) ==> malloc_result(
                old(self).heap().blocks(),
                old(self).heap().top(),
                old(self).heap().limit(),
                encode_utf8(reply_text(ok)).len() as u64,
            ) == Err::<u64, _>(e),
            r is Err ==> {
                &&& final(self).memory() == old(self).memory()
                &&& final(self).heap().blocks() == old(self).heap().blocks()
                &&& final(self).heap().top() == old(self).heap().top()
            },
            r matches Ok(d) ==> {
                &&& d.call_id == call_id
                &&& d.len == encode_utf8(reply_text(ok)).len()
                &&& Ok::<_, AllocError>(d.addr) == malloc_result(
                    old(self).heap().blocks(),
                    old(self).heap().top(),
                    old(self).heap().limit(),
                    encode_utf8(reply_text(ok)).len() as u64,
                )
                &&& final(self).heap().blocks() == malloc_blocks(
                    old(self).heap().blocks(),
                    old(self).heap().top(),
                    old(self).heap().limit(),
                    encode_utf8(reply_text(ok)).len() as u64,
                )
                &&& final(self).heap().top() == malloc_top(
                    old(self).heap().blocks(),
                    old(self).heap().top(),
                    old(self).heap().limit(),
                    encode_utf8(reply_text(ok)).len() as u64,
                )
                &&& final(self).memory() == placed(
                    old(self).memory(),
                    d.addr as int,
                    encode_utf8(reply_text(ok)),
                )
                &&& in_bounds(final(self).memory().len(), d.addr as int, d.len as int)
                &&& region(final(self).memory(), d.addr as int, d.len as int) == encode_utf8(
                    reply_text(ok),
                )
            },
    {
        let reply = verify_reply(ok);
        let bytes = reply.as_str().as_bytes();
        self.deliver(call_id, bytes)
    }
}

} // verus!
