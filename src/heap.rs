use vstd::arithmetic::power2::is_pow2;
use vstd::layout::valid_layout;
use crate::memory::in_bounds;
use vstd::prelude::*;

verus! {

/// Alignment of every buffer handed across the boundary.
pub const ALIGN: u64 = 8;

/// Address returned for a zero-size request.  It is not null, so the host
/// can free it like any other block, and it must never be dereferenced.
pub const EMPTY_BLOCK: u64 = 8;

/// Why a request to allocate or release guest memory was refused.
#[derive(Debug, Clone, Copy, PartialEq, Eq, Structural)]
pub enum AllocError {
    /// The size does not fit the platform's size type.
    SizeTooLarge,
    /// The address does not fit the platform's pointer type.
    AddressTooLarge,
    /// No aligned block of this size can be described on the platform.
    LayoutInvalid,
    /// The memory has no room left for the block.
    OutOfMemory,
    /// The (address, size) pair names no live block.
    UnknownBlock,
}

/// What the system allocator is asked for, once a request has been checked.
#[derive(Debug, Clone, Copy, PartialEq, Eq, Structural)]
pub enum AllocRequest {
    /// A zero-size request: answer with `EMPTY_BLOCK`, allocate nothing.
    Empty,
    /// Allocate `size` bytes aligned to `ALIGN`.
    Block { size: usize },
}

/// What the system allocator is asked to release, once a request has been
/// checked.
#[derive(Debug, Clone, Copy, PartialEq, Eq, Structural)]
pub enum ReleaseRequest {
    /// A null address or a zero size: nothing to release.
    Skip,
    /// Release the `size` bytes at `addr`, aligned to `ALIGN`.
    Block { addr: usize, size: usize },
}

/// The alignment is a power of two, so a zero-size layout is always valid.
proof fn lemma_align_is_pow2()
    ensures
        is_pow2(ALIGN as int),
        valid_layout(0, ALIGN as usize),
{
    reveal_with_fuel(is_pow2, 4);
    assert(is_pow2(1));
    assert(is_pow2(2));
    assert(is_pow2(4));
    assert(is_pow2(8));
}

/// Whether `size` bytes aligned to `ALIGN` form a valid layout, the rule
/// of `std::alloc::Layout::from_size_align`: the size, rounded up to the
/// alignment, does not exceed `isize::MAX`.
fn layout_fits(size: usize) -> (r: bool)
    ensures
        r == valid_layout(size, ALIGN as usize),
{
    proof {
        lemma_align_is_pow2();
        assert(isize::MAX == 0x7fff_ffff || isize::MAX == 0x7fff_ffff_ffff_ffff);
        assert(isize::MAX as int % 8 == 7);
    }
    size <= (isize::MAX as usize) - 7
}

/// Checks a host request for `size` fresh bytes.
pub fn alloc_request(size: u64) -> (r: Result<AllocRequest, AllocError>)
    ensures
        size > usize::MAX ==> r == Err::<AllocRequest, _>(AllocError::SizeTooLarge),
        size <= usize::MAX && !valid_layout(size as usize, 8) ==> r == Err::<AllocRequest, _>(
            AllocError::LayoutInvalid,
        ),
        size == 0 ==> r == Ok::<_, AllocError>(AllocRequest::Empty),
        0 < size <= usize::MAX && valid_layout(size as usize, 8) ==> r == Ok::<_, AllocError>(
            AllocRequest::Block { size: size as usize },
        ),
{
    if size > usize::MAX as u64 {
        return Err(AllocError::SizeTooLarge);
    }
    let n = size as usize;
    proof {
        lemma_align_is_pow2();
    }
    if !layout_fits(n) {
        return Err(AllocError::LayoutInvalid);
    }
    if n == 0 {
        Ok(AllocRequest::Empty)
    } else {
        Ok(AllocRequest::Block { size: n })
    }
}

/// Checks a host request to release the `size` bytes at `addr`.
pub fn release_request(addr: u64, size: u64) -> (r: Result<ReleaseRequest, AllocError>)
    ensures
        addr == 0 || size == 0 ==> r == Ok::<_, AllocError>(ReleaseRequest::Skip),
        addr != 0 && size != 0 && addr > usize::MAX ==> r == Err::<ReleaseRequest, _>(
            AllocError::AddressTooLarge,
        ),
        addr != 0 && size != 0 && addr <= usize::MAX && size > usize::MAX ==> r == Err::<
            ReleaseRequest,
            _,
        >(AllocError::SizeTooLarge),
        addr != 0 && size != 0 && addr <= usize::MAX && size <= usize::MAX && !valid_layout(
            size as usize,
            8,
        ) ==> r == Err::<ReleaseRequest, _>(AllocError::LayoutInvalid),
        addr != 0 && size != 0 && addr <= usize::MAX && size <= usize::MAX && valid_layout(
            size as usize,
            8,
        ) ==> r == Ok::<_, AllocError>(
            ReleaseRequest::Block { addr: addr as usize, size: size as usize },
        ),
{
    if addr == 0 || size == 0 {
        return Ok(ReleaseRequest::Skip);
    }
    if addr > usize::MAX as u64 {
        return Err(AllocError::AddressTooLarge);
    }
    if size > usize::MAX as u64 {
        return Err(AllocError::SizeTooLarge);
    }
    if !layout_fits(size as usize) {
        return Err(AllocError::LayoutInvalid);
    }
    Ok(ReleaseRequest::Block { addr: addr as usize, size: size as usize })
}

/// One block carved out of a `Heap`: `span` bytes at `addr`, of which the
/// last request asked for `size`.
#[derive(Debug, Clone, Copy)]
pub struct Block {
    pub addr: u64,
    pub span: u64,
    pub size: u64,
    pub in_use: bool,
}

/// The bytes a request of `size` bytes takes: `size` rounded up to `ALIGN`.
pub open spec fn span_of(size: u64) -> int {
    (size as int + 7) / 8 * 8
}

/// A block that is free and exactly as large as `span`.
pub open spec fn reusable(b: Block, span: int) -> bool {
    !b.in_use && b.span == span
}

/// A block in use that was handed out at `addr` for `size` bytes.
pub open spec fn is_live(b: Block, addr: u64, size: u64) -> bool {
    b.in_use && b.addr == addr && b.size == size
}

/// The first index from `from` on whose block is reusable for `span`, or -1.
pub open spec fn free_slot(blocks: Seq<Block>, span: int, from: nat) -> int
    decreases blocks.len() - from,
{
    if from >= blocks.len() {
        -1
    } else if reusable(blocks[from as int], span) {
        from as int
    } else {
        free_slot(blocks, span, from + 1)
    }
}

/// The first index from `from` on whose block is live at (`addr`, `size`),
/// or -1.
pub open spec fn live_slot(blocks: Seq<Block>, addr: u64, size: u64, from: nat) -> int
    decreases blocks.len() - from,
{
    if from >= blocks.len() {
        -1
    } else if is_live(blocks[from as int], addr, size) {
        from as int
    } else {
        live_slot(blocks, addr, size, from + 1)
    }
}

/// A block lies, aligned, between `base` and `top`; a block in use is as
/// large as its request rounded up.
pub open spec fn block_wf(b: Block, base: u64, top: u64) -> bool {
    &&& b.addr % 8 == 0
    &&& 0 < b.span
    &&& b.span % 8 == 0
    &&& base <= b.addr
    &&& b.addr + b.span <= top
    &&& b.size <= b.span
    &&& b.in_use ==> 0 < b.size && b.span == span_of(b.size)
}

/// Blocks lie between `base` and `top`, in address order and without
/// overlap, and `top` does not pass `limit`.
pub open spec fn heap_wf(blocks: Seq<Block>, base: u64, top: u64, limit: u64) -> bool {
    &&& EMPTY_BLOCK < base
    &&& base % 8 == 0
    &&& top % 8 == 0
    &&& base <= top <= limit
    &&& forall|i: int| 0 <= i < blocks.len() ==> block_wf(#[trigger] blocks[i], base, top)
    &&& forall|i: int, j: int|
        0 <= i < j < blocks.len() ==> #[trigger] blocks[i].addr + blocks[i].span
            <= #[trigger] blocks[j].addr
}

/// What `Heap::malloc` returns.
pub open spec fn malloc_result(blocks: Seq<Block>, top: u64, limit: u64, size: u64) -> Result<
    u64,
    AllocError,
> {
    if size == 0 {
        Ok(EMPTY_BLOCK)
    } else if size > u64::MAX - 7 {
        Err(AllocError::SizeTooLarge)
    } else if free_slot(blocks, span_of(size), 0) >= 0 {
        Ok(blocks[free_slot(blocks, span_of(size), 0)].addr)
    } else if top + span_of(size) <= limit {
        Ok(top)
    } else {
        Err(AllocError::OutOfMemory)
    }
}

/// The blocks after `Heap::malloc`: a reused block is marked in use, a new
/// one is appended at `top`.
pub open spec fn malloc_blocks(blocks: Seq<Block>, top: u64, limit: u64, size: u64) -> Seq<Block> {
    if size == 0 || size > u64::MAX - 7 {
        blocks
    } else if free_slot(blocks, span_of(size), 0) >= 0 {
        let i = free_slot(blocks, span_of(size), 0);
        blocks.update(i, Block { addr: blocks[i].addr, span: blocks[i].span, size, in_use: true })
    } else if top + span_of(size) <= limit {
        blocks.push(Block { addr: top, span: span_of(size) as u64, size, in_use: true })
    } else {
        blocks
    }
}

/// The end of the carved part of the heap after `Heap::malloc`.
pub open spec fn malloc_top(blocks: Seq<Block>, top: u64, limit: u64, size: u64) -> u64 {
    if size != 0 && size <= u64::MAX - 7 && free_slot(blocks, span_of(size), 0) < 0 && top
        + span_of(size) <= limit {
        (top + span_of(size)) as u64
    } else {
        top
    }
}

/// What `Heap::free` returns.
pub open spec fn free_result(blocks: Seq<Block>, addr: u64, size: u64) -> Result<(), AllocError> {
    if addr == 0 || size == 0 || live_slot(blocks, addr, size, 0) >= 0 {
        Ok(())
    } else {
        Err(AllocError::UnknownBlock)
    }
}

/// The blocks after `Heap::free`: the live block at (`addr`, `size`) is
/// marked free.
pub open spec fn free_blocks(blocks: Seq<Block>, addr: u64, size: u64) -> Seq<Block> {
    if addr != 0 && size != 0 && live_slot(blocks, addr, size, 0) >= 0 {
        let i = live_slot(blocks, addr, size, 0);
        blocks.update(
            i,
            Block { addr: blocks[i].addr, span: blocks[i].span, size: blocks[i].size, in_use: false },
        )
    } else {
        blocks
    }
}

proof fn lemma_free_slot(blocks: Seq<Block>, span: int, from: nat)
    ensures
        free_slot(blocks, span, from) == -1 || (from <= free_slot(blocks, span, from)
            < blocks.len() && reusable(blocks[free_slot(blocks, span, from)], span)),
        forall|k: int|
            from <= k < blocks.len() && (free_slot(blocks, span, from) == -1 || k < free_slot(
                blocks,
                span,
                from,
            )) ==> !reusable(#[trigger] blocks[k], span),
    decreases blocks.len() - from,
{
    if from < blocks.len() && !reusable(blocks[from as int], span) {
        lemma_free_slot(blocks, span, from + 1);
    }
}

proof fn lemma_live_slot(blocks: Seq<Block>, addr: u64, size: u64, from: nat)
    ensures
        live_slot(blocks, addr, size, from) == -1 || (from <= live_slot(blocks, addr, size, from)
            < blocks.len() && is_live(blocks[live_slot(blocks, addr, size, from)], addr, size)),
        forall|k: int|
            from <= k < blocks.len() && (live_slot(blocks, addr, size, from) == -1 || k
                < live_slot(blocks, addr, size, from)) ==> !is_live(#[trigger] blocks[k], addr, size),
    decreases blocks.len() - from,
{
    if from < blocks.len() && !is_live(blocks[from as int], addr, size) {
        lemma_live_slot(blocks, addr, size, from + 1);
    }
}

proof fn lemma_malloc_wf(blocks: Seq<Block>, base: u64, top: u64, limit: u64, size: u64)
    requires
        heap_wf(blocks, base, top, limit),
    ensures
        heap_wf(
            malloc_blocks(blocks, top, limit, size),
            base,
            malloc_top(blocks, top, limit, size),
            limit,
        ),
{
    let b1 = malloc_blocks(blocks, top, limit, size);
    let t1 = malloc_top(blocks, top, limit, size);
    if size != 0 && size <= u64::MAX - 7 {
        lemma_free_slot(blocks, span_of(size), 0);
        assert forall|k: int| 0 <= k < b1.len() implies block_wf(#[trigger] b1[k], base, t1) by {
            if k < blocks.len() {
                assert(block_wf(blocks[k], base, top));
            }
        }
        assert forall|j: int, k: int| 0 <= j < k < b1.len() implies #[trigger] b1[j].addr
            + b1[j].span <= #[trigger] b1[k].addr by {
            if k < blocks.len() {
                assert(blocks[j].addr + blocks[j].span <= blocks[k].addr);
            } else {
                assert(block_wf(blocks[j], base, top));
            }
        }
    }
}

proof fn lemma_free_wf(blocks: Seq<Block>, base: u64, top: u64, limit: u64, addr: u64, size: u64)
    requires
        heap_wf(blocks, base, top, limit),
    ensures
        heap_wf(free_blocks(blocks, addr, size), base, top, limit),
{
    let b1 = free_blocks(blocks, addr, size);
    lemma_live_slot(blocks, addr, size, 0);
    assert forall|k: int| 0 <= k < b1.len() implies block_wf(#[trigger] b1[k], base, top) by {
        assert(block_wf(blocks[k], base, top));
    }
    assert forall|j: int, k: int| 0 <= j < k < b1.len() implies #[trigger] b1[j].addr + b1[j].span
        <= #[trigger] b1[k].addr by {
        assert(blocks[j].addr + blocks[j].span <= blocks[k].addr);
    }
}

/// One cycle of the same size: the blocks after `Heap::malloc(size)` and
/// then `Heap::free` of the address it returned, with that size.
pub open spec fn cycle_blocks(blocks: Seq<Block>, top: u64, limit: u64, size: u64) -> Seq<Block> {
    free_blocks(
        malloc_blocks(blocks, top, limit, size),
        malloc_result(blocks, top, limit, size)->Ok_0,
        size,
    )
}

/// The state (blocks, top) after `n` such cycles of the same size.
pub open spec fn cycles(blocks: Seq<Block>, top: u64, limit: u64, size: u64, n: nat) -> (
    Seq<Block>,
    u64,
)
    decreases n,
{
    if n == 0 {
        (blocks, top)
    } else {
        let prev = cycles(blocks, top, limit, size, (n - 1) as nat);
        (cycle_blocks(prev.0, prev.1, limit, size), malloc_top(prev.0, prev.1, limit, size))
    }
}

/// From a state with a free block of the rounded size, a cycle succeeds at
/// both steps, reuses that space and leaves another such free block.
proof fn lemma_cycle_in_place(blocks: Seq<Block>, base: u64, top: u64, limit: u64, size: u64)
    requires
        heap_wf(blocks, base, top, limit),
        0 < size <= u64::MAX - 7,
        free_slot(blocks, span_of(size), 0) >= 0,
    ensures
        malloc_result(blocks, top, limit, size) is Ok,
        malloc_top(blocks, top, limit, size) == top,
        free_result(
            malloc_blocks(blocks, top, limit, size),
            malloc_result(blocks, top, limit, size)->Ok_0,
            size,
        ) is Ok,
        heap_wf(cycle_blocks(blocks, top, limit, size), base, top, limit),
        free_slot(cycle_blocks(blocks, top, limit, size), span_of(size), 0) >= 0,
{
    let span = span_of(size);
    let a = malloc_result(blocks, top, limit, size)->Ok_0;
    let b1 = malloc_blocks(blocks, top, limit, size);
    lemma_free_slot(blocks, span, 0);
    lemma_malloc_wf(blocks, base, top, limit, size);
    let j = free_slot(blocks, span, 0);
    assert(is_live(b1[j], a, size));
    lemma_live_slot(b1, a, size, 0);
    let r = live_slot(b1, a, size, 0);
    assert(r == j) by {
        if r < j {
            assert(b1[r].addr + b1[r].span <= b1[j].addr);
            assert(block_wf(b1[r], base, top));
        } else if r > j {
            assert(b1[j].addr + b1[j].span <= b1[r].addr);
            assert(block_wf(b1[j], base, top));
        }
    }
    lemma_free_wf(b1, base, top, limit, a, size);
    let b2 = free_blocks(b1, a, size);
    assert(reusable(b2[j], span));
    lemma_free_slot(b2, span, 0);
}

/// Allocation is usable and leaks nothing.  A block handed out for `size`
/// bytes lies inside the heap; freeing it with the same (address, size)
/// succeeds; and the next request of that size is served from the freed
/// space, so the top of the heap stays where it was.
pub proof fn lemma_free_then_reuse(blocks: Seq<Block>, base: u64, top: u64, limit: u64, size: u64)
    requires
        heap_wf(blocks, base, top, limit),
        0 < size,
        malloc_result(blocks, top, limit, size) is Ok,
    ensures
        ({
            let a = malloc_result(blocks, top, limit, size)->Ok_0;
            let b1 = malloc_blocks(blocks, top, limit, size);
            let t1 = malloc_top(blocks, top, limit, size);
            let b2 = free_blocks(b1, a, size);
            &&& base <= a
            &&& in_bounds(limit as nat, a as int, size as int)
            &&& free_result(b1, a, size) is Ok
            &&& malloc_result(b2, t1, limit, size) is Ok
            &&& malloc_top(b2, t1, limit, size) == t1
            &&& heap_wf(b2, base, t1, limit)
            &&& free_slot(b2, span_of(size), 0) >= 0
        }),
{
    let span = span_of(size);
    let a = malloc_result(blocks, top, limit, size)->Ok_0;
    let b1 = malloc_blocks(blocks, top, limit, size);
    let t1 = malloc_top(blocks, top, limit, size);
    lemma_free_slot(blocks, span, 0);
    lemma_malloc_wf(blocks, base, top, limit, size);
    let j: int = if free_slot(blocks, span, 0) >= 0 {
        free_slot(blocks, span, 0)
    } else {
        blocks.len() as int
    };
    assert(0 <= j < b1.len() && is_live(b1[j], a, size));
    assert(block_wf(b1[j], base, t1));
    lemma_live_slot(b1, a, size, 0);
    let r = live_slot(b1, a, size, 0);
    assert(r == j) by {
        if r < j {
            assert(b1[r].addr + b1[r].span <= b1[j].addr);
            assert(block_wf(b1[r], base, t1));
        } else if r > j {
            assert(b1[j].addr + b1[j].span <= b1[r].addr);
        }
    }
    lemma_free_wf(b1, base, t1, limit, a, size);
    let b2 = free_blocks(b1, a, size);
    assert(reusable(b2[j], span));
    lemma_free_slot(b2, span, 0);
}

/// Repeated cycles of the same size do not leak.  For any number `n >= 1`
/// of cycles `a = malloc(size); free(a, size)`, every allocation and every
/// free succeeds, and the top of the heap after the `n`-th cycle is where
/// it was after the first: the footprint does not depend on `n`.
pub proof fn lemma_cycles_do_not_leak(
    blocks: Seq<Block>,
    base: u64,
    top: u64,
    limit: u64,
    size: u64,
    n: nat,
)
    requires
        heap_wf(blocks, base, top, limit),
        0 < size,
        malloc_result(blocks, top, limit, size) is Ok,
        n >= 1,
    ensures
        ({
            let prev = cycles(blocks, top, limit, size, (n - 1) as nat);
            &&& malloc_result(prev.0, prev.1, limit, size) is Ok
            &&& free_result(
                malloc_blocks(prev.0, prev.1, limit, size),
                malloc_result(prev.0, prev.1, limit, size)->Ok_0,
                size,
            ) is Ok
        }),
        cycles(blocks, top, limit, size, n).1 == cycles(blocks, top, limit, size, 1).1,
{
    lemma_cycles_steady(blocks, base, top, limit, size, n);
    lemma_cycles_steady(blocks, base, top, limit, size, 1);
    if n > 1 {
        let prev = cycles(blocks, top, limit, size, (n - 1) as nat);
        lemma_cycles_steady(blocks, base, top, limit, size, (n - 1) as nat);
        lemma_cycle_in_place(prev.0, base, prev.1, limit, size);
    } else {
        lemma_free_then_reuse(blocks, base, top, limit, size);
        assert(cycles(blocks, top, limit, size, 0) == (blocks, top));
    }
}

/// After `n >= 1` cycles the heap is well formed, its top is where the first
/// cycle left it, and a free block of the rounded size is waiting.
proof fn lemma_cycles_steady(
    blocks: Seq<Block>,
    base: u64,
    top: u64,
    limit: u64,
    size: u64,
    n: nat,
)
    requires
        heap_wf(blocks, base, top, limit),
        0 < size,
        malloc_result(blocks, top, limit, size) is Ok,
        n >= 1,
    ensures
        heap_wf(
            cycles(blocks, top, limit, size, n).0,
            base,
            cycles(blocks, top, limit, size, n).1,
            limit,
        ),
        cycles(blocks, top, limit, size, n).1 == malloc_top(blocks, top, limit, size),
        free_slot(cycles(blocks, top, limit, size, n).0, span_of(size), 0) >= 0,
    decreases n,
{
    lemma_free_then_reuse(blocks, base, top, limit, size);
    assert(cycles(blocks, top, limit, size, 0) == (blocks, top));
    if n > 1 {
        lemma_cycles_steady(blocks, base, top, limit, size, (n - 1) as nat);
        let prev = cycles(blocks, top, limit, size, (n - 1) as nat);
        lemma_cycle_in_place(prev.0, base, prev.1, limit, size);
    }
}

/// A manual allocator over the span `[base, limit)` of linear memory.
/// Blocks are carved in address order; a freed block is handed out again to
/// the next request of the same rounded size.
pub struct Heap {
    blocks: Vec<Block>,
    base: u64,
    top: u64,
    limit: u64,
}

impl Heap {
    /// Every block carved so far, in address order.
    pub closed spec fn blocks(&self) -> Seq<Block> {
        self.blocks@
    }

    /// The lowest address the heap hands out.
    pub closed spec fn base(&self) -> u64 {
        self.base
    }

    /// The end of the carved part of the heap.
    pub closed spec fn top(&self) -> u64 {
        self.top
    }

    /// The end of the memory the heap may use.
    pub closed spec fn limit(&self) -> u64 {
        self.limit
    }

    pub open spec fn wf(&self) -> bool {
        heap_wf(self.blocks(), self.base(), self.top(), self.limit())
    }

    /// An empty heap over `[base, limit)`.
    pub fn new(base: u64, limit: u64) -> (h: Heap)
        requires
            EMPTY_BLOCK < base,
            base % 8 == 0,
            base <= limit,
        ensures
            h.wf(),
            h.blocks() == Seq::<Block>::empty(),
            h.base() == base,
            h.top() == base,
            h.limit() == limit,
    {
        Heap { blocks: Vec::new(), base, top: base, limit }
    }

    /// The end of the carved part of the heap.
    pub fn high_water(&self) -> (r: u64)
        ensures
            r == self.top(),
    {
        self.top
    }

    /// Hands out `size` bytes aligned to `ALIGN`: the first free block of the
    /// same rounded size if there is one, else fresh space at the top.  A
    /// zero-size request gets `EMPTY_BLOCK`.
    pub fn malloc(&mut self, size: u64) -> (r: Result<u64, AllocError>)
        requires
            old(self).wf(),
        ensures
            final(self).wf(),
            r == malloc_result(old(self).blocks(), old(self).top(), old(self).limit(), size),
            final(self).blocks() == malloc_blocks(
                old(self).blocks(),
                old(self).top(),
                old(self).limit(),
                size,
            ),
            final(self).top() == malloc_top(
                old(self).blocks(),
                old(self).top(),
                old(self).limit(),
                size,
            ),
            final(self).base() == old(self).base(),
            final(self).limit() == old(self).limit(),
            size > 0 ==> (r matches Ok(a) ==> {
                &&& old(self).base() <= a
                &&& a % 8 == 0
                &&& in_bounds(old(self).limit() as nat, a as int, size as int)
            }),
    {
        if size == 0 {
            return Ok(EMPTY_BLOCK);
        }
        if size > u64::MAX - 7 {
            return Err(AllocError::SizeTooLarge);
        }
        let span = (size + 7) / 8 * 8;
        assert(span == span_of(size));
        let ghost blocks = self.blocks@;
        proof {
            lemma_free_slot(blocks, span as int, 0);
        }
        let n = self.blocks.len();
        let mut i: usize = 0;
        while i < n
            invariant
                n == self.blocks@.len(),
                self.blocks@ == blocks,
                blocks == old(self).blocks(),
                self.base == old(self).base(),
                self.top == old(self).top(),
                self.limit == old(self).limit(),
                heap_wf(blocks, self.base, self.top, self.limit),
                span == span_of(size),
                0 < size <= u64::MAX - 7,
                i <= n,
                forall|k: int| 0 <= k < i ==> !reusable(#[trigger] blocks[k], span as int),
                free_slot(blocks, span as int, 0) == -1 || (0 <= free_slot(blocks, span as int, 0)
                    < blocks.len() && reusable(blocks[free_slot(blocks, span as int, 0)], span as int)),
                forall|k: int|
                    0 <= k < blocks.len() && (free_slot(blocks, span as int, 0) == -1 || k
                        < free_slot(blocks, span as int, 0)) ==> !reusable(
                        #[trigger] blocks[k],
                        span as int,
                    ),
            decreases n - i,
        {
            let b = self.blocks[i];
            if !b.in_use && b.span == span {
                assert(reusable(blocks[i as int], span as int));
                assert(free_slot(blocks, span as int, 0) == i);
                let nb = Block { addr: b.addr, span: b.span, size, in_use: true };
                self.blocks.set(i, nb);
                assert(self.blocks@ == malloc_blocks(blocks, self.top, self.limit, size));
                proof {
                    lemma_malloc_wf(blocks, self.base, self.top, self.limit, size);
                }
                return Ok(b.addr);
            }
            i = i + 1;
        }
        assert(free_slot(blocks, span as int, 0) == -1);
        if span > self.limit - self.top {
            return Err(AllocError::OutOfMemory);
        }
        let addr = self.top;
        self.blocks.push(Block { addr, span, size, in_use: true });
        self.top = self.top + span;
        assert(self.blocks@ == malloc_blocks(blocks, addr, self.limit, size));
        proof {
            lemma_malloc_wf(blocks, self.base, addr, self.limit, size);
        }
        Ok(addr)
    }

    /// Takes back the block handed out at `addr` for `size` bytes.  A null
    /// address or a zero size is a no-op; a pair that names no live block
    /// is refused and changes nothing.
    pub fn free(&mut self, addr: u64, size: u64) -> (r: Result<(), AllocError>)
        requires
            old(self).wf(),
        ensures
            final(self).wf(),
            r == free_result(old(self).blocks(), addr, size),
            final(self).blocks() == free_blocks(old(self).blocks(), addr, size),
            final(self).top() == old(self).top(),
            final(self).base() == old(self).base(),
            final(self).limit() == old(self).limit(),
    {
        if addr == 0 || size == 0 {
            return Ok(());
        }
        let ghost blocks = self.blocks@;
        proof {
            lemma_live_slot(blocks, addr, size, 0);
        }
        let n = self.blocks.len();
        let mut i: usize = 0;
        while i < n
            invariant
                n == self.blocks@.len(),
                self.blocks@ == blocks,
                blocks == old(self).blocks(),
                self.base == old(self).base(),
                self.top == old(self).top(),
                self.limit == old(self).limit(),
                heap_wf(blocks, self.base, self.top, self.limit),
                addr != 0 && size != 0,
                i <= n,
                forall|k: int| 0 <= k < i ==> !is_live(#[trigger] blocks[k], addr, size),
                live_slot(blocks, addr, size, 0) == -1 || (0 <= live_slot(blocks, addr, size, 0)
                    < blocks.len() && is_live(blocks[live_slot(blocks, addr, size, 0)], addr, size)),
                forall|k: int|
                    0 <= k < blocks.len() && (live_slot(blocks, addr, size, 0) == -1 || k
                        < live_slot(blocks, addr, size, 0)) ==> !is_live(
                        #[trigger] blocks[k],
                        addr,
                        size,
                    ),
            decreases n - i,
        {
            let b = self.blocks[i];
            if b.in_use && b.addr == addr && b.size == size {
                assert(is_live(blocks[i as int], addr, size));
                assert(live_slot(blocks, addr, size, 0) == i);
                let nb = Block { addr: b.addr, span: b.span, size: b.size, in_use: false };
                self.blocks.set(i, nb);
                assert(self.blocks@ == free_blocks(blocks, addr, size));
                proof {
                    lemma_free_wf(blocks, self.base, self.top, self.limit, addr, size);
                }
                return Ok(());
            }
            i = i + 1;
        }
        assert(live_slot(blocks, addr, size, 0) == -1);
        Err(AllocError::UnknownBlock)
    }
}

} // verus!
