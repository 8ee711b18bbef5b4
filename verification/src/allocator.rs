//! Bump allocator over a fixed 1 MB heap.
//!
//! Memory only moves forward: an allocation rounds the bump pointer up to the
//! requested alignment and advances it past the new block. Blocks are never
//! freed one by one; `reset` releases the whole heap at once.
//!
//! Layout of the heap:
//! `[start][used ..........][free ..................][end]`
//! The bump pointer is the number of bytes used so far, and an allocation is
//! handed out as its byte offset from the start of the heap.
use vstd::prelude::*;
use vstd::arithmetic::power2::pow2;
use vstd::bits::{low_bits_mask, lemma_usize_low_bits_mask_is_mod};

verus! {

/// Size of the heap in bytes (1 MB).
pub const HEAP_SIZE: usize = 1048576;

/// The allocator's bookkeeping: how far the bump pointer has moved and how
/// many allocations it has made since the last reset.
pub struct BumpHeap {
    bump_ptr: usize,
    alloc_count: usize,
}

/// `align` is `2^k` for some `k` below the width of `usize`.
pub open spec fn is_power_of_two(align: usize) -> bool {
    exists|k: nat| k < usize::BITS && align == pow2(k)
}

/// The bump pointer `ptr` rounded up with the mask of `align`:
/// `(ptr + align - 1) & !(align - 1)`.
pub open spec fn align_up(ptr: usize, align: usize) -> usize {
    ((ptr + align - 1) as usize) & !((align - 1) as usize)
}

impl BumpHeap {
    /// Bytes handed out since the last reset.
    pub closed spec fn used(&self) -> nat {
        self.bump_ptr as nat
    }

    /// Allocations made since the last reset.
    pub closed spec fn count(&self) -> nat {
        self.alloc_count as nat
    }

    /// The bump pointer never passes the end of the heap.
    pub open spec fn wf(&self) -> bool {
        self.used() <= HEAP_SIZE
    }

    /// An empty heap: nothing used, no allocation made.
    pub fn new() -> (heap: Self)
        ensures
            heap.wf(),
            heap.used() == 0,
            heap.count() == 0,
    {
        BumpHeap { bump_ptr: 0, alloc_count: 0 }
    }
}

/// Rounding up moves the bump pointer forward by less than `align`.
pub proof fn lemma_align_up_bounds(ptr: usize, align: usize)
    requires
        align > 0,
        ptr + align - 1 <= usize::MAX,
    ensures
        ptr <= align_up(ptr, align) < ptr + align,
{
    let x: usize = (ptr + align - 1) as usize;
    let m: usize = (align - 1) as usize;
    let r: usize = x & !m;
    assert(r <= x && x - r == x & m && x & m <= m) by (bit_vector)
        requires
            r == x & !m,
    ;
}

/// With a power-of-two alignment, rounding up gives a multiple of `align`:
/// the smallest one that is at least `ptr`.
pub proof fn lemma_align_up_aligned(ptr: usize, align: usize)
    requires
        is_power_of_two(align),
        ptr + align - 1 <= usize::MAX,
    ensures
        ptr <= align_up(ptr, align) < ptr + align,
        align_up(ptr, align) % align == 0,
{
    let k: nat = choose|k: nat| k < usize::BITS && align == pow2(k);
    vstd::arithmetic::power2::lemma_pow2_pos(k);
    lemma_align_up_bounds(ptr, align);
    let x: usize = (ptr + align - 1) as usize;
    let m: usize = (align - 1) as usize;
    let r: usize = x & !m;
    assert(r & m == 0) by (bit_vector)
        requires
            r == x & !m,
    ;
    assert(m == low_bits_mask(k) as usize);
    lemma_usize_low_bits_mask_is_mod(r, k);
}

/// A block of `size` bytes aligned to `align` fits when the bump pointer is
/// at `used`: rounding up stays within `usize`, and the rounded-up block ends
/// within the heap.
pub open spec fn fits(used: nat, size: nat, align: nat) -> bool {
    &&& used + align - 1 <= usize::MAX
    &&& align_up(used as usize, align as usize) + size <= HEAP_SIZE
}

/// What one call `allocate(size, align)` does: on a heap where the block fits
/// it returns the rounded-up bump pointer, moves the bump pointer past the
/// block and counts the allocation; otherwise it returns `None` and changes
/// nothing.
pub open spec fn allocated(
    before: BumpHeap,
    after: BumpHeap,
    size: usize,
    align: usize,
    r: Option<usize>,
) -> bool {
    if fits(before.used(), size as nat, align as nat) {
        let start = align_up(before.used() as usize, align);
        &&& r == Some(start)
        &&& after.used() == start + size
        &&& after.count() == before.count() + 1
    } else {
        &&& r is None
        &&& after.used() == before.used()
        &&& after.count() == before.count()
    }
}

/// Allocate `size` bytes aligned to `align` bytes.
///
/// Returns the offset of the new block from the start of the heap, or `None`
/// when the heap has no room left for it (out of memory), in which case
/// nothing changes.
pub fn allocate(heap: &mut BumpHeap, size: usize, align: usize) -> (r: Option<usize>)
    requires
        old(heap).wf(),
        align > 0,
        fits(old(heap).used(), size as nat, align as nat) ==> old(heap).count() < usize::MAX,
    ensures
        final(heap).wf(),
        allocated(*old(heap), *final(heap), size, align, r),
        r matches Some(start) ==> old(heap).used() <= start && start + size <= HEAP_SIZE,
        is_power_of_two(align) ==> (r matches Some(start) ==> start % align == 0),
{
    // Round up bump pointer to the required alignment
    let bumped = match heap.bump_ptr.checked_add(align - 1) {
        Some(b) => b,
        None => return None,
    };
    let start = bumped & !(align - 1);
    let end = match start.checked_add(size) {
        Some(e) => e,
        None => return None,
    };
    if end > HEAP_SIZE {
        return None;  // Out of memory
    }
    proof {
        lemma_align_up_bounds(heap.bump_ptr, align);
        if is_power_of_two(align) {
            lemma_align_up_aligned(heap.bump_ptr, align);
        }
    }
    heap.bump_ptr = end;
    heap.alloc_count = heap.alloc_count + 1;
    Some(start)
}

/// Release the whole heap at once: nothing used, no allocation counted.
pub fn reset(heap: &mut BumpHeap)
    ensures
        final(heap).wf(),
        final(heap).used() == 0,
        final(heap).count() == 0,
{
    heap.bump_ptr = 0;
    heap.alloc_count = 0;
}

/// How many bytes have been allocated.
pub fn used_bytes(heap: &BumpHeap) -> (r: usize)
    ensures
        r == heap.used(),
{
    heap.bump_ptr
}

/// How many bytes are still free.
pub fn free_bytes(heap: &BumpHeap) -> (r: usize)
    requires
        heap.wf(),
    ensures
        r == HEAP_SIZE - heap.used(),
{
    HEAP_SIZE - used_bytes(heap)
}

/// How many allocations have been made.
pub fn alloc_count(heap: &BumpHeap) -> (r: usize)
    ensures
        r == heap.count(),
{
    heap.alloc_count
}

/// Total heap size.
pub fn total_bytes() -> (r: usize)
    ensures
        r == HEAP_SIZE,
{
    HEAP_SIZE
}

/// The bookkeeping never passes the end of the heap: the used and free byte
/// counts add up to the heap's size.
pub proof fn lemma_used_within_heap(heap: &BumpHeap)
    requires
        heap.wf(),
    ensures
        heap.used() <= HEAP_SIZE,
        (HEAP_SIZE - heap.used()) + heap.used() == HEAP_SIZE,
{
}

/// One call: the bump pointer never moves back, a block starts at or after
/// it and ends at the new bump pointer, and only a success is counted.
pub proof fn lemma_allocated_step(
    before: BumpHeap,
    after: BumpHeap,
    size: usize,
    align: usize,
    r: Option<usize>,
)
    requires
        align > 0,
        allocated(before, after, size, align, r),
    ensures
        before.used() <= after.used(),
        r matches Some(start) ==> before.used() <= start && start + size == after.used()
            && after.count() == before.count() + 1,
        r is None ==> after.used() == before.used() && after.count() == before.count(),
{
    if fits(before.used(), size as nat, align as nat) {
        lemma_align_up_bounds(before.used() as usize, align);
    }
}

/// Number of successful calls among the results `rs`.
pub open spec fn successes(rs: Seq<Option<usize>>) -> nat
    decreases rs.len(),
{
    if rs.len() == 0 {
        0
    } else {
        successes(rs.drop_last()) + if rs.last() is Some {
            1nat
        } else {
            0nat
        }
    }
}

/// `hs[0]`, `hs[1]`, ... are the heap's states along a run of `allocate`
/// calls, call `i` asking for `sizes[i]` bytes aligned to `aligns[i]` and
/// returning `rs[i]`.
pub open spec fn allocation_run(
    hs: Seq<BumpHeap>,
    sizes: Seq<usize>,
    aligns: Seq<usize>,
    rs: Seq<Option<usize>>,
) -> bool {
    &&& hs.len() == rs.len() + 1
    &&& sizes.len() == rs.len()
    &&& aligns.len() == rs.len()
    &&& forall|i: int| 0 <= i < rs.len() ==> aligns[i] > 0
    &&& forall|i: int|
        0 <= i < rs.len() ==> #[trigger] allocated(hs[i], hs[i + 1], sizes[i], aligns[i], rs[i])
}

/// Call `i` of a run, spelled out.
proof fn lemma_run_step(
    hs: Seq<BumpHeap>,
    sizes: Seq<usize>,
    aligns: Seq<usize>,
    rs: Seq<Option<usize>>,
    i: int,
)
    requires
        allocation_run(hs, sizes, aligns, rs),
        0 <= i < rs.len(),
    ensures
        hs[i].used() <= hs[i + 1].used(),
        rs[i] matches Some(start) ==> hs[i].used() <= start && start + sizes[i] == hs[i
            + 1].used() && hs[i + 1].count() == hs[i].count() + 1,
        rs[i] is None ==> hs[i + 1].used() == hs[i].used() && hs[i + 1].count() == hs[i].count(),
{
    assert(allocated(hs[i], hs[i + 1], sizes[i], aligns[i], rs[i]));
    lemma_allocated_step(hs[i], hs[i + 1], sizes[i], aligns[i], rs[i]);
}

/// Along a run the bump pointer never moves back.
proof fn lemma_run_monotone(
    hs: Seq<BumpHeap>,
    sizes: Seq<usize>,
    aligns: Seq<usize>,
    rs: Seq<Option<usize>>,
    i: int,
    j: int,
)
    requires
        allocation_run(hs, sizes, aligns, rs),
        0 <= i <= j <= rs.len(),
    ensures
        hs[i].used() <= hs[j].used(),
    decreases j - i,
{
    if i < j {
        lemma_run_step(hs, sizes, aligns, rs, j - 1);
        lemma_run_monotone(hs, sizes, aligns, rs, i, j - 1);
    }
}

/// Along a run, the count grows by the successes, and with no success the
/// bump pointer stays put.
proof fn lemma_run_count(
    hs: Seq<BumpHeap>,
    sizes: Seq<usize>,
    aligns: Seq<usize>,
    rs: Seq<Option<usize>>,
)
    requires
        allocation_run(hs, sizes, aligns, rs),
    ensures
        hs.last().count() == hs[0].count() + successes(rs),
        successes(rs) == 0 ==> hs.last().used() == hs[0].used(),
    decreases rs.len(),
{
    let n = rs.len();
    if n > 0 {
        let hs0 = hs.drop_last();
        let sizes0 = sizes.drop_last();
        let aligns0 = aligns.drop_last();
        let rs0 = rs.drop_last();
        assert forall|i: int| 0 <= i < rs0.len() implies #[trigger] allocated(
            hs0[i],
            hs0[i + 1],
            sizes0[i],
            aligns0[i],
            rs0[i],
        ) by {
            assert(allocated(hs[i], hs[i + 1], sizes[i], aligns[i], rs[i]));
        }
        lemma_run_count(hs0, sizes0, aligns0, rs0);
        lemma_run_step(hs, sizes, aligns, rs, n - 1);
        assert(hs0.last() == hs[n - 1]);
    }
}

/// The bump pointer after a run is where the last block handed out ends.
proof fn lemma_run_last_block(
    hs: Seq<BumpHeap>,
    sizes: Seq<usize>,
    aligns: Seq<usize>,
    rs: Seq<Option<usize>>,
    i: int,
    j: int,
)
    requires
        allocation_run(hs, sizes, aligns, rs),
        0 <= i < rs.len(),
        rs[i] is Some,
        i < j <= rs.len(),
        forall|k: int| i < k < rs.len() ==> rs[k] is None,
    ensures
        hs[j].used() == rs[i]->0 + sizes[i],
    decreases j - i,
{
    if j == i + 1 {
        lemma_run_step(hs, sizes, aligns, rs, i);
    } else {
        lemma_run_step(hs, sizes, aligns, rs, j - 1);
        lemma_run_last_block(hs, sizes, aligns, rs, i, j - 1);
    }
}

/// Along any run of allocations without a reset, memory only moves
/// forward:
/// - every block lies after every block handed out before it, so no two
///   blocks overlap, and every block lies below the final bump pointer;
/// - the allocation count grows by the number of successful calls; failed
///   calls are not counted;
/// - the used bytes never shrink, and are the end of the last block handed
///   out, or unchanged when no call succeeded.
pub proof fn lemma_allocation_run(
    hs: Seq<BumpHeap>,
    sizes: Seq<usize>,
    aligns: Seq<usize>,
    rs: Seq<Option<usize>>,
)
    requires
        allocation_run(hs, sizes, aligns, rs),
    ensures
        forall|i: int, j: int|
            0 <= i < j < rs.len() && rs[i] is Some && rs[j] is Some ==> rs[i]->0 + sizes[i]
                <= rs[j]->0,
        forall|i: int|
            0 <= i < rs.len() && rs[i] is Some ==> hs[0].used() <= rs[i]->0 && rs[i]->0
                + sizes[i] <= hs.last().used(),
        hs.last().count() == hs[0].count() + successes(rs),
        hs[0].used() <= hs.last().used(),
        successes(rs) == 0 ==> hs.last().used() == hs[0].used(),
        forall|i: int|
            0 <= i < rs.len() && rs[i] is Some && (forall|j: int| i < j < rs.len() ==> rs[j] is None)
                ==> hs.last().used() == rs[i]->0 + sizes[i],
{
    let n = rs.len() as int;
    assert forall|i: int, j: int|
        0 <= i < j < rs.len() && rs[i] is Some && rs[j] is Some implies rs[i]->0 + sizes[i]
            <= rs[j]->0 by {
        lemma_run_step(hs, sizes, aligns, rs, i);
        lemma_run_step(hs, sizes, aligns, rs, j);
        lemma_run_monotone(hs, sizes, aligns, rs, i + 1, j);
    }
    assert forall|i: int|
        0 <= i < rs.len() && rs[i] is Some implies hs[0].used() <= rs[i]->0 && rs[i]->0
            + sizes[i] <= hs.last().used() by {
        lemma_run_step(hs, sizes, aligns, rs, i);
        lemma_run_monotone(hs, sizes, aligns, rs, 0, i);
        lemma_run_monotone(hs, sizes, aligns, rs, i + 1, n);
    }
    lemma_run_count(hs, sizes, aligns, rs);
    lemma_run_monotone(hs, sizes, aligns, rs, 0, n);
    assert forall|i: int|
        0 <= i < rs.len() && rs[i] is Some && (forall|j: int| i < j < rs.len() ==> rs[j] is None)
            implies hs.last().used() == rs[i]->0 + sizes[i] by {
        lemma_run_last_block(hs, sizes, aligns, rs, i, n);
    }
}

} // verus!
