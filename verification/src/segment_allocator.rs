//! A fixed-size mapped memory region with a bump-pointer allocator.
//!
//! The region hands out page-aligned offsets from a cursor that only moves
//! forward; nothing is reclaimed yet.

use memmap2::MmapMut;
use vstd::prelude::*;

verus! {

/// Granularity of every allocation, in bytes.
pub const PAGE_SIZE: usize = 4096;

/// The smallest multiple of [`PAGE_SIZE`] that is at least `n`.
pub open spec fn spec_page_align_up(n: int) -> int {
    ((n + 4095) / 4096) * 4096
}

/// Round `n` up to the next multiple of [`PAGE_SIZE`]. A size within a
/// page of `usize::MAX` has no such multiple in `usize`, so it is not
/// accepted here; [`SegmentAllocator::allocate`] answers it with `None`.
pub fn page_align_up(n: usize) -> (aligned: usize)
    requires
        n <= usize::MAX - 4095,
    ensures
        aligned == spec_page_align_up(n as int),
{
    let bumped: usize = n + 4095;
    let aligned = bumped & !4095usize;
    assert((bumped & !4095usize) == (bumped / 4096) * 4096) by (bit_vector);
    aligned
}

/// `memmap2::MmapMut`, a writable memory map: carried as an opaque value,
/// its bytes are known only through `region_bytes`.
#[verifier::external_type_specification]
#[verifier::external_body]
pub struct ExMmapMut(MmapMut);

/// The bytes that a mapped region holds, in address order.
pub uninterp spec fn region_bytes(region: MmapMut) -> Seq<u8>;

/// Length of the region: the length of the byte slice that
/// `MmapMut` dereferences to.
#[verifier::external_body]
fn region_len(region: &MmapMut) -> (n: usize)
    ensures
        n == region_bytes(*region).len(),
{
    region.len()
}

/// Copies `payload` over the bytes `start..end` of the region through
/// `MmapMut`'s mutable slice: those bytes become `payload`, the others stay.
/// This relies on the mapping being written by this value alone, as the
/// region handed to `SegmentAllocator::new` is.
#[verifier::external_body]
fn region_write(region: &mut MmapMut, start: usize, end: usize, payload: &[u8])
    requires
        start <= end <= region_bytes(*old(region)).len(),
        end - start == payload@.len(),
    ensures
        region_bytes(*final(region)) == region_bytes(*old(region)).take(start as int) + payload@
            + region_bytes(*old(region)).skip(end as int),
{
    region[start..end].copy_from_slice(payload)
}

/// Copies the bytes `start..end` of the region out through `MmapMut`'s
/// slice: the result is exactly those bytes.
#[verifier::external_body]
fn region_read(region: &MmapMut, start: usize, end: usize) -> (bytes: Vec<u8>)
    requires
        start <= end <= region_bytes(*region).len(),
    ensures
        bytes@ == region_bytes(*region).subrange(start as int, end as int),
{
    region[start..end].to_vec()
}

/// Fixed-size mapped region with a bump-pointer allocator.
///
/// Each call to [`SegmentAllocator::allocate`] moves the cursor forward by
/// the page-aligned size and returns where the range starts.
pub struct SegmentAllocator {
    region: MmapMut,
    capacity: usize,
    next: usize,
}

impl SegmentAllocator {
    /// The region is well formed: its capacity is its length, and the
    /// cursor stays inside it, on a page boundary.
    pub closed spec fn wf(&self) -> bool {
        &&& self.capacity == region_bytes(self.region).len()
        &&& self.next <= self.capacity
        &&& self.next % 4096 == 0
    }

    /// Every byte of the region.
    pub closed spec fn bytes(&self) -> Seq<u8> {
        region_bytes(self.region)
    }

    /// Total bytes mapped, including the unused tail.
    pub closed spec fn spec_capacity(&self) -> nat {
        self.capacity as nat
    }

    /// Where the next allocation starts; everything before it is handed out.
    pub closed spec fn used(&self) -> nat {
        self.next as nat
    }

    /// Whether an allocation of `size` bytes fits after `used` bytes in a
    /// region of `capacity` bytes.
    pub open spec fn fits(used: nat, size: nat, capacity: nat) -> bool {
        used + spec_page_align_up(size as int) <= capacity
    }

    /// A well-formed segment's cursor lies within its bytes, on a page
    /// boundary.
    pub proof fn lemma_bounds(&self)
        requires
            self.wf(),
        ensures
            self.used() <= self.spec_capacity(),
            self.used() % 4096 == 0,
            self.bytes().len() == self.spec_capacity(),
    {
    }

    /// Take over a mapped region; allocation starts at offset 0.
    pub fn new(region: MmapMut) -> (segment: Self)
        ensures
            segment.wf(),
            segment.bytes() == region_bytes(region),
            segment.spec_capacity() == region_bytes(region).len(),
            segment.used() == 0,
    {
        let capacity = region_len(&region);
        SegmentAllocator { region, capacity, next: 0 }
    }

    /// Reserve a contiguous, page-aligned range of at least `size` bytes.
    /// Returns its starting offset, or `None` if the segment is full.
    pub fn allocate(&mut self, size: usize) -> (offset: Option<usize>)
        requires
            old(self).wf(),
        ensures
            final(self).wf(),
            final(self).bytes() == old(self).bytes(),
            final(self).spec_capacity() == old(self).spec_capacity(),
            final(self).used() == next_cursor(old(self).used(), size as nat, old(self).spec_capacity()),
            match offset {
                Some(start) => {
                    &&& Self::fits(old(self).used(), size as nat, old(self).spec_capacity())
                    &&& start == old(self).used()
                    &&& start % 4096 == 0
                    &&& final(self).used() == old(self).used() + spec_page_align_up(size as int)
                },
                None => {
                    &&& !Self::fits(old(self).used(), size as nat, old(self).spec_capacity())
                    &&& final(self).used() == old(self).used()
                },
            },
    {
        if size > usize::MAX - 4095 {
            proof { lemma_oversized_never_fits(size as nat, old(self).capacity as nat, old(self).next as nat); }
            return None;
        }
        let aligned = page_align_up(size);
        let current = self.next;
        proof { law_allocation_aligned(current as nat, size as nat); }
        let new_next = match current.checked_add(aligned) {
            Some(n) => n,
            None => return None,
        };
        if new_next > self.capacity {
            return None;
        }
        self.next = new_next;
        Some(current)
    }

    /// Copy `payload` into the segment starting at `offset`.
    pub fn write_at(&mut self, offset: usize, payload: &[u8])
        requires
            old(self).wf(),
            offset + payload@.len() <= old(self).spec_capacity(),
        ensures
            final(self).wf(),
            final(self).spec_capacity() == old(self).spec_capacity(),
            final(self).used() == old(self).used(),
            final(self).bytes() == write_effect(old(self).bytes(), offset as int, payload@),
    {
        let end = offset + payload.len();
        region_write(&mut self.region, offset, end, payload);
    }

    /// Read `len` bytes from the segment starting at `offset`.
    pub fn read_at(&self, offset: usize, len: usize) -> (bytes: Vec<u8>)
        requires
            self.wf(),
            offset + len <= self.spec_capacity(),
        ensures
            bytes@ == self.bytes().subrange(offset as int, offset + len),
    {
        let end = offset + len;
        region_read(&self.region, offset, end)
    }

    /// Total bytes mapped, including the unused tail.
    pub fn capacity(&self) -> (capacity: usize)
        ensures
            capacity == self.spec_capacity(),
    {
        self.capacity
    }
}

/// Rounding up to a page gives a multiple of the page size that is at
/// least `n` and less than a page above it.
pub proof fn law_page_align_up(n: nat)
    ensures
        spec_page_align_up(n as int) % 4096 == 0,
        n <= spec_page_align_up(n as int) < n + 4096,
{
    let q = (n + 4095) / 4096;
    assert(spec_page_align_up(n as int) == q * 4096);
    assert((q * 4096) % 4096 == 0) by (nonlinear_arith);
    assert(q * 4096 <= n + 4095 < q * 4096 + 4096) by (nonlinear_arith)
        requires
            q == (n + 4095) / 4096,
    ;
}

/// From a page-aligned cursor every allocation starts on a page boundary
/// and leaves the cursor on one; so every offset handed out by a segment,
/// whose cursor starts at 0, is page aligned.
pub proof fn law_allocation_aligned(used: nat, size: nat)
    requires
        used % 4096 == 0,
    ensures
        (used + spec_page_align_up(size as int)) % 4096 == 0,
{
    law_page_align_up(size);
    let a = spec_page_align_up(size as int);
    assert((used + a) % 4096 == 0) by (nonlinear_arith)
        requires
            used % 4096 == 0,
            a % 4096 == 0,
            a >= 0,
    ;
}

/// A request too large to be rounded up to a page within `usize` is larger
/// than any region that a `usize` can measure.
proof fn lemma_oversized_never_fits(size: nat, capacity: nat, used: nat)
    requires
        size > usize::MAX - 4095,
        capacity <= usize::MAX,
    ensures
        !SegmentAllocator::fits(used, size, capacity),
{
    law_page_align_up(size);
    let a = spec_page_align_up(size as int);
    let m = usize::MAX + 1;
    assert(m % 4096 == 0) by {
        assert(usize::MAX == 0xffff_ffff || usize::MAX == 0xffff_ffff_ffff_ffff);
    }
    assert(a >= m) by (nonlinear_arith)
        requires
            a % 4096 == 0,
            m % 4096 == 0,
            a >= size,
            size > m - 4096,
            a >= 0,
            m > 0,
    ;
}

/// Successive allocations do not overlap: the next one starts at or after
/// the end of the page-aligned range of the one before.
pub proof fn law_allocations_disjoint(used: nat, size: nat)
    ensures
        used + size <= used + spec_page_align_up(size as int),
{
    law_page_align_up(size);
}

/// Where the cursor of a region of `capacity` bytes moves on a request of
/// `size` bytes from `used`: past the page-aligned size if it fits, else
/// nowhere.
pub open spec fn next_cursor(used: nat, size: nat, capacity: nat) -> nat {
    if SegmentAllocator::fits(used, size, capacity) {
        (used + spec_page_align_up(size as int)) as nat
    } else {
        used
    }
}

/// The cursor of a fresh region of `capacity` bytes after the requests
/// `sizes`, in order.
pub open spec fn cursor_after(capacity: nat, sizes: Seq<nat>) -> nat
    decreases sizes.len(),
{
    if sizes.len() == 0 {
        0
    } else {
        next_cursor(cursor_after(capacity, sizes.drop_last()), sizes.last(), capacity)
    }
}

/// What request `i` of `sizes` gets from a fresh region of `capacity`
/// bytes: the cursor as it stood, if the request fits.
pub open spec fn offset_of(capacity: nat, sizes: Seq<nat>, i: int) -> Option<nat> {
    let used = cursor_after(capacity, sizes.take(i));
    if SegmentAllocator::fits(used, sizes[i], capacity) {
        Some(used)
    } else {
        None
    }
}

/// Over any history of requests on a fresh region, every range handed out
/// starts on a page boundary, lies within the region, and ends (page-aligned)
/// at or before the cursor; so any two ranges handed out are disjoint, the
/// earlier one below the later one.
pub proof fn law_allocation_history(capacity: nat, sizes: Seq<nat>)
    ensures
        cursor_after(capacity, sizes) <= capacity,
        cursor_after(capacity, sizes) % 4096 == 0,
        forall|i: int|
            0 <= i < sizes.len() ==> (#[trigger] offset_of(capacity, sizes, i) matches Some(o) ==> {
                &&& o % 4096 == 0
                &&& o + sizes[i] <= o + spec_page_align_up(sizes[i] as int) <= cursor_after(capacity, sizes)
                &&& cursor_after(capacity, sizes) <= capacity
            }),
        forall|i: int, j: int|
            0 <= i < j < sizes.len() ==> (#[trigger] offset_of(capacity, sizes, i) matches Some(oi) ==> (
            #[trigger] offset_of(capacity, sizes, j) matches Some(oj) ==> oi + sizes[i] <= oj)),
    decreases sizes.len(),
{
    if sizes.len() == 0 {
        return;
    }
    let init = sizes.drop_last();
    let n = init.len() as int;
    law_allocation_history(capacity, init);
    let before = cursor_after(capacity, init);
    let last = sizes.last();
    law_page_align_up(last);
    law_allocation_aligned(before, last);
    assert forall|i: int| 0 <= i < n implies #[trigger] offset_of(capacity, sizes, i) == offset_of(capacity, init, i) by {
        assert(sizes.take(i) =~= init.take(i));
    }
    assert(sizes.take(n) =~= init);
    assert forall|i: int|
        0 <= i < sizes.len() implies (#[trigger] offset_of(capacity, sizes, i) matches Some(o) ==> {
            &&& o % 4096 == 0
            &&& o + sizes[i] <= o + spec_page_align_up(sizes[i] as int) <= cursor_after(capacity, sizes)
            &&& cursor_after(capacity, sizes) <= capacity
        }) by {
        law_page_align_up(sizes[i]);
        if i < n {
            assert(offset_of(capacity, init, i) == offset_of(capacity, sizes, i));
        }
    }
    assert forall|i: int, j: int|
        0 <= i < j < sizes.len() implies (#[trigger] offset_of(capacity, sizes, i) matches Some(oi) ==> (
        #[trigger] offset_of(capacity, sizes, j) matches Some(oj) ==> oi + sizes[i] <= oj)) by {
        law_page_align_up(sizes[i]);
        assert(offset_of(capacity, init, i) == offset_of(capacity, sizes, i));
        if j < n {
            assert(offset_of(capacity, init, j) == offset_of(capacity, sizes, j));
        }
    }
}

/// The bytes after writing `payload` at `offset`: the bytes before it,
/// then the payload, then the bytes after it.
pub open spec fn write_effect(bytes: Seq<u8>, offset: int, payload: Seq<u8>) -> Seq<u8> {
    bytes.take(offset) + payload + bytes.skip(offset + payload.len())
}

/// The bytes after the writes `writes`, each an offset and a payload, in
/// order.
pub open spec fn apply_writes(bytes: Seq<u8>, writes: Seq<(int, Seq<u8>)>) -> Seq<u8>
    decreases writes.len(),
{
    if writes.len() == 0 {
        bytes
    } else {
        write_effect(apply_writes(bytes, writes.drop_last()), writes.last().0, writes.last().1)
    }
}

/// Every write lands within `len` bytes.
pub open spec fn writes_fit(len: nat, writes: Seq<(int, Seq<u8>)>) -> bool {
    forall|j: int| 0 <= j < writes.len() ==> 0 <= (#[trigger] writes[j]).0 && writes[j].0 + writes[j].1.len() <= len
}

/// No write after write `k` touches the range write `k` wrote.
pub open spec fn untouched_after(writes: Seq<(int, Seq<u8>)>, k: int) -> bool {
    forall|j: int|
        k < j < writes.len() ==> (#[trigger] writes[j]).0 + writes[j].1.len() <= writes[k].0 || writes[k].0
            + writes[k].1.len() <= writes[j].0
}

/// Over any history of writes that land in the region, reading back the
/// range of a write that no later write touched gives the bytes it wrote,
/// and the region keeps its length.
pub proof fn law_read_back_history(bytes: Seq<u8>, writes: Seq<(int, Seq<u8>)>, k: int)
    requires
        writes_fit(bytes.len(), writes),
        0 <= k < writes.len(),
        untouched_after(writes, k),
    ensures
        apply_writes(bytes, writes).len() == bytes.len(),
        apply_writes(bytes, writes).subrange(writes[k].0, writes[k].0 + writes[k].1.len()) == writes[k].1,
    decreases writes.len(),
{
    let init = writes.drop_last();
    let before = apply_writes(bytes, init);
    let (off, payload) = writes.last();
    assert(writes[writes.len() - 1] == writes.last());
    lemma_writes_keep_length(bytes, init);
    law_read_after_write(before, off, payload);
    if k < writes.len() - 1 {
        assert(writes_fit(bytes.len(), init)) by {
            assert forall|j: int| 0 <= j < init.len() implies 0 <= (#[trigger] init[j]).0 && init[j].0 + init[j].1.len()
                <= bytes.len() by {
                assert(init[j] == writes[j]);
            }
        }
        assert(untouched_after(init, k)) by {
            assert forall|j: int| k < j < init.len() implies (#[trigger] init[j]).0 + init[j].1.len() <= init[k].0
                || init[k].0 + init[k].1.len() <= init[j].0 by {
                assert(init[j] == writes[j]);
            }
        }
        assert(init[k] == writes[k]);
        law_read_back_history(bytes, init, k);
        let (o, p) = writes[k];
        let after = apply_writes(bytes, writes);
        assert(after.subrange(o, o + p.len()) =~= p) by {
            assert forall|i: int| 0 <= i < p.len() implies after.subrange(o, o + p.len())[i] == p[i] by {
                assert(before.subrange(o, o + p.len())[i] == p[i]);
                assert(!(off <= o + i < off + payload.len()));
            }
        }
    }
}

proof fn lemma_writes_keep_length(bytes: Seq<u8>, writes: Seq<(int, Seq<u8>)>)
    requires
        writes_fit(bytes.len(), writes),
    ensures
        apply_writes(bytes, writes).len() == bytes.len(),
    decreases writes.len(),
{
    if writes.len() > 0 {
        let init = writes.drop_last();
        assert(writes_fit(bytes.len(), init)) by {
            assert forall|j: int| 0 <= j < init.len() implies 0 <= (#[trigger] init[j]).0 && init[j].0 + init[j].1.len()
                <= bytes.len() by {
                assert(init[j] == writes[j]);
            }
        }
        lemma_writes_keep_length(bytes, init);
        assert(writes[writes.len() - 1] == writes.last());
    }
}

/// Reading back the range just written gives the bytes written, and the
/// bytes outside it are unchanged.
pub proof fn law_read_after_write(bytes: Seq<u8>, offset: int, payload: Seq<u8>)
    requires
        0 <= offset,
        offset + payload.len() <= bytes.len(),
    ensures
        (bytes.take(offset) + payload + bytes.skip(offset + payload.len())).subrange(offset, offset + payload.len())
            == payload,
        (bytes.take(offset) + payload + bytes.skip(offset + payload.len())).len() == bytes.len(),
        forall|i: int|
            0 <= i < bytes.len() && !(offset <= i < offset + payload.len()) ==> (bytes.take(offset) + payload
                + bytes.skip(offset + payload.len()))[i] == bytes[i],
{
    let after = bytes.take(offset) + payload + bytes.skip(offset + payload.len());
    assert(after.subrange(offset, offset + payload.len()) =~= payload);
}

} // verus!
