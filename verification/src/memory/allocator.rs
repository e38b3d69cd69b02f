//! Kernel heap: nine fixed-size block classes (8 to 2048 bytes, each size
//! also its alignment) in front of a first-fit free-area manager over one
//! contiguous heap region.  The allocators work on plain addresses; every
//! transition is stated as a spec function so laws about sequences of
//! operations can be proved over the views.
use vstd::prelude::*;

verus! {

/// Base virtual address of the kernel heap region.
pub const HEAP_START: u64 = 0x4444_4444_0000;
/// Size of the kernel heap region in bytes (100 KiB).
pub const HEAP_SIZE: u64 = 102400;

/// Number of block classes.
pub const BLOCK_CLASSES: usize = 9;

/// Size in bytes of block class `c`; the classes are the powers of two
/// from 8 to 2048, and a block's size is also its alignment.
pub open spec fn block_size(c: int) -> int {
    if c == 0 {
        8
    } else if c == 1 {
        16
    } else if c == 2 {
        32
    } else if c == 3 {
        64
    } else if c == 4 {
        128
    } else if c == 5 {
        256
    } else if c == 6 {
        512
    } else if c == 7 {
        1024
    } else if c == 8 {
        2048
    } else {
        0
    }
}

/// Executable table of the block class sizes.
pub fn block_size_of(c: usize) -> (r: u64)
    requires
        c < BLOCK_CLASSES,
    ensures
        r == block_size(c as int),
{
    match c {
        0 => 8,
        1 => 16,
        2 => 32,
        3 => 64,
        4 => 128,
        5 => 256,
        6 => 512,
        7 => 1024,
        _ => 2048,
    }
}

/// The class that serves a request, if any: the smallest class whose
/// block size is at least `max(size, align)`; none when that maximum
/// exceeds the largest class.
pub open spec fn spec_list_index(size: int, align: int) -> Option<int> {
    let m = if size >= align {
        size
    } else {
        align
    };
    if m <= 8 {
        Some(0int)
    } else if m <= 16 {
        Some(1int)
    } else if m <= 32 {
        Some(2int)
    } else if m <= 64 {
        Some(3int)
    } else if m <= 128 {
        Some(4int)
    } else if m <= 256 {
        Some(5int)
    } else if m <= 512 {
        Some(6int)
    } else if m <= 1024 {
        Some(7int)
    } else if m <= 2048 {
        Some(8int)
    } else {
        None
    }
}

/// Choose the block class for a request.
pub fn list_index(size: u64, align: u64) -> (r: Option<usize>)
    ensures
        r matches Some(c) ==> spec_list_index(size as int, align as int) == Some(c as int),
        r is None ==> spec_list_index(size as int, align as int) is None,
{
    let m = if size >= align {
        size
    } else {
        align
    };
    if m <= 8 {
        Some(0)
    } else if m <= 16 {
        Some(1)
    } else if m <= 32 {
        Some(2)
    } else if m <= 64 {
        Some(3)
    } else if m <= 128 {
        Some(4)
    } else if m <= 256 {
        Some(5)
    } else if m <= 512 {
        Some(6)
    } else if m <= 1024 {
        Some(7)
    } else if m <= 2048 {
        Some(8)
    } else {
        None
    }
}

/// The chosen class is large enough for the request and is the smallest
/// such class.
pub proof fn lemma_list_index_fits(size: int, align: int)
    ensures
        spec_list_index(size, align) matches Some(c) ==> {
            &&& 0 <= c < BLOCK_CLASSES
            &&& block_size(c) >= size
            &&& block_size(c) >= align
            &&& c > 0 ==> block_size(c - 1) < size || block_size(c - 1) < align
        },
        spec_list_index(size, align) is None <==> (size > 2048 && size >= align) || (align > 2048
            && align >= size),
{
}

/// Align `addr` upward to `align`, which must be at least one: the
/// smallest multiple of `align` at or above `addr`.
pub fn align_up(addr: u64, align: u64) -> (r: u64)
    requires
        align >= 1,
        addr + align - 1 <= u64::MAX,
    ensures
        r == addr + align_pad(addr as int, align as int),
        r % align == 0,
        addr <= r < addr + align,
{
    proof {
        lemma_align_pad(addr as int, align as int);
    }
    let rem = addr % align;
    if rem == 0 {
        addr
    } else {
        addr + (align - rem)
    }
}

/// A maximal free area within the fallback heap region.
#[derive(Debug, Clone, Copy, PartialEq, Eq, Structural)]
pub struct FreeRegion {
    pub start: u64,
    pub size: u64,
}

/// Ghost state of the fallback allocator: the heap bounds and the free
/// areas, kept in address order.
#[verifier::ext_equal]
pub struct FallbackView {
    pub bottom: int,
    pub size: int,
    pub holes: Seq<FreeRegion>,
}

impl FallbackView {
    /// Well-formedness: the region does not wrap, its base is nonzero (so
    /// a zero address can signal failure), and the free areas are
    /// nonempty, lie within the region, and are sorted, disjoint and
    /// maximal — two areas never touch, since touching areas merge.
    pub open spec fn wf(self) -> bool {
        &&& 1 <= self.bottom
        &&& self.bottom + self.size <= u64::MAX
        &&& forall|i: int|
            0 <= i < self.holes.len() ==> {
                &&& (#[trigger] self.holes[i]).size > 0
                &&& self.bottom <= self.holes[i].start
                &&& self.holes[i].start + self.holes[i].size <= self.bottom + self.size
            }
        &&& forall|i: int, j: int|
            0 <= i < j < self.holes.len() ==> #[trigger] self.holes[i].start + self.holes[i].size
                < #[trigger] self.holes[j].start
    }

    /// Whether address `a` lies in some free area.
    pub open spec fn covers(self, a: int) -> bool {
        exists|i: int|
            0 <= i < self.holes.len() && (#[trigger] self.holes[i]).start <= a < self.holes[i].start
                + self.holes[i].size
    }
}

/// Padding that aligns `start` upward to `align`.
pub open spec fn align_pad(start: int, align: int) -> int {
    if start % align == 0 {
        0
    } else {
        align - start % align
    }
}

/// Aligning by the padding lands on a multiple of the alignment, at most
/// one alignment step above the start.
pub proof fn lemma_align_pad(start: int, align: int)
    requires
        align >= 1,
        start >= 0,
    ensures
        (start + align_pad(start, align)) % align == 0,
        0 <= align_pad(start, align) < align,
{
    let r = start % align;
    vstd::arithmetic::div_mod::lemma_mod_bound(start, align);
    if r != 0 {
        vstd::arithmetic::div_mod::lemma_fundamental_div_mod(start, align);
        let q = start / align;
        assert(start + (align - r) == (q + 1) * align) by (nonlinear_arith)
            requires
                start == align * q + r,
        ;
        vstd::arithmetic::div_mod::lemma_mod_multiples_basic(q + 1, align);
    }
}

/// First-fit search: the index of the first free area that can hold an
/// aligned request, together with the aligned address inside it.
pub open spec fn spec_find_fit(holes: Seq<FreeRegion>, size: int, align: int) -> Option<(int, int)>
    decreases holes.len(),
{
    if holes.len() == 0 {
        None
    } else {
        let h = holes[0];
        let pad = align_pad(h.start as int, align);
        if pad + size <= h.size {
            Some((0int, h.start + pad))
        } else {
            match spec_find_fit(holes.drop_first(), size, align) {
                None => None,
                Some((i, a)) => Some((i + 1, a)),
            }
        }
    }
}

/// The free areas left after carving `[addr, addr + size)` out of area
/// `i`: what remains in front of and behind the carved range stays free.
pub open spec fn spec_carve(holes: Seq<FreeRegion>, i: int, addr: int, size: int) -> Seq<
    FreeRegion,
> {
    let h = holes[i];
    let front = FreeRegion { start: h.start, size: (addr - h.start) as u64 };
    let back = FreeRegion {
        start: (addr + size) as u64,
        size: (h.start + h.size - addr - size) as u64,
    };
    let tail = if h.start + h.size - addr - size > 0 {
        seq![back]
    } else {
        seq![]
    };
    let head = if addr - h.start > 0 {
        seq![front]
    } else {
        seq![]
    };
    holes.take(i) + head + tail + holes.skip(i + 1)
}

/// One allocation step of the fallback allocator: the new state and the
/// chosen address, zero when no free area fits.
pub open spec fn spec_fb_alloc(v: FallbackView, size: int, align: int) -> (FallbackView, int) {
    match spec_find_fit(v.holes, size, align) {
        None => (v, 0int),
        Some((i, a)) => (
            FallbackView { holes: spec_carve(v.holes, i, a, size), ..v },
            a,
        ),
    }
}

/// Position at which a freed region starting at `addr` belongs in the
/// ordered free list: the number of areas that start at or before it.
pub open spec fn spec_insert_pos(holes: Seq<FreeRegion>, addr: int) -> int
    decreases holes.len(),
{
    if holes.len() == 0 || holes[0].start > addr {
        0
    } else {
        1 + spec_insert_pos(holes.drop_first(), addr)
    }
}

/// One deallocation step of the fallback allocator: the freed range is
/// put back in address order and merged with a touching neighbour on
/// either side.
pub open spec fn spec_fb_dealloc(v: FallbackView, addr: int, size: int) -> FallbackView {
    let j = spec_insert_pos(v.holes, addr);
    let merge_left = j > 0 && v.holes[j - 1].start + v.holes[j - 1].size == addr;
    let merge_right = j < v.holes.len() && addr + size == v.holes[j].start;
    let holes = if merge_left && merge_right {
        let joined = FreeRegion {
            start: v.holes[j - 1].start,
            size: (v.holes[j - 1].size + size + v.holes[j].size) as u64,
        };
        v.holes.take(j - 1) + seq![joined] + v.holes.skip(j + 1)
    } else if merge_left {
        let joined = FreeRegion {
            start: v.holes[j - 1].start,
            size: (v.holes[j - 1].size + size) as u64,
        };
        v.holes.take(j - 1) + seq![joined] + v.holes.skip(j)
    } else if merge_right {
        let joined = FreeRegion { start: addr as u64, size: (size + v.holes[j].size) as u64 };
        v.holes.take(j) + seq![joined] + v.holes.skip(j + 1)
    } else {
        v.holes.take(j) + seq![FreeRegion { start: addr as u64, size: size as u64 }]
            + v.holes.skip(j)
    };
    FallbackView { holes, ..v }
}

/// First-fit free-area manager over one contiguous heap region, the
/// fallback behind the block classes.
pub struct FallbackAllocator {
    pub bottom: u64,
    pub size: u64,
    pub holes: Vec<FreeRegion>,
}

impl View for FallbackAllocator {
    type V = FallbackView;

    open spec fn view(&self) -> FallbackView {
        FallbackView { bottom: self.bottom as int, size: self.size as int, holes: self.holes@ }
    }
}

impl FallbackAllocator {
    /// An allocator over no memory; every allocation fails until `init`.
    pub fn empty() -> (r: FallbackAllocator)
        ensures
            r@.wf(),
            r@.holes.len() == 0,
            r@.size == 0,
    {
        FallbackAllocator { bottom: 1, size: 0, holes: Vec::new() }
    }

    /// Hand the allocator its heap region; the whole region is one free
    /// area.
    pub fn init(&mut self, heap_start: u64, heap_size: u64)
        requires
            1 <= heap_start,
            heap_start + heap_size <= u64::MAX,
            heap_size > 0,
        ensures
            final(self)@.wf(),
            final(self)@.bottom == heap_start,
            final(self)@.size == heap_size,
            final(self)@.holes == seq![FreeRegion { start: heap_start, size: heap_size }],
    {
        self.bottom = heap_start;
        self.size = heap_size;
        let mut holes: Vec<FreeRegion> = Vec::new();
        holes.push(FreeRegion { start: heap_start, size: heap_size });
        self.holes = holes;
        assert(self@.holes =~= seq![FreeRegion { start: heap_start, size: heap_size }]);
    }

    /// Allocate `size` bytes aligned to `align` from the first free area
    /// that fits, or report failure with a zero address.
    pub fn allocate_first_fit(&mut self, size: u64, align: u64) -> (r: u64)
        requires
            old(self)@.wf(),
            1 <= size,
            1 <= align,
        ensures
            (final(self)@, r as int) == spec_fb_alloc(old(self)@, size as int, align as int),
            r != 0 ==> r % align == 0 && old(self)@.bottom <= r && r + size <= old(self)@.bottom
                + old(self)@.size,
            final(self)@.wf(),
            final(self)@.bottom == old(self)@.bottom,
            final(self)@.size == old(self)@.size,
    {
        let ghost v0 = self@;
        proof {
            assert(v0.holes.skip(0) =~= v0.holes);
        }
        let mut i: usize = 0;
        while i < self.holes.len()
            invariant
                old(self)@ == v0,
                self@ == v0,
                v0.wf(),
                1 <= size,
                1 <= align,
                i <= self.holes.len(),
                spec_find_fit(v0.holes, size as int, align as int) == match spec_find_fit(
                    v0.holes.skip(i as int),
                    size as int,
                    align as int,
                ) {
                    None => None::<(int, int)>,
                    Some((k, a)) => Some((k + i, a)),
                },
            decreases self.holes.len() - i,
        {
            let h = self.holes[i];
            proof {
                assert(v0.holes[i as int] == h);
                assert(v0.holes.skip(i as int)[0] == h);
                lemma_align_pad(h.start as int, align as int);
            }
            let rem = h.start % align;
            let pad = if rem == 0 {
                0
            } else {
                align - rem
            };
            if pad <= h.size && size <= h.size - pad {
                let addr = h.start + pad;
                proof {
                    assert(spec_find_fit(v0.holes.skip(i as int), size as int, align as int)
                        == Some((0int, addr as int)));
                    assert(spec_find_fit(v0.holes, size as int, align as int) == Some(
                        (i as int, addr as int),
                    ));
                }
                self.carve(i, addr, size);
                proof {
                    let expected = spec_fb_alloc(v0, size as int, align as int);
                    assert(self@ =~= expected.0);
                    assert(addr as int == expected.1);
                    assert(addr as int % align as int == 0);
                }
                return addr;
            }
            proof {
                let rest = v0.holes.skip(i as int);
                assert(rest.drop_first() =~= v0.holes.skip(i + 1));
                assert(align_pad(h.start as int, align as int) + size > h.size);
            }
            i += 1;
        }
        proof {
            assert(v0.holes.skip(self.holes.len() as int) =~= Seq::<FreeRegion>::empty());
            assert(spec_find_fit(v0.holes, size as int, align as int) is None);
        }
        0
    }

    /// Remove `[addr, addr + size)` from free area `i`, keeping whatever
    /// remains on either side free.
    fn carve(&mut self, i: usize, addr: u64, size: u64)
        requires
            old(self)@.wf(),
            i < old(self)@.holes.len(),
            old(self)@.holes[i as int].start <= addr,
            addr + size <= old(self)@.holes[i as int].start + old(self)@.holes[i as int].size,
            size >= 1,
        ensures
            final(self)@.holes == spec_carve(old(self)@.holes, i as int, addr as int, size as int),
            final(self)@.bottom == old(self)@.bottom,
            final(self)@.size == old(self)@.size,
            final(self)@.wf(),
    {
        let ghost v0 = self@;
        let h = self.holes[i];
        let front_size = addr - h.start;
        let back_size = (h.start + h.size) - (addr + size);
        self.holes.remove(i);
        if back_size > 0 {
            self.holes.insert(i, FreeRegion { start: addr + size, size: back_size });
        }
        if front_size > 0 {
            self.holes.insert(i, FreeRegion { start: h.start, size: front_size });
        }
        proof {
            let target = spec_carve(v0.holes, i as int, addr as int, size as int);
            assert(self@.holes =~= target);
            lemma_carve_wf(v0, i as int, addr as int, size as int);
        }
    }

    /// Return `[addr, addr + size)` to the free list, merging with a
    /// touching neighbour on either side; afterwards the free areas cover
    /// exactly what they did before plus the freed range.
    #[verifier::rlimit(100)]
    pub fn deallocate(&mut self, addr: u64, size: u64)
        requires
            old(self)@.wf(),
            size >= 1,
            old(self)@.bottom <= addr,
            addr + size <= old(self)@.bottom + old(self)@.size,
            forall|a: int| addr <= a < addr + size ==> !old(self)@.covers(a),
            !old(self)@.covers(addr + size - 1),
        ensures
            final(self)@ == spec_fb_dealloc(old(self)@, addr as int, size as int),
            final(self)@.wf(),
            final(self)@.bottom == old(self)@.bottom,
            final(self)@.size == old(self)@.size,
            forall|a: int|
                final(self)@.covers(a) <==> (old(self)@.covers(a) || addr <= a < addr + size),
    {
        proof {
            lemma_fb_dealloc(self@, addr as int, size as int);
        }
        let ghost v0 = self@;
        proof {
            assert(v0.holes.skip(0) =~= v0.holes);
        }
        let mut j: usize = 0;
        while j < self.holes.len() && self.holes[j].start <= addr
            invariant
                self@ == v0,
                v0.wf(),
                j <= self.holes.len(),
                spec_insert_pos(v0.holes, addr as int) == j + spec_insert_pos(
                    v0.holes.skip(j as int),
                    addr as int,
                ),
                forall|k: int| 0 <= k < j ==> (#[trigger] v0.holes[k]).start <= addr,
            decreases self.holes.len() - j,
        {
            proof {
                assert(v0.holes.skip(j as int)[0] == v0.holes[j as int]);
                assert(v0.holes.skip(j as int).drop_first() =~= v0.holes.skip(j + 1));
            }
            j += 1;
        }
        proof {
            if j < self.holes.len() {
                assert(v0.holes.skip(j as int)[0] == v0.holes[j as int]);
            } else {
                assert(v0.holes.skip(j as int) =~= Seq::<FreeRegion>::empty());
            }
            assert(spec_insert_pos(v0.holes, addr as int) == j as int);
        }
        let merge_left = j > 0 && {
            let left = self.holes[j - 1];
            left.start + left.size == addr
        };
        let merge_right = j < self.holes.len() && addr + size == self.holes[j].start;
        if merge_left && merge_right {
            let left = self.holes[j - 1];
            let right = self.holes[j];
            self.holes.remove(j);
            self.holes.set(
                j - 1,
                FreeRegion { start: left.start, size: left.size + size + right.size },
            );
        } else if merge_left {
            let left = self.holes[j - 1];
            self.holes.set(j - 1, FreeRegion { start: left.start, size: left.size + size });
        } else if merge_right {
            let right = self.holes[j];
            self.holes.set(j, FreeRegion { start: addr, size: size + right.size });
        } else {
            self.holes.insert(j, FreeRegion { start: addr, size });
        }
        proof {
            assert(self@.holes =~= spec_fb_dealloc(v0, addr as int, size as int).holes);
            assert(self@ == spec_fb_dealloc(v0, addr as int, size as int));
        }
    }
}

/// Carving an allocated range out of a free area keeps the free list well
/// formed.
pub proof fn lemma_carve_wf(v: FallbackView, i: int, addr: int, size: int)
    requires
        v.wf(),
        0 <= i < v.holes.len(),
        v.holes[i].start <= addr,
        addr + size <= v.holes[i].start + v.holes[i].size,
        size >= 1,
    ensures
        (FallbackView { holes: spec_carve(v.holes, i, addr, size), ..v }).wf(),
{
    let h = v.holes[i];
    let nh = spec_carve(v.holes, i, addr, size);
    let hl: int = if addr - h.start > 0 {
        1
    } else {
        0
    };
    let tl: int = if h.start + h.size - addr - size > 0 {
        1
    } else {
        0
    };
    // identify each new entry with an old entry or the front or back piece
    assert forall|p: int| 0 <= p < nh.len() implies {
        &&& (#[trigger] nh[p]).size > 0
        &&& v.bottom <= nh[p].start
        &&& nh[p].start + nh[p].size <= v.bottom + v.size
        &&& p < i ==> nh[p] == v.holes[p]
        &&& p >= i + hl + tl ==> nh[p] == v.holes[p - hl - tl + 1]
    } by {
        if p < i {
            assert(nh[p] == v.holes[p]);
        } else if p >= i + hl + tl {
            assert(nh[p] == v.holes[p - hl - tl + 1]);
        }
    }
    assert forall|p: int, q: int| 0 <= p < q < nh.len() implies #[trigger] nh[p].start + nh[p].size
        <= #[trigger] nh[q].start by {
        if p < i {
            assert(nh[p] == v.holes[p]);
        } else if p >= i + hl + tl {
            assert(nh[p] == v.holes[p - hl - tl + 1]);
        }
        if q < i {
            assert(nh[q] == v.holes[q]);
        } else if q >= i + hl + tl {
            assert(nh[q] == v.holes[q - hl - tl + 1]);
        }
    }
}

/// Putting a disjoint range back preserves well-formedness and makes the
/// free areas cover exactly the old coverage plus that range.
pub proof fn lemma_fb_dealloc(v: FallbackView, addr: int, size: int)
    requires
        v.wf(),
        size >= 1,
        v.bottom <= addr,
        addr + size <= v.bottom + v.size,
        forall|a: int| addr <= a < addr + size ==> !v.covers(a),
    ensures
        ({
            let v2 = spec_fb_dealloc(v, addr, size);
            &&& v2.wf()
            &&& v2.bottom == v.bottom
            &&& v2.size == v.size
            &&& forall|a: int| v2.covers(a) <==> (v.covers(a) || addr <= a < addr + size)
        }),
{
    let j = spec_insert_pos(v.holes, addr);
    lemma_insert_pos_bounds(v.holes, addr);
    assert(!v.covers(addr));
    if j > 0 {
        assert(v.holes[j - 1].start <= addr);
        assert(!(v.holes[j - 1].start <= addr < v.holes[j - 1].start + v.holes[j - 1].size));
        assert(v.holes[j - 1].start + v.holes[j - 1].size <= addr);
    }
    if j < v.holes.len() {
        assert(addr < v.holes[j].start);
        // the freed range may not overlap the next free area
        if addr + size > v.holes[j].start {
            assert(addr <= v.holes[j].start < addr + size);
            assert(v.covers(v.holes[j].start as int));
            assert(false);
        }
        assert(addr + size <= v.holes[j].start);
    }
    let v2 = spec_fb_dealloc(v, addr, size);
    let merge_left = j > 0 && v.holes[j - 1].start + v.holes[j - 1].size == addr;
    let merge_right = j < v.holes.len() && addr + size == v.holes[j].start;
    let nh = v2.holes;
    assert(v2.wf()) by {
        assert forall|p: int, q: int| 0 <= p < q < nh.len() implies #[trigger] nh[p].start
            + nh[p].size <= #[trigger] nh[q].start by {
            entry_facts(v, addr, size, j, p);
            entry_facts(v, addr, size, j, q);
        }
        assert forall|p: int| 0 <= p < nh.len() implies {
            &&& (#[trigger] nh[p]).size > 0
            &&& v.bottom <= nh[p].start
            &&& nh[p].start + nh[p].size <= v.bottom + v.size
        } by {
            entry_facts(v, addr, size, j, p);
        }
    }
    assert forall|a: int| v2.covers(a) <==> (v.covers(a) || addr <= a < addr + size) by {
        lemma_dealloc_covers(v, addr, size, a);
    }
}

/// Start and end bounds of entry `p` of the free list after a
/// deallocation, phrased against the old list and the freed range.
proof fn entry_facts(v: FallbackView, addr: int, size: int, j_in: int, p: int)
    requires
        v.wf(),
        size >= 1,
        v.bottom <= addr,
        addr + size <= v.bottom + v.size,
        forall|a: int| addr <= a < addr + size ==> !v.covers(a),
        j_in == spec_insert_pos(v.holes, addr),
        0 <= p < spec_fb_dealloc(v, addr, size).holes.len(),
    ensures
        ({
            let nh = spec_fb_dealloc(v, addr, size).holes;
            let h = nh[p];
            &&& h.size > 0
            &&& v.bottom <= h.start
            &&& h.start + h.size <= v.bottom + v.size
            &&& forall|q: int|
                0 <= q < nh.len() && p < q ==> h.start + h.size <= (#[trigger] nh[q]).start
        }),
{
    let j = spec_insert_pos(v.holes, addr);
    lemma_insert_pos_bounds(v.holes, addr);
    assert(!v.covers(addr));
    if j > 0 {
        assert(v.holes[j - 1].start + v.holes[j - 1].size <= addr);
    }
    if j < v.holes.len() {
        if addr + size > v.holes[j].start {
            assert(addr <= v.holes[j].start < addr + size);
            assert(v.covers(v.holes[j].start as int));
            assert(false);
        }
    }
    let merge_left = j > 0 && v.holes[j - 1].start + v.holes[j - 1].size == addr;
    let merge_right = j < v.holes.len() && addr + size == v.holes[j].start;
    let nh = spec_fb_dealloc(v, addr, size).holes;
    let h = nh[p];
    // identify nh[p] against the old list
    if merge_left && merge_right {
        if p < j - 1 {
            assert(h == v.holes[p]);
        } else if p == j - 1 {
        } else {
            assert(h == v.holes[p + 1]);
        }
    } else if merge_left {
        if p < j - 1 {
            assert(h == v.holes[p]);
        } else if p == j - 1 {
        } else {
            assert(h == v.holes[p]);
        }
    } else if merge_right {
        if p < j {
            assert(h == v.holes[p]);
        } else if p == j {
        } else {
            assert(h == v.holes[p]);
        }
    } else {
        if p < j {
            assert(h == v.holes[p]);
        } else if p == j {
        } else {
            assert(h == v.holes[p - 1]);
        }
    }
    assert forall|q: int| 0 <= q < nh.len() && p < q implies h.start + h.size <= (
    #[trigger] nh[q]).start by {
        if merge_left && merge_right {
            if q < j - 1 {
                assert(nh[q] == v.holes[q]);
            } else if q > j - 1 {
                assert(nh[q] == v.holes[q + 1]);
            }
        } else if merge_left {
            if q != j - 1 {
                assert(nh[q] == v.holes[q]);
            }
        } else if merge_right {
            if q != j {
                assert(nh[q] == v.holes[q]);
            }
        } else {
            if q < j {
                assert(nh[q] == v.holes[q]);
            } else if q > j {
                assert(nh[q] == v.holes[q - 1]);
            }
        }
    }
}

/// Coverage after deallocation, address by address.
proof fn lemma_dealloc_covers(v: FallbackView, addr: int, size: int, a: int)
    requires
        v.wf(),
        size >= 1,
        v.bottom <= addr,
        addr + size <= v.bottom + v.size,
        forall|x: int| addr <= x < addr + size ==> !v.covers(x),
    ensures
        spec_fb_dealloc(v, addr, size).covers(a) <==> (v.covers(a) || addr <= a < addr + size),
{
    let j = spec_insert_pos(v.holes, addr);
    lemma_insert_pos_bounds(v.holes, addr);
    if j > 0 {
        assert(!v.covers(addr));
        assert(v.holes[j - 1].start + v.holes[j - 1].size <= addr);
    }
    if j < v.holes.len() {
        if addr + size > v.holes[j].start {
            assert(v.covers(v.holes[j].start as int));
            assert(false);
        }
    }
    let merge_left = j > 0 && v.holes[j - 1].start + v.holes[j - 1].size == addr;
    let merge_right = j < v.holes.len() && addr + size == v.holes[j].start;
    let nh = spec_fb_dealloc(v, addr, size).holes;
    if v.covers(a) {
        let i = choose|i: int|
            0 <= i < v.holes.len() && (#[trigger] v.holes[i]).start <= a < v.holes[i].start
                + v.holes[i].size;
        let p = old_index_to_new(v, addr, size, i);
        assert(nh[p].start <= a < nh[p].start + nh[p].size);
        assert(spec_fb_dealloc(v, addr, size).covers(a));
    }
    if addr <= a < addr + size {
        let p = if merge_left {
            j - 1
        } else {
            j
        };
        assert(nh[p].start <= a < nh[p].start + nh[p].size);
        assert(spec_fb_dealloc(v, addr, size).covers(a));
    }
    if spec_fb_dealloc(v, addr, size).covers(a) {
        let p = choose|p: int|
            0 <= p < nh.len() && (#[trigger] nh[p]).start <= a < nh[p].start + nh[p].size;
        if !(addr <= a < addr + size) {
            assert(v.covers(a)) by {
                new_index_covered(v, addr, size, p, a);
            }
        }
    }
}

/// Map an old free-list index to where that area (possibly merged) sits
/// after the deallocation, such that the new area contains the old one.
proof fn old_index_to_new(v: FallbackView, addr: int, size: int, i: int) -> (p: int)
    requires
        v.wf(),
        size >= 1,
        v.bottom <= addr,
        addr + size <= v.bottom + v.size,
        forall|x: int| addr <= x < addr + size ==> !v.covers(x),
        0 <= i < v.holes.len(),
    ensures
        ({
            let nh = spec_fb_dealloc(v, addr, size).holes;
            &&& 0 <= p < nh.len()
            &&& nh[p].start <= v.holes[i].start
            &&& v.holes[i].start + v.holes[i].size <= nh[p].start + nh[p].size
        }),
{
    let j = spec_insert_pos(v.holes, addr);
    lemma_insert_pos_bounds(v.holes, addr);
    if j > 0 {
        assert(!v.covers(addr));
        assert(v.holes[j - 1].start + v.holes[j - 1].size <= addr);
    }
    if j < v.holes.len() {
        if addr + size > v.holes[j].start {
            assert(v.covers(v.holes[j].start as int));
            assert(false);
        }
    }
    let merge_left = j > 0 && v.holes[j - 1].start + v.holes[j - 1].size == addr;
    let merge_right = j < v.holes.len() && addr + size == v.holes[j].start;
    let nh = spec_fb_dealloc(v, addr, size).holes;
    if merge_left && merge_right {
        if i < j - 1 {
            assert(nh[i] == v.holes[i]);
            i
        } else if i == j - 1 {
            j - 1
        } else if i == j {
            j - 1
        } else {
            assert(nh[i - 1] == v.holes[i]);
            i - 1
        }
    } else if merge_left {
        if i == j - 1 {
            j - 1
        } else {
            assert(nh[i] == v.holes[i]);
            i
        }
    } else if merge_right {
        if i < j {
            assert(nh[i] == v.holes[i]);
            i
        } else if i == j {
            j
        } else {
            assert(nh[i] == v.holes[i]);
            i
        }
    } else {
        if i < j {
            assert(nh[i] == v.holes[i]);
            i
        } else {
            assert(nh[i + 1] == v.holes[i]);
            i + 1
        }
    }
}

/// Every address inside a new free area was either free before or lies in
/// the range just freed.
proof fn new_index_covered(v: FallbackView, addr: int, size: int, p: int, a: int)
    requires
        v.wf(),
        size >= 1,
        v.bottom <= addr,
        addr + size <= v.bottom + v.size,
        forall|x: int| addr <= x < addr + size ==> !v.covers(x),
        0 <= p < spec_fb_dealloc(v, addr, size).holes.len(),
        ({
            let nh = spec_fb_dealloc(v, addr, size).holes;
            nh[p].start <= a < nh[p].start + nh[p].size
        }),
        !(addr <= a < addr + size),
    ensures
        v.covers(a),
{
    let j = spec_insert_pos(v.holes, addr);
    lemma_insert_pos_bounds(v.holes, addr);
    if j > 0 {
        assert(!v.covers(addr));
        assert(v.holes[j - 1].start + v.holes[j - 1].size <= addr);
    }
    if j < v.holes.len() {
        if addr + size > v.holes[j].start {
            assert(v.covers(v.holes[j].start as int));
            assert(false);
        }
    }
    let merge_left = j > 0 && v.holes[j - 1].start + v.holes[j - 1].size == addr;
    let merge_right = j < v.holes.len() && addr + size == v.holes[j].start;
    let nh = spec_fb_dealloc(v, addr, size).holes;
    if merge_left && merge_right {
        if p < j - 1 {
            assert(nh[p] == v.holes[p]);
            assert(v.covers(a));
        } else if p == j - 1 {
            if a < addr {
                assert(v.holes[j - 1].start <= a < v.holes[j - 1].start + v.holes[j - 1].size);
                assert(v.covers(a));
            } else {
                assert(v.holes[j].start <= a < v.holes[j].start + v.holes[j].size);
                assert(v.covers(a));
            }
        } else {
            assert(nh[p] == v.holes[p + 1]);
            assert(v.covers(a));
        }
    } else if merge_left {
        if p == j - 1 {
            assert(a < addr);
            assert(v.holes[j - 1].start <= a < v.holes[j - 1].start + v.holes[j - 1].size);
            assert(v.covers(a));
        } else {
            assert(nh[p] == v.holes[p]);
            assert(v.covers(a));
        }
    } else if merge_right {
        if p == j {
            assert(a >= addr + size);
            assert(v.holes[j].start <= a < v.holes[j].start + v.holes[j].size);
            assert(v.covers(a));
        } else {
            assert(nh[p] == v.holes[p]);
            assert(v.covers(a));
        }
    } else {
        if p < j {
            assert(nh[p] == v.holes[p]);
            assert(v.covers(a));
        } else if p == j {
            assert(false);
        } else {
            assert(nh[p] == v.holes[p - 1]);
            assert(v.covers(a));
        }
    }
}

/// Ghost state of the block allocator: one stack of free block addresses
/// per class, over the fallback allocator's state.
#[verifier::ext_equal]
pub struct HeapView {
    pub heads: Seq<Seq<u64>>,
    pub fallback: FallbackView,
}

impl HeapView {
    /// Well-formedness: one free list per class, the fallback is well
    /// formed, and every block on list `c` is a nonzero address aligned
    /// to that class's block size.
    pub open spec fn wf(self) -> bool {
        &&& self.heads.len() == BLOCK_CLASSES
        &&& self.fallback.wf()
        &&& forall|c: int, k: int|
            0 <= c < BLOCK_CLASSES && 0 <= k < self.heads[c].len() ==> (#[trigger] self.heads[c][k])
                != 0 && self.heads[c][k] % (block_size(c) as u64) == 0
    }
}

/// One allocation step of the block allocator: a request a class serves
/// is popped from that class's free list, or taken block-sized from the
/// fallback when the list is empty; a request no class serves goes to the
/// fallback with its own layout.  A zero address reports failure.
pub open spec fn spec_alloc(v: HeapView, size: int, align: int) -> (HeapView, int) {
    match spec_list_index(size, align) {
        Some(c) => if v.heads[c].len() > 0 {
            (HeapView { heads: v.heads.update(c, v.heads[c].drop_last()), ..v }, v.heads[c].last() as int)
        } else {
            let (fb, a) = spec_fb_alloc(v.fallback, block_size(c), block_size(c));
            (HeapView { fallback: fb, ..v }, a)
        },
        None => {
            let (fb, a) = spec_fb_alloc(v.fallback, size, align);
            (HeapView { fallback: fb, ..v }, a)
        },
    }
}

/// One deallocation step of the block allocator: a block a class would
/// have served is pushed onto that class's free list; anything else goes
/// back to the fallback.
pub open spec fn spec_dealloc(v: HeapView, addr: int, size: int, align: int) -> HeapView {
    match spec_list_index(size, align) {
        Some(c) => HeapView { heads: v.heads.update(c, v.heads[c].push(addr as u64)), ..v },
        None => HeapView { fallback: spec_fb_dealloc(v.fallback, addr, size), ..v },
    }
}

/// Fixed-size-block front end over the fallback allocator: nine free
/// lists of interchangeable blocks, one per class.
pub struct FixedSizeBlockAllocator {
    pub heads: Vec<Vec<u64>>,
    pub fallback_alloc: FallbackAllocator,
}

impl View for FixedSizeBlockAllocator {
    type V = HeapView;

    open spec fn view(&self) -> HeapView {
        HeapView {
            heads: Seq::new(self.heads@.len(), |c: int| self.heads@[c]@),
            fallback: self.fallback_alloc@,
        }
    }
}

impl FixedSizeBlockAllocator {
    /// An allocator with every free list empty and no fallback memory.
    pub fn new() -> (r: FixedSizeBlockAllocator)
        ensures
            r@.wf(),
            forall|c: int| 0 <= c < BLOCK_CLASSES ==> r@.heads[c].len() == 0,
            r@.fallback.holes.len() == 0,
            r@.fallback.size == 0,
    {
        let mut heads: Vec<Vec<u64>> = Vec::new();
        let mut c: usize = 0;
        while c < BLOCK_CLASSES
            invariant
                c <= BLOCK_CLASSES,
                heads@.len() == c,
                forall|k: int| 0 <= k < c ==> (#[trigger] heads@[k])@.len() == 0,
            decreases BLOCK_CLASSES - c,
        {
            heads.push(Vec::new());
            c += 1;
        }
        FixedSizeBlockAllocator { heads, fallback_alloc: FallbackAllocator::empty() }
    }

    /// Hand the allocator its heap region.
    pub fn init(&mut self, heap_start: u64, heap_size: u64)
        requires
            old(self)@.wf(),
            1 <= heap_start,
            heap_start + heap_size <= u64::MAX,
            heap_size > 0,
        ensures
            final(self)@.wf(),
            final(self)@.heads == old(self)@.heads,
            final(self)@.fallback.bottom == heap_start,
            final(self)@.fallback.size == heap_size,
            final(self)@.fallback.holes == seq![
                FreeRegion { start: heap_start, size: heap_size },
            ],
    {
        self.fallback_alloc.init(heap_start, heap_size);
        assert(final(self)@.heads =~= old(self)@.heads);
    }

    /// Allocate straight from the fallback allocator.
    fn fallback_alloc(&mut self, size: u64, align: u64) -> (r: u64)
        requires
            old(self)@.wf(),
            1 <= size,
            1 <= align,
        ensures
            final(self)@.heads == old(self)@.heads,
            (final(self)@.fallback, r as int) == spec_fb_alloc(
                old(self)@.fallback,
                size as int,
                align as int,
            ),
            r != 0 ==> r % align == 0 && old(self)@.fallback.bottom <= r && r + size <= old(
                self,
            )@.fallback.bottom + old(self)@.fallback.size,
            final(self)@.wf(),
    {
        let r = self.fallback_alloc.allocate_first_fit(size, align);
        assert(final(self)@.heads =~= old(self)@.heads);
        r
    }

    /// Serve a request of `size` bytes aligned to `align`, preferring the
    /// request's block class and falling back to the free-area manager; a
    /// zero address reports exhaustion.
    pub fn allocate(&mut self, size: u64, align: u64) -> (r: u64)
        requires
            old(self)@.wf(),
            1 <= size,
            1 <= align,
        ensures
            (final(self)@, r as int) == spec_alloc(old(self)@, size as int, align as int),
            final(self)@.wf(),
            spec_list_index(size as int, align as int) matches Some(c) ==> (r != 0 ==> r % (
            block_size(c) as u64) == 0 && block_size(c) >= size && block_size(c) >= align),
    {
        proof {
            lemma_list_index_fits(size as int, align as int);
        }
        let ghost v0 = self@;
        let index = match list_index(size, align) {
            Some(index) => index,
            None => {
                let r = self.fallback_alloc(size, align);
                proof {
                    assert(self@ =~= spec_alloc(v0, size as int, align as int).0);
                }
                return r;
            },
        };
        if self.heads[index].len() > 0 {
            let mut row = self.heads.remove(index);
            let node = row.pop().unwrap();
            self.heads.insert(index, row);
            proof {
                assert(self@.heads =~= v0.heads.update(
                    index as int,
                    v0.heads[index as int].drop_last(),
                ));
                assert(self@ =~= spec_alloc(v0, size as int, align as int).0);
                assert(v0.heads[index as int].last() == node);
            }
            node
        } else {
            let bs = block_size_of(index);
            let r = self.fallback_alloc(bs, bs);
            proof {
                assert(self@ =~= spec_alloc(v0, size as int, align as int).0);
            }
            r
        }
    }

    /// Give a block back: one a class would have served joins that
    /// class's free list, anything else returns to the fallback.
    pub fn dealloc(&mut self, addr: u64, size: u64, align: u64)
        requires
            old(self)@.wf(),
            1 <= size,
            1 <= align,
            match spec_list_index(size as int, align as int) {
                Some(c) => addr != 0 && addr % (block_size(c) as u64) == 0,
                None => {
                    &&& old(self)@.fallback.bottom <= addr
                    &&& addr + size <= old(self)@.fallback.bottom + old(self)@.fallback.size
                    &&& forall|a: int|
                        addr <= a < addr + size ==> !old(self)@.fallback.covers(a)
                },
            },
        ensures
            final(self)@ == spec_dealloc(old(self)@, addr as int, size as int, align as int),
            final(self)@.wf(),
    {
        let ghost v0 = self@;
        let index = match list_index(size, align) {
            Some(index) => index,
            None => {
                self.fallback_alloc.deallocate(addr, size);
                proof {
                    assert(self@.heads =~= v0.heads);
                    assert(self@ =~= spec_dealloc(v0, addr as int, size as int, align as int));
                }
                return ;
            },
        };
        proof {
            lemma_list_index_fits(size as int, align as int);
        }
        let mut row = self.heads.remove(index);
        row.push(addr);
        self.heads.insert(index, row);
        proof {
            assert(self@.heads =~= v0.heads.update(
                index as int,
                v0.heads[index as int].push(addr),
            ));
            assert(self@ =~= spec_dealloc(v0, addr as int, size as int, align as int));
        }
    }
}

/// First-fit search finds the first area that fits: the chosen index is
/// in range and the chosen address is the aligned start within that area,
/// with the request lying inside it.
pub proof fn lemma_find_fit_props(holes: Seq<FreeRegion>, size: int, align: int)
    requires
        size >= 1,
        align >= 1,
    ensures
        spec_find_fit(holes, size, align) matches Some((i, a)) ==> {
            &&& 0 <= i < holes.len()
            &&& a == holes[i].start + align_pad(holes[i].start as int, align)
            &&& holes[i].start <= a
            &&& a + size <= holes[i].start + holes[i].size
            &&& a % align == 0
        },
    decreases holes.len(),
{
    if holes.len() > 0 {
        lemma_align_pad(holes[0].start as int, align);
        let pad = align_pad(holes[0].start as int, align);
        if pad + size <= holes[0].size {
        } else {
            lemma_find_fit_props(holes.drop_first(), size, align);
            assert forall|k: int| 0 <= k < holes.drop_first().len() implies holes.drop_first()[k]
                == holes[k + 1] by {}
        }
    }
}

/// What one fallback allocation step guarantees: a nonzero result is
/// aligned, lies within the heap region, and the state stays well formed.
pub proof fn lemma_fb_alloc_props(v: FallbackView, size: int, align: int)
    requires
        v.wf(),
        size >= 1,
        align >= 1,
    ensures
        ({
            let (v2, a) = spec_fb_alloc(v, size, align);
            &&& v2.wf()
            &&& v2.bottom == v.bottom
            &&& v2.size == v.size
            &&& a != 0 ==> a % align == 0 && v.bottom <= a && a + size <= v.bottom + v.size
        }),
{
    lemma_find_fit_props(v.holes, size, align);
    match spec_find_fit(v.holes, size, align) {
        None => {},
        Some((i, a)) => {
            lemma_carve_wf(v, i, a, size);
        },
    }
}

/// The block returned for a class-served request is at least
/// `max(size, align)` bytes and starts at an address aligned to the
/// chosen class's block size.
pub proof fn lemma_alloc_class_selection(v: HeapView, size: int, align: int)
    requires
        v.wf(),
        1 <= size,
        1 <= align,
        spec_list_index(size, align) is Some,
    ensures
        ({
            let c = spec_list_index(size, align)->Some_0;
            let (v2, a) = spec_alloc(v, size, align);
            &&& v2.wf()
            &&& a != 0 ==> a % block_size(c) == 0 && block_size(c) >= size && block_size(c)
                >= align
        }),
{
    let c = spec_list_index(size, align)->Some_0;
    lemma_list_index_fits(size, align);
    if v.heads[c].len() > 0 {
        assert(v.heads[c].last() == v.heads[c][v.heads[c].len() - 1]);
    } else {
        lemma_fb_alloc_props(v.fallback, block_size(c), block_size(c));
    }
}

/// The insertion position is pinned by any split of the list into a
/// prefix starting at or before `addr` and a suffix starting after it.
proof fn lemma_insert_pos_exact(holes: Seq<FreeRegion>, addr: int, j0: int)
    requires
        0 <= j0 <= holes.len(),
        forall|k: int| 0 <= k < j0 ==> (#[trigger] holes[k]).start <= addr,
        j0 < holes.len() ==> holes[j0].start > addr,
    ensures
        spec_insert_pos(holes, addr) == j0,
    decreases holes.len(),
{
    if holes.len() == 0 || holes[0].start > addr {
    } else {
        assert(forall|k: int|
            0 <= k < j0 - 1 ==> (#[trigger] holes.drop_first()[k]) == holes[k + 1]);
        if j0 - 1 < holes.drop_first().len() {
            assert(holes.drop_first()[j0 - 1] == holes[j0]);
        }
        lemma_insert_pos_exact(holes.drop_first(), addr, j0 - 1);
    }
}

/// Carving a range out of a free area and then freeing that same range
/// puts the free list back exactly as it was: the freed range merges
/// with whatever the carve left on either side.
#[verifier::rlimit(100)]
pub proof fn lemma_fb_alloc_dealloc_restores(v: FallbackView, size: int, align: int)
    requires
        v.wf(),
        size >= 1,
        align >= 1,
    ensures
        ({
            let (v1, a) = spec_fb_alloc(v, size, align);
            a != 0 ==> spec_fb_dealloc(v1, a, size) == v
        }),
{
    lemma_find_fit_props(v.holes, size, align);
    let (v1, a) = spec_fb_alloc(v, size, align);
    if a != 0 {
        let (i, a2) = spec_find_fit(v.holes, size, align).unwrap();
        assert(a2 == a);
        let h = v.holes[i];
        let hl: int = if a - h.start > 0 {
            1
        } else {
            0
        };
        let tl: int = if h.start + h.size - a - size > 0 {
            1
        } else {
            0
        };
        let nh = v1.holes;
        assert(nh.len() == v.holes.len() - 1 + hl + tl);
        assert(forall|k: int| 0 <= k < i ==> #[trigger] nh[k] == v.holes[k]);
        assert(forall|k: int|
            i + hl + tl <= k < nh.len() ==> #[trigger] nh[k] == v.holes[k - hl - tl + 1]);
        let j0 = i + hl;
        assert(spec_insert_pos(nh, a) == j0) by {
            assert forall|k: int| 0 <= k < j0 implies (#[trigger] nh[k]).start <= a by {
                if k < i {
                    assert(nh[k] == v.holes[k]);
                    assert(v.holes[k].start + v.holes[k].size <= v.holes[i].start);
                } else {
                    assert(nh[k].start == h.start);
                }
            }
            if j0 < nh.len() {
                if tl == 1 {
                    assert(nh[j0].start == a + size);
                } else {
                    assert(nh[j0] == v.holes[i + 1]);
                    assert(h.start + h.size <= v.holes[i + 1].start);
                }
            }
            lemma_insert_pos_exact(nh, a, j0);
        }
        let merge_left = j0 > 0 && nh[j0 - 1].start + nh[j0 - 1].size == a;
        let merge_right = j0 < nh.len() && a + size == nh[j0].start;
        if hl == 1 {
            assert(nh[j0 - 1].start == h.start && nh[j0 - 1].size == a - h.start);
            assert(merge_left);
        } else {
            if j0 > 0 {
                assert(nh[j0 - 1] == v.holes[i - 1]);
                assert(v.holes[i - 1].start + v.holes[i - 1].size <= h.start);
                assert(h.start == a);
                assert(nh[j0 - 1].size > 0);
            }
            assert(!merge_left);
        }
        if tl == 1 {
            assert(nh[j0].start == a + size);
            assert(merge_right);
        } else {
            if j0 < nh.len() {
                assert(nh[j0] == v.holes[i + 1]);
                assert(h.start + h.size <= v.holes[i + 1].start);
                assert(a + size == h.start + h.size);
                assert(v.holes[i + 1].size > 0);
                assert(v.holes[i + 1].start + v.holes[i + 1].size <= v.bottom + v.size);
            }
            if merge_right {
                assert(nh[j0].start == a + size);
                assert(h.start + h.size - a - size <= 0);
                assert(false);
            }
        }
        let back = spec_fb_dealloc(v1, a, size);
        if hl == 1 && tl == 1 {
            assert(back.holes =~= v.holes);
        } else if hl == 1 {
            assert(back.holes =~= v.holes);
        } else if tl == 1 {
            assert(back.holes =~= v.holes);
        } else {
            assert(back.holes =~= v.holes);
        }
        assert(back =~= v);
    }
}

/// An allocation followed by a deallocation with the same layout leaves
/// the allocator observationally equivalent: the next allocation of that
/// layout returns the same address.  A block a class served waits at the
/// head of that class's free list; a fallback-served range merges back
/// into the free area it was carved from, restoring the fallback state
/// exactly.
pub proof fn lemma_alloc_dealloc_roundtrip(v: HeapView, size: int, align: int)
    requires
        v.wf(),
        1 <= size,
        1 <= align,
    ensures
        ({
            let (v1, a) = spec_alloc(v, size, align);
            let v2 = spec_dealloc(v1, a, size, align);
            let (v3, a2) = spec_alloc(v2, size, align);
            a != 0 ==> a2 == a
        }),
{
    let (v1, a) = spec_alloc(v, size, align);
    let v2 = spec_dealloc(v1, a, size, align);
    match spec_list_index(size, align) {
        Some(c) => {
            lemma_list_index_fits(size, align);
            if v.heads[c].len() == 0 {
                lemma_fb_alloc_props(v.fallback, block_size(c), block_size(c));
            }
            if a != 0 {
                assert(0 <= a <= u64::MAX);
                assert(v2.heads[c].len() > 0);
                assert(v2.heads[c].last() == a as u64);
            }
        },
        None => {
            lemma_fb_alloc_dealloc_restores(v.fallback, size, align);
            if a != 0 {
                assert(v2.fallback == v.fallback);
                assert(v2 =~= v);
            }
        },
    }
}

/// The insertion position splits the free list around `addr`: everything
/// before it starts at or before `addr`, everything after starts later.
pub proof fn lemma_insert_pos_bounds(holes: Seq<FreeRegion>, addr: int)
    ensures
        0 <= spec_insert_pos(holes, addr) <= holes.len(),
        forall|k: int|
            0 <= k < spec_insert_pos(holes, addr) ==> (#[trigger] holes[k]).start <= addr,
        spec_insert_pos(holes, addr) < holes.len() ==> holes[spec_insert_pos(holes, addr)].start
            > addr,
    decreases holes.len(),
{
    if holes.len() == 0 || holes[0].start > addr {
    } else {
        lemma_insert_pos_bounds(holes.drop_first(), addr);
        let j = spec_insert_pos(holes, addr);
        assert forall|k: int| 0 <= k < j implies (#[trigger] holes[k]).start <= addr by {
            if k > 0 {
                assert(holes.drop_first()[k - 1] == holes[k]);
            }
        }
        if j < holes.len() {
            assert(holes.drop_first()[j - 1] == holes[j]);
        }
    }
}

} // verus!
