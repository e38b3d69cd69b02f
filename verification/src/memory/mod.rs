//! Physical and virtual memory management: the bootloader-map frame
//! allocator, owned four-level page tables with recursive cloning for new
//! user address spaces, page mapping, and per-thread user stacks with
//! guard pages.

pub mod allocator;

use vstd::prelude::*;

use crate::memory::allocator::HEAP_SIZE;
use crate::memory::allocator::HEAP_START;

verus! {

/// Size of a physical frame and of a virtual page, in bytes.
pub const PAGE_SIZE: u64 = 4096;

/// One region of the boot memory map: a frame-aligned physical range and
/// whether it is usable RAM.
#[derive(Debug, Clone, Copy, PartialEq, Eq, Structural)]
pub struct MemoryRegion {
    pub start: u64,
    pub end: u64,
    pub usable: bool,
}

impl MemoryRegion {
    /// The 4 KiB frames this region contains, in address order.
    pub open spec fn frames(self) -> Seq<u64> {
        Seq::new(((self.end - self.start) / PAGE_SIZE as int) as nat, |k: int| (self.start + k * PAGE_SIZE) as u64)
    }
}

/// A well-formed boot memory map: frame-aligned regions in address order,
/// pairwise disjoint, none wrapping the address space.
pub open spec fn memory_map_wf(regions: Seq<MemoryRegion>) -> bool {
    &&& forall|i: int|
        0 <= i < regions.len() ==> {
            &&& (#[trigger] regions[i]).start % PAGE_SIZE == 0
            &&& regions[i].end % PAGE_SIZE == 0
            &&& regions[i].start <= regions[i].end
        }
    &&& forall|i: int, j: int|
        0 <= i < j < regions.len() ==> (#[trigger] regions[i]).end <= (#[trigger] regions[j]).start
}

/// Every usable frame of the memory map, in address order: the frames of
/// each usable region, region by region.
pub open spec fn usable_frames(regions: Seq<MemoryRegion>) -> Seq<u64>
    decreases regions.len(),
{
    if regions.len() == 0 {
        Seq::empty()
    } else {
        (if regions[0].usable {
            regions[0].frames()
        } else {
            Seq::empty()
        }) + usable_frames(regions.drop_first())
    }
}

/// Whether the frame at `addr` lies wholly inside a region tagged usable.
pub open spec fn frame_in_usable_region(regions: Seq<MemoryRegion>, addr: u64) -> bool {
    exists|i: int|
        0 <= i < regions.len() && (#[trigger] regions[i]).usable && regions[i].start <= addr
            && addr + PAGE_SIZE <= regions[i].end
}

/// Frame-allocator uniqueness: over a well-formed memory map the usable
/// frames are strictly increasing — so any sequence of successful
/// allocations returns pairwise distinct addresses — and every one of
/// them lies within a region tagged usable.
pub proof fn lemma_usable_frames_distinct(regions: Seq<MemoryRegion>)
    requires
        memory_map_wf(regions),
    ensures
        forall|i: int, j: int|
            0 <= i < j < usable_frames(regions).len() ==> #[trigger] usable_frames(regions)[i]
                < #[trigger] usable_frames(regions)[j],
        forall|i: int|
            0 <= i < usable_frames(regions).len() ==> frame_in_usable_region(
                regions,
                #[trigger] usable_frames(regions)[i],
            ),
        regions.len() > 0 ==> forall|i: int|
            0 <= i < usable_frames(regions).len() ==> #[trigger] usable_frames(regions)[i]
                >= regions[0].start,
    decreases regions.len(),
{
    if regions.len() > 0 {
        let rest = regions.drop_first();
        assert(memory_map_wf(rest)) by {
            assert(forall|k: int| 0 <= k < rest.len() ==> rest[k] == regions[k + 1]);
        }
        lemma_usable_frames_distinct(rest);
        let head = if regions[0].usable {
            regions[0].frames()
        } else {
            Seq::<u64>::empty()
        };
        let all = usable_frames(regions);
        // frames of the first region are strictly increasing and inside it
        assert forall|k: int| 0 <= k < head.len() implies regions[0].start <= #[trigger] head[k]
            && head[k] + PAGE_SIZE <= regions[0].end by {
            assert(head[k] == regions[0].start + k * PAGE_SIZE);
            assert(k * PAGE_SIZE >= 0) by (nonlinear_arith)
                requires
                    k >= 0,
            ;
            assert((k + 1) * PAGE_SIZE <= ((regions[0].end - regions[0].start) / PAGE_SIZE as int)
                * PAGE_SIZE) by (nonlinear_arith)
                requires
                    k + 1 <= (regions[0].end - regions[0].start) / PAGE_SIZE as int,
            ;
            vstd::arithmetic::div_mod::lemma_fundamental_div_mod(
                regions[0].end - regions[0].start,
                PAGE_SIZE as int,
            );
            vstd::arithmetic::div_mod::lemma_mod_bound(
                regions[0].end - regions[0].start,
                PAGE_SIZE as int,
            );
            assert((k + 1) * PAGE_SIZE == k * PAGE_SIZE + PAGE_SIZE) by (nonlinear_arith);
        }
        // every frame of the remaining regions starts at or after the
        // first remaining region, hence after this region's end
        if rest.len() > 0 {
            assert forall|k: int| 0 <= k < usable_frames(rest).len() implies #[trigger] usable_frames(
                rest,
            )[k] >= regions[0].end by {
                assert(usable_frames(rest)[k] >= rest[0].start);
                assert(rest[0] == regions[1]);
            }
        }
        assert forall|i: int, j: int| 0 <= i < j < all.len() implies #[trigger] all[i]
            < #[trigger] all[j] by {
            if i < head.len() && j < head.len() {
                assert(head[i] == regions[0].start + i * PAGE_SIZE);
                assert(head[j] == regions[0].start + j * PAGE_SIZE);
                assert(i * PAGE_SIZE < j * PAGE_SIZE) by (nonlinear_arith)
                    requires
                        0 <= i < j,
                ;
            } else if i < head.len() {
                assert(all[j] == usable_frames(rest)[j - head.len()]);
            } else {
                assert(all[i] == usable_frames(rest)[i - head.len()]);
                assert(all[j] == usable_frames(rest)[j - head.len()]);
            }
        }
        assert forall|i: int| 0 <= i < all.len() implies frame_in_usable_region(
            regions,
            #[trigger] all[i],
        ) by {
            if i < head.len() {
                assert(regions[0].usable);
            } else {
                let f = usable_frames(rest)[i - head.len()];
                assert(frame_in_usable_region(rest, f));
                let t = choose|t: int|
                    0 <= t < rest.len() && (#[trigger] rest[t]).usable && rest[t].start <= f && f
                        + PAGE_SIZE <= rest[t].end;
                assert(rest[t] == regions[t + 1]);
            }
        }
        if rest.len() > 0 {
            assert forall|i: int| 0 <= i < all.len() implies #[trigger] all[i]
                >= regions[0].start by {
                if i >= head.len() {
                    assert(all[i] == usable_frames(rest)[i - head.len()]);
                }
            }
        }
    }
}

/// A frame allocator over the bootloader's memory map: an immutable list
/// of regions and a monotonically advancing cursor over the usable
/// frames.  A frame is handed out at most once; the cursor never rewinds.
pub struct BootInfoFrameAllocator {
    pub memory_map: Vec<MemoryRegion>,
    pub next: u64,
}

impl BootInfoFrameAllocator {
    /// The usable frames this allocator serves, in order.
    pub open spec fn frames(self) -> Seq<u64> {
        usable_frames(self.memory_map@)
    }

    /// The frames handed out so far.
    pub open spec fn allocated(self) -> Set<u64> {
        self.frames().take(
            if self.next <= self.frames().len() {
                self.next as int
            } else {
                self.frames().len() as int
            },
        ).to_set()
    }

    /// Whether every usable frame has been handed out.
    pub open spec fn exhausted(self) -> bool {
        self.next == self.frames().len()
    }

    /// Well-formedness: the memory map is well formed, the cursor has not
    /// passed the end of the usable frames, and the frame count fits the
    /// cursor.
    pub open spec fn wf(self) -> bool {
        &&& memory_map_wf(self.memory_map@)
        &&& self.next <= self.frames().len()
        &&& self.frames().len() < u64::MAX
    }

    /// An allocator at the start of the given memory map.
    pub fn new(memory_map: Vec<MemoryRegion>) -> (r: BootInfoFrameAllocator)
        requires
            memory_map_wf(memory_map@),
            usable_frames(memory_map@).len() < u64::MAX,
        ensures
            r.wf(),
            r.memory_map == memory_map,
            r.next == 0,
            r.allocated() =~= Set::<u64>::empty(),
    {
        let r = BootInfoFrameAllocator { memory_map, next: 0 };
        proof {
            assert(r.frames().take(0) =~= Seq::<u64>::empty());
        }
        r
    }

    /// Hand out the next usable frame, or report exhaustion.  The cursor
    /// only ever advances; a frame, once returned, is never returned
    /// again.
    pub fn allocate_frame(&mut self) -> (r: Option<u64>)
        requires
            old(self).wf(),
        ensures
            final(self).wf(),
            final(self).memory_map == old(self).memory_map,
            r matches Some(f) ==> {
                &&& old(self).next < old(self).frames().len()
                &&& final(self).next == old(self).next + 1
                &&& f == old(self).frames()[old(self).next as int]
                &&& !old(self).allocated().contains(f)
                &&& final(self).allocated() =~= old(self).allocated().insert(f)
                &&& frame_in_usable_region(old(self).memory_map@, f)
                &&& f % PAGE_SIZE == 0
            },
            r is None ==> old(self).next == old(self).frames().len() && *final(self) == *old(self),
            old(self).allocated().subset_of(final(self).allocated()),
    {
        proof {
            lemma_usable_frames_distinct(self.memory_map@);
        }
        let ghost me = *self;
        proof {
            assert(me.memory_map@.skip(0) =~= me.memory_map@);
            assert(me.frames().skip(0) =~= me.frames());
        }
        let mut skip = self.next;
        let mut t: usize = 0;
        let mut result: Option<u64> = None;
        while t < self.memory_map.len()
            invariant
                *self == me,
                me.wf(),
                t <= self.memory_map.len(),
                result is None ==> me.frames().skip(me.next - skip) =~= usable_frames(
                    me.memory_map@.skip(t as int),
                ),
                result is None ==> skip <= me.next,
                result matches Some(f) ==> me.next < me.frames().len() && f
                    == me.frames()[me.next as int] && f % PAGE_SIZE == 0,
            decreases self.memory_map.len() - t,
        {
            if result.is_none() {
                let region = self.memory_map[t];
                let ghost rest = usable_frames(me.memory_map@.skip(t as int));
                let ghost rest1 = usable_frames(me.memory_map@.skip(t + 1));
                let ghost seen = me.next - skip;
                proof {
                    assert(me.memory_map@.skip(t as int)[0] == region);
                    assert(me.memory_map@.skip(t as int).drop_first() =~= me.memory_map@.skip(
                        t + 1,
                    ));
                    if region.usable {
                        assert(rest =~= region.frames() + rest1);
                    } else {
                        assert(rest =~= rest1);
                    }
                }
                if region.usable {
                    let count = (region.end - region.start) / PAGE_SIZE;
                    proof {
                        assert(region.frames().len() == count);
                    }
                    if skip < count {
                        proof {
                            assert(skip * PAGE_SIZE + PAGE_SIZE <= count * PAGE_SIZE)
                                by (nonlinear_arith)
                                requires
                                    skip < count,
                                    PAGE_SIZE > 0,
                            ;
                            assert(region.frames()[skip as int] == region.start + skip
                                * PAGE_SIZE);
                            assert(region.start <= region.start + skip * PAGE_SIZE);
                            assert(region.start + skip * PAGE_SIZE + PAGE_SIZE <= region.end) by {
                                vstd::arithmetic::div_mod::lemma_fundamental_div_mod(
                                    (region.end - region.start) as int,
                                    PAGE_SIZE as int,
                                );
                                vstd::arithmetic::div_mod::lemma_mod_bound(
                                    (region.end - region.start) as int,
                                    PAGE_SIZE as int,
                                );
                                assert(skip * PAGE_SIZE + PAGE_SIZE <= (
                                (region.end - region.start) as int / PAGE_SIZE as int)
                                    * PAGE_SIZE);
                            }
                        }
                        let f = region.start + skip * PAGE_SIZE;
                        proof {
                            assert(rest[skip as int] == region.frames()[skip as int]);
                            assert(me.frames().skip(seen) =~= rest);
                            assert(me.frames()[seen + skip] == rest[skip as int]);
                            assert(seen + skip == me.next);
                            assert(region.start % PAGE_SIZE == 0);
                            vstd::arithmetic::div_mod::lemma_mod_multiples_vanish(
                                skip as int,
                                region.start as int,
                                PAGE_SIZE as int,
                            );
                            assert((PAGE_SIZE as int * skip as int + region.start as int)
                                % PAGE_SIZE as int == region.start as int % PAGE_SIZE as int);
                            assert(PAGE_SIZE as int * skip as int == skip as int
                                * PAGE_SIZE as int) by (nonlinear_arith);
                        }
                        result = Some(f);
                    } else {
                        proof {
                            assert forall|x: int| 0 <= x < rest1.len() implies me.frames().skip(
                                seen + count,
                            )[x] == rest1[x] by {
                                assert(me.frames().skip(seen)[count + x] == rest[count + x]);
                                assert(rest[count + x] == rest1[x]);
                            }
                            assert(me.frames().skip(seen + count).len() == rest1.len());
                            assert(me.frames().skip(seen + count) =~= rest1);
                        }
                        skip = skip - count;
                    }
                } else {
                    proof {
                        assert(me.frames().skip(seen) =~= rest1);
                    }
                }
            }
            t += 1;
        }
        proof {
            if result is None {
                assert(me.memory_map@.skip(self.memory_map.len() as int)
                    =~= Seq::<MemoryRegion>::empty());
                assert(me.frames().skip(me.next - skip).len() == 0);
                assert(me.next == me.frames().len());
            }
        }
        if result.is_some() {
            self.next = self.next + 1;
        }
        proof {
            lemma_usable_frames_distinct(me.memory_map@);
            if result is Some {
                let f = result.unwrap();
                assert(f == me.frames()[me.next as int]);
                let pre = me.frames().take(me.next as int);
                let post = me.frames().take(me.next + 1);
                assert(!me.allocated().contains(f)) by {
                    assert forall|k: int| 0 <= k < pre.len() implies pre[k] != f by {
                        assert(me.frames()[k] < me.frames()[me.next as int]);
                    }
                    if me.allocated().contains(f) {
                        let k = choose|k: int| 0 <= k < pre.len() && pre[k] == f;
                        assert(false);
                    }
                }
                assert(self.allocated() =~= me.allocated().insert(f)) by {
                    assert(post =~= pre.push(f));
                    assert forall|x: u64| post.to_set().contains(x) implies pre.to_set().insert(
                        f,
                    ).contains(x) by {
                        let k = choose|k: int| 0 <= k < post.len() && post[k] == x;
                        if k < pre.len() {
                            assert(pre[k] == x);
                        }
                    }
                    assert forall|x: u64| pre.to_set().insert(f).contains(x) implies post.to_set().contains(
                        x,
                    ) by {
                        if x == f {
                            assert(post[post.len() - 1] == f);
                        } else {
                            let k = choose|k: int| 0 <= k < pre.len() && pre[k] == x;
                            assert(post[k] == x);
                        }
                    }
                }
            }
            assert(me.allocated().subset_of(self.allocated()));
        }
        result
    }
}

/// Number of entries in a page table at every level.
pub const ENTRY_COUNT: usize = 512;

/// Entry flag: the mapping is present.
pub const PAGE_PRESENT: u64 = 1;
/// Entry flag: the mapping is writable.
pub const PAGE_WRITABLE: u64 = 2;
/// Entry flag: the mapping is reachable from user mode.
pub const PAGE_USER_ACCESSIBLE: u64 = 4;
/// Entry flag: the entry maps a large frame directly rather than
/// pointing at a lower-level table.
pub const PAGE_HUGE: u64 = 128;

/// Why a mapping request failed.
#[derive(Debug, Clone, Copy, PartialEq, Eq, Structural)]
pub enum MapToError {
    FrameAllocationFailed,
    ParentEntryHugePage,
    PageAlreadyMapped,
}

/// One slot of a page table: empty, a direct frame mapping (a leaf at
/// level one, or a huge page higher up), or a pointer to the next-level
/// table.  Each address space owns its tables; frame addresses are plain
/// values, so two address spaces share a physical frame exactly when
/// entries in both hold the same address.
#[derive(Debug)]
#[verifier::ext_equal]
pub enum PageTableEntry {
    Unused,
    Frame { addr: u64, flags: u64 },
    Table { flags: u64, table: Box<PageTable> },
}

/// A page table: the physical frame it occupies, its level (four is the
/// root), and its 512 entries.
#[derive(Debug)]
#[verifier::ext_equal]
pub struct PageTable {
    pub frame: u64,
    pub level: u8,
    pub entries: Vec<PageTableEntry>,
}

/// Bytes of virtual address space one entry covers at the given level.
pub open spec fn level_span(level: int) -> int {
    if level == 1 {
        0x1000
    } else if level == 2 {
        0x20_0000
    } else if level == 3 {
        0x4000_0000
    } else {
        0x80_0000_0000
    }
}

/// Index of the entry that translates `va` at the given level.
pub open spec fn level_index(va: int, level: int) -> int {
    (va / level_span(level)) % 512
}

/// Executable index computation.
pub fn level_index_of(va: u64, level: u8) -> (r: usize)
    requires
        1 <= level <= 4,
    ensures
        r == level_index(va as int, level as int),
        r < 512,
{
    let span: u64 = if level == 1 {
        0x1000
    } else if level == 2 {
        0x20_0000
    } else if level == 3 {
        0x4000_0000
    } else {
        0x80_0000_0000
    };
    ((va / span) % 512) as usize
}

/// Well-formedness of a table claimed to sit at `level`: correct level
/// tag, full width, and every entry well formed for that level.
pub open spec fn table_wf(t: PageTable, level: int) -> bool
    decreases level, 1int,
{
    &&& t.level == level
    &&& 1 <= level <= 4
    &&& t.entries@.len() == ENTRY_COUNT
    &&& forall|i: int| 0 <= i < ENTRY_COUNT ==> entry_wf(#[trigger] t.entries@[i], level)
}

/// Well-formedness of one entry at `level`: a direct frame mapping above
/// level one must be marked huge, and a table pointer must hold a
/// well-formed table of the level below.
pub open spec fn entry_wf(e: PageTableEntry, level: int) -> bool
    decreases level, 0int,
{
    match e {
        PageTableEntry::Unused => true,
        PageTableEntry::Frame { addr, flags } => level == 1 || flags & PAGE_HUGE != 0,
        PageTableEntry::Table { flags, table } => level > 1 && table_wf(*table, level - 1),
    }
}

/// Translate `va` through a table at `level`: follow table pointers down,
/// stop at a frame entry; the result is the mapped frame address and the
/// flags of the mapping entry.
pub open spec fn resolve_at(t: PageTable, level: int, va: int) -> Option<(u64, u64)>
    decreases level, 1int,
{
    if t.entries@.len() == ENTRY_COUNT && level >= 1 {
        resolve_entry(t.entries@[level_index(va, level)], level, va)
    } else {
        None
    }
}

/// Translate `va` through one entry at `level`.
pub open spec fn resolve_entry(e: PageTableEntry, level: int, va: int) -> Option<(u64, u64)>
    decreases level, 0int,
{
    match e {
        PageTableEntry::Unused => None,
        PageTableEntry::Frame { addr, flags } => Some((addr, flags)),
        PageTableEntry::Table { flags, table } => if level > 1 {
            resolve_at(*table, level - 1, va)
        } else {
            None
        },
    }
}

/// Translate `va` through a four-level root.
pub open spec fn resolve(t: PageTable, va: int) -> Option<(u64, u64)> {
    resolve_at(t, 4, va)
}

/// The physical frames occupied by a table and all the tables below it —
/// not the frames its leaf entries map.
pub open spec fn table_frames(t: PageTable, level: int) -> Set<u64>
    decreases level, 2int, 0int,
{
    frames_of_entries(t.entries@, level).insert(t.frame)
}

/// The table frames reachable through a sequence of entries.
pub open spec fn frames_of_entries(s: Seq<PageTableEntry>, level: int) -> Set<u64>
    decreases level, 1int, s.len(),
{
    if s.len() == 0 {
        Set::empty()
    } else {
        frames_of_entries(s.drop_last(), level).union(entry_frames(s.last(), level))
    }
}

/// The table frames reachable through one entry.
pub open spec fn entry_frames(e: PageTableEntry, level: int) -> Set<u64>
    decreases level, 0int, 0int,
{
    match e {
        PageTableEntry::Table { flags, table } => if level > 1 {
            table_frames(*table, level - 1)
        } else {
            Set::empty()
        },
        _ => Set::empty(),
    }
}

/// Entries that translate every address alike at the level below.
pub open spec fn entry_equiv(e1: PageTableEntry, e2: PageTableEntry, level: int) -> bool {
    match (e1, e2) {
        (PageTableEntry::Unused, PageTableEntry::Unused) => true,
        (
            PageTableEntry::Frame { addr: a1, flags: f1 },
            PageTableEntry::Frame { addr: a2, flags: f2 },
        ) => a1 == a2 && f1 == f2,
        (
            PageTableEntry::Table { flags: f1, table: t1 },
            PageTableEntry::Table { flags: f2, table: t2 },
        ) => f1 == f2 && forall|va: u64|
            #[trigger] resolve_at(*t1, level - 1, va as int) == #[trigger] resolve_at(
                *t2,
                level - 1,
                va as int,
            ),
        _ => false,
    }
}

/// Tables whose entries are pairwise equivalent translate every address
/// alike.
pub proof fn lemma_entries_equiv_resolve(t1: PageTable, t2: PageTable, level: int)
    requires
        t1.entries@.len() == ENTRY_COUNT,
        t2.entries@.len() == ENTRY_COUNT,
        forall|i: int|
            0 <= i < ENTRY_COUNT ==> entry_equiv(
                #[trigger] t1.entries@[i],
                #[trigger] t2.entries@[i],
                level,
            ),
        1 <= level,
    ensures
        forall|va: u64| resolve_at(t1, level, va as int) == resolve_at(t2, level, va as int),
{
    assert forall|va: u64| resolve_at(t1, level, va as int) == resolve_at(
        t2,
        level,
        va as int,
    ) by {
        let idx = level_index(va as int, level);
        vstd::arithmetic::div_mod::lemma_mod_bound((va as int) / level_span(level), 512);
        assert(0 <= idx < 512);
        let e1 = t1.entries@[idx];
        let e2 = t2.entries@[idx];
        assert(entry_equiv(e1, e2, level));
        match (e1, e2) {
            (
                PageTableEntry::Table { flags: f1, table: c1 },
                PageTableEntry::Table { flags: f2, table: c2 },
            ) => {
                assert(resolve_at(*c1, level - 1, va as int) == resolve_at(
                    *c2,
                    level - 1,
                    va as int,
                ));
            },
            _ => {},
        }
    }
}

/// A fresh, empty page table at the given level, occupying a frame taken
/// from the allocator.  Fails only when the allocator is exhausted.
pub fn create_empty_pagetable(fa: &mut BootInfoFrameAllocator, level: u8) -> (r: Result<
    PageTable,
    MapToError,
>)
    requires
        old(fa).wf(),
        1 <= level <= 4,
    ensures
        final(fa).wf(),
        final(fa).memory_map == old(fa).memory_map,
        old(fa).allocated().subset_of(final(fa).allocated()),
        r matches Ok(t) ==> {
            &&& table_wf(t, level as int)
            &&& forall|i: int| 0 <= i < ENTRY_COUNT ==> t.entries@[i] is Unused
            &&& !old(fa).allocated().contains(t.frame)
            &&& final(fa).allocated() =~= old(fa).allocated().insert(t.frame)
        },
        r is Err ==> r == Err::<PageTable, MapToError>(MapToError::FrameAllocationFailed)
            && final(fa).exhausted() && *final(fa) == *old(fa),
{
    let frame = match fa.allocate_frame() {
        Some(f) => f,
        None => {
            return Err(MapToError::FrameAllocationFailed);
        },
    };
    let mut entries: Vec<PageTableEntry> = Vec::new();
    let mut i: usize = 0;
    while i < ENTRY_COUNT
        invariant
            i <= ENTRY_COUNT,
            entries@.len() == i,
            forall|k: int| 0 <= k < i ==> entries@[k] is Unused,
        decreases ENTRY_COUNT - i,
    {
        entries.push(PageTableEntry::Unused);
        i += 1;
    }
    Ok(PageTable { frame, level, entries })
}

/// Clone a set of page tables for a new address space.  Frame entries —
/// leaves at level one and huge pages above — are copied verbatim, so the
/// new space maps the same physical frames; every table below this one is
/// freshly allocated, so the two spaces share no table frame and later
/// edits to the copy cannot alter the original.
pub fn copy_pagetables(fa: &mut BootInfoFrameAllocator, from: &PageTable) -> (r: Result<
    PageTable,
    MapToError,
>)
    requires
        old(fa).wf(),
        table_wf(*from, from.level as int),
    ensures
        final(fa).wf(),
        final(fa).memory_map == old(fa).memory_map,
        old(fa).allocated().subset_of(final(fa).allocated()),
        r matches Ok(t) ==> {
            &&& table_wf(t, from.level as int)
            &&& forall|va: u64|
                resolve_at(t, from.level as int, va as int) == resolve_at(
                    *from,
                    from.level as int,
                    va as int,
                )
            &&& forall|f: u64|
                table_frames(t, from.level as int).contains(f) ==> final(fa).allocated().contains(
                    f,
                ) && !old(fa).allocated().contains(f)
        },
        r matches Err(e) ==> e is FrameAllocationFailed && final(fa).exhausted(),
    decreases from.level,
{
    let ghost fa0 = *fa;
    let table = match create_empty_pagetable(fa, from.level) {
        Ok(t) => t,
        Err(e) => {
            return Err(e);
        },
    };
    let frame0 = table.frame;
    let ghost fa1 = *fa;
    let level = from.level;
    let mut entries: Vec<PageTableEntry> = Vec::new();
    let mut i: usize = 0;
    proof {
        assert(frames_of_entries(entries@, level as int) =~= Set::<u64>::empty());
    }
    while i < ENTRY_COUNT
        invariant
            i <= ENTRY_COUNT,
            entries@.len() == i,
            fa.wf(),
            fa.memory_map == old(fa).memory_map,
            old(fa).allocated().subset_of(fa.allocated()),
            table_wf(*from, level as int),
            1 <= level <= 4,
            fa.allocated().contains(frame0),
            !old(fa).allocated().contains(frame0),
            forall|k: int|
                0 <= k < i ==> entry_equiv(
                    #[trigger] entries@[k],
                    from.entries@[k],
                    level as int,
                ),
            forall|k: int| 0 <= k < i ==> entry_wf(#[trigger] entries@[k], level as int),
            forall|f: u64|
                frames_of_entries(entries@, level as int).contains(f) ==> fa.allocated().contains(
                    f,
                ) && !old(fa).allocated().contains(f) && f != frame0,
        decreases ENTRY_COUNT - i,
    {
        let ghost entries0 = entries@;
        let e = &from.entries[i];
        match e {
            PageTableEntry::Unused => {
                entries.push(PageTableEntry::Unused);
            },
            PageTableEntry::Frame { addr, flags } => {
                entries.push(PageTableEntry::Frame { addr: *addr, flags: *flags });
                proof {
                    assert(entry_wf(from.entries@[i as int], level as int));
                }
            },
            PageTableEntry::Table { flags, table: child } => {
                proof {
                    assert(entry_wf(from.entries@[i as int], level as int));
                }
                let copied = match copy_pagetables(fa, &**child) {
                    Ok(c) => c,
                    Err(err) => {
                        return Err(err);
                    },
                };
                entries.push(
                    PageTableEntry::Table { flags: *flags, table: Box::new(copied) },
                );
            },
        }
        proof {
            assert(entries@.drop_last() =~= entries0);
            assert(entries@.last() == entries@[i as int]);
            assert(entry_equiv(entries@[i as int], from.entries@[i as int], level as int));
            assert forall|f: u64| frames_of_entries(entries@, level as int).contains(f) implies (
            fa.allocated().contains(f) && !old(fa).allocated().contains(f) && f != frame0) by {
                if !frames_of_entries(entries0, level as int).contains(f) {
                    assert(entry_frames(entries@[i as int], level as int).contains(f));
                }
            }
        }
        i += 1;
    }
    let t = PageTable { frame: frame0, level, entries };
    proof {
        lemma_entries_equiv_resolve(t, *from, level as int);
        assert forall|f: u64| table_frames(t, level as int).contains(f) implies (
        fa.allocated().contains(f) && !old(fa).allocated().contains(f)) by {
            if f != frame0 {
                assert(frames_of_entries(t.entries@, level as int).contains(f));
            }
        }
    }
    Ok(t)
}

/// Addresses that take the same entry path through all levels down from
/// `level`.
pub open spec fn same_path(va: int, w: int, level: int) -> bool {
    forall|l: int| 1 <= l <= level ==> level_index(va, l) == level_index(w, l)
}

/// Upper bound of the translated virtual address space: four levels of
/// nine index bits over 4 KiB pages.
pub const VA_LIMIT: u64 = 0x1_0000_0000_0000;

/// Below the translation limit, two addresses take the same path through
/// all four levels exactly when they lie on the same page.
pub proof fn lemma_same_path_same_page(va: u64, w: u64)
    requires
        va < VA_LIMIT,
        w < VA_LIMIT,
    ensures
        same_path(va as int, w as int, 4) <==> va as int / 4096 == w as int / 4096,
{
    let x = va as int / 4096;
    let y = w as int / 4096;
    lemma_digits(va);
    lemma_digits(w);
    if same_path(va as int, w as int, 4) {
        assert(level_index(va as int, 1) == level_index(w as int, 1));
        assert(level_index(va as int, 2) == level_index(w as int, 2));
        assert(level_index(va as int, 3) == level_index(w as int, 3));
        assert(level_index(va as int, 4) == level_index(w as int, 4));
        assert(x == y);
    }
    if x == y {
        assert forall|l: int| 1 <= l <= 4 implies level_index(va as int, l) == level_index(
            w as int,
            l,
        ) by {
            if l == 1 {
            } else if l == 2 {
            } else if l == 3 {
            } else {
                assert(l == 4);
            }
        }
    }
}

/// The four level indexes of an address are the base-512 digits of its
/// page number, and determine it completely below the translation limit.
proof fn lemma_digits(va: u64)
    requires
        va < VA_LIMIT,
    ensures
        ({
            let x = va as int / 4096;
            let b: int = 512;
            &&& level_index(va as int, 1) == x % b
            &&& level_index(va as int, 2) == x / b % b
            &&& level_index(va as int, 3) == x / (b * b) % b
            &&& level_index(va as int, 4) == x / (b * b * b)
            &&& x == x % b + b * (x / b % b) + (b * b) * (x / (b * b) % b) + (b * b * b) * (x / (
            b * b * b))
        }),
{
    let x = va as int / 4096;
    let b: int = 512;
    vstd::arithmetic::div_mod::lemma_div_denominator(va as int, 4096, b);
    vstd::arithmetic::div_mod::lemma_div_denominator(va as int, 4096, b * b);
    vstd::arithmetic::div_mod::lemma_div_denominator(va as int, 4096, b * b * b);
    vstd::arithmetic::div_mod::lemma_div_denominator(x, b, b);
    vstd::arithmetic::div_mod::lemma_div_denominator(x, b * b, b);
    assert(level_index(va as int, 2) == x / b % b);
    assert(level_index(va as int, 3) == x / (b * b) % b);
    assert(x / (b * b * b) < b) by {
        assert(x < b * b * b * b) by {
            vstd::arithmetic::div_mod::lemma_div_is_ordered(va as int, VA_LIMIT as int - 1, 4096);
        }
        vstd::arithmetic::div_mod::lemma_multiply_divide_lt(x, b, b * b * b);
    }
    assert(level_index(va as int, 4) == x / (b * b * b) % b);
    vstd::arithmetic::div_mod::lemma_mod_bound(x / (b * b * b), b);
    vstd::arithmetic::div_mod::lemma_small_mod((x / (b * b * b)) as nat, b as nat);
    vstd::arithmetic::div_mod::lemma_fundamental_div_mod(x, b);
    vstd::arithmetic::div_mod::lemma_fundamental_div_mod(x / b, b);
    vstd::arithmetic::div_mod::lemma_fundamental_div_mod(x / (b * b), b);
    assert(x / b / b == x / (b * b));
    assert(x / (b * b) / b == x / (b * b * b)) by {
        vstd::arithmetic::div_mod::lemma_div_denominator(x, b * b, b);
    }
    assert(x == x % b + b * (x / b % b) + (b * b) * (x / (b * b) % b) + (b * b * b) * (x / (b * b
        * b))) by (nonlinear_arith)
        requires
            x == b * (x / b) + x % b,
            x / b == b * (x / b / b) + (x / b) % b,
            x / (b * b) == b * (x / (b * b) / b) + (x / (b * b)) % b,
            x / b / b == x / (b * b),
            x / (b * b) / b == x / (b * b * b),
            b == 512,
    ;
}

/// Replacing one entry adds at most that entry's frames to a table's
/// frame set.
proof fn lemma_frames_of_update(s: Seq<PageTableEntry>, i: int, e: PageTableEntry, level: int)
    requires
        0 <= i < s.len(),
    ensures
        forall|f: u64|
            frames_of_entries(s.update(i, e), level).contains(f) ==> frames_of_entries(
                s,
                level,
            ).contains(f) || entry_frames(e, level).contains(f),
    decreases s.len(),
{
    let s2 = s.update(i, e);
    if i == s.len() - 1 {
        assert(s2.drop_last() =~= s.drop_last());
        assert(s2.last() == e);
    } else {
        assert(s2.drop_last() =~= s.drop_last().update(i, e));
        assert(s2.last() == s.last());
        lemma_frames_of_update(s.drop_last(), i, e, level);
    }
}

/// A table whose entries are all unused reaches no frames through them.
proof fn lemma_frames_of_unused(s: Seq<PageTableEntry>, level: int)
    requires
        forall|k: int| 0 <= k < s.len() ==> s[k] is Unused,
    ensures
        frames_of_entries(s, level) =~= Set::<u64>::empty(),
    decreases s.len(),
{
    if s.len() > 0 {
        assert(forall|k: int| 0 <= k < s.drop_last().len() ==> s.drop_last()[k] == s[k]);
        lemma_frames_of_unused(s.drop_last(), level);
        assert(s[s.len() - 1] is Unused);
        assert(s.last() is Unused);
        assert(entry_frames(s.last(), level) =~= Set::<u64>::empty());
        assert(frames_of_entries(s, level) == frames_of_entries(s.drop_last(), level).union(
            entry_frames(s.last(), level),
        ));
    }
}

/// Any one entry's frames are among the frames of the whole sequence.
proof fn lemma_frames_of_elem(s: Seq<PageTableEntry>, i: int, level: int)
    requires
        0 <= i < s.len(),
    ensures
        forall|f: u64|
            entry_frames(s[i], level).contains(f) ==> frames_of_entries(s, level).contains(f),
    decreases s.len(),
{
    assert(frames_of_entries(s, level) == frames_of_entries(s.drop_last(), level).union(
        entry_frames(s.last(), level),
    ));
    if i == s.len() - 1 {
        assert(s.last() == s[i]);
    } else {
        assert(s.drop_last()[i] == s[i]);
        lemma_frames_of_elem(s.drop_last(), i, level);
        assert forall|f: u64| entry_frames(s[i], level).contains(f) implies frames_of_entries(
            s,
            level,
        ).contains(f) by {
            assert(frames_of_entries(s.drop_last(), level).contains(f));
        }
    }
}

/// A frame reached through a sequence of entries is reached through one
/// of its entries.
proof fn lemma_frames_of_entries_exists(s: Seq<PageTableEntry>, level: int, f: u64)
    requires
        frames_of_entries(s, level).contains(f),
    ensures
        exists|k: int| 0 <= k < s.len() && #[trigger] entry_frames(s[k], level).contains(f),
    decreases s.len(),
{
    if s.len() > 0 {
        if entry_frames(s.last(), level).contains(f) {
            assert(entry_frames(s[s.len() - 1], level).contains(f));
        } else {
            lemma_frames_of_entries_exists(s.drop_last(), level, f);
            let k = choose|k: int|
                0 <= k < s.drop_last().len() && #[trigger] entry_frames(
                    s.drop_last()[k],
                    level,
                ).contains(f);
            assert(entry_frames(s[k], level).contains(f));
        }
    }
}

/// Map one page at `va` to `frame` with `flags` inside a subtree,
/// creating intermediate tables on demand with `parent_flags` on their
/// entries.  Fails on frame exhaustion, on an already-present mapping,
/// and on a huge-page entry in the path; on failure no translation
/// changes.
#[verifier::rlimit(100)]
fn map_page_rec(
    fa: &mut BootInfoFrameAllocator,
    table: PageTable,
    va: u64,
    frame: u64,
    flags: u64,
    parent_flags: u64,
) -> (res: (PageTable, Result<(), MapToError>))
    requires
        old(fa).wf(),
        table_wf(table, table.level as int),
    ensures
        final(fa).wf(),
        final(fa).memory_map == old(fa).memory_map,
        old(fa).allocated().subset_of(final(fa).allocated()),
        table_wf(res.0, table.level as int),
        res.0.frame == table.frame,
        res.1 matches Ok(()) ==> {
            &&& resolve_at(res.0, table.level as int, va as int) == Some((frame, flags))
            &&& resolve_at(table, table.level as int, va as int) is None
            &&& forall|w: u64|
                !same_path(va as int, w as int, table.level as int) ==> resolve_at(
                    res.0,
                    table.level as int,
                    w as int,
                ) == resolve_at(table, table.level as int, w as int)
        },
        res.1 matches Err(e) ==> (e is PageAlreadyMapped || e is ParentEntryHugePage
            <==> resolve_at(table, table.level as int, va as int) is Some),
        res.1 is Err ==> forall|w: u64|
            resolve_at(res.0, table.level as int, w as int) == resolve_at(
                table,
                table.level as int,
                w as int,
            ),
        res.1 == Err::<(), MapToError>(MapToError::FrameAllocationFailed)
            ==> final(fa).exhausted(),
        forall|f: u64|
            table_frames(res.0, table.level as int).contains(f) ==> table_frames(
                table,
                table.level as int,
            ).contains(f) || (final(fa).allocated().contains(f) && !old(fa).allocated().contains(
                f,
            )),
        forall|f: u64|
            table_frames(table, table.level as int).contains(f) ==> #[trigger] table_frames(
                res.0,
                table.level as int,
            ).contains(f),
        forall|f: u64|
            final(fa).allocated().contains(f) && !old(fa).allocated().contains(f)
                ==> #[trigger] table_frames(res.0, table.level as int).contains(f),
    decreases table.level,
{
    let ghost t0 = table;
    let level = table.level;
    let ghost lv = level as int;
    let idx = level_index_of(va, level);
    let mut table = table;
    let entry = table.entries.remove(idx);
    let ghost e0 = entry;
    proof {
        assert(t0.entries@[idx as int] == e0);
        assert(entry_wf(e0, lv));
    }
    if level == 1 {
        match entry {
            PageTableEntry::Unused => {
                table.entries.insert(idx, PageTableEntry::Frame { addr: frame, flags });
                proof {
                    assert(table.entries@ =~= t0.entries@.update(
                        idx as int,
                        PageTableEntry::Frame { addr: frame, flags },
                    ));
                    lemma_one_entry_changed(t0, table, lv, idx as int, va);
                    lemma_frames_of_update(
                        t0.entries@,
                        idx as int,
                        PageTableEntry::Frame { addr: frame, flags },
                        lv,
                    );
                    assert forall|f: u64| table_frames(table, lv).contains(f) implies table_frames(
                        t0,
                        lv,
                    ).contains(f) by {
                        if f != t0.frame {
                            assert(frames_of_entries(table.entries@, lv).contains(f));
                            assert(entry_frames(
                                PageTableEntry::Frame { addr: frame, flags },
                                lv,
                            ) =~= Set::<u64>::empty());
                        }
                    }
                    assert forall|f: u64| table_frames(t0, lv).contains(f) implies table_frames(
                        table,
                        lv,
                    ).contains(f) by {
                        if f != t0.frame {
                            lemma_frames_of_entries_exists(t0.entries@, lv, f);
                            let k = choose|k: int|
                                0 <= k < t0.entries@.len() && #[trigger] entry_frames(
                                    t0.entries@[k],
                                    lv,
                                ).contains(f);
                            assert(k != idx as int);
                            assert(table.entries@[k] == t0.entries@[k]);
                            lemma_frames_of_elem(table.entries@, k, lv);
                        }
                    }
                    assert(*fa == *old(fa));
                }
                (table, Ok(()))
            },
            other => {
                table.entries.insert(idx, other);
                proof {
                    assert(table.entries@ =~= t0.entries@);
                    assert(e0 is Frame);
                    assert(resolve_at(t0, lv, va as int) is Some);
                    lemma_same_entries(t0, table, lv);
                    assert(forall|f: u64|
                        table_frames(t0, lv).contains(f) ==> #[trigger] table_frames(
                            table,
                            lv,
                        ).contains(f));
                    assert(*fa == *old(fa));
                }
                (table, Err(MapToError::PageAlreadyMapped))
            },
        }
    } else {
        match entry {
            PageTableEntry::Frame { addr, flags: f } => {
                table.entries.insert(idx, PageTableEntry::Frame { addr, flags: f });
                proof {
                    assert(table.entries@ =~= t0.entries@);
                    assert(resolve_at(t0, lv, va as int) is Some);
                    lemma_same_entries(t0, table, lv);
                    assert(forall|f2: u64|
                        table_frames(t0, lv).contains(f2) ==> #[trigger] table_frames(
                            table,
                            lv,
                        ).contains(f2));
                    assert(*fa == *old(fa));
                }
                (table, Err(MapToError::ParentEntryHugePage))
            },
            PageTableEntry::Unused => {
                let child = match create_empty_pagetable(fa, level - 1) {
                    Ok(c) => c,
                    Err(e) => {
                        table.entries.insert(idx, PageTableEntry::Unused);
                        proof {
                            assert(table.entries@ =~= t0.entries@);
                            lemma_same_entries(t0, table, lv);
                            assert(forall|f: u64|
                                table_frames(t0, lv).contains(f) ==> #[trigger] table_frames(
                                    table,
                                    lv,
                                ).contains(f));
                            assert(*fa == *old(fa));
                        }
                        return (table, Err(e));
                    },
                };
                let ghost child0 = child;
                let ghost fa1 = *fa;
                let (child, r) = map_page_rec(fa, child, va, frame, flags, parent_flags);
                proof {
                    assert forall|w: u64| #[trigger] resolve_at(child0, lv - 1, w as int) is None by {
                        let ci = level_index(w as int, lv - 1);
                        vstd::arithmetic::div_mod::lemma_mod_bound(
                            (w as int) / level_span(lv - 1),
                            512,
                        );
                        assert(child0.entries@[ci] is Unused);
                    }
                }
                let ghost childv = child;
                let e_new = PageTableEntry::Table { flags: parent_flags, table: Box::new(child) };
                table.entries.insert(idx, e_new);
                proof {
                    assert(table.entries@ =~= t0.entries@.update(idx as int, e_new));
                    lemma_one_entry_changed(t0, table, lv, idx as int, va);
                    lemma_frames_of_update(t0.entries@, idx as int, e_new, lv);
                    lemma_frames_of_unused(child0.entries@, lv - 1);
                    assert forall|f: u64| table_frames(table, lv).contains(f) implies (
                    table_frames(t0, lv).contains(f) || (fa.allocated().contains(f) && !old(
                        fa,
                    ).allocated().contains(f))) by {
                        if f != t0.frame && !frames_of_entries(t0.entries@, lv).contains(f) {
                            assert(entry_frames(e_new, lv).contains(f));
                            assert(table_frames(childv, lv - 1).contains(f));
                            if table_frames(child0, lv - 1).contains(f) {
                                assert(f == child0.frame);
                            }
                        }
                    }
                    assert forall|f: u64| table_frames(t0, lv).contains(f) implies table_frames(
                        table,
                        lv,
                    ).contains(f) by {
                        if f != t0.frame {
                            assert(frames_of_entries(t0.entries@, lv).contains(f));
                            lemma_frames_of_entries_exists(t0.entries@, lv, f);
                            let k = choose|k: int|
                                0 <= k < t0.entries@.len() && #[trigger] entry_frames(
                                    t0.entries@[k],
                                    lv,
                                ).contains(f);
                            assert(entry_frames(t0.entries@[k], lv).contains(f));
                            assert(k != idx as int);
                            assert(table.entries@[k] == t0.entries@[k]);
                            lemma_frames_of_elem(table.entries@, k, lv);
                            assert(frames_of_entries(table.entries@, lv).contains(f));
                            assert(table.frame == t0.frame);
                        }
                    }
                    assert forall|f: u64|
                        fa.allocated().contains(f) && !old(fa).allocated().contains(f)
                            implies table_frames(table, lv).contains(f) by {
                        if fa1.allocated().contains(f) {
                            assert(f == child0.frame);
                            assert(childv.frame == child0.frame);
                        } else {
                            assert(fa.allocated().contains(f) && !fa1.allocated().contains(f));
                            assert(table_frames(childv, (child0.level as int)).contains(f));
                        }
                        assert(child0.level as int == lv - 1);
                        assert(table_frames(childv, lv - 1).contains(f));
                        assert(lv > 1);
                        assert(entry_frames(e_new, lv).contains(f));
                        assert(table.entries@[idx as int] == e_new);
                        lemma_frames_of_elem(table.entries@, idx as int, lv);
                        assert(frames_of_entries(table.entries@, lv).contains(f));
                    }
                }
                match r {
                    Ok(()) => {
                        proof {
                            assert forall|w: u64|
                                !same_path(va as int, w as int, lv) implies resolve_at(
                                table,
                                lv,
                                w as int,
                            ) == resolve_at(t0, lv, w as int) by {
                                let wi = level_index(w as int, lv);
                                vstd::arithmetic::div_mod::lemma_mod_bound(
                                    (w as int) / level_span(lv),
                                    512,
                                );
                                if wi == idx as int {
                                    assert(!same_path(va as int, w as int, lv - 1));
                                    assert(resolve_at(childv, lv - 1, w as int) == resolve_at(
                                        child0,
                                        lv - 1,
                                        w as int,
                                    ));
                                }
                            }
                        }
                        (table, Ok(()))
                    },
                    Err(e) => {
                        proof {
                            assert forall|w: u64| resolve_at(table, lv, w as int) == resolve_at(
                                t0,
                                lv,
                                w as int,
                            ) by {
                                let wi = level_index(w as int, lv);
                                vstd::arithmetic::div_mod::lemma_mod_bound(
                                    (w as int) / level_span(lv),
                                    512,
                                );
                                if wi == idx as int {
                                    assert(resolve_at(childv, lv - 1, w as int) == resolve_at(
                                        child0,
                                        lv - 1,
                                        w as int,
                                    ));
                                }
                            }
                        }
                        (table, Err(e))
                    },
                }
            },
            PageTableEntry::Table { flags: tf, table: child_box } => {
                let ghost child0 = *child_box;
                let (child, r) = map_page_rec(fa, *child_box, va, frame, flags, parent_flags);
                let ghost childv = child;
                let e_new = PageTableEntry::Table { flags: tf, table: Box::new(child) };
                table.entries.insert(idx, e_new);
                proof {
                    assert(table.entries@ =~= t0.entries@.update(idx as int, e_new));
                    lemma_one_entry_changed(t0, table, lv, idx as int, va);
                    lemma_frames_of_update(t0.entries@, idx as int, e_new, lv);
                    lemma_frames_of_elem(t0.entries@, idx as int, lv);
                    assert(resolve_entry(t0.entries@[idx as int], lv, va as int) == resolve_at(
                        child0,
                        lv - 1,
                        va as int,
                    ));
                    assert forall|f: u64| table_frames(table, lv).contains(f) implies (
                    table_frames(t0, lv).contains(f) || (fa.allocated().contains(f) && !old(
                        fa,
                    ).allocated().contains(f))) by {
                        if f != t0.frame && !frames_of_entries(t0.entries@, lv).contains(f) {
                            assert(entry_frames(e_new, lv).contains(f));
                            assert(table_frames(childv, lv - 1).contains(f));
                            if table_frames(child0, lv - 1).contains(f) {
                                assert(entry_frames(t0.entries@[idx as int], lv).contains(f));
                            }
                        }
                    }
                    assert forall|f: u64| table_frames(t0, lv).contains(f) implies table_frames(
                        table,
                        lv,
                    ).contains(f) by {
                        if f != t0.frame {
                            assert(frames_of_entries(t0.entries@, lv).contains(f));
                            lemma_frames_of_entries_exists(t0.entries@, lv, f);
                            let k = choose|k: int|
                                0 <= k < t0.entries@.len() && #[trigger] entry_frames(
                                    t0.entries@[k],
                                    lv,
                                ).contains(f);
                            assert(entry_frames(t0.entries@[k], lv).contains(f));
                            if k == idx as int {
                                assert(table_frames(child0, lv - 1).contains(f));
                                assert(child0.level as int == lv - 1);
                                assert(table_frames(childv, (child0.level as int)).contains(f));
                                assert(table_frames(childv, lv - 1).contains(f));
                                assert(entry_frames(e_new, lv).contains(f));
                                assert(table.entries@[idx as int] == e_new);
                            } else {
                                assert(table.entries@[k] == t0.entries@[k]);
                            }
                            lemma_frames_of_elem(table.entries@, k, lv);
                            assert(frames_of_entries(table.entries@, lv).contains(f));
                            assert(table.frame == t0.frame);
                        }
                    }
                    assert forall|f: u64|
                        fa.allocated().contains(f) && !old(fa).allocated().contains(f)
                            implies table_frames(table, lv).contains(f) by {
                        assert(table_frames(childv, (child0.level as int)).contains(f));
                        assert(child0.level as int == lv - 1);
                        assert(table_frames(childv, lv - 1).contains(f));
                        assert(lv > 1);
                        assert(entry_frames(e_new, lv).contains(f));
                        assert(table.entries@[idx as int] == e_new);
                        lemma_frames_of_elem(table.entries@, idx as int, lv);
                        assert(frames_of_entries(table.entries@, lv).contains(f));
                    }
                }
                match r {
                    Ok(()) => {
                        proof {
                            assert forall|w: u64|
                                !same_path(va as int, w as int, lv) implies resolve_at(
                                table,
                                lv,
                                w as int,
                            ) == resolve_at(t0, lv, w as int) by {
                                let wi = level_index(w as int, lv);
                                vstd::arithmetic::div_mod::lemma_mod_bound(
                                    (w as int) / level_span(lv),
                                    512,
                                );
                                if wi == idx as int {
                                    assert(!same_path(va as int, w as int, lv - 1));
                                    assert(resolve_at(childv, lv - 1, w as int) == resolve_at(
                                        child0,
                                        lv - 1,
                                        w as int,
                                    ));
                                }
                            }
                        }
                        (table, Ok(()))
                    },
                    Err(e) => {
                        proof {
                            assert forall|w: u64| resolve_at(table, lv, w as int) == resolve_at(
                                t0,
                                lv,
                                w as int,
                            ) by {
                                let wi = level_index(w as int, lv);
                                vstd::arithmetic::div_mod::lemma_mod_bound(
                                    (w as int) / level_span(lv),
                                    512,
                                );
                                if wi == idx as int {
                                    assert(resolve_at(childv, lv - 1, w as int) == resolve_at(
                                        child0,
                                        lv - 1,
                                        w as int,
                                    ));
                                }
                            }
                        }
                        (table, Err(e))
                    },
                }
            },
        }
    }
}

/// Tables with the same frame and the same entries translate alike and
/// occupy the same frames.
proof fn lemma_same_entries(t0: PageTable, t1: PageTable, lv: int)
    requires
        t1.entries@ == t0.entries@,
        t1.frame == t0.frame,
        t1.level == t0.level,
    ensures
        forall|w: u64| resolve_at(t1, lv, w as int) == resolve_at(t0, lv, w as int),
        forall|f: u64|
            table_frames(t1, lv).contains(f) <==> table_frames(t0, lv).contains(f),
        table_wf(t0, lv) ==> table_wf(t1, lv),
{
    assert forall|w: u64| resolve_at(t1, lv, w as int) == resolve_at(t0, lv, w as int) by {}
}

/// After replacing the entry at `idx` of a table at `lv`, translations
/// that do not take index `idx` at this level are unchanged, and those
/// that do go through the new entry.
proof fn lemma_one_entry_changed(t0: PageTable, t1: PageTable, lv: int, idx: int, va: u64)
    requires
        t0.entries@.len() == ENTRY_COUNT,
        t1.entries@ == t0.entries@.update(idx, t1.entries@[idx]),
        0 <= idx < ENTRY_COUNT,
        idx == level_index(va as int, lv),
    ensures
        forall|w: u64|
            level_index(w as int, lv) != idx ==> resolve_at(t1, lv, w as int) == resolve_at(
                t0,
                lv,
                w as int,
            ),
        forall|w: u64|
            !same_path(va as int, w as int, lv) && level_index(w as int, lv) == idx && lv >= 1
                ==> resolve_at(t1, lv, w as int) == resolve_entry(
                t1.entries@[idx],
                lv,
                w as int,
            ) && resolve_at(t0, lv, w as int) == resolve_entry(t0.entries@[idx], lv, w as int),
{
    assert forall|w: u64| level_index(w as int, lv) != idx implies resolve_at(t1, lv, w as int)
        == resolve_at(t0, lv, w as int) by {
        let wi = level_index(w as int, lv);
        vstd::arithmetic::div_mod::lemma_mod_bound((w as int) / level_span(lv), 512);
        assert(t1.entries@[wi] == t0.entries@[wi]);
    }
}

/// The frame an address is mapped to, zero when unmapped.
pub open spec fn resolved_frame(t: PageTable, a: u64) -> u64 {
    match resolve(t, a as int) {
        Some(q) => q.0,
        None => 0,
    }
}

/// The page number an address belongs to.
pub open spec fn page_of(a: int) -> int {
    a / (PAGE_SIZE as int)
}

/// Addresses on the same path translate alike through any table.
pub proof fn lemma_resolve_same_path(t: PageTable, lv: int, a: u64, b: u64)
    requires
        same_path(a as int, b as int, lv),
    ensures
        resolve_at(t, lv, a as int) == resolve_at(t, lv, b as int),
    decreases lv,
{
    if t.entries@.len() == ENTRY_COUNT && lv >= 1 {
        assert(level_index(a as int, lv) == level_index(b as int, lv));
        let e = t.entries@[level_index(a as int, lv)];
        match e {
            PageTableEntry::Table { flags, table } => {
                if lv > 1 {
                    assert(same_path(a as int, b as int, lv - 1));
                    lemma_resolve_same_path(*table, lv - 1, a, b);
                }
            },
            _ => {},
        }
    }
}

/// Allocate and map every page of `[start_addr, start_addr + size)` into
/// the address space rooted at `l4`, with the given flags, creating
/// intermediate tables on demand.  Succeeds only if no page of the range
/// was mapped; fails on frame exhaustion, on a conflicting existing
/// mapping, and on a huge-page entry in the way.  Pages outside the range
/// translate exactly as before, whether or not the call succeeds.
#[verifier::rlimit(100)]
pub fn allocate_pages(
    fa: &mut BootInfoFrameAllocator,
    l4: &mut PageTable,
    start_addr: u64,
    size: u64,
    flags: u64,
) -> (r: Result<(), MapToError>)
    requires
        old(fa).wf(),
        table_wf(*old(l4), 4),
        size >= 1,
        start_addr + size <= VA_LIMIT,
    ensures
        final(fa).wf(),
        final(fa).memory_map == old(fa).memory_map,
        old(fa).allocated().subset_of(final(fa).allocated()),
        table_wf(*final(l4), 4),
        final(l4).frame == old(l4).frame,
        r matches Ok(()) ==> forall|a: u64|
            start_addr <= a < start_addr + size ==> ((#[trigger] resolve(
                *final(l4),
                a as int,
            )) matches Some(p) && p.1 == flags && final(fa).allocated().contains(p.0) && !old(
                fa,
            ).allocated().contains(p.0)),
        r matches Ok(()) ==> forall|a: u64, b: u64|
            start_addr <= a < start_addr + size && start_addr <= b < start_addr + size && page_of(
                a as int,
            ) != page_of(b as int) ==> #[trigger] resolved_frame(*final(l4), a)
                != #[trigger] resolved_frame(*final(l4), b),
        r matches Ok(()) ==> forall|a: u64|
            start_addr <= a < start_addr + size ==> #[trigger] resolve(*old(l4), a as int) is None,
        forall|w: u64|
            w < VA_LIMIT && !(page_of(start_addr as int) <= page_of(w as int) <= page_of(
                start_addr + size - 1,
            )) ==> #[trigger] resolve(*final(l4), w as int) == resolve(*old(l4), w as int),
        r matches Err(e) ==> (e is PageAlreadyMapped || e is ParentEntryHugePage ==> exists|a: u64|
            start_addr <= a < start_addr + size && #[trigger] resolve(*old(l4), a as int) is Some),
        r == Err::<(), MapToError>(MapToError::FrameAllocationFailed) ==> final(fa).exhausted(),
        forall|f: u64|
            table_frames(*final(l4), 4).contains(f) ==> table_frames(*old(l4), 4).contains(f) || (
            final(fa).allocated().contains(f) && !old(fa).allocated().contains(f)),
{
    let p0 = start_addr / PAGE_SIZE;
    let pend = (start_addr + size - 1) / PAGE_SIZE;
    let ghost l4_0 = *l4;
    let mut p = p0;
    proof {
        vstd::arithmetic::div_mod::lemma_div_is_ordered(
            start_addr as int,
            start_addr + size - 1,
            PAGE_SIZE as int,
        );
    }
    while p <= pend
        invariant
            old(fa).wf(),
            fa.wf(),
            fa.memory_map == old(fa).memory_map,
            old(fa).allocated().subset_of(fa.allocated()),
            table_wf(*l4, 4),
            l4.frame == l4_0.frame,
            l4_0 == *old(l4),
            table_wf(l4_0, 4),
            p0 == page_of(start_addr as int),
            pend == page_of(start_addr + size - 1),
            p0 <= p <= pend + 1,
            size >= 1,
            start_addr + size <= VA_LIMIT,
            forall|a: u64|
                start_addr <= a < start_addr + size && page_of(a as int) < p ==> ((
                #[trigger] resolve(*l4, a as int)) matches Some(q) && q.1 == flags
                    && fa.allocated().contains(q.0) && !old(fa).allocated().contains(q.0)),
            forall|a: u64, b: u64|
                start_addr <= a < start_addr + size && start_addr <= b < start_addr + size
                    && page_of(a as int) < p && page_of(b as int) < p && page_of(a as int)
                    != page_of(b as int) ==> #[trigger] resolved_frame(*l4, a)
                    != #[trigger] resolved_frame(*l4, b),
            forall|a: u64|
                start_addr <= a < start_addr + size && page_of(a as int) < p ==> #[trigger] resolve(
                    l4_0,
                    a as int,
                ) is None,
            forall|w: u64|
                w < VA_LIMIT && !(p0 <= page_of(w as int) < p) ==> #[trigger] resolve(
                    *l4,
                    w as int,
                ) == resolve(l4_0, w as int),
            forall|f: u64|
                table_frames(*l4, 4).contains(f) ==> table_frames(l4_0, 4).contains(f) || (
                fa.allocated().contains(f) && !old(fa).allocated().contains(f)),
        decreases pend + 1 - p,
    {
        proof {
            assert((p as int) * (PAGE_SIZE as int) < VA_LIMIT) by {
                assert((pend as int) * (PAGE_SIZE as int) + (start_addr + size - 1)
                    % (PAGE_SIZE as int) == start_addr + size - 1) by {
                    vstd::arithmetic::div_mod::lemma_fundamental_div_mod(
                        start_addr + size - 1,
                        PAGE_SIZE as int,
                    );
                }
                vstd::arithmetic::div_mod::lemma_mod_bound(
                    start_addr + size - 1,
                    PAGE_SIZE as int,
                );
                assert((p as int) * (PAGE_SIZE as int) <= (pend as int) * (PAGE_SIZE as int))
                    by (nonlinear_arith)
                    requires
                        p <= pend,
                        PAGE_SIZE > 0,
                ;
            }
        }
        let va = p * PAGE_SIZE;
        proof {
            assert(page_of(va as int) == p) by {
                vstd::arithmetic::div_mod::lemma_div_by_multiple(p as int, PAGE_SIZE as int);
            }
        }
        let ghost fa_head = *fa;
        let frame = match fa.allocate_frame() {
            Some(f) => f,
            None => {
                return Err(MapToError::FrameAllocationFailed);
            },
        };
        let mut tmp = PageTable { frame: 0, level: 4, entries: Vec::new() };
        core::mem::swap(l4, &mut tmp);
        let ghost before = tmp;
        let (t2, r) = map_page_rec(fa, tmp, va, frame, flags, PAGE_PRESENT | PAGE_WRITABLE);
        *l4 = t2;
        match r {
            Ok(()) => {},
            Err(e) => {
                proof {
                    if e is PageAlreadyMapped || e is ParentEntryHugePage {
                        let witness: u64 = if p == p0 {
                            start_addr
                        } else {
                            va
                        };
                        assert(page_of(witness as int) == p) by {
                            if p == p0 {
                            } else {
                                assert(page_of(va as int) == p);
                            }
                        }
                        assert(resolve_at(before, 4, va as int) is Some);
                        lemma_same_path_same_page(va, witness);
                        lemma_resolve_same_path(before, 4, va, witness);
                        assert(resolve(before, witness as int) is Some);
                        assert(resolve(l4_0, witness as int) is Some);
                        assert(start_addr <= witness < start_addr + size) by {
                            if p > p0 {
                                assert(va >= start_addr) by {
                                    vstd::arithmetic::div_mod::lemma_fundamental_div_mod(
                                        start_addr as int,
                                        PAGE_SIZE as int,
                                    );
                                    vstd::arithmetic::div_mod::lemma_mod_bound(
                                        start_addr as int,
                                        PAGE_SIZE as int,
                                    );
                                    assert((p0 as int + 1) * (PAGE_SIZE as int) <= (p as int)
                                        * (PAGE_SIZE as int)) by (nonlinear_arith)
                                        requires
                                            p0 + 1 <= p,
                                            PAGE_SIZE > 0,
                                    ;
                                }
                                assert(va <= start_addr + size - 1) by {
                                    vstd::arithmetic::div_mod::lemma_fundamental_div_mod(
                                        start_addr + size - 1,
                                        PAGE_SIZE as int,
                                    );
                                    vstd::arithmetic::div_mod::lemma_mod_bound(
                                        start_addr + size - 1,
                                        PAGE_SIZE as int,
                                    );
                                    assert((p as int) * (PAGE_SIZE as int) <= (pend as int)
                                        * (PAGE_SIZE as int)) by (nonlinear_arith)
                                        requires
                                            p <= pend,
                                            PAGE_SIZE > 0,
                                    ;
                                }
                            }
                        }
                    }
                    assert forall|w: u64|
                        w < VA_LIMIT && !(page_of(start_addr as int) <= page_of(w as int)
                            <= page_of(start_addr + size - 1)) implies #[trigger] resolve(
                        *l4,
                        w as int,
                    ) == resolve(l4_0, w as int) by {
                        assert(resolve_at(t2, 4, w as int) == resolve_at(before, 4, w as int));
                        assert(resolve(before, w as int) == resolve(l4_0, w as int));
                    }
                }
                return Err(e);
            },
        }
        proof {
            assert forall|a: u64|
                start_addr <= a < start_addr + size && page_of(a as int) < p + 1 implies ((
            #[trigger] resolve(*l4, a as int)) matches Some(q) && q.1 == flags
                && fa.allocated().contains(q.0) && !old(fa).allocated().contains(q.0)) by {
                lemma_same_path_same_page(va, a);
                if page_of(a as int) == p {
                    lemma_resolve_same_path(t2, 4, va, a);
                    assert(resolve(*l4, a as int) == Some((frame, flags)));
                } else {
                    assert(!same_path(va as int, a as int, 4));
                    assert(resolve_at(t2, 4, a as int) == resolve_at(before, 4, a as int));
                    assert((resolve(before, a as int) matches Some(q) && q.1 == flags
                        && fa_head.allocated().contains(q.0) && !old(fa).allocated().contains(
                        q.0,
                    )));
                }
            }
            assert forall|a: u64, b: u64|
                start_addr <= a < start_addr + size && start_addr <= b < start_addr + size
                    && page_of(a as int) < p + 1 && page_of(b as int) < p + 1 && page_of(
                    a as int,
                ) != page_of(b as int) implies #[trigger] resolved_frame(*l4, a)
                != #[trigger] resolved_frame(*l4, b) by {
                lemma_same_path_same_page(va, a);
                lemma_same_path_same_page(va, b);
                if page_of(a as int) < p {
                    assert(resolve_at(t2, 4, a as int) == resolve_at(before, 4, a as int));
                    assert((resolve(before, a as int) matches Some(q)
                        && fa_head.allocated().contains(q.0)));
                    assert(resolved_frame(*l4, a) == resolved_frame(before, a));
                } else {
                    lemma_resolve_same_path(t2, 4, va, a);
                    assert(resolve(*l4, a as int) == Some((frame, flags)));
                    assert(resolved_frame(*l4, a) == frame);
                }
                if page_of(b as int) < p {
                    assert(resolve_at(t2, 4, b as int) == resolve_at(before, 4, b as int));
                    assert((resolve(before, b as int) matches Some(q)
                        && fa_head.allocated().contains(q.0)));
                    assert(resolved_frame(*l4, b) == resolved_frame(before, b));
                } else {
                    lemma_resolve_same_path(t2, 4, va, b);
                    assert(resolve(*l4, b as int) == Some((frame, flags)));
                    assert(resolved_frame(*l4, b) == frame);
                }
                if page_of(a as int) < p && page_of(b as int) < p {
                    assert(resolved_frame(before, a) != resolved_frame(before, b));
                }
                assert(!fa_head.allocated().contains(frame));
            }
            assert forall|a: u64|
                start_addr <= a < start_addr + size && page_of(a as int) < p + 1 implies #[trigger] resolve(
                l4_0,
                a as int,
            ) is None by {
                if page_of(a as int) == p {
                    lemma_same_path_same_page(va, a);
                    lemma_resolve_same_path(before, 4, va, a);
                    lemma_resolve_same_path(l4_0, 4, va, a);
                    assert(resolve(before, va as int) is None);
                    assert(resolve(l4_0, va as int) == resolve(before, va as int));
                }
            }
            assert forall|w: u64|
                w < VA_LIMIT && !(p0 <= page_of(w as int) < p + 1) implies #[trigger] resolve(
                *l4,
                w as int,
            ) == resolve(l4_0, w as int) by {
                lemma_same_path_same_page(va, w);
                assert(resolve_at(t2, 4, w as int) == resolve_at(before, 4, w as int));
                assert(resolve(before, w as int) == resolve(l4_0, w as int));
            }
        }
        p = p + 1;
    }
    proof {
        assert forall|a: u64| start_addr <= a < start_addr + size implies page_of(a as int)
            < pend + 1 by {
            vstd::arithmetic::div_mod::lemma_div_is_ordered(
                a as int,
                start_addr + size - 1,
                PAGE_SIZE as int,
            );
        }
    }
    Ok(())
}

/// Base virtual address of the user-stack slot region: entry five of the
/// root table, entry zero at the two levels below.
pub const USER_STACK_BASE: u64 = 0x280_0000_0000;

/// Bytes covered by one user-stack slot: eight pages.
pub const USER_STACK_SLOT_SIZE: u64 = 0x8000;

/// Number of user-stack slots in the region.
pub const USER_STACK_SLOTS: u64 = 64;

/// Whether some stack page (one to seven) of slot `n` is mapped.
pub open spec fn slot_occupied(t: PageTable, n: u64) -> bool {
    exists|k: u64|
        1 <= k < 8 && #[trigger] resolve(
            t,
            USER_STACK_BASE + n * USER_STACK_SLOT_SIZE + k * PAGE_SIZE,
        ) is Some
}

/// The slot index the circular scan visits at step `m` when starting
/// from `start_slot`.
pub open spec fn scan_slot(start_slot: u64, m: u64) -> int {
    (start_slot % USER_STACK_SLOTS + m) % (USER_STACK_SLOTS as int)
}

/// The slot whose stack bottom is `lo` was the first free one the
/// circular scan from `start_slot` found: every slot visited before it
/// was occupied, and it was not.
pub open spec fn slot_chosen(t: PageTable, start_slot: u64, m: u64, lo: u64) -> bool {
    &&& m < USER_STACK_SLOTS
    &&& lo == USER_STACK_BASE + scan_slot(start_slot, m) * (USER_STACK_SLOT_SIZE as int)
        + PAGE_SIZE
    &&& !slot_occupied(t, scan_slot(start_slot, m) as u64)
    &&& forall|m2: u64|
        m2 < m ==> #[trigger] slot_occupied(t, scan_slot(start_slot, m2) as u64)
}

/// Some scan step chose the slot at `lo` as the first free one.
pub open spec fn slot_chosen_some(t: PageTable, start_slot: u64, lo: u64) -> bool {
    exists|m: u64| #[trigger] slot_chosen(t, start_slot, m, lo)
}

/// One freshly allocated frame backs every page of `[lo, hi)` as a user
/// stack: the frame was not handed out before the call.
pub open spec fn stack_slot_mapped_fresh(
    t: PageTable,
    lo: u64,
    hi: u64,
    before: Set<u64>,
    after: Set<u64>,
) -> bool {
    exists|fr: u64|
        #[trigger] stack_slot_mapped(t, lo, hi, fr) && after.contains(fr) && !before.contains(fr)
}

/// Every address of `[lo, hi)` translates to the shared frame `fr`: the
/// last page writable from user mode, the pages below it read-only.
pub open spec fn stack_slot_mapped(t: PageTable, lo: u64, hi: u64, fr: u64) -> bool {
    forall|a: u64|
        lo <= a < hi ==> #[trigger] resolve(t, a as int) == Some(
            (
                fr,
                if a >= hi - PAGE_SIZE {
                    PAGE_PRESENT | PAGE_WRITABLE | PAGE_USER_ACCESSIBLE
                } else {
                    PAGE_PRESENT | PAGE_USER_ACCESSIBLE
                },
            ),
        )
}

/// Some one shared frame backs every page of `[lo, hi)` as a user stack.
pub open spec fn stack_slot_mapped_some(t: PageTable, lo: u64, hi: u64) -> bool {
    exists|fr: u64| #[trigger] stack_slot_mapped(t, lo, hi, fr)
}

/// Walk the tables and translate one address, returning the mapped frame
/// and the flags of the mapping entry, if any.
pub fn translate(t: &PageTable, va: u64) -> (r: Option<(u64, u64)>)
    requires
        table_wf(*t, t.level as int),
    ensures
        r == resolve_at(*t, t.level as int, va as int),
    decreases t.level,
{
    let idx = level_index_of(va, t.level);
    proof {
        assert(entry_wf(t.entries@[idx as int], t.level as int));
    }
    match &t.entries[idx] {
        PageTableEntry::Unused => None,
        PageTableEntry::Frame { addr, flags } => Some((*addr, *flags)),
        PageTableEntry::Table { flags, table } => {
            if t.level > 1 {
                translate(&**table, va)
            } else {
                None
            }
        },
    }
}

/// Reserve a user-stack slot: walk to the slot region's level-one table,
/// creating missing tables user-accessible, then take the first slot
/// (scanning circularly
/// from `start_slot`) none of whose seven stack pages is mapped.  Pages
/// one to six are mapped read-only to one shared frame, page seven
/// read-write to the same frame; page zero stays unmapped as a guard.
/// Returns the bottom and top of the mapped stack area.
#[verifier::rlimit(100)]
pub fn allocate_user_stack(
    fa: &mut BootInfoFrameAllocator,
    l4: &mut PageTable,
    start_slot: u64,
) -> (r: Result<(u64, u64), &'static str>)
    requires
        old(fa).wf(),
        table_wf(*old(l4), 4),
    ensures
        final(fa).wf(),
        final(fa).memory_map == old(fa).memory_map,
        old(fa).allocated().subset_of(final(fa).allocated()),
        table_wf(*final(l4), 4),
        final(l4).frame == old(l4).frame,
        forall|f: u64|
            table_frames(*final(l4), 4).contains(f) ==> table_frames(*old(l4), 4).contains(f) || (
            final(fa).allocated().contains(f) && !old(fa).allocated().contains(f)),
        forall|w: u64|
            w < VA_LIMIT && !(USER_STACK_BASE <= w < USER_STACK_BASE + USER_STACK_SLOTS
                * USER_STACK_SLOT_SIZE) ==> #[trigger] resolve(*final(l4), w as int) == resolve(
                *old(l4),
                w as int,
            ),
        r matches Ok(pair) ==> exists|n: u64|
            n < USER_STACK_SLOTS && pair.0 == USER_STACK_BASE + #[trigger] (n
                * USER_STACK_SLOT_SIZE) + PAGE_SIZE && pair.1 == USER_STACK_BASE + n
                * USER_STACK_SLOT_SIZE + 8 * PAGE_SIZE,
        r matches Ok(pair) ==> stack_slot_mapped_some(*final(l4), pair.0, pair.1),
        r matches Ok(pair) ==> forall|w: u64|
            w < VA_LIMIT && !(pair.0 <= w < pair.1) ==> #[trigger] resolve(*final(l4), w as int)
                == resolve(*old(l4), w as int),
        r == Err::<(u64, u64), &'static str>("All thread stack slots full") ==> *final(l4)
            == *old(l4) && *final(fa) == *old(fa) && (forall|n: u64|
            n < USER_STACK_SLOTS ==> #[trigger] slot_occupied(*old(l4), n)),
        (forall|n: u64| n < USER_STACK_SLOTS ==> #[trigger] slot_occupied(*old(l4), n)) ==> r
            == Err::<(u64, u64), &'static str>("All thread stack slots full"),
        r == Err::<(u64, u64), &'static str>("Failed to allocate frame")
            ==> final(fa).exhausted(),
        r is Err ==> r == Err::<(u64, u64), &'static str>("Failed to allocate frame") || r
            == Err::<(u64, u64), &'static str>("All thread stack slots full"),
        r matches Ok(pair) ==> slot_chosen_some(*old(l4), start_slot, pair.0),
        r matches Ok(pair) ==> stack_slot_mapped_fresh(
            *final(l4),
            pair.0,
            pair.1,
            old(fa).allocated(),
            final(fa).allocated(),
        ),
        r matches Ok(pair) ==> forall|f: u64|
            final(fa).allocated().contains(f) && !old(fa).allocated().contains(f)
                && !table_frames(*final(l4), 4).contains(f) ==> #[trigger] stack_slot_mapped(
                *final(l4),
                pair.0,
                pair.1,
                f,
            ),
{
    let ghost l4_0 = *l4;
    let ghost fa_0 = *fa;
    let mut i: u64 = 0;
    while i < USER_STACK_SLOTS
        invariant
            old(fa).wf(),
            fa.wf(),
            fa.memory_map == old(fa).memory_map,
            old(fa).allocated().subset_of(fa.allocated()),
            table_wf(*l4, 4),
            l4.frame == l4_0.frame,
            l4_0 == *old(l4),
            *l4 == l4_0,
            *fa == fa_0,
            fa_0 == *old(fa),
            i <= USER_STACK_SLOTS,
            forall|m: u64|
                m < i ==> #[trigger] slot_occupied(l4_0, scan_slot(start_slot, m) as u64),
        decreases USER_STACK_SLOTS - i,
    {
        let n = (start_slot % USER_STACK_SLOTS + i) % USER_STACK_SLOTS;
        proof {
            assert(n == scan_slot(start_slot, i));
        }
        let slot_base = USER_STACK_BASE + n * USER_STACK_SLOT_SIZE;
        // a slot is free when none of its seven stack pages is mapped
        let mut free = true;
        let mut j: u64 = 1;
        while j <= 7
            invariant
                table_wf(*l4, 4),
                *l4 == l4_0,
                n < USER_STACK_SLOTS,
                slot_base == USER_STACK_BASE + n * USER_STACK_SLOT_SIZE,
                1 <= j <= 8,
                free ==> forall|k: u64|
                    1 <= k < j ==> #[trigger] resolve(l4_0, slot_base + k * PAGE_SIZE) is None,
                !free ==> slot_occupied(l4_0, n),
            decreases 8 - j,
        {
            if translate(l4, slot_base + j * PAGE_SIZE).is_some() {
                proof {
                    assert(resolve(
                        l4_0,
                        USER_STACK_BASE + n * USER_STACK_SLOT_SIZE + j * PAGE_SIZE,
                    ) is Some);
                    assert(slot_occupied(l4_0, n));
                }
                free = false;
            }
            j += 1;
        }
        if free {
            proof {
                assert(slot_base == USER_STACK_BASE + n * USER_STACK_SLOT_SIZE);
                assert(!slot_occupied(l4_0, n)) by {
                    if slot_occupied(l4_0, n) {
                        let k = choose|k: u64|
                            1 <= k < 8 && #[trigger] resolve(
                                l4_0,
                                USER_STACK_BASE + n * USER_STACK_SLOT_SIZE + k * PAGE_SIZE,
                            ) is Some;
                        assert(resolve(l4_0, slot_base + k * PAGE_SIZE) is None);
                        assert(false);
                    }
                }
            }
            let frame = match fa.allocate_frame() {
                Some(f) => f,
                None => {
                    proof {
                        if forall|n2: u64|
                            n2 < USER_STACK_SLOTS ==> #[trigger] slot_occupied(*old(l4), n2) {
                            assert(slot_occupied(l4_0, n));
                            assert(false);
                        }
                    }
                    return Err("Failed to allocate frame");
                },
            };
            let ghost fa_mid = *fa;
            let mut j: u64 = 1;
            while j <= 7
                invariant
                    old(fa).wf(),
                    fa.wf(),
                    fa.memory_map == old(fa).memory_map,
                    old(fa).allocated().subset_of(fa.allocated()),
                    table_wf(*l4, 4),
                    l4.frame == l4_0.frame,
                    l4_0 == *old(l4),
                    table_wf(l4_0, 4),
                    n < USER_STACK_SLOTS,
                    slot_base == USER_STACK_BASE + n * USER_STACK_SLOT_SIZE,
                    1 <= j <= 8,
                    fa.allocated().contains(frame),
                    !fa_0.allocated().contains(frame),
                    fa_mid.allocated() =~= fa_0.allocated().insert(frame),
                    fa_mid.allocated().subset_of(fa.allocated()),
                    forall|f: u64|
                        fa.allocated().contains(f) && !fa_mid.allocated().contains(f)
                            ==> #[trigger] table_frames(*l4, 4).contains(f),
                    !slot_occupied(l4_0, n),
                    forall|k: u64|
                        1 <= k < 8 ==> #[trigger] resolve(l4_0, slot_base + k * PAGE_SIZE)
                            is None,
                    forall|k: u64|
                        1 <= k < j ==> #[trigger] resolve(*l4, slot_base + k * PAGE_SIZE)
                            == Some(
                            (
                                frame,
                                if k == 7 {
                                    PAGE_PRESENT | PAGE_WRITABLE | PAGE_USER_ACCESSIBLE
                                } else {
                                    PAGE_PRESENT | PAGE_USER_ACCESSIBLE
                                },
                            ),
                        ),
                    forall|w: u64|
                        w < VA_LIMIT && !(page_of(slot_base as int) + 1 <= page_of(w as int)
                            < page_of(slot_base as int) + j) ==> #[trigger] resolve(
                            *l4,
                            w as int,
                        ) == resolve(l4_0, w as int),
                    forall|f: u64|
                        table_frames(*l4, 4).contains(f) ==> table_frames(l4_0, 4).contains(f)
                            || (fa.allocated().contains(f) && !old(fa).allocated().contains(
                            f,
                        )),
                decreases 8 - j,
            {
                let va = slot_base + j * PAGE_SIZE;
                let flags = if j == 7 {
                    PAGE_PRESENT | PAGE_WRITABLE | PAGE_USER_ACCESSIBLE
                } else {
                    PAGE_PRESENT | PAGE_USER_ACCESSIBLE
                };
                proof {
                    lemma_slot_page(n, j);
                }
                let ghost fa_j = *fa;
                let mut tmp = PageTable { frame: 0, level: 4, entries: Vec::new() };
                core::mem::swap(l4, &mut tmp);
                let ghost before = tmp;
                let (t2, rr) = map_page_rec(
                    fa,
                    tmp,
                    va,
                    frame,
                    flags,
                    PAGE_PRESENT | PAGE_WRITABLE | PAGE_USER_ACCESSIBLE,
                );
                *l4 = t2;
                proof {
                    assert(before.level == 4);
                    assert forall|f: u64|
                        fa.allocated().contains(f) && !fa_mid.allocated().contains(f)
                            implies #[trigger] table_frames(*l4, 4).contains(f) by {
                        if fa_j.allocated().contains(f) {
                            assert(table_frames(before, before.level as int).contains(f));
                            assert(table_frames(t2, before.level as int).contains(f));
                            assert(table_frames(t2, 4).contains(f));
                        } else {
                            assert(fa.allocated().contains(f) && !fa_j.allocated().contains(f));
                            assert(table_frames(t2, before.level as int).contains(f));
                            assert(table_frames(t2, 4).contains(f));
                        }
                    }
                }
                proof {
                    assert(resolve(before, va as int) == resolve(l4_0, va as int)) by {
                        assert(page_of(va as int) == page_of(slot_base as int) + j);
                    }
                    assert(resolve(l4_0, va as int) is None);
                }
                match rr {
                    Ok(()) => {},
                    Err(e) => {
                        proof {
                            assert(!(e is PageAlreadyMapped || e is ParentEntryHugePage));
                            assert forall|w: u64|
                                w < VA_LIMIT && !(USER_STACK_BASE <= w < USER_STACK_BASE
                                    + USER_STACK_SLOTS * USER_STACK_SLOT_SIZE) implies #[trigger] resolve(
                                *l4,
                                w as int,
                            ) == resolve(l4_0, w as int) by {
                                assert(resolve_at(t2, 4, w as int) == resolve_at(
                                    before,
                                    4,
                                    w as int,
                                ));
                                assert(resolve(before, w as int) == resolve(l4_0, w as int));
                            }
                        }
                        proof {
                            if forall|n2: u64|
                                n2 < USER_STACK_SLOTS ==> #[trigger] slot_occupied(
                                    *old(l4),
                                    n2,
                                ) {
                                assert(slot_occupied(l4_0, n));
                                assert(false);
                            }
                        }
                        return Err("Failed to allocate frame");
                    },
                }
                proof {
                    assert forall|k: u64|
                        1 <= k < j + 1 implies #[trigger] resolve(*l4, slot_base + k * PAGE_SIZE)
                        == Some(
                        (
                            frame,
                            if k == 7 {
                                PAGE_PRESENT | PAGE_WRITABLE | PAGE_USER_ACCESSIBLE
                            } else {
                                PAGE_PRESENT | PAGE_USER_ACCESSIBLE
                            },
                        ),
                    ) by {
                        lemma_slot_page(n, k);
                        let wa: u64 = (slot_base + k * PAGE_SIZE) as u64;
                        if k == j {
                            assert(resolve_at(t2, 4, wa as int) == Some((frame, flags)));
                        } else {
                            lemma_same_path_same_page(va, wa);
                            assert(!same_path(va as int, wa as int, 4));
                            assert(resolve_at(t2, 4, wa as int) == resolve_at(
                                before,
                                4,
                                wa as int,
                            ));
                            assert(resolve(before, wa as int) == Some(
                                (
                                    frame,
                                    if k == 7 {
                                        PAGE_PRESENT | PAGE_WRITABLE | PAGE_USER_ACCESSIBLE
                                    } else {
                                        PAGE_PRESENT | PAGE_USER_ACCESSIBLE
                                    },
                                ),
                            ));
                        }
                    }
                    assert forall|w: u64|
                        w < VA_LIMIT && !(page_of(slot_base as int) + 1 <= page_of(w as int)
                            < page_of(slot_base as int) + j + 1) implies #[trigger] resolve(
                        *l4,
                        w as int,
                    ) == resolve(l4_0, w as int) by {
                        lemma_slot_page(n, j);
                        lemma_same_path_same_page(va, w);
                        assert(resolve_at(t2, 4, w as int) == resolve_at(before, 4, w as int));
                        assert(resolve(before, w as int) == resolve(l4_0, w as int));
                    }
                }
                j += 1;
            }
            proof {
                lemma_slot_page(n, 1);
                lemma_slot_page(n, 8);
                assert forall|a: u64|
                    slot_base + PAGE_SIZE <= a < slot_base + 8 * PAGE_SIZE implies #[trigger] resolve(
                    *l4,
                    a as int,
                ) == Some(
                    (
                        frame,
                        if a >= slot_base + 7 * PAGE_SIZE {
                            PAGE_PRESENT | PAGE_WRITABLE | PAGE_USER_ACCESSIBLE
                        } else {
                            PAGE_PRESENT | PAGE_USER_ACCESSIBLE
                        },
                    ),
                ) by {
                    let k = page_of(a as int) - page_of(slot_base as int);
                    lemma_page_within_slot(n, a);
                    lemma_slot_page(n, k as u64);
                    let wa: u64 = (slot_base + (k as u64) * PAGE_SIZE) as u64;
                    lemma_same_path_same_page(wa, a);
                    lemma_resolve_same_path(*l4, 4, wa, a);
                    assert(resolve(*l4, wa as int) == Some(
                        (
                            frame,
                            if k == 7 {
                                PAGE_PRESENT | PAGE_WRITABLE | PAGE_USER_ACCESSIBLE
                            } else {
                                PAGE_PRESENT | PAGE_USER_ACCESSIBLE
                            },
                        ),
                    ));
                }
                assert forall|w: u64|
                    w < VA_LIMIT && !(slot_base + PAGE_SIZE <= w < slot_base + 8 * PAGE_SIZE)
                    implies #[trigger] resolve(*l4, w as int) == resolve(l4_0, w as int) by {
                    lemma_page_outside_slot(n, w);
                }
                assert forall|w: u64|
                    w < VA_LIMIT && !(USER_STACK_BASE <= w < USER_STACK_BASE + USER_STACK_SLOTS
                        * USER_STACK_SLOT_SIZE) implies #[trigger] resolve(*l4, w as int)
                    == resolve(l4_0, w as int) by {
                    lemma_page_outside_slot(n, w);
                }
            }
            let lo = slot_base + PAGE_SIZE;
            let hi = slot_base + 8 * PAGE_SIZE;
            proof {
                assert(stack_slot_mapped(*l4, lo, hi, frame));
                assert(stack_slot_mapped_some(*l4, lo, hi));
                assert(slot_chosen(*old(l4), start_slot, i, lo));
                assert(slot_chosen_some(*old(l4), start_slot, lo));
                assert(stack_slot_mapped_fresh(
                    *l4,
                    lo,
                    hi,
                    fa_0.allocated(),
                    fa.allocated(),
                ));
                if forall|n2: u64|
                    n2 < USER_STACK_SLOTS ==> #[trigger] slot_occupied(*old(l4), n2) {
                    assert(slot_occupied(l4_0, n));
                    assert(false);
                }
                assert forall|f: u64|
                    fa.allocated().contains(f) && !fa_0.allocated().contains(f)
                        && !table_frames(*l4, 4).contains(f) implies #[trigger] stack_slot_mapped(
                    *l4,
                    lo,
                    hi,
                    f,
                ) by {
                    if fa_mid.allocated().contains(f) {
                        assert(f == frame);
                    } else {
                        assert(table_frames(*l4, 4).contains(f));
                        assert(false);
                    }
                }
            }
            return Ok((lo, hi));
        }
        i += 1;
    }
    proof {
        let s0 = start_slot % USER_STACK_SLOTS;
        assert forall|n: u64| n < USER_STACK_SLOTS implies #[trigger] slot_occupied(
            l4_0,
            n,
        ) by {
            // the circular scan visited every slot: residue n was reached
            // at step n - s0, wrapping past the end of the range
            let m: u64 = if n >= s0 {
                (n - s0) as u64
            } else {
                (n + USER_STACK_SLOTS - s0) as u64
            };
            assert(m < USER_STACK_SLOTS);
            assert(scan_slot(start_slot, m) == n) by {
                if n >= s0 {
                    vstd::arithmetic::div_mod::lemma_small_mod(n as nat, USER_STACK_SLOTS as nat);
                } else {
                    vstd::arithmetic::div_mod::lemma_mod_add_multiples_vanish(
                        n as int,
                        USER_STACK_SLOTS as int,
                    );
                    vstd::arithmetic::div_mod::lemma_small_mod(n as nat, USER_STACK_SLOTS as nat);
                }
            }
            assert(slot_occupied(l4_0, scan_slot(start_slot, m) as u64));
        }
    }
    Err("All thread stack slots full")
}

/// Stack-slot page arithmetic: page `k` of slot `n` sits `k` pages above
/// the slot base, inside the translated address range.
proof fn lemma_slot_page(n: u64, k: u64)
    requires
        n < USER_STACK_SLOTS,
        k <= 8,
    ensures
        ({
            let sb = USER_STACK_BASE + n * USER_STACK_SLOT_SIZE;
            &&& sb + k * PAGE_SIZE < VA_LIMIT
            &&& page_of((sb + k * PAGE_SIZE) as int) == page_of(sb as int) + k
            &&& page_of(sb as int) == 0x28000000 + n * 8
        }),
{
    let sb = USER_STACK_BASE + n * USER_STACK_SLOT_SIZE;
    let ni = n as int;
    let ki = k as int;
    assert(ni * 0x8000 <= 63 * 0x8000) by (nonlinear_arith)
        requires
            ni <= 63,
    ;
    assert(ki * 0x1000 <= 8 * 0x1000) by (nonlinear_arith)
        requires
            ki <= 8,
    ;
    let sbi: int = 0x280_0000_0000 + ni * 0x8000;
    assert(sb == sbi);
    assert(sbi == (0x28000000 + ni * 8) * 0x1000) by {
        vstd::arithmetic::mul::lemma_mul_is_distributive_add_other_way(0x1000, 0x28000000, ni * 8);
        vstd::arithmetic::mul::lemma_mul_is_associative(ni, 8, 0x1000);
        assert(0x28000000 * 0x1000 == 0x280_0000_0000int) by (nonlinear_arith);
        assert(8 * 0x1000 == 0x8000int) by (nonlinear_arith);
    }
    vstd::arithmetic::div_mod::lemma_div_by_multiple(0x28000000 + ni * 8, PAGE_SIZE as int);
    assert(sbi + ki * 0x1000 == (0x28000000 + ni * 8 + ki) * 0x1000) by {
        vstd::arithmetic::mul::lemma_mul_is_distributive_add_other_way(
            0x1000,
            0x28000000 + ni * 8,
            ki,
        );
        vstd::arithmetic::mul::lemma_mul_is_distributive_add_other_way(0x1000, 0x28000000, ni * 8);
        vstd::arithmetic::mul::lemma_mul_is_associative(ni, 8, 0x1000);
        assert(0x28000000 * 0x1000 == 0x280_0000_0000int) by (nonlinear_arith);
        assert(8 * 0x1000 == 0x8000int) by (nonlinear_arith);
    }
    vstd::arithmetic::div_mod::lemma_div_by_multiple(0x28000000 + ni * 8 + ki, PAGE_SIZE as int);
    assert(page_of(sbi + ki * 0x1000) == 0x28000000 + ni * 8 + ki);
}

/// An address whose page lies between stack pages one and seven of a slot
/// lies within the slot's mapped byte range, `k` pages up.
proof fn lemma_page_within_slot(n: u64, a: u64)
    requires
        n < USER_STACK_SLOTS,
        USER_STACK_BASE + n * USER_STACK_SLOT_SIZE + PAGE_SIZE <= a < USER_STACK_BASE + n
            * USER_STACK_SLOT_SIZE + 8 * PAGE_SIZE,
    ensures
        ({
            let sb = USER_STACK_BASE + n * USER_STACK_SLOT_SIZE;
            &&& 1 <= page_of(a as int) - page_of(sb as int) <= 7
            &&& (page_of(a as int) - page_of(sb as int) == 7) <==> a >= sb + 7 * PAGE_SIZE
        }),
{
    let sb = USER_STACK_BASE + n * USER_STACK_SLOT_SIZE;
    lemma_slot_page(n, 0);
    lemma_slot_page(n, 8);
    vstd::arithmetic::div_mod::lemma_div_is_ordered(sb + PAGE_SIZE, a as int, PAGE_SIZE as int);
    vstd::arithmetic::div_mod::lemma_div_is_ordered(a as int, sb + 8 * PAGE_SIZE - 1, PAGE_SIZE as int);
    lemma_slot_page(n, 1);
    lemma_slot_page(n, 7);
    assert(page_of(sb + 8 * PAGE_SIZE - 1) == page_of(sb as int) + 7) by {
        vstd::arithmetic::div_mod::lemma_fundamental_div_mod_converse_div(
            sb + 8 * PAGE_SIZE - 1,
            PAGE_SIZE as int,
            page_of(sb as int) + 7,
            PAGE_SIZE as int - 1,
        );
    }
    if page_of(a as int) - page_of(sb as int) == 7 {
        assert(a >= sb + 7 * PAGE_SIZE) by {
            vstd::arithmetic::div_mod::lemma_fundamental_div_mod(a as int, PAGE_SIZE as int);
            vstd::arithmetic::div_mod::lemma_mod_bound(a as int, PAGE_SIZE as int);
        }
    }
    if a >= sb + 7 * PAGE_SIZE {
        vstd::arithmetic::div_mod::lemma_div_is_ordered(sb + 7 * PAGE_SIZE, a as int, PAGE_SIZE as int);
    }
}

/// An address outside a slot's mapped byte range lies on a page outside
/// the slot's mapped pages.
proof fn lemma_page_outside_slot(n: u64, w: u64)
    requires
        n < USER_STACK_SLOTS,
        !(USER_STACK_BASE + n * USER_STACK_SLOT_SIZE + PAGE_SIZE <= w < USER_STACK_BASE + n
            * USER_STACK_SLOT_SIZE + 8 * PAGE_SIZE),
    ensures
        ({
            let sb = USER_STACK_BASE + n * USER_STACK_SLOT_SIZE;
            !(page_of(sb as int) + 1 <= page_of(w as int) < page_of(sb as int) + 8)
        }),
{
    let sb = USER_STACK_BASE + n * USER_STACK_SLOT_SIZE;
    lemma_slot_page(n, 1);
    lemma_slot_page(n, 8);
    if w < sb + PAGE_SIZE {
        vstd::arithmetic::div_mod::lemma_div_is_ordered(w as int, sb + PAGE_SIZE - 1, PAGE_SIZE as int);
        assert(page_of(sb + PAGE_SIZE - 1) == page_of(sb as int)) by {
            lemma_slot_page(n, 0);
            vstd::arithmetic::div_mod::lemma_fundamental_div_mod_converse_div(
                sb + PAGE_SIZE - 1,
                PAGE_SIZE as int,
                page_of(sb as int),
                PAGE_SIZE as int - 1,
            );
        }
    } else {
        assert(w >= sb + 8 * PAGE_SIZE);
        vstd::arithmetic::div_mod::lemma_div_is_ordered(sb + 8 * PAGE_SIZE, w as int, PAGE_SIZE as int);
    }
}

/// Map the kernel heap region into an address space and hand the heap
/// allocator its bounds.
pub fn init_heap(
    fa: &mut BootInfoFrameAllocator,
    l4: &mut PageTable,
    heap: &mut allocator::FixedSizeBlockAllocator,
) -> (r: Result<(), MapToError>)
    requires
        old(fa).wf(),
        table_wf(*old(l4), 4),
        old(heap)@.wf(),
    ensures
        final(fa).wf(),
        final(fa).memory_map == old(fa).memory_map,
        old(fa).allocated().subset_of(final(fa).allocated()),
        table_wf(*final(l4), 4),
        final(l4).frame == old(l4).frame,
        forall|f: u64|
            table_frames(*final(l4), 4).contains(f) ==> table_frames(*old(l4), 4).contains(f) || (
            final(fa).allocated().contains(f) && !old(fa).allocated().contains(f)),
        r matches Ok(()) ==> {
            &&& final(heap)@.wf()
            &&& final(heap)@.fallback.bottom == HEAP_START
            &&& final(heap)@.fallback.size == HEAP_SIZE
            &&& final(heap)@.heads == old(heap)@.heads
            &&& final(heap)@.fallback.holes == seq![
                allocator::FreeRegion { start: HEAP_START, size: HEAP_SIZE },
            ]
            &&& forall|a: u64|
                HEAP_START <= a < HEAP_START + HEAP_SIZE ==> ((#[trigger] resolve(
                    *final(l4),
                    a as int,
                )) matches Some(p) && p.1 == (PAGE_PRESENT | PAGE_WRITABLE)
                    && final(fa).allocated().contains(p.0) && !old(fa).allocated().contains(
                    p.0,
                ))
            &&& forall|a: u64, b: u64|
                HEAP_START <= a < HEAP_START + HEAP_SIZE && HEAP_START <= b < HEAP_START
                    + HEAP_SIZE && page_of(a as int) != page_of(b as int)
                    ==> #[trigger] resolved_frame(*final(l4), a) != #[trigger] resolved_frame(
                    *final(l4),
                    b,
                )
        },
        forall|w: u64|
            w < VA_LIMIT && !(page_of(HEAP_START as int) <= page_of(w as int) <= page_of(
                HEAP_START + HEAP_SIZE - 1,
            )) ==> #[trigger] resolve(*final(l4), w as int) == resolve(*old(l4), w as int),
        r is Err ==> *final(heap) == *old(heap),
        r == Err::<(), MapToError>(MapToError::FrameAllocationFailed) ==> final(fa).exhausted(),
        r matches Err(e) ==> (e is PageAlreadyMapped || e is ParentEntryHugePage ==> exists|a: u64|
            HEAP_START <= a < HEAP_START + HEAP_SIZE && #[trigger] resolve(
                *old(l4),
                a as int,
            ) is Some),
{
    match allocate_pages(fa, l4, HEAP_START, HEAP_SIZE, PAGE_PRESENT | PAGE_WRITABLE) {
        Ok(()) => {},
        Err(e) => {
            return Err(e);
        },
    }
    heap.init(HEAP_START, HEAP_SIZE);
    Ok(())
}

/// Boot-time memory state: the frame allocator over the boot memory map
/// and the kernel's template root table, whose mappings every address
/// space shares.
pub struct MemoryInfo {
    pub physical_memory_offset: u64,
    pub frame_allocator: BootInfoFrameAllocator,
    pub kernel_l4_table: PageTable,
}

impl MemoryInfo {
    /// Well-formedness: the allocator is over a well-formed map, the
    /// kernel table is a well-formed root, and every frame the kernel's
    /// tables occupy came from this allocator.
    pub open spec fn wf(self) -> bool {
        &&& self.frame_allocator.wf()
        &&& table_wf(self.kernel_l4_table, 4)
        &&& forall|f: u64|
            table_frames(self.kernel_l4_table, 4).contains(f)
                ==> #[trigger] self.frame_allocator.allocated().contains(f)
    }
}

/// Set up memory at boot: build the frame allocator from the boot memory
/// map, create the kernel's root table, map the kernel heap into it, and
/// initialize the heap allocator over that region.
pub fn init(
    physical_memory_offset: u64,
    memory_map: Vec<MemoryRegion>,
    heap: &mut allocator::FixedSizeBlockAllocator,
) -> (r: Result<MemoryInfo, MapToError>)
    requires
        memory_map_wf(memory_map@),
        usable_frames(memory_map@).len() < u64::MAX,
        old(heap)@.wf(),
    ensures
        r matches Ok(m) ==> {
            &&& m.wf()
            &&& m.physical_memory_offset == physical_memory_offset
            &&& final(heap)@.wf()
            &&& final(heap)@.fallback.bottom == HEAP_START
            &&& final(heap)@.fallback.size == HEAP_SIZE
            &&& forall|a: u64|
                HEAP_START <= a < HEAP_START + HEAP_SIZE ==> ((#[trigger] resolve(
                    m.kernel_l4_table,
                    a as int,
                )) matches Some(p) && p.1 == (PAGE_PRESENT | PAGE_WRITABLE))
            &&& forall|w: u64|
                w < VA_LIMIT && !(page_of(HEAP_START as int) <= page_of(w as int) <= page_of(
                    HEAP_START + HEAP_SIZE - 1,
                )) ==> #[trigger] resolve(m.kernel_l4_table, w as int) is None
        },
        r matches Err(e) ==> e is FrameAllocationFailed,
{
    let mut fa = BootInfoFrameAllocator::new(memory_map);
    let mut l4 = match create_empty_pagetable(&mut fa, 4) {
        Ok(t) => t,
        Err(e) => {
            return Err(e);
        },
    };
    let ghost l4_fresh = l4;
    proof {
        assert forall|w: u64| #[trigger] resolve(l4_fresh, w as int) is None by {
            vstd::arithmetic::div_mod::lemma_mod_bound((w as int) / level_span(4), 512);
            assert(l4_fresh.entries@[level_index(w as int, 4)] is Unused);
        }
    }
    match init_heap(&mut fa, &mut l4, heap) {
        Ok(()) => {},
        Err(e) => {
            proof {
                // a mapping conflict is impossible in a table created empty
                if e is PageAlreadyMapped || e is ParentEntryHugePage {
                    let a = choose|a: u64|
                        HEAP_START <= a < HEAP_START + HEAP_SIZE && #[trigger] resolve(
                            l4_fresh,
                            a as int,
                        ) is Some;
                    assert(resolve(l4_fresh, a as int) is None);
                    assert(false);
                }
            }
            return Err(e);
        },
    }
    proof {
        lemma_frames_of_unused(l4_fresh.entries@, 4);
        assert forall|f: u64| table_frames(l4, 4).contains(f) implies fa.allocated().contains(
            f,
        ) by {
            if table_frames(l4_fresh, 4).contains(f) {
                assert(f == l4_fresh.frame);
            }
        }
        assert forall|w: u64|
            w < VA_LIMIT && !(page_of(HEAP_START as int) <= page_of(w as int) <= page_of(
                HEAP_START + HEAP_SIZE - 1,
            )) implies #[trigger] resolve(l4, w as int) is None by {
            assert(resolve(l4_fresh, w as int) is None);
        }
    }
    Ok(MemoryInfo { physical_memory_offset, frame_allocator: fa, kernel_l4_table: l4 })
}

impl MemoryInfo {
    /// Create a page table for a new user address space: a deep copy of
    /// the kernel's template.  Frame mappings are copied verbatim — every
    /// address translates exactly as under the template — while all the
    /// copy's own tables occupy freshly allocated frames, disjoint from
    /// the template's, so later edits to the copy cannot alter the
    /// template.  Returns the copy and the physical address of its root.
    pub fn create_new_user_pagetable(&mut self) -> (r: Result<(PageTable, u64), MapToError>)
        requires
            old(self).wf(),
        ensures
            final(self).wf(),
            final(self).kernel_l4_table == old(self).kernel_l4_table,
            final(self).physical_memory_offset == old(self).physical_memory_offset,
            old(self).frame_allocator.allocated().subset_of(
                final(self).frame_allocator.allocated(),
            ),
            r matches Ok(p) ==> {
                &&& table_wf(p.0, 4)
                &&& p.1 == p.0.frame
                &&& forall|va: u64|
                    #[trigger] resolve(p.0, va as int) == resolve(
                        old(self).kernel_l4_table,
                        va as int,
                    )
                &&& forall|f: u64|
                    table_frames(p.0, 4).contains(f) ==> !table_frames(
                        old(self).kernel_l4_table,
                        4,
                    ).contains(f) && final(self).frame_allocator.allocated().contains(f)
            },
            r matches Err(e) ==> e is FrameAllocationFailed
                && final(self).frame_allocator.exhausted(),
    {
        let table = match copy_pagetables(&mut self.frame_allocator, &self.kernel_l4_table) {
            Ok(t) => t,
            Err(e) => {
                return Err(e);
            },
        };
        let physaddr = table.frame;
        proof {
            assert forall|va: u64| #[trigger] resolve(table, va as int) == resolve(
                old(self).kernel_l4_table,
                va as int,
            ) by {
                assert(resolve_at(table, 4, va as int) == resolve_at(
                    old(self).kernel_l4_table,
                    4,
                    va as int,
                ));
            }
            assert forall|f: u64| table_frames(table, 4).contains(f) implies (!table_frames(
                old(self).kernel_l4_table,
                4,
            ).contains(f) && self.frame_allocator.allocated().contains(f)) by {
                assert(!old(self).frame_allocator.allocated().contains(f));
            }
            assert forall|f: u64|
                table_frames(self.kernel_l4_table, 4).contains(f) implies #[trigger] self.frame_allocator.allocated().contains(
                f,
            ) by {
                assert(old(self).frame_allocator.allocated().contains(f));
            }
        }
        Ok((table, physaddr))
    }
}

} // verus!
