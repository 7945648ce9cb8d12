//! The memory mapper: what is to be written into the page table for a
//! mapping, a removal, or a run of freshly allocated pages.
//!
//! The page table itself is live hardware state. The mapper therefore decides
//! and the caller acts: each operation answers with a request, the caller
//! carries it out on the table and reports what the table said.

use vstd::prelude::*;
use crate::frame::{
    alloc_result, alloc_state, dealloc_result, dealloc_state, frame_of, lemma_allocated_address, AllocError,
    BootstrapFrameManager, DeallocError, FrameAllocator, BLOCK_COUNT, BLOCK_SIZE, TOTAL_MEMORY,
};
use crate::paging::{RecursiveSlot, RecursiveSlotView, FRAME_SIZE, MAPPING_FLAGS, PAGE_SIZE};
use crate::x86::{
    frame_from_start_address, is_canonical, page_from_start_address, phys_limit, sign_extended, truncate_phys_addr,
    truncate_virt_addr,
};

verus! {

/// Why a mapping was not installed.
#[derive(Clone, Copy, Debug, PartialEq, Eq, Structural)]
pub enum MapError {
    /// The virtual address is not the start of a page.
    PageMisaligned,
    /// The physical address is not the start of a frame.
    FrameMisaligned,
    /// The page table did not take the mapping.
    MapFailed,
}

/// Why a mapping was not removed.
#[derive(Clone, Copy, Debug, PartialEq, Eq, Structural)]
pub enum UnmapError {
    /// The virtual address is not the start of a page.
    PageMisaligned,
    /// The page was not mapped.
    UnmapFailed,
}

/// Why a run of pages was not allocated and mapped.
#[derive(Clone, Copy, Debug, PartialEq, Eq, Structural)]
pub enum MapAllocError {
    /// The frame allocator handed out nothing.
    Allocation(AllocError),
    /// One page of the run was not mapped.
    Mapping(MapError),
}

impl MapError {
    /// The text that `message` returns for each variant.
    pub open spec fn message_text(self) -> Seq<char> {
        match self {
            Self::PageMisaligned => "Page start not aligned correctly"@,
            Self::FrameMisaligned => "Frame start not aligned correctly"@,
            Self::MapFailed => "Unable to map the thingymabob"@,
        }
    }

    /// A human-readable description of the failure.
    pub fn message(&self) -> (text: &'static str)
        ensures
            text@ == self.message_text(),
    {
        match self {
            Self::PageMisaligned => "Page start not aligned correctly",
            Self::FrameMisaligned => "Frame start not aligned correctly",
            Self::MapFailed => "Unable to map the thingymabob",
        }
    }
}

impl UnmapError {
    /// The text that `message` returns for each variant.
    pub open spec fn message_text(self) -> Seq<char> {
        match self {
            Self::PageMisaligned => "Page start not aligned correctly"@,
            Self::UnmapFailed => "Failed to unmap the page :/"@,
        }
    }

    /// A human-readable description of the failure.
    pub fn message(&self) -> (text: &'static str)
        ensures
            text@ == self.message_text(),
    {
        match self {
            Self::PageMisaligned => "Page start not aligned correctly",
            Self::UnmapFailed => "Failed to unmap the page :/",
        }
    }
}

impl MapAllocError {
    /// The text that `message` returns: that of the failure inside.
    pub open spec fn message_text(self) -> Seq<char> {
        match self {
            Self::Allocation(e) => e.message_text(),
            Self::Mapping(e) => e.message_text(),
        }
    }

    /// A human-readable description of the failure.
    pub fn message(&self) -> (text: &'static str)
        ensures
            text@ == self.message_text(),
    {
        match self {
            Self::Allocation(e) => e.message(),
            Self::Mapping(e) => e.message(),
        }
    }
}

/// A mapping to install: bind `page` to `frame` with `flags`, then flush
/// what the processor has cached of `page`.
#[derive(Clone, Copy, Debug, PartialEq, Eq, Structural)]
pub struct MapRequest {
    pub page: u64,
    pub frame: u64,
    pub flags: u64,
}

/// A mapping to remove: unbind `page`, then flush what the processor has
/// cached of `page`.
#[derive(Clone, Copy, Debug, PartialEq, Eq, Structural)]
pub struct UnmapRequest {
    pub page: u64,
}

/// The request that binds `page` to `frame`, or the reason why there is none.
pub open spec fn map_check(page: u64, frame: u64) -> Result<MapRequest, MapError> {
    if page % 4096 != 0 {
        Err(MapError::PageMisaligned)
    } else if frame % 4096 != 0 {
        Err(MapError::FrameMisaligned)
    } else if !is_canonical(page) || frame >= phys_limit() {
        Err(MapError::MapFailed)
    } else {
        Ok(MapRequest { page, frame, flags: MAPPING_FLAGS })
    }
}

/// The request that unbinds `page`, or the reason why there is none.
pub open spec fn unmap_check(page: u64) -> Result<UnmapRequest, UnmapError> {
    if page % 4096 != 0 {
        Err(UnmapError::PageMisaligned)
    } else if !is_canonical(page) {
        Err(UnmapError::UnmapFailed)
    } else {
        Ok(UnmapRequest { page })
    }
}

/// The answer of `map` for what the page table said to its request.
pub open spec fn map_answer(installed: bool) -> Result<(), MapError> {
    if installed {
        Ok(())
    } else {
        Err(MapError::MapFailed)
    }
}

/// The answer of `unmap` for what the page table said to its request.
pub open spec fn unmap_answer(removed: Option<u64>) -> Result<u64, UnmapError> {
    match removed {
        Some(frame) => Ok(frame),
        None => Err(UnmapError::UnmapFailed),
    }
}

proof fn lemma_truncation_keeps_offset(addr: u64)
    by (bit_vector)
    ensures
        sign_extended(addr) % 4096 == addr % 4096,
        (addr % 0x0010_0000_0000_0000) % 4096 == addr % 4096,
        sign_extended(addr) < 0x0000_8000_0000_0000 || sign_extended(addr) >= 0xffff_8000_0000_0000,
        sign_extended(addr) == addr <==> (addr < 0x0000_8000_0000_0000 || addr >= 0xffff_8000_0000_0000),
        addr % 0x0010_0000_0000_0000 == addr <==> addr < 0x0010_0000_0000_0000,
        addr % 0x0010_0000_0000_0000 < 0x0010_0000_0000_0000,
{
}

/// The request that binds `page` to `frame`, decided with the alignment
/// checks of the paging layer.
fn map_request(page: u64, frame: u64) -> (request: Result<MapRequest, MapError>)
    ensures
        request == map_check(page, frame),
{
    proof {
        lemma_truncation_keeps_offset(page);
        lemma_truncation_keeps_offset(frame);
    }
    let canonical = truncate_virt_addr(page);
    let physical = truncate_phys_addr(frame);
    let page_start = match page_from_start_address(canonical) {
        Some(start) => start,
        None => {
            return Err(MapError::PageMisaligned);
        },
    };
    let frame_start = match frame_from_start_address(physical) {
        Some(start) => start,
        None => {
            return Err(MapError::FrameMisaligned);
        },
    };
    if page_start != page || frame_start != frame {
        return Err(MapError::MapFailed);
    }
    Ok(MapRequest { page: page_start, frame: frame_start, flags: MAPPING_FLAGS })
}

/// What the caller of a run of pages is to do next.
#[derive(Clone, Copy, Debug, PartialEq, Eq, Structural)]
pub enum MapAllocStep {
    /// Carry out the request and report with `record` whether the page
    /// table took it.
    Install(MapRequest),
    /// Every page of the run is mapped; the run starts at this page.
    Done(u64),
    /// The run has ended early. What was mapped before stays mapped and the
    /// block stays taken: nothing is undone.
    Failed(MapAllocError),
}

/// A run of pages on one freshly allocated block, as `map_alloc` leaves it
/// to the caller: page `k` of the run goes to the `k`-th frame of the block.
pub struct MapAllocRun {
    page: u64,
    frame_block: u64,
    page_count: u32,
    mapped: u32,
    rejected: bool,
}

/// The state of a run.
pub struct MapAllocRunView {
    /// First page of the run.
    pub page: u64,
    /// Start of the block that backs the run.
    pub frame_block: u64,
    /// Number of pages in the run.
    pub page_count: nat,
    /// Number of pages that the page table has taken so far.
    pub mapped: nat,
    /// Whether the page table has refused a page of the run.
    pub rejected: bool,
}

/// The step that a run in state `run` asks for.
pub open spec fn run_step(run: MapAllocRunView) -> MapAllocStep {
    if run.rejected {
        MapAllocStep::Failed(MapAllocError::Mapping(MapError::MapFailed))
    } else if run.mapped >= run.page_count {
        MapAllocStep::Done(run.page)
    } else if run.page + run.mapped * PAGE_SIZE > u64::MAX || run.frame_block + run.mapped * FRAME_SIZE > u64::MAX {
        MapAllocStep::Failed(MapAllocError::Mapping(MapError::MapFailed))
    } else {
        match map_check(
            (run.page + run.mapped * PAGE_SIZE) as u64,
            (run.frame_block + run.mapped * FRAME_SIZE) as u64,
        ) {
            Ok(request) => MapAllocStep::Install(request),
            Err(e) => MapAllocStep::Failed(MapAllocError::Mapping(e)),
        }
    }
}

/// The state of a run after the caller has reported on a request.
pub open spec fn run_after(run: MapAllocRunView, installed: bool) -> MapAllocRunView {
    if !(run_step(run) is Install) {
        run
    } else if installed {
        MapAllocRunView { mapped: run.mapped + 1, ..run }
    } else {
        MapAllocRunView { rejected: true, ..run }
    }
}

/// The answer of `map_alloc` on a frame allocator in state `blocks`.
pub open spec fn map_alloc_result(blocks: Seq<bool>, page: u64, page_count: u32) -> Result<
    MapAllocRunView,
    MapAllocError,
> {
    match alloc_result(blocks, page_count * PAGE_SIZE) {
        Ok(frame_block) => Ok(
            MapAllocRunView { page, frame_block, page_count: page_count as nat, mapped: 0, rejected: false },
        ),
        Err(e) => Err(MapAllocError::Allocation(e)),
    }
}

impl View for MapAllocRun {
    type V = MapAllocRunView;

    closed spec fn view(&self) -> MapAllocRunView {
        MapAllocRunView {
            page: self.page,
            frame_block: self.frame_block,
            page_count: self.page_count as nat,
            mapped: self.mapped as nat,
            rejected: self.rejected,
        }
    }
}

impl MapAllocRun {
    /// The first page of the run.
    pub fn page(&self) -> (page: u64)
        ensures
            page == self@.page,
    {
        self.page
    }

    /// The start of the block that backs the run. A caller that gives up a
    /// failed run releases the block with this address.
    pub fn frame_block(&self) -> (frame_block: u64)
        ensures
            frame_block == self@.frame_block,
    {
        self.frame_block
    }

    /// The number of pages in the run.
    pub fn page_count(&self) -> (page_count: u32)
        ensures
            page_count == self@.page_count,
    {
        self.page_count
    }

    /// The number of pages that the page table has taken so far, counted
    /// from the first page. A caller that gives up a failed run unmaps
    /// these.
    pub fn mapped(&self) -> (mapped: u32)
        ensures
            mapped == self@.mapped,
    {
        self.mapped
    }

    /// What is to be done next: the request for the next page, the end of
    /// the run, or its failure.
    pub fn next_step(&self) -> (step: MapAllocStep)
        ensures
            step == run_step(self@),
    {
        if self.rejected {
            return MapAllocStep::Failed(MapAllocError::Mapping(MapError::MapFailed));
        }
        if self.mapped >= self.page_count {
            return MapAllocStep::Done(self.page);
        }
        let offset: u64 = self.mapped as u64 * PAGE_SIZE as u64;
        if offset > u64::MAX - self.page || offset > u64::MAX - self.frame_block {
            return MapAllocStep::Failed(MapAllocError::Mapping(MapError::MapFailed));
        }
        match map_request(self.page + offset, self.frame_block + offset) {
            Ok(request) => MapAllocStep::Install(request),
            Err(e) => MapAllocStep::Failed(MapAllocError::Mapping(e)),
        }
    }

    /// Takes note of what the page table said to the request of
    /// `next_step`: a page that was taken counts as mapped, a page that was
    /// refused ends the run. Where no request was open, nothing changes.
    pub fn record(&mut self, installed: bool)
        ensures
            final(self)@ == run_after(old(self)@, installed),
    {
        match self.next_step() {
            MapAllocStep::Install(_) => {
                if installed {
                    self.mapped = self.mapped + 1;
                } else {
                    self.rejected = true;
                }
            },
            _ => {},
        }
    }
}

/// The memory mapper of the boot phase, with the frame allocator that backs
/// it. A mapper is made for a page table whose recursive slot is installed:
/// without that slot no mapping can be written.
pub struct BootloaderMemoryMapper {
    frame_allocator: BootstrapFrameManager,
    recursive: RecursiveSlot,
}

impl View for BootloaderMemoryMapper {
    type V = Seq<bool>;

    /// The blocks of the frame allocator: for each, whether it is in use.
    closed spec fn view(&self) -> Seq<bool> {
        self.frame_allocator@
    }
}

impl BootloaderMemoryMapper {
    /// The frame allocator is consistent.
    pub closed spec fn wf(&self) -> bool {
        self.frame_allocator.wf()
    }

    /// The view has one entry for each block of the frame allocator.
    pub proof fn lemma_block_count(&self)
        ensures
            self@.len() == BLOCK_COUNT,
    {
        self.frame_allocator.lemma_block_count();
    }

    /// The recursive slot of the page table that the mapper works on.
    pub closed spec fn recursive(&self) -> RecursiveSlotView {
        self.recursive@
    }

    /// A mapper for the page table whose recursive slot is `recursive`,
    /// which draws its frames from `frame_allocator`.
    pub fn new(frame_allocator: BootstrapFrameManager, recursive: RecursiveSlot) -> (mapper: Self)
        requires
            frame_allocator.wf(),
        ensures
            mapper.wf(),
            mapper@ == frame_allocator@,
            mapper.recursive() == recursive@,
    {
        BootloaderMemoryMapper { frame_allocator, recursive }
    }

    /// The recursive slot of the page table that the mapper works on.
    pub fn recursive_slot(&self) -> (recursive: RecursiveSlot)
        ensures
            recursive@ == self.recursive(),
    {
        self.recursive
    }

    /// Hands out one frame for a paging structure that the page table needs
    /// while it installs a mapping.
    pub fn allocate_frame(&mut self) -> (frame: Option<u64>)
        requires
            old(self).wf(),
        ensures
            final(self).wf(),
            final(self)@ == alloc_state(old(self)@, 1),
            final(self).recursive() == old(self).recursive(),
            frame == frame_of(alloc_result(old(self)@, 1)),
    {
        self.frame_allocator.allocate_frame()
    }

    /// Gives the block that starts at `start_addr` back to the frame
    /// allocator, as after an `unmap` or for a run that was given up.
    pub fn deallocate(&mut self, start_addr: u64) -> (released: Result<u64, DeallocError>)
        requires
            old(self).wf(),
        ensures
            final(self).wf(),
            final(self)@ == dealloc_state(old(self)@, start_addr),
            final(self).recursive() == old(self).recursive(),
            released == dealloc_result(old(self)@, start_addr),
    {
        self.frame_allocator.deallocate(start_addr)
    }

    /// Decides whether `page` can be bound to `frame`: both must be 4 KiB
    /// aligned, `page` canonical and `frame` a physical address. The answer
    /// is the mapping to install, with the flags present and writable.
    pub fn map(&self, page: u64, frame: u64) -> (request: Result<MapRequest, MapError>)
        ensures
            request == map_check(page, frame),
    {
        map_request(page, frame)
    }

    /// The answer of `map` once the request has been carried out: success
    /// where the page table took the mapping, `MapFailed` where it did not.
    pub fn map_outcome(&self, installed: bool) -> (mapped: Result<(), MapError>)
        ensures
            mapped == map_answer(installed),
    {
        if installed {
            Ok(())
        } else {
            Err(MapError::MapFailed)
        }
    }

    /// Decides whether `page` can be unbound: it must be 4 KiB aligned and
    /// canonical. The answer is the mapping to remove.
    pub fn unmap(&self, page: u64) -> (request: Result<UnmapRequest, UnmapError>)
        ensures
            request == unmap_check(page),
    {
        proof {
            lemma_truncation_keeps_offset(page);
        }
        let canonical = truncate_virt_addr(page);
        let page_start = match page_from_start_address(canonical) {
            Some(start) => start,
            None => {
                return Err(UnmapError::PageMisaligned);
            },
        };
        if page_start != page {
            return Err(UnmapError::UnmapFailed);
        }
        Ok(UnmapRequest { page: page_start })
    }

    /// The answer of `unmap` once the request has been carried out: the
    /// frame that the page table had bound to the page, or `UnmapFailed`
    /// where it had bound none.
    pub fn unmap_outcome(&self, removed: Option<u64>) -> (unmapped: Result<u64, UnmapError>)
        ensures
            unmapped == unmap_answer(removed),
    {
        match removed {
            Some(frame) => Ok(frame),
            None => Err(UnmapError::UnmapFailed),
        }
    }

    /// Takes one block from the frame allocator for `page_count` pages that
    /// start at `page`, and answers with the run of mappings to install:
    /// page `k` of the run on the `k`-th frame of the block.
    pub fn map_alloc(&mut self, page: u64, page_count: u32) -> (run: Result<MapAllocRun, MapAllocError>)
        requires
            old(self).wf(),
        ensures
            final(self).wf(),
            final(self)@ == alloc_state(old(self)@, page_count * PAGE_SIZE),
            final(self).recursive() == old(self).recursive(),
            match run {
                Ok(run) => map_alloc_result(old(self)@, page, page_count) == Ok::<_, MapAllocError>(run@),
                Err(e) => map_alloc_result(old(self)@, page, page_count) == Err::<MapAllocRunView, _>(e),
            },
    {
        let size: u64 = page_count as u64 * PAGE_SIZE as u64;
        if size > BLOCK_SIZE {
            return Err(MapAllocError::Allocation(AllocError::SizeTooLarge));
        }
        match self.frame_allocator.allocate(size as usize) {
            Ok(frame_block) => Ok(MapAllocRun { page, frame_block, page_count, mapped: 0, rejected: false }),
            Err(e) => Err(MapAllocError::Allocation(e)),
        }
    }
}

/// The state of a run after the caller has reported, in order, on
/// `reports.len()` requests.
pub open spec fn run_after_all(run: MapAllocRunView, reports: Seq<bool>) -> MapAllocRunView
    decreases reports.len(),
{
    if reports.len() == 0 {
        run
    } else {
        run_after(run_after_all(run, reports.drop_last()), reports.last())
    }
}

/// Adding whole pages to an address does not change what is left of it
/// after the last page boundary.
proof fn lemma_page_offset(addr: int, pages: int)
    ensures
        (addr + pages * 4096) % 4096 == addr % 4096,
{
    vstd::arithmetic::div_mod::lemma_mod_multiples_vanish(pages, addr, 4096);
    assert(4096 * pages + addr == addr + pages * 4096);
}

/// The request for page `k` of a run on a block: where there is one, it
/// binds the page `k` pages after the first to the frame `k` frames after
/// the start of the block; and there is one exactly when the first page and
/// the block start on a page boundary and the page exists.
proof fn lemma_request_of_run(run: MapAllocRunView, k: nat)
    requires
        !run.rejected,
        k < run.page_count,
        run.mapped == k,
        run.frame_block + k * FRAME_SIZE < TOTAL_MEMORY,
    ensures
        run_step(run) is Install <==> {
            &&& run.page % 4096 == 0
            &&& run.frame_block % 4096 == 0
            &&& run.page + k * PAGE_SIZE <= u64::MAX
            &&& is_canonical((run.page + k * PAGE_SIZE) as u64)
        },
        run_step(run) matches MapAllocStep::Install(request) ==> request == run_request(run, k),
{
    lemma_page_offset(run.page as int, k as int);
    lemma_page_offset(run.frame_block as int, k as int);
    let page = run.page + k * PAGE_SIZE;
    let frame = run.frame_block + k * FRAME_SIZE;
    assert(page == run.page + k * 4096);
    assert(frame == run.frame_block + k * 4096);
    assert(0 <= frame < phys_limit());
    if page <= u64::MAX {
        assert(map_check(page as u64, frame as u64) is Ok <==> {
            &&& page % 4096 == 0
            &&& frame % 4096 == 0
            &&& is_canonical(page as u64)
        });
    }
}

/// The pages of a run lie on consecutive frames of one block. Where
/// `map_alloc` succeeds, the block it took starts at a multiple of
/// `BLOCK_SIZE`, was free before and is in use afterwards; the run fits into
/// it; and the request for page `k` of the run, where there is one, binds
/// the page `k` pages after the first to the frame `k` frames after the
/// start of the block, present and writable.
pub proof fn lemma_map_alloc_contiguity(blocks: Seq<bool>, page: u64, page_count: u32, k: nat)
    requires
        blocks.len() == BLOCK_COUNT,
        map_alloc_result(blocks, page, page_count) is Ok,
        k < page_count,
    ensures
        ({
            let run = map_alloc_result(blocks, page, page_count)->Ok_0;
            let block = (run.frame_block / BLOCK_SIZE) as int;
            let at_k = MapAllocRunView { mapped: k, ..run };
            &&& run.frame_block % BLOCK_SIZE == 0
            &&& 0 <= block < BLOCK_COUNT
            &&& !blocks[block]
            &&& alloc_state(blocks, page_count * PAGE_SIZE)[block]
            &&& page_count * FRAME_SIZE <= BLOCK_SIZE
            &&& run.frame_block + (k + 1) * FRAME_SIZE <= run.frame_block + BLOCK_SIZE <= TOTAL_MEMORY
            &&& run_step(at_k) is Install <==> {
                &&& page % 4096 == 0
                &&& run.frame_block % 4096 == 0
                &&& page + k * PAGE_SIZE <= u64::MAX
                &&& is_canonical((page + k * PAGE_SIZE) as u64)
            }
            &&& run_step(at_k) matches MapAllocStep::Install(request) ==> {
                &&& request.page == page + k * PAGE_SIZE
                &&& request.frame == run.frame_block + k * FRAME_SIZE
                &&& request.flags == MAPPING_FLAGS
            }
        }),
{
    let size = page_count * PAGE_SIZE;
    lemma_allocated_address(blocks, size);
    let run = map_alloc_result(blocks, page, page_count)->Ok_0;
    assert(alloc_result(blocks, size) == Ok::<u64, AllocError>(run.frame_block));
    assert(size <= BLOCK_SIZE);
    let block = (run.frame_block / BLOCK_SIZE) as int;
    assert(run.frame_block == block * BLOCK_SIZE);
    assert(run.frame_block + BLOCK_SIZE <= TOTAL_MEMORY);
    assert(k * FRAME_SIZE + FRAME_SIZE <= size);
    let at_k = MapAllocRunView { mapped: k, ..run };
    lemma_request_of_run(at_k, k);
    assert(run_request(at_k, k) == run_request(run, k));
}

/// A run whose every request the page table takes ends with all its pages
/// mapped and hands back its first page; a run with a request that the page
/// table refuses has failed for good.
pub proof fn lemma_run_outcome(run: MapAllocRunView, reports: Seq<bool>)
    requires
        !run.rejected,
        run.mapped == 0,
    ensures
        ({
            let end = run_after_all(run, reports);
            &&& end.page == run.page && end.frame_block == run.frame_block && end.page_count == run.page_count
            &&& end.mapped <= reports.len()
            &&& end.mapped <= run.page_count
            &&& end.rejected ==> run_step(end) == MapAllocStep::Failed(MapAllocError::Mapping(MapError::MapFailed))
            &&& (forall|i: int| 0 <= i < reports.len() ==> reports[i]) ==> !end.rejected
            &&& !end.rejected && end.mapped == run.page_count ==> run_step(end) == MapAllocStep::Done(run.page)
            &&& end.rejected ==> exists|i: int| 0 <= i < reports.len() && !reports[i]
        }),
    decreases reports.len(),
{
    if reports.len() > 0 {
        let shorter = reports.drop_last();
        lemma_run_outcome(run, shorter);
        let before = run_after_all(run, shorter);
        if before.rejected {
            let i = choose|i: int| 0 <= i < shorter.len() && !shorter[i];
            assert(!reports[i]);
        } else if run_after(before, reports.last()).rejected {
            assert(!reports[reports.len() - 1]);
        }
        if forall|i: int| 0 <= i < reports.len() ==> reports[i] {
            assert(forall|i: int| 0 <= i < shorter.len() ==> shorter[i] == reports[i]);
            assert(reports[reports.len() - 1]);
        }
    }
}

/// What the mapper expects of the page table that carries out its requests,
/// as a map from each mapped page to its frame: the table takes a mapping
/// only for a page that has none, and then has it.
pub open spec fn table_takes(table: Map<u64, u64>, request: MapRequest) -> bool {
    !table.dom().contains(request.page)
}

/// The table once it has taken the mapping of `request`.
pub open spec fn table_with(table: Map<u64, u64>, request: MapRequest) -> Map<u64, u64> {
    table.insert(request.page, request.frame)
}

/// What the table says to a request to unmap: the frame of the page, where
/// the page is mapped.
pub open spec fn table_removes(table: Map<u64, u64>, request: UnmapRequest) -> Option<u64> {
    if table.dom().contains(request.page) {
        Some(table[request.page])
    } else {
        None
    }
}

/// The table once it has carried out a request to unmap.
pub open spec fn table_without(table: Map<u64, u64>, request: UnmapRequest) -> Map<u64, u64> {
    table.remove(request.page)
}

/// On a page table that behaves as expected, what `map` has bound, `unmap`
/// gives back once: for a page that was not mapped and is then mapped to a
/// frame, `unmap` returns exactly that frame, and a second `unmap` of the
/// page fails with `UnmapFailed`.
pub proof fn lemma_map_unmap_round_trip(table: Map<u64, u64>, page: u64, frame: u64)
    requires
        map_check(page, frame) is Ok,
        table_takes(table, map_check(page, frame)->Ok_0),
    ensures
        unmap_check(page) == Ok::<_, UnmapError>(UnmapRequest { page }),
        ({
            let mapped = table_with(table, map_check(page, frame)->Ok_0);
            let request = UnmapRequest { page };
            &&& unmap_answer(table_removes(mapped, request)) == Ok::<u64, UnmapError>(frame)
            &&& table_without(mapped, request) == table
            &&& unmap_answer(table_removes(table_without(mapped, request), request)) == Err::<u64, _>(
                UnmapError::UnmapFailed,
            )
        }),
{
    let mapped = table_with(table, map_check(page, frame)->Ok_0);
    assert(table_without(mapped, UnmapRequest { page }) =~= table);
}

/// The request for page `k` of a run.
pub open spec fn run_request(run: MapAllocRunView, k: nat) -> MapRequest {
    MapRequest {
        page: (run.page + k * PAGE_SIZE) as u64,
        frame: (run.frame_block + k * FRAME_SIZE) as u64,
        flags: MAPPING_FLAGS,
    }
}

/// The table once it has taken the requests for the first `count` pages of
/// a run.
pub open spec fn table_with_run(table: Map<u64, u64>, run: MapAllocRunView, count: nat) -> Map<u64, u64>
    decreases count,
{
    if count == 0 {
        table
    } else {
        table_with(table_with_run(table, run, (count - 1) as nat), run_request(run, (count - 1) as nat))
    }
}

/// Whether `page` is one of the first `count` pages of a run.
pub open spec fn run_covers(run: MapAllocRunView, count: nat, page: u64) -> bool {
    exists|k: nat| k < count && #[trigger] run_request(run, k).page == page
}

/// On a page table that behaves as expected, a run that is carried out for
/// its first `count` pages leaves each of these pages on its own frame of
/// the block, page `k` on the frame `k` frames after the start of the
/// block, and leaves every other page as it was.
#[verifier::rlimit(40)]
pub proof fn lemma_run_maps_consecutive_frames(table: Map<u64, u64>, run: MapAllocRunView, count: nat)
    requires
        count <= run.page_count,
        forall|k: nat|
            k < count ==> run_step(MapAllocRunView { mapped: k, rejected: false, ..run }) == MapAllocStep::Install(
                #[trigger] run_request(run, k),
            ),
    ensures
        forall|k: nat|
            k < count ==> {
                &&& table_with_run(table, run, count).dom().contains(#[trigger] run_request(run, k).page)
                &&& table_with_run(table, run, count)[run_request(run, k).page] == run.frame_block + k * FRAME_SIZE
                &&& run_request(run, k).page == run.page + k * PAGE_SIZE
            },
        forall|page: u64|
            !run_covers(run, count, page) ==> {
                &&& #[trigger] table_with_run(table, run, count).dom().contains(page) == table.dom().contains(page)
                &&& table.dom().contains(page) ==> table_with_run(table, run, count)[page] == table[page]
            },
    decreases count,
{
    if count > 0 {
        let last = (count - 1) as nat;
        lemma_run_maps_consecutive_frames(table, run, last);
        assert(run_step(MapAllocRunView { mapped: last, rejected: false, ..run }) == MapAllocStep::Install(
            run_request(run, last),
        ));
        assert forall|k: nat| k < count implies {
            &&& table_with_run(table, run, count).dom().contains(#[trigger] run_request(run, k).page)
            &&& table_with_run(table, run, count)[run_request(run, k).page] == run.frame_block + k * FRAME_SIZE
            &&& run_request(run, k).page == run.page + k * PAGE_SIZE
        } by {
            assert(run_step(MapAllocRunView { mapped: k, rejected: false, ..run }) == MapAllocStep::Install(
                run_request(run, k),
            ));
            if k < last {
                assert(run_request(run, k).page != run_request(run, last).page);
            }
        }
        assert forall|page: u64| !run_covers(run, count, page) implies {
            &&& #[trigger] table_with_run(table, run, count).dom().contains(page) == table.dom().contains(page)
            &&& table.dom().contains(page) ==> table_with_run(table, run, count)[page] == table[page]
        } by {
            assert(run_request(run, last).page != page);
            if run_covers(run, last, page) {
                let k = choose|k: nat| k < last && #[trigger] run_request(run, k).page == page;
                assert(k < count && run_request(run, k).page == page);
            }
            let before = table_with_run(table, run, last);
            assert(before.dom().contains(page) == table.dom().contains(page));
            assert(table_with_run(table, run, count) == before.insert(
                run_request(run, last).page,
                run_request(run, last).frame,
            ));
        }
    }
}

} // verus!
