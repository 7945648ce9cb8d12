//! The block frame allocator: physical memory in a fixed number of large
//! blocks of equal size, each either free or in use.

use vstd::prelude::*;
use crate::x86::{frame_from_start_address, truncate_phys_addr};

verus! {

/// Number of blocks that the table tracks.
pub const BLOCK_COUNT: usize = 4096;

/// Bytes of physical memory that the table stands for.
pub const TOTAL_MEMORY: u64 = 33_418_117_120;

/// Bytes in one block: `TOTAL_MEMORY / BLOCK_COUNT`.
pub const BLOCK_SIZE: u64 = 8_158_720;

/// Whole 4 KiB frames in one block. A block is not a whole number of
/// frames: 3584 bytes are left over.
pub const FRAMES_PER_BLOCKS: u64 = 1991;

/// Why `allocate` handed out nothing.
#[derive(Clone, Copy, Debug, PartialEq, Eq, Structural)]
pub enum AllocError {
    /// More than one block was asked for.
    SizeTooLarge,
    /// Every block is in use.
    NoFreeBlock,
}

/// Why `deallocate` released nothing.
#[derive(Clone, Copy, Debug, PartialEq, Eq, Structural)]
pub enum DeallocError {
    /// The address is not the start of a block.
    Misaligned,
    /// The block at the address is not in use.
    NotAllocated,
}

impl AllocError {
    /// The text that `message` returns for each variant.
    pub open spec fn message_text(self) -> Seq<char> {
        match self {
            Self::SizeTooLarge => "Size was larger than one block (Self::BLOCK_SIZE)"@,
            Self::NoFreeBlock => "Couldn't allocate a frame"@,
        }
    }

    /// A human-readable description of the failure.
    pub fn message(&self) -> (text: &'static str)
        ensures
            text@ == self.message_text(),
    {
        match self {
            Self::SizeTooLarge => "Size was larger than one block (Self::BLOCK_SIZE)",
            Self::NoFreeBlock => "Couldn't allocate a frame",
        }
    }
}

impl DeallocError {
    /// The text that `message` returns for each variant.
    pub open spec fn message_text(self) -> Seq<char> {
        match self {
            Self::Misaligned => "The provided address can't be correct since it isn't aligned on Self::BLOCK_SIZE"@,
            Self::NotAllocated => "The block at that address isn't currently allocated"@,
        }
    }

    /// A human-readable description of the failure.
    pub fn message(&self) -> (text: &'static str)
        ensures
            text@ == self.message_text(),
    {
        match self {
            Self::Misaligned => "The provided address can't be correct since it isn't aligned on Self::BLOCK_SIZE",
            Self::NotAllocated => "The block at that address isn't currently allocated",
        }
    }
}

/// A source of physical memory.
pub trait FrameAllocator {
    type AllocErrorType;

    type DeallocErrorType;

    /// Whether the allocator's own bookkeeping is consistent.
    spec fn valid(&self) -> bool;

    /// The start addresses that are in use at present.
    spec fn in_use(&self) -> Set<u64>;

    /// Hands out `size` bytes of contiguous physical memory and returns the
    /// address at which they start. What is handed out was not in use before.
    fn allocate(&mut self, size: usize) -> (allocated: Result<u64, Self::AllocErrorType>)
        requires
            old(self).valid(),
        ensures
            final(self).valid(),
            match allocated {
                Ok(addr) => !old(self).in_use().contains(addr) && final(self).in_use() == old(self).in_use().insert(
                    addr,
                ),
                Err(_) => final(self).in_use() == old(self).in_use(),
            },
    ;

    /// Takes back the memory that starts at `start_addr`, which must be in
    /// use, and returns that address.
    fn deallocate(&mut self, start_addr: u64) -> (released: Result<u64, Self::DeallocErrorType>)
        requires
            old(self).valid(),
        ensures
            final(self).valid(),
            match released {
                Ok(addr) => addr == start_addr && old(self).in_use().contains(addr) && final(self).in_use() == old(
                    self,
                ).in_use().remove(addr),
                Err(_) => final(self).in_use() == old(self).in_use(),
            },
    ;
}

/// Whether every block of `blocks` before `index` is in use and the one at
/// `index` is free.
pub open spec fn is_first_free(blocks: Seq<bool>, index: int) -> bool {
    &&& 0 <= index < blocks.len()
    &&& !blocks[index]
    &&& forall|j: int| 0 <= j < index ==> blocks[j]
}

/// Whether some block of `blocks` is free.
pub open spec fn has_free(blocks: Seq<bool>) -> bool {
    exists|i: int| 0 <= i < blocks.len() && !blocks[i]
}

/// The index of the first free block, or the number of blocks when none is
/// free.
pub open spec fn first_free(blocks: Seq<bool>) -> int {
    if has_free(blocks) {
        choose|i: int| is_first_free(blocks, i)
    } else {
        blocks.len() as int
    }
}

/// The answer of `allocate` on a table in state `blocks`.
pub open spec fn alloc_result(blocks: Seq<bool>, size: int) -> Result<u64, AllocError> {
    if size > BLOCK_SIZE {
        Err(AllocError::SizeTooLarge)
    } else if !has_free(blocks) {
        Err(AllocError::NoFreeBlock)
    } else {
        Ok((first_free(blocks) * BLOCK_SIZE) as u64)
    }
}

/// The state that `allocate` leaves behind.
pub open spec fn alloc_state(blocks: Seq<bool>, size: int) -> Seq<bool> {
    if alloc_result(blocks, size) is Ok {
        blocks.update(first_free(blocks), true)
    } else {
        blocks
    }
}

/// The answer of `deallocate` on a table in state `blocks`.
pub open spec fn dealloc_result(blocks: Seq<bool>, addr: u64) -> Result<u64, DeallocError> {
    if addr % BLOCK_SIZE != 0 {
        Err(DeallocError::Misaligned)
    } else if addr / BLOCK_SIZE >= blocks.len() || !blocks[(addr / BLOCK_SIZE) as int] {
        Err(DeallocError::NotAllocated)
    } else {
        Ok(addr)
    }
}

/// The state that `deallocate` leaves behind.
pub open spec fn dealloc_state(blocks: Seq<bool>, addr: u64) -> Seq<bool> {
    if dealloc_result(blocks, addr) is Ok {
        blocks.update((addr / BLOCK_SIZE) as int, false)
    } else {
        blocks
    }
}

/// Whether the region of `region.1` bytes that starts at address `region.0`
/// has a byte in block `block`.
pub open spec fn region_overlaps(region: (u64, u64), block: int) -> bool {
    &&& region.1 > 0
    &&& block * BLOCK_SIZE < region.0 + region.1
    &&& region.0 < (block + 1) * BLOCK_SIZE
}

/// Whether one of `regions` has a byte in block `block`.
pub open spec fn reserved_by(regions: Seq<(u64, u64)>, block: int) -> bool {
    exists|k: int| 0 <= k < regions.len() && region_overlaps(#[trigger] regions[k], block)
}

/// The frame that `allocate_frame` makes of an answer of `allocate`: the
/// address, where it is the start of a 4 KiB frame.
pub open spec fn frame_of(allocated: Result<u64, AllocError>) -> Option<u64> {
    match allocated {
        Ok(addr) => if addr % 4096 == 0 {
            Some(addr)
        } else {
            None
        },
        Err(_) => None,
    }
}

/// The start addresses of the blocks of `blocks` that are in use.
pub open spec fn addresses_in_use(blocks: Seq<bool>) -> Set<u64> {
    Set::new(|addr: u64| addr % BLOCK_SIZE == 0 && addr / BLOCK_SIZE < blocks.len() && blocks[(addr / BLOCK_SIZE) as int])
}

/// Among the free blocks there is a first one, and `first_free` is it.
pub proof fn lemma_first_free(blocks: Seq<bool>)
    ensures
        has_free(blocks) ==> is_first_free(blocks, first_free(blocks)),
        !has_free(blocks) ==> first_free(blocks) == blocks.len(),
        forall|i: int| is_first_free(blocks, i) ==> first_free(blocks) == i,
{
    if has_free(blocks) {
        let w = choose|i: int| 0 <= i < blocks.len() && !blocks[i];
        lemma_least_free(blocks, w);
        let f = choose|i: int| is_first_free(blocks, i);
        assert forall|i: int| is_first_free(blocks, i) implies first_free(blocks) == i by {
            if i < f {
                assert(blocks[i]);
            } else if f < i {
                assert(blocks[f]);
            }
        }
    } else {
        assert forall|i: int| is_first_free(blocks, i) implies first_free(blocks) == i by {
            assert(0 <= i < blocks.len() && !blocks[i]);
        }
    }
}

proof fn lemma_least_free(blocks: Seq<bool>, witness: int)
    requires
        0 <= witness < blocks.len(),
        !blocks[witness],
    ensures
        exists|i: int| is_first_free(blocks, i),
    decreases witness,
{
    if forall|j: int| 0 <= j < witness ==> blocks[j] {
        assert(is_first_free(blocks, witness));
    } else {
        let j = choose|j: int| 0 <= j < witness && !blocks[j];
        lemma_least_free(blocks, j);
    }
}

struct BootstrapFrameInfo {
    start_addr: u64,
    allocated: bool,
}

/// The block table: block `i` starts at `i * BLOCK_SIZE`.
pub struct BootstrapFrameManager {
    frame_info: Vec<BootstrapFrameInfo>,
}

impl View for BootstrapFrameManager {
    type V = Seq<bool>;

    /// For each block, in address order, whether it is in use.
    closed spec fn view(&self) -> Seq<bool> {
        Seq::new(BLOCK_COUNT as nat, |i: int| self.frame_info[i].allocated)
    }
}

impl BootstrapFrameManager {
    /// The table has `BLOCK_COUNT` blocks and block `i` starts at
    /// `i * BLOCK_SIZE`.
    pub closed spec fn wf(&self) -> bool {
        &&& self.frame_info.len() == BLOCK_COUNT
        &&& forall|i: int| 0 <= i < BLOCK_COUNT ==> #[trigger] self.frame_info[i].start_addr == i * BLOCK_SIZE
    }

    /// The view has one entry for each block.
    pub proof fn lemma_block_count(&self)
        ensures
            self@.len() == BLOCK_COUNT,
    {
    }

    /// A table in which every block is free.
    pub fn new() -> (manager: Self)
        ensures
            manager.wf(),
            manager@ == Seq::new(BLOCK_COUNT as nat, |i: int| false),
    {
        let mut frame_info: Vec<BootstrapFrameInfo> = Vec::new();
        let mut index: usize = 0;
        while index < BLOCK_COUNT
            invariant
                index <= BLOCK_COUNT,
                frame_info.len() == index,
                forall|i: int| 0 <= i < index ==> #[trigger] frame_info[i].start_addr == i * BLOCK_SIZE,
                forall|i: int| 0 <= i < index ==> !(#[trigger] frame_info[i]).allocated,
            decreases BLOCK_COUNT - index,
        {
            frame_info.push(BootstrapFrameInfo { start_addr: index as u64 * BLOCK_SIZE, allocated: false });
            index += 1;
        }
        let manager = BootstrapFrameManager { frame_info };
        assert(manager@ =~= Seq::new(BLOCK_COUNT as nat, |i: int| false));
        manager
    }

    /// Marks as in use every block of `target` in which a region of
    /// `existing` has a byte. A region is a start address and a length in
    /// bytes; what lies beyond the last block is ignored.
    #[verifier::rlimit(40)]
    pub fn initialise_from_existing_mem_map(target: Self, existing: &[(u64, u64)]) -> (manager: Self)
        requires
            target.wf(),
        ensures
            manager.wf(),
            manager@ == Seq::new(BLOCK_COUNT as nat, |i: int| target@[i] || reserved_by(existing@, i)),
    {
        let mut target = target;
        let ghost before = target@;
        let mut k: usize = 0;
        while k < existing.len()
            invariant
                k <= existing.len(),
                target.wf(),
                before.len() == BLOCK_COUNT,
                forall|i: int|
                    0 <= i < BLOCK_COUNT ==> (#[trigger] target@[i] == (before[i] || reserved_by(
                        existing@.take(k as int),
                        i,
                    ))),
            decreases existing.len() - k,
        {
            let (start, length) = existing[k];
            let ghost region = existing@[k as int];
            let ghost marked = target@;
            if length > 0 && start / BLOCK_SIZE < BLOCK_COUNT as u64 {
                let first: usize = (start / BLOCK_SIZE) as usize;
                let last: usize = if length - 1 > u64::MAX - start {
                    BLOCK_COUNT - 1
                } else {
                    let end_block: u64 = (start + (length - 1)) / BLOCK_SIZE;
                    if end_block >= BLOCK_COUNT as u64 {
                        BLOCK_COUNT - 1
                    } else {
                        end_block as usize
                    }
                };
                assert(forall|i: int|
                    0 <= i < BLOCK_COUNT ==> (region_overlaps(region, i) <==> first <= i <= last));
                let mut index: usize = first;
                while index <= last
                    invariant
                        first <= index <= last + 1,
                        last < BLOCK_COUNT,
                        target.wf(),
                        marked.len() == BLOCK_COUNT,
                        forall|i: int|
                            0 <= i < BLOCK_COUNT ==> (#[trigger] target@[i] == (marked[i] || first <= i < index)),
                    decreases last + 1 - index,
                {
                    let ghost previous = target@;
                    let start_addr = target.frame_info[index].start_addr;
                    target.frame_info.set(index, BootstrapFrameInfo { start_addr, allocated: true });
                    assert(target@ =~= previous.update(index as int, true));
                    index += 1;
                }
            } else {
                assert(forall|i: int| 0 <= i < BLOCK_COUNT ==> !region_overlaps(region, i));
            }
            proof {
                assert forall|i: int| 0 <= i < BLOCK_COUNT implies (#[trigger] target@[i] == (before[i]
                    || reserved_by(existing@.take(k + 1), i))) by {
                    let shorter = existing@.take(k as int);
                    let longer = existing@.take(k + 1);
                    assert(longer[k as int] == region);
                    assert(forall|j: int| 0 <= j < k ==> shorter[j] == longer[j]);
                    if reserved_by(shorter, i) {
                        let j = choose|j: int| 0 <= j < shorter.len() && region_overlaps(#[trigger] shorter[j], i);
                        assert(region_overlaps(longer[j], i));
                    }
                    if reserved_by(longer, i) {
                        let j = choose|j: int| 0 <= j < longer.len() && region_overlaps(#[trigger] longer[j], i);
                        if j < k {
                            assert(region_overlaps(shorter[j], i));
                        }
                    }
                }
            }
            k += 1;
        }
        assert(existing@.take(k as int) =~= existing@);
        assert(target@ =~= Seq::new(BLOCK_COUNT as nat, |i: int| before[i] || reserved_by(existing@, i)));
        target
    }

    /// The table for a machine on which the regions of `existing` are taken
    /// already: a block is in use exactly when one of them has a byte in it.
    pub fn new_initialised(existing: &[(u64, u64)]) -> (manager: Self)
        ensures
            manager.wf(),
            manager@ == Seq::new(BLOCK_COUNT as nat, |i: int| reserved_by(existing@, i)),
    {
        let manager = Self::initialise_from_existing_mem_map(Self::new(), existing);
        assert(manager@ =~= Seq::new(BLOCK_COUNT as nat, |i: int| reserved_by(existing@, i)));
        manager
    }
}

impl BootstrapFrameManager {
    /// Whether block `block` is in use; no block lies beyond the table.
    pub fn is_allocated(&self, block: usize) -> (used: bool)
        requires
            self.wf(),
        ensures
            used == (block < BLOCK_COUNT && self@[block as int]),
    {
        block < BLOCK_COUNT && self.frame_info[block].allocated
    }

    /// Hands out one block for a single paging structure and returns its
    /// start as a frame. The block is taken even where its start is not
    /// 4 KiB aligned and no frame can be returned.
    pub fn allocate_frame(&mut self) -> (frame: Option<u64>)
        requires
            old(self).wf(),
        ensures
            final(self).wf(),
            final(self)@ == alloc_state(old(self)@, 1),
            frame == frame_of(alloc_result(old(self)@, 1)),
    {
        proof {
            lemma_allocated_address(self@, 1);
        }
        match self.allocate(1) {
            Ok(addr) => frame_from_start_address(truncate_phys_addr(addr)),
            Err(_) => None,
        }
    }
}

impl FrameAllocator for BootstrapFrameManager {
    type AllocErrorType = AllocError;

    type DeallocErrorType = DeallocError;

    open spec fn valid(&self) -> bool {
        self.wf()
    }

    open spec fn in_use(&self) -> Set<u64> {
        addresses_in_use(self@)
    }

    /// Hands out the first free block, whatever `size` is, as long as it
    /// is at most one block.
    #[verifier::loop_isolation(false)]
    fn allocate(&mut self, size: usize) -> (allocated: Result<u64, AllocError>)
        ensures
            allocated == alloc_result(old(self)@, size as int),
            final(self)@ == alloc_state(old(self)@, size as int),
            allocated matches Ok(addr) ==> addr % BLOCK_SIZE == 0 && addr < TOTAL_MEMORY,
            allocated == Err::<u64, _>(AllocError::NoFreeBlock) ==> !has_free(old(self)@),
    {
        proof {
            lemma_in_use_after_alloc(self@, size as int);
            lemma_allocated_address(self@, size as int);
        }
        if size as u64 > BLOCK_SIZE {
            return Err(AllocError::SizeTooLarge);
        }
        let mut index: usize = 0;
        while index < BLOCK_COUNT
            invariant
                index <= BLOCK_COUNT,
                self.wf(),
                *self == *old(self),
                forall|j: int| 0 <= j < index ==> self@[j],
            decreases BLOCK_COUNT - index,
        {
            if !self.frame_info[index].allocated {
                let addr = self.frame_info[index].start_addr;
                proof {
                    assert(is_first_free(self@, index as int));
                    lemma_first_free(self@);
                }
                self.frame_info.set(index, BootstrapFrameInfo { start_addr: addr, allocated: true });
                assert(self@ =~= old(self)@.update(index as int, true));
                return Ok(addr);
            }
            index += 1;
        }
        proof {
            lemma_first_free(self@);
        }
        Err(AllocError::NoFreeBlock)
    }

    /// Releases the block that starts at `start_addr`.
    fn deallocate(&mut self, start_addr: u64) -> (released: Result<u64, DeallocError>)
        ensures
            released == dealloc_result(old(self)@, start_addr),
            final(self)@ == dealloc_state(old(self)@, start_addr),
            start_addr % BLOCK_SIZE != 0 ==> released == Err::<u64, _>(DeallocError::Misaligned),
    {
        proof {
            lemma_in_use_after_dealloc(self@, start_addr);
        }
        if start_addr % BLOCK_SIZE != 0 {
            return Err(DeallocError::Misaligned);
        }
        let block = start_addr / BLOCK_SIZE;
        if block >= BLOCK_COUNT as u64 {
            return Err(DeallocError::NotAllocated);
        }
        let index = block as usize;
        if !self.frame_info[index].allocated {
            return Err(DeallocError::NotAllocated);
        }
        let addr = self.frame_info[index].start_addr;
        self.frame_info.set(index, BootstrapFrameInfo { start_addr: addr, allocated: false });
        assert(self@ =~= old(self)@.update(index as int, false));
        Ok(start_addr)
    }
}

/// What `allocate` does to the set of addresses in use: on success the
/// address it returns was not in the set and is added; otherwise nothing.
pub proof fn lemma_in_use_after_alloc(blocks: Seq<bool>, size: int)
    requires
        blocks.len() == BLOCK_COUNT,
    ensures
        match alloc_result(blocks, size) {
            Ok(addr) => !addresses_in_use(blocks).contains(addr) && addresses_in_use(alloc_state(blocks, size))
                == addresses_in_use(blocks).insert(addr),
            Err(_) => alloc_state(blocks, size) == blocks,
        },
{
    lemma_first_free(blocks);
    if alloc_result(blocks, size) is Ok {
        let f = first_free(blocks);
        let addr = (f * BLOCK_SIZE) as u64;
        assert(addr / BLOCK_SIZE == f && addr % BLOCK_SIZE == 0);
        assert(addresses_in_use(blocks.update(f, true)) =~= addresses_in_use(blocks).insert(addr));
    }
}

/// What `deallocate` does to the set of addresses in use: on success the
/// address was in the set and is taken out; otherwise nothing.
pub proof fn lemma_in_use_after_dealloc(blocks: Seq<bool>, addr: u64)
    requires
        blocks.len() == BLOCK_COUNT,
    ensures
        match dealloc_result(blocks, addr) {
            Ok(released) => released == addr && addresses_in_use(blocks).contains(addr) && addresses_in_use(
                dealloc_state(blocks, addr),
            ) == addresses_in_use(blocks).remove(addr),
            Err(_) => dealloc_state(blocks, addr) == blocks,
        },
{
    if dealloc_result(blocks, addr) is Ok {
        let f = (addr / BLOCK_SIZE) as int;
        assert(addresses_in_use(blocks.update(f, false)) =~= addresses_in_use(blocks).remove(addr));
    }
}

/// Every address that `allocate` returns is the start of a block of the
/// table: a multiple of `BLOCK_SIZE` below `TOTAL_MEMORY`. The block was the
/// first free one and is in use afterwards.
pub proof fn lemma_allocated_address(blocks: Seq<bool>, size: int)
    requires
        blocks.len() == BLOCK_COUNT,
    ensures
        alloc_result(blocks, size) matches Ok(addr) ==> {
            &&& addr % BLOCK_SIZE == 0
            &&& addr < TOTAL_MEMORY
            &&& is_first_free(blocks, (addr / BLOCK_SIZE) as int)
            &&& alloc_state(blocks, size)[(addr / BLOCK_SIZE) as int]
            &&& alloc_state(blocks, size) == blocks.update((addr / BLOCK_SIZE) as int, true)
        },
        alloc_state(blocks, size).len() == BLOCK_COUNT,
{
    lemma_first_free(blocks);
    if alloc_result(blocks, size) is Ok {
        let f = first_free(blocks);
        assert((f * BLOCK_SIZE) as u64 / BLOCK_SIZE == f);
    }
}

/// `allocate` fails for want of a free block only when no block is free:
/// a request for at most one block succeeds as soon as one is.
pub proof fn lemma_allocate_succeeds(blocks: Seq<bool>, size: int)
    requires
        blocks.len() == BLOCK_COUNT,
    ensures
        alloc_result(blocks, size) is Ok <==> size <= BLOCK_SIZE && has_free(blocks),
        alloc_result(blocks, size) == Err::<u64, _>(AllocError::NoFreeBlock) <==> size <= BLOCK_SIZE && !has_free(
            blocks,
        ),
        alloc_result(blocks, size) == Err::<u64, _>(AllocError::SizeTooLarge) <==> size > BLOCK_SIZE,
{
}

/// Two calls of `allocate` in a row never return the same address.
pub proof fn lemma_consecutive_allocations_differ(blocks: Seq<bool>, first_size: int, second_size: int)
    requires
        blocks.len() == BLOCK_COUNT,
        alloc_result(blocks, first_size) is Ok,
        alloc_result(alloc_state(blocks, first_size), second_size) is Ok,
    ensures
        alloc_result(blocks, first_size) != alloc_result(alloc_state(blocks, first_size), second_size),
{
    lemma_allocated_address(blocks, first_size);
    lemma_allocated_address(alloc_state(blocks, first_size), second_size);
}

/// After a successful `deallocate` a block is free, so a following
/// `allocate` of at most one block succeeds. It returns the released address
/// or a lower one: the released address itself exactly when every block
/// below it is in use.
pub proof fn lemma_release_then_allocate(blocks: Seq<bool>, addr: u64, size: int)
    requires
        blocks.len() == BLOCK_COUNT,
        dealloc_result(blocks, addr) is Ok,
        size <= BLOCK_SIZE,
    ensures
        has_free(dealloc_state(blocks, addr)),
        alloc_result(dealloc_state(blocks, addr), size) is Ok,
        alloc_result(dealloc_state(blocks, addr), size)->Ok_0 <= addr,
        alloc_result(dealloc_state(blocks, addr), size)->Ok_0 == addr <==> (forall|j: int|
            0 <= j < addr / BLOCK_SIZE ==> blocks[j]),
{
    let after = dealloc_state(blocks, addr);
    let block = (addr / BLOCK_SIZE) as int;
    assert(!after[block]);
    lemma_first_free(after);
    let f = first_free(after);
    if block < f {
        assert(after[block]);
    }
    assert((f * BLOCK_SIZE) as u64 / BLOCK_SIZE == f);
    if f == block {
        assert forall|j: int| 0 <= j < block implies blocks[j] by {
            assert(after[j]);
        }
    }
    if forall|j: int| 0 <= j < block ==> blocks[j] {
        assert(is_first_free(after, block)) by {
            assert forall|j: int| 0 <= j < block implies after[j] by {
                assert(blocks[j]);
            }
        }
    }
}

/// An address inside a block, not at its start, is never released:
/// `deallocate` answers `Misaligned` and the table stays as it is.
pub proof fn lemma_offset_release_rejected(blocks: Seq<bool>, block_start: u64, offset: u64)
    requires
        block_start % BLOCK_SIZE == 0,
        0 < offset < BLOCK_SIZE,
        block_start + offset <= u64::MAX,
    ensures
        dealloc_result(blocks, (block_start + offset) as u64) == Err::<u64, _>(DeallocError::Misaligned),
        dealloc_state(blocks, (block_start + offset) as u64) == blocks,
{
}

/// A region that starts at the start of a block takes its length, rounded up
/// to whole blocks, from that block on.
pub proof fn lemma_aligned_region(region: (u64, u64), block: int)
    requires
        region.0 % BLOCK_SIZE == 0,
    ensures
        region_overlaps(region, block) <==> region.0 / BLOCK_SIZE <= block < region.0 / BLOCK_SIZE + (region.1
            + BLOCK_SIZE - 1) / BLOCK_SIZE as int,
{
}

/// A block starts on a 4 KiB frame boundary exactly when its index is a
/// multiple of 8: `BLOCK_SIZE` is 512 times an odd number.
pub proof fn lemma_frame_aligned_blocks(block: int)
    requires
        0 <= block < BLOCK_COUNT,
    ensures
        (block * BLOCK_SIZE) % 4096 == 0 <==> block % 8 == 0,
        BLOCK_SIZE * BLOCK_COUNT == TOTAL_MEMORY,
        BLOCK_SIZE == FRAMES_PER_BLOCKS * 4096 + 3584,
{
    assert(BLOCK_SIZE == 512 * 15935);
    assert(block * BLOCK_SIZE == (block * 15935) * 512);
    if block % 8 == 0 {
        let q = block / 8;
        assert(block * BLOCK_SIZE == (q * 15935) * 4096);
    } else {
        let q = block / 8;
        let r = block % 8;
        assert(block * BLOCK_SIZE == (q * 15935) * 4096 + r * BLOCK_SIZE);
    }
}

/// One call on the allocator, for statements about sequences of calls.
pub enum Request {
    Allocate { size: usize },
    Deallocate { addr: u64 },
}

/// The address that a call returns on a table in state `blocks`, if it
/// succeeds.
pub open spec fn returned(blocks: Seq<bool>, request: Request) -> Option<u64> {
    match request {
        Request::Allocate { size } => match alloc_result(blocks, size as int) {
            Ok(addr) => Some(addr),
            Err(_) => None,
        },
        Request::Deallocate { addr } => match dealloc_result(blocks, addr) {
            Ok(released) => Some(released),
            Err(_) => None,
        },
    }
}

/// The state that a call leaves behind.
pub open spec fn step(blocks: Seq<bool>, request: Request) -> Seq<bool> {
    match request {
        Request::Allocate { size } => alloc_state(blocks, size as int),
        Request::Deallocate { addr } => dealloc_state(blocks, addr),
    }
}

/// The state after the first `count` calls of `requests`, made in order on a
/// table in state `blocks`.
pub open spec fn state_before(blocks: Seq<bool>, requests: Seq<Request>, count: int) -> Seq<bool>
    decreases count,
{
    if count <= 0 {
        blocks
    } else {
        step(state_before(blocks, requests, count - 1), requests[count - 1])
    }
}

proof fn lemma_states_keep_length(blocks: Seq<bool>, requests: Seq<Request>, count: int)
    requires
        blocks.len() == BLOCK_COUNT,
        0 <= count <= requests.len(),
    ensures
        state_before(blocks, requests, count).len() == BLOCK_COUNT,
    decreases count,
{
    if count > 0 {
        lemma_states_keep_length(blocks, requests, count - 1);
        lemma_first_free(state_before(blocks, requests, count - 1));
    }
}

#[verifier::rlimit(40)]
proof fn lemma_stays_in_use(blocks: Seq<bool>, requests: Seq<Request>, from: int, to: int, addr: u64)
    requires
        blocks.len() == BLOCK_COUNT,
        0 <= from < to <= requests.len(),
        requests[from] is Allocate,
        returned(state_before(blocks, requests, from), requests[from]) == Some(addr),
        forall|k: int|
            from < k < to ==> !(requests[k] == Request::Deallocate { addr } && returned(
                state_before(blocks, requests, k),
                requests[k],
            ) == Some(addr)),
    ensures
        addr % BLOCK_SIZE == 0,
        addr / BLOCK_SIZE < BLOCK_COUNT,
        state_before(blocks, requests, to)[(addr / BLOCK_SIZE) as int],
    decreases to - from,
{
    lemma_states_keep_length(blocks, requests, to - 1);
    let state = state_before(blocks, requests, to - 1);
    if to == from + 1 {
        lemma_allocated_address(state, requests[from]->size as int);
    } else {
        lemma_stays_in_use(blocks, requests, from, to - 1, addr);
        lemma_first_free(state);
        match requests[to - 1] {
            Request::Allocate { size } => {},
            Request::Deallocate { addr: other } => {
                if dealloc_result(state, other) is Ok && other != addr {
                    assert(other / BLOCK_SIZE != addr / BLOCK_SIZE);
                }
            },
        }
    }
}

/// No address is handed out twice without having been released in between:
/// in any sequence of calls, if two `allocate` calls return the same address,
/// a successful `deallocate` of exactly that address lies between them.
pub proof fn lemma_no_double_allocation(
    blocks: Seq<bool>,
    requests: Seq<Request>,
    earlier: int,
    later: int,
    addr: u64,
)
    requires
        blocks.len() == BLOCK_COUNT,
        0 <= earlier < later < requests.len(),
        requests[earlier] is Allocate,
        requests[later] is Allocate,
        returned(state_before(blocks, requests, earlier), requests[earlier]) == Some(addr),
        returned(state_before(blocks, requests, later), requests[later]) == Some(addr),
    ensures
        exists|k: int|
            earlier < k < later && #[trigger] requests[k] == (Request::Deallocate { addr }) && returned(
                state_before(blocks, requests, k),
                requests[k],
            ) == Some(addr),
{
    if !exists|k: int|
        earlier < k < later && #[trigger] requests[k] == (Request::Deallocate { addr }) && returned(
            state_before(blocks, requests, k),
            requests[k],
        ) == Some(addr) {
        lemma_stays_in_use(blocks, requests, earlier, later, addr);
        lemma_states_keep_length(blocks, requests, later);
        lemma_allocated_address(state_before(blocks, requests, later), requests[later]->size as int);
    }
}

} // verus!
