use std::collections::HashMap;

use bootcore::frame::{AllocError, BootstrapFrameManager, DeallocError, BLOCK_SIZE, TOTAL_MEMORY};
use bootcore::mapper::{
    BootloaderMemoryMapper, MapAllocError, MapAllocStep, MapError, MapRequest, UnmapError, UnmapRequest,
};
use bootcore::paging::{create_recursive_page_table, MAPPING_FLAGS};
use x86_64::structures::paging::PageTable;

/// A stand-in for the page table: it takes a mapping unless the page is
/// mapped already, and gives back the frame of a page that is mapped.
struct Table {
    mappings: HashMap<u64, (u64, u64)>,
    flushed: Vec<u64>,
}

impl Table {
    fn new() -> Self {
        Table { mappings: HashMap::new(), flushed: Vec::new() }
    }

    fn install(&mut self, request: MapRequest) -> bool {
        if self.mappings.contains_key(&request.page) {
            return false;
        }
        self.mappings.insert(request.page, (request.frame, request.flags));
        self.flushed.push(request.page);
        true
    }

    fn remove(&mut self, request: UnmapRequest) -> Option<u64> {
        let removed = self.mappings.remove(&request.page).map(|(frame, _)| frame);
        if removed.is_some() {
            self.flushed.push(request.page);
        }
        removed
    }
}

/// A mapper for a page table whose recursive slot has just been installed.
fn mapper_on(frame_allocator: BootstrapFrameManager) -> BootloaderMemoryMapper {
    let mut top_level = PageTable::new();
    let slot = create_recursive_page_table(&mut top_level, 0x1000, 510).unwrap();
    BootloaderMemoryMapper::new(frame_allocator, slot)
}

fn fresh() -> BootloaderMemoryMapper {
    mapper_on(BootstrapFrameManager::new())
}

fn map(table: &mut Table, page: u64, frame: u64) -> Result<(), MapError> {
    let mapper = fresh();
    let request = mapper.map(page, frame)?;
    mapper.map_outcome(table.install(request))
}

fn unmap(table: &mut Table, page: u64) -> Result<u64, UnmapError> {
    let mapper = fresh();
    let request = mapper.unmap(page)?;
    mapper.unmap_outcome(table.remove(request))
}

fn map_alloc(
    mapper: &mut BootloaderMemoryMapper,
    table: &mut Table,
    page: u64,
    page_count: u32,
) -> Result<u64, MapAllocError> {
    let mut run = mapper.map_alloc(page, page_count)?;
    loop {
        match run.next_step() {
            MapAllocStep::Install(request) => {
                let installed = table.install(request);
                run.record(installed);
            }
            MapAllocStep::Done(start) => return Ok(start),
            MapAllocStep::Failed(e) => return Err(e),
        }
    }
}

#[test]
fn map_asks_for_a_present_writable_mapping() {
    assert_eq!(
        fresh().map(0x4000_0000, 0x20_0000),
        Ok(MapRequest { page: 0x4000_0000, frame: 0x20_0000, flags: MAPPING_FLAGS })
    );
    assert_eq!(MAPPING_FLAGS, 0b11);
}

#[test]
fn map_rejects_a_misaligned_page() {
    assert_eq!(fresh().map(0x4000_0001, 0x20_0000), Err(MapError::PageMisaligned));
    assert_eq!(fresh().map(0x4000_0fff, 0x20_0001), Err(MapError::PageMisaligned));
    assert_eq!(fresh().map(0x0000_8000_0000_0800, 0x20_0000), Err(MapError::PageMisaligned));
}

#[test]
fn map_rejects_a_misaligned_frame() {
    assert_eq!(fresh().map(0x4000_0000, 0x20_0800), Err(MapError::FrameMisaligned));
    assert_eq!(fresh().map(0x4000_0000, u64::MAX), Err(MapError::FrameMisaligned));
}

#[test]
fn map_rejects_addresses_that_do_not_exist() {
    assert_eq!(fresh().map(0x0000_8000_0000_0000, 0x20_0000), Err(MapError::MapFailed));
    assert_eq!(fresh().map(0xfff0_0000_0000_0000, 0x20_0000), Err(MapError::MapFailed));
    assert_eq!(fresh().map(0x4000_0000, 0x0010_0000_0000_0000), Err(MapError::MapFailed));
    assert_eq!(
        fresh().map(0xffff_8000_0000_0000, 0x000f_ffff_ffff_f000),
        Ok(MapRequest { page: 0xffff_8000_0000_0000, frame: 0x000f_ffff_ffff_f000, flags: MAPPING_FLAGS })
    );
    assert_eq!(
        fresh().map(0x0000_7fff_ffff_f000, 0),
        Ok(MapRequest { page: 0x0000_7fff_ffff_f000, frame: 0, flags: MAPPING_FLAGS })
    );
}

#[test]
fn map_outcome_follows_the_page_table() {
    assert_eq!(fresh().map_outcome(true), Ok(()));
    assert_eq!(fresh().map_outcome(false), Err(MapError::MapFailed));
}

#[test]
fn unmap_checks_the_page() {
    assert_eq!(fresh().unmap(0x4000_0000), Ok(UnmapRequest { page: 0x4000_0000 }));
    assert_eq!(fresh().unmap(0x4000_0010), Err(UnmapError::PageMisaligned));
    assert_eq!(fresh().unmap(0x0000_8000_0000_0000), Err(UnmapError::UnmapFailed));
}

#[test]
fn unmap_outcome_follows_the_page_table() {
    assert_eq!(fresh().unmap_outcome(Some(0x20_0000)), Ok(0x20_0000));
    assert_eq!(fresh().unmap_outcome(None), Err(UnmapError::UnmapFailed));
}

#[test]
fn map_then_unmap_returns_the_frame_once() {
    let mut table = Table::new();
    assert_eq!(map(&mut table, 0x4000_0000, 0x20_0000), Ok(()));
    assert_eq!(table.flushed, vec![0x4000_0000]);
    assert_eq!(unmap(&mut table, 0x4000_0000), Ok(0x20_0000));
    assert_eq!(unmap(&mut table, 0x4000_0000), Err(UnmapError::UnmapFailed));
    assert_eq!(table.flushed, vec![0x4000_0000, 0x4000_0000]);
}

#[test]
fn conflicting_mapping_fails() {
    let mut table = Table::new();
    assert_eq!(map(&mut table, 0x4000_0000, 0x20_0000), Ok(()));
    assert_eq!(map(&mut table, 0x4000_0000, 0x30_0000), Err(MapError::MapFailed));
    assert_eq!(unmap(&mut table, 0x4000_0000), Ok(0x20_0000));
}

#[test]
fn map_alloc_maps_consecutive_frames_of_one_block() {
    let mut mapper = mapper_on(BootstrapFrameManager::new());
    let mut table = Table::new();
    let page = 0x0000_1000_0000_0000;
    assert_eq!(map_alloc(&mut mapper, &mut table, page, 5), Ok(page));
    assert_eq!(table.mappings.len(), 5);
    for k in 0..5u64 {
        assert_eq!(table.mappings[&(page + k * 4096)], (k * 4096, MAPPING_FLAGS));
    }
    assert_eq!(table.flushed, (0..5u64).map(|k| page + k * 4096).collect::<Vec<u64>>());
}

#[test]
fn map_alloc_takes_the_first_free_block() {
    let mut mapper = mapper_on(BootstrapFrameManager::new_initialised(&[(0, 8 * BLOCK_SIZE)]));
    let mut table = Table::new();
    let page = 0xffff_9000_0000_0000;
    assert_eq!(map_alloc(&mut mapper, &mut table, page, 3), Ok(page));
    for k in 0..3u64 {
        assert_eq!(table.mappings[&(page + k * 4096)].0, 8 * BLOCK_SIZE + k * 4096);
    }
    assert_eq!(mapper.allocate_frame(), None);
}

#[test]
fn map_alloc_of_no_pages_still_takes_a_block() {
    let mut mapper = mapper_on(BootstrapFrameManager::new());
    let mut table = Table::new();
    assert_eq!(map_alloc(&mut mapper, &mut table, 0x7000, 0), Ok(0x7000));
    assert!(table.mappings.is_empty());
    let run = mapper.map_alloc(0x7000, 0).unwrap();
    assert_eq!(run.next_step(), MapAllocStep::Done(0x7000));
}

#[test]
fn map_alloc_fits_into_one_block() {
    let mut mapper = mapper_on(BootstrapFrameManager::new());
    let pages_per_block = (BLOCK_SIZE / 4096) as u32;
    assert_eq!(pages_per_block, 1991);
    assert!(matches!(
        mapper.map_alloc(0x4000_0000, pages_per_block + 1),
        Err(MapAllocError::Allocation(AllocError::SizeTooLarge))
    ));
    assert!(matches!(
        mapper.map_alloc(0x4000_0000, u32::MAX),
        Err(MapAllocError::Allocation(AllocError::SizeTooLarge))
    ));
    let mut table = Table::new();
    assert_eq!(map_alloc(&mut mapper, &mut table, 0x4000_0000, pages_per_block), Ok(0x4000_0000));
    assert_eq!(table.mappings.len(), 1991);
    assert_eq!(table.mappings[&(0x4000_0000 + 1990 * 4096)].0, 1990 * 4096);
}

#[test]
fn map_alloc_without_a_free_block_fails() {
    let mut mapper = mapper_on(BootstrapFrameManager::new_initialised(&[(0, TOTAL_MEMORY)]));
    assert!(matches!(
        mapper.map_alloc(0x4000_0000, 1),
        Err(MapAllocError::Allocation(AllocError::NoFreeBlock))
    ));
}

#[test]
fn map_alloc_on_a_block_off_the_frame_grid_fails() {
    let mut mapper = mapper_on(BootstrapFrameManager::new_initialised(&[(0, BLOCK_SIZE)]));
    let mut table = Table::new();
    assert_eq!(
        map_alloc(&mut mapper, &mut table, 0x4000_0000, 2),
        Err(MapAllocError::Mapping(MapError::FrameMisaligned))
    );
    assert!(table.mappings.is_empty());
}

#[test]
fn map_alloc_stops_at_the_first_refusal_and_keeps_what_was_mapped() {
    let mut mapper = mapper_on(BootstrapFrameManager::new());
    let mut table = Table::new();
    let page = 0x4000_0000;
    assert_eq!(map(&mut table, page + 2 * 4096, 0x9000), Ok(()));
    assert_eq!(
        map_alloc(&mut mapper, &mut table, page, 4),
        Err(MapAllocError::Mapping(MapError::MapFailed))
    );
    assert_eq!(table.mappings[&page].0, 0);
    assert_eq!(table.mappings[&(page + 4096)].0, 4096);
    assert_eq!(table.mappings[&(page + 2 * 4096)].0, 0x9000);
    assert!(!table.mappings.contains_key(&(page + 3 * 4096)));
}

#[test]
fn refused_run_stays_failed() {
    let mut mapper = mapper_on(BootstrapFrameManager::new_initialised(&[(0, 8 * BLOCK_SIZE)]));
    let mut run = mapper.map_alloc(0x4000_0000, 3).unwrap();
    assert_eq!((run.page(), run.frame_block(), run.page_count(), run.mapped()), (0x4000_0000, 8 * BLOCK_SIZE, 3, 0));
    assert!(matches!(run.next_step(), MapAllocStep::Install(_)));
    run.record(true);
    run.record(false);
    assert_eq!(run.mapped(), 1);
    assert_eq!(run.next_step(), MapAllocStep::Failed(MapAllocError::Mapping(MapError::MapFailed)));
    run.record(true);
    assert_eq!(run.next_step(), MapAllocStep::Failed(MapAllocError::Mapping(MapError::MapFailed)));
}

#[test]
fn report_without_an_open_request_changes_nothing() {
    let mut mapper = mapper_on(BootstrapFrameManager::new());
    let mut run = mapper.map_alloc(0x4000_0000, 1).unwrap();
    run.record(true);
    assert_eq!(run.next_step(), MapAllocStep::Done(0x4000_0000));
    run.record(false);
    run.record(true);
    assert_eq!(run.next_step(), MapAllocStep::Done(0x4000_0000));
}

#[test]
fn run_that_leaves_the_address_space_fails() {
    let mut mapper = mapper_on(BootstrapFrameManager::new());
    let mut table = Table::new();
    assert_eq!(
        map_alloc(&mut mapper, &mut table, 0x0000_7fff_ffff_f000, 2),
        Err(MapAllocError::Mapping(MapError::MapFailed))
    );
    assert_eq!(table.mappings.len(), 1);
    let mut mapper = mapper_on(BootstrapFrameManager::new());
    let mut table = Table::new();
    assert_eq!(
        map_alloc(&mut mapper, &mut table, 0xffff_ffff_ffff_f000, 2),
        Err(MapAllocError::Mapping(MapError::MapFailed))
    );
    assert_eq!(table.mappings.len(), 1);
}

#[test]
fn mapper_hands_out_frames_for_paging_structures() {
    let mut mapper = mapper_on(BootstrapFrameManager::new());
    assert_eq!(mapper.allocate_frame(), Some(0));
    assert_eq!(mapper.allocate_frame(), None);
    let run = mapper.map_alloc(0x4000_0000, 1).unwrap();
    assert_eq!(
        run.next_step(),
        MapAllocStep::Failed(MapAllocError::Mapping(MapError::FrameMisaligned))
    );
}

#[test]
fn mapper_messages_name_each_failure() {
    assert_eq!(MapError::PageMisaligned.message(), "Page start not aligned correctly");
    assert_eq!(MapError::FrameMisaligned.message(), "Frame start not aligned correctly");
    assert_eq!(MapError::MapFailed.message(), "Unable to map the thingymabob");
    assert_eq!(UnmapError::PageMisaligned.message(), "Page start not aligned correctly");
    assert_eq!(UnmapError::UnmapFailed.message(), "Failed to unmap the page :/");
    assert_eq!(MapAllocError::Allocation(AllocError::NoFreeBlock).message(), "Couldn't allocate a frame");
    assert_eq!(MapAllocError::Mapping(MapError::MapFailed).message(), "Unable to map the thingymabob");
}

#[test]
fn mapper_keeps_the_recursive_slot_it_was_made_for() {
    let mut top_level = PageTable::new();
    let slot = create_recursive_page_table(&mut top_level, 0x7000, 300).unwrap();
    let mut mapper = BootloaderMemoryMapper::new(BootstrapFrameManager::new(), slot);
    assert_eq!(mapper.recursive_slot(), slot);
    let _ = mapper.map_alloc(0x4000_0000, 1);
    assert_eq!(mapper.recursive_slot().index(), 300);
    assert_eq!(mapper.recursive_slot().table(), 0x7000);
    assert_eq!(mapper.recursive_slot().address(), 0xffff_964b_2592_c000);
}

#[test]
fn block_of_a_run_can_be_given_back() {
    let mut mapper = mapper_on(BootstrapFrameManager::new());
    let run = mapper.map_alloc(0x4000_0000, 2).unwrap();
    assert_eq!(mapper.deallocate(run.frame_block() + 4096), Err(DeallocError::Misaligned));
    assert_eq!(mapper.deallocate(run.frame_block()), Ok(0));
    assert_eq!(mapper.deallocate(run.frame_block()), Err(DeallocError::NotAllocated));
    assert_eq!(mapper.allocate_frame(), Some(0));
}
