use bootcore::frame::{
    AllocError, BootstrapFrameManager, DeallocError, FrameAllocator, BLOCK_COUNT, BLOCK_SIZE, FRAMES_PER_BLOCKS,
    TOTAL_MEMORY,
};

#[test]
fn block_size_divides_the_managed_memory() {
    assert_eq!(BLOCK_SIZE, 33_418_117_120u64 / 4096);
    assert_eq!(BLOCK_SIZE * BLOCK_COUNT as u64, TOTAL_MEMORY);
    assert_eq!(BLOCK_SIZE, 8_158_720);
    assert_eq!(FRAMES_PER_BLOCKS, BLOCK_SIZE / 4096);
    assert_eq!(FRAMES_PER_BLOCKS, 1991);
}

#[test]
fn reserved_first_block_is_skipped() {
    let mut manager = BootstrapFrameManager::new_initialised(&[(0, BLOCK_SIZE)]);
    assert!(manager.is_allocated(0));
    assert!(!manager.is_allocated(1));
    assert_eq!(manager.allocate(1), Ok(BLOCK_SIZE));
    assert!(manager.is_allocated(1));
}

#[test]
fn empty_table_hands_out_blocks_in_address_order() {
    let mut manager = BootstrapFrameManager::new();
    for block in 0..16u64 {
        let addr = manager.allocate(4096).unwrap();
        assert_eq!(addr, block * BLOCK_SIZE);
        assert_eq!(addr % BLOCK_SIZE, 0);
    }
}

#[test]
fn allocate_accepts_a_whole_block_and_no_more() {
    let mut manager = BootstrapFrameManager::new();
    assert_eq!(manager.allocate(BLOCK_SIZE as usize), Ok(0));
    assert_eq!(manager.allocate(BLOCK_SIZE as usize + 1), Err(AllocError::SizeTooLarge));
    assert_eq!(manager.allocate(usize::MAX), Err(AllocError::SizeTooLarge));
    assert_eq!(manager.allocate(0), Ok(BLOCK_SIZE));
    assert!(!manager.is_allocated(2));
}

#[test]
fn full_table_has_no_free_block() {
    let mut manager = BootstrapFrameManager::new_initialised(&[(0, TOTAL_MEMORY)]);
    for block in 0..BLOCK_COUNT {
        assert!(manager.is_allocated(block));
    }
    assert_eq!(manager.allocate(1), Err(AllocError::NoFreeBlock));
    assert_eq!(manager.allocate(BLOCK_SIZE as usize + 1), Err(AllocError::SizeTooLarge));
}

#[test]
fn every_block_can_be_handed_out_once() {
    let mut manager = BootstrapFrameManager::new();
    let mut last = None;
    for block in 0..BLOCK_COUNT as u64 {
        let addr = manager.allocate(1).unwrap();
        assert_eq!(addr, block * BLOCK_SIZE);
        assert_ne!(Some(addr), last);
        last = Some(addr);
    }
    assert_eq!(manager.allocate(1), Err(AllocError::NoFreeBlock));
}

#[test]
fn released_block_is_handed_out_again() {
    let mut manager = BootstrapFrameManager::new();
    let first = manager.allocate(1).unwrap();
    let second = manager.allocate(1).unwrap();
    let third = manager.allocate(1).unwrap();
    assert_eq!((first, second, third), (0, BLOCK_SIZE, 2 * BLOCK_SIZE));
    assert_eq!(manager.deallocate(second), Ok(second));
    assert!(!manager.is_allocated(1));
    assert_eq!(manager.allocate(1), Ok(second));
    assert_eq!(manager.allocate(1), Ok(3 * BLOCK_SIZE));
}

#[test]
fn release_makes_room_in_a_full_table() {
    let mut manager = BootstrapFrameManager::new_initialised(&[(0, TOTAL_MEMORY)]);
    assert_eq!(manager.allocate(1), Err(AllocError::NoFreeBlock));
    let addr = 1234 * BLOCK_SIZE;
    assert_eq!(manager.deallocate(addr), Ok(addr));
    assert_eq!(manager.allocate(1), Ok(addr));
    assert_eq!(manager.allocate(1), Err(AllocError::NoFreeBlock));
}

#[test]
fn misaligned_release_is_rejected() {
    let mut manager = BootstrapFrameManager::new();
    let addr = manager.allocate(1).unwrap();
    let next = manager.allocate(1).unwrap();
    for offset in [1u64, 2, 4096, BLOCK_SIZE / 2, BLOCK_SIZE - 1] {
        assert_eq!(manager.deallocate(addr + offset), Err(DeallocError::Misaligned));
        assert_eq!(manager.deallocate(next + offset), Err(DeallocError::Misaligned));
    }
    assert!(manager.is_allocated(0));
    assert!(manager.is_allocated(1));
}

#[test]
fn release_of_a_free_block_is_rejected() {
    let mut manager = BootstrapFrameManager::new();
    assert_eq!(manager.deallocate(0), Err(DeallocError::NotAllocated));
    let addr = manager.allocate(1).unwrap();
    assert_eq!(manager.deallocate(addr), Ok(addr));
    assert_eq!(manager.deallocate(addr), Err(DeallocError::NotAllocated));
}

#[test]
fn release_beyond_the_table_is_rejected() {
    let mut manager = BootstrapFrameManager::new_initialised(&[(0, TOTAL_MEMORY)]);
    assert_eq!(manager.deallocate(TOTAL_MEMORY), Err(DeallocError::NotAllocated));
    assert_eq!(manager.deallocate(BLOCK_SIZE * 1_000_000), Err(DeallocError::NotAllocated));
    assert_eq!(manager.deallocate(u64::MAX), Err(DeallocError::Misaligned));
}

#[test]
fn region_length_is_rounded_up_to_whole_blocks() {
    let manager = BootstrapFrameManager::new_initialised(&[(3 * BLOCK_SIZE, BLOCK_SIZE + 1)]);
    assert!(!manager.is_allocated(2));
    assert!(manager.is_allocated(3));
    assert!(manager.is_allocated(4));
    assert!(!manager.is_allocated(5));
    let manager = BootstrapFrameManager::new_initialised(&[(3 * BLOCK_SIZE, 1)]);
    assert!(manager.is_allocated(3));
    assert!(!manager.is_allocated(4));
    let manager = BootstrapFrameManager::new_initialised(&[(3 * BLOCK_SIZE, 2 * BLOCK_SIZE)]);
    assert!(manager.is_allocated(3));
    assert!(manager.is_allocated(4));
    assert!(!manager.is_allocated(5));
}

#[test]
fn region_that_starts_inside_a_block_takes_every_block_it_touches() {
    let manager = BootstrapFrameManager::new_initialised(&[(BLOCK_SIZE / 2, BLOCK_SIZE)]);
    assert!(manager.is_allocated(0));
    assert!(manager.is_allocated(1));
    assert!(!manager.is_allocated(2));
    let manager = BootstrapFrameManager::new_initialised(&[(BLOCK_SIZE - 1, 1)]);
    assert!(manager.is_allocated(0));
    assert!(!manager.is_allocated(1));
}

#[test]
fn empty_region_reserves_nothing() {
    let mut manager = BootstrapFrameManager::new_initialised(&[(0, 0), (5 * BLOCK_SIZE, 0)]);
    for block in 0..BLOCK_COUNT {
        assert!(!manager.is_allocated(block));
    }
    assert_eq!(manager.allocate(1), Ok(0));
}

#[test]
fn region_beyond_the_table_is_clipped() {
    let manager = BootstrapFrameManager::new_initialised(&[
        (4095 * BLOCK_SIZE, 10 * BLOCK_SIZE),
        (TOTAL_MEMORY, BLOCK_SIZE),
        (u64::MAX - 5, u64::MAX),
    ]);
    assert!(!manager.is_allocated(4094));
    assert!(manager.is_allocated(4095));
    assert!(!manager.is_allocated(4096));
    let manager = BootstrapFrameManager::new_initialised(&[(BLOCK_SIZE, u64::MAX)]);
    assert!(!manager.is_allocated(0));
    for block in 1..BLOCK_COUNT {
        assert!(manager.is_allocated(block));
    }
}

#[test]
fn several_regions_are_all_reserved() {
    let mut manager = BootstrapFrameManager::new_initialised(&[
        (0, 2 * BLOCK_SIZE),
        (3 * BLOCK_SIZE, BLOCK_SIZE),
        (BLOCK_SIZE, BLOCK_SIZE),
    ]);
    assert_eq!(manager.allocate(1), Ok(2 * BLOCK_SIZE));
    assert_eq!(manager.allocate(1), Ok(4 * BLOCK_SIZE));
}

#[test]
fn later_regions_add_to_a_table() {
    let manager = BootstrapFrameManager::new_initialised(&[(0, BLOCK_SIZE)]);
    let mut manager = BootstrapFrameManager::initialise_from_existing_mem_map(manager, &[(2 * BLOCK_SIZE, 1)]);
    assert!(manager.is_allocated(0));
    assert!(!manager.is_allocated(1));
    assert!(manager.is_allocated(2));
    assert_eq!(manager.allocate(1), Ok(BLOCK_SIZE));
    assert_eq!(manager.allocate(1), Ok(3 * BLOCK_SIZE));
}

#[test]
fn frame_is_returned_only_for_a_frame_aligned_block() {
    let mut manager = BootstrapFrameManager::new();
    assert_eq!(manager.allocate_frame(), Some(0));
    for block in 1..8 {
        assert_eq!(manager.allocate_frame(), None);
        assert!(manager.is_allocated(block));
    }
    assert_eq!(manager.allocate_frame(), Some(8 * BLOCK_SIZE));
    assert_eq!((8 * BLOCK_SIZE) % 4096, 0);
}

#[test]
fn no_frame_from_a_full_table() {
    let mut manager = BootstrapFrameManager::new_initialised(&[(0, TOTAL_MEMORY)]);
    assert_eq!(manager.allocate_frame(), None);
}

#[test]
fn allocator_messages_name_each_failure() {
    assert_eq!(AllocError::SizeTooLarge.message(), "Size was larger than one block (Self::BLOCK_SIZE)");
    assert_eq!(AllocError::NoFreeBlock.message(), "Couldn't allocate a frame");
    assert_eq!(
        DeallocError::Misaligned.message(),
        "The provided address can't be correct since it isn't aligned on Self::BLOCK_SIZE"
    );
    assert_eq!(DeallocError::NotAllocated.message(), "The block at that address isn't currently allocated");
}
