use voxel_world::allocator::{AllocatorError, BufferManager, BufferRegion};

#[test]
fn test_use_free_region_same_size() {
    let mut buffer_manager = BufferManager::new();
    buffer_manager.add_free_region(0, 20);
    buffer_manager.add_free_region(20, 30);
    buffer_manager.add_free_region(50, 40);

    // Attempt to use a region of size 40.
    let result = buffer_manager.use_free_region(40);
    assert!(result.is_ok());
    let offset = result.unwrap();

    // Since the first two regions are smaller, the last region is used.
    assert_eq!(offset, 50);

    // There should be 2 free regions left.
    assert_eq!(buffer_manager.free_regions.len(), 2);
    assert_eq!(buffer_manager.used_regions.len(), 1);
}

#[test]
fn test_use_free_region_success() {
    let mut buffer_manager = BufferManager::new();
    buffer_manager.add_free_region(0, 10);
    buffer_manager.add_free_region(10, 20);
    buffer_manager.add_free_region(30, 10);

    // Attempt to use a region of size 15.
    let result = buffer_manager.use_free_region(15);
    assert!(result.is_ok());
    let offset = result.unwrap();
    assert_eq!(offset, 10);

    // Ensure that the remaining free region of size 5 starts at offset 25.
    let remaining_region = buffer_manager.free_regions.iter().find(|&r| r.offset == 25).unwrap();
    assert_eq!(remaining_region.size, 5);
}

#[test]
fn test_use_free_region_not_enough_memory() {
    let mut buffer_manager = BufferManager::new();
    buffer_manager.add_free_region(0, 10);
    buffer_manager.add_free_region(10, 10);
    buffer_manager.add_free_region(20, 10);

    // Attempt to use a region of size 30.
    let result = buffer_manager.use_free_region(30);
    println!("{:?}", result);
    assert!(result.is_err());

    // Ensure that the free regions have not changed.
    assert_eq!(buffer_manager.free_regions.len(), 3);
    assert_eq!(buffer_manager.used_regions.len(), 0);
}

#[test]
fn test_merge_contiguous_free_regions() {
    let mut buffer_manager = BufferManager::new();
    for i in 0..=1000 {
        if i != 500 {
            buffer_manager.add_free_region(i * 10, 10);
        } else {
            buffer_manager.add_free_region(i * 10, 9);
        }
    }
    buffer_manager.merge_contiguous_free_regions();
    assert_eq!(buffer_manager.free_regions, vec![BufferRegion { offset: 0, size: 5009 }, BufferRegion { offset: 5010, size: 5000 }]);
    assert_eq!(buffer_manager.used_regions, vec![]);
}

#[test]
fn test_merge_contiguous_used_regions() {
    let mut buffer_manager = BufferManager::new();
    for i in 0..=1000 {
        if i != 500 {
            buffer_manager.add_used_region(i * 10, 10);
        } else {
            buffer_manager.add_used_region(i * 10, 9);
        }
    }
    buffer_manager.merge_contiguous_used_regions();
    assert_eq!(buffer_manager.used_regions, vec![BufferRegion { offset: 0, size: 5009 }, BufferRegion { offset: 5010, size: 5000 }]);
    assert_eq!(buffer_manager.free_regions, vec![]);
}

#[test]
fn test_new_buffer_manager() {
    let buffer_manager = BufferManager::new();
    assert!(buffer_manager.free_regions.is_empty());
    assert!(buffer_manager.used_regions.is_empty());
}

#[test]
fn test_add_free_region() {
    let mut buffer_manager = BufferManager::new();
    buffer_manager.add_free_region(5, 10);

    assert_eq!(buffer_manager.free_regions.len(), 1);
    assert_eq!(buffer_manager.free_regions[0], BufferRegion { offset: 5, size: 10 });
}

#[test]
fn test_add_used_region() {
    let mut buffer_manager = BufferManager::new();
    buffer_manager.add_used_region(10, 20);

    assert_eq!(buffer_manager.used_regions.len(), 1);
    assert_eq!(buffer_manager.used_regions[0], BufferRegion { offset: 10, size: 20 });
}

#[test]
fn test_use_free_region() {
    let mut buffer_manager = BufferManager::new();
    buffer_manager.add_free_region(0, 10);
    let res = buffer_manager.use_free_region(5);

    assert!(res.is_ok());
    assert_eq!(buffer_manager.free_regions.len(), 1);
    assert_eq!(buffer_manager.used_regions.len(), 1);
    assert_eq!(buffer_manager.free_regions[0], BufferRegion { offset: 5, size: 5 });
    assert_eq!(buffer_manager.used_regions[0], BufferRegion { offset: 0, size: 5 });
}

#[test]
fn test_free_segment_no_overlap() {
    let mut buffer_manager = BufferManager::new();
    buffer_manager.add_used_region(10, 20);
    buffer_manager.free_segment(BufferRegion { offset: 30, size: 10 });

    assert_eq!(buffer_manager.free_regions.len(), 1);
    assert_eq!(buffer_manager.free_regions[0], BufferRegion { offset: 30, size: 10 });
    assert_eq!(buffer_manager.used_regions.len(), 1);
    assert_eq!(buffer_manager.used_regions[0], BufferRegion { offset: 10, size: 20 });
}

#[test]
fn test_free_segment_overlap() {
    let mut buffer_manager = BufferManager::new();
    buffer_manager.add_used_region(10, 20);
    buffer_manager.free_segment(BufferRegion { offset: 15, size: 10 });

    assert_eq!(buffer_manager.free_regions.len(), 1);
    assert_eq!(buffer_manager.free_regions[0], BufferRegion { offset: 15, size: 10 });
    assert_eq!(buffer_manager.used_regions.len(), 2);
    assert_eq!(buffer_manager.used_regions[0], BufferRegion { offset: 10, size: 5 });
    assert_eq!(buffer_manager.used_regions[1], BufferRegion { offset: 25, size: 5 });
}

#[test]
fn test_free_segment_exact_match() {
    let mut buffer_manager = BufferManager::new();
    buffer_manager.add_used_region(10, 20);
    buffer_manager.free_segment(BufferRegion { offset: 10, size: 20 });

    assert_eq!(buffer_manager.free_regions.len(), 1);
    assert_eq!(buffer_manager.free_regions[0], BufferRegion { offset: 10, size: 20 });
    assert_eq!(buffer_manager.used_regions.len(), 0);
}

#[test]
fn test_free_segment_complex() {
    let mut buffer_manager = BufferManager::new();
    buffer_manager.add_used_region(0, 10);
    buffer_manager.add_used_region(20, 10);
    buffer_manager.add_used_region(40, 10);

    buffer_manager.free_segment(BufferRegion { offset: 5, size: 30 });

    assert_eq!(buffer_manager.used_regions.len(), 2);
    assert_eq!(buffer_manager.used_regions.contains(&BufferRegion { offset: 0, size: 5 }), true);
    assert_eq!(buffer_manager.used_regions.contains(&BufferRegion { offset: 40, size: 10 }), true);

    assert_eq!(buffer_manager.free_regions.len(), 1);
    assert_eq!(buffer_manager.free_regions[0], BufferRegion { offset: 5, size: 30 });
}

#[test]
fn best_fit_prefers_exact_match_over_larger() {
    let mut buffer_manager = BufferManager::new();
    buffer_manager.add_free_region(0, 20);
    buffer_manager.add_free_region(20, 30);
    buffer_manager.add_free_region(50, 40);
    assert_eq!(buffer_manager.use_free_region(40), Ok(50));
    assert_eq!(buffer_manager.free_regions, vec![BufferRegion { offset: 0, size: 20 }, BufferRegion { offset: 20, size: 30 }]);
    assert_eq!(buffer_manager.used_regions, vec![BufferRegion { offset: 50, size: 40 }]);
}

#[test]
fn best_fit_takes_smallest_larger_region_and_keeps_rest() {
    let mut buffer_manager = BufferManager::new();
    buffer_manager.add_free_region(0, 40);
    buffer_manager.add_free_region(40, 30);
    buffer_manager.add_free_region(70, 35);
    assert_eq!(buffer_manager.use_free_region(25), Ok(40));
    assert_eq!(
        buffer_manager.free_regions,
        vec![BufferRegion { offset: 0, size: 40 }, BufferRegion { offset: 70, size: 35 }, BufferRegion { offset: 65, size: 5 }]
    );
}

#[test]
fn best_fit_picks_first_of_equal_sizes() {
    let mut buffer_manager = BufferManager::new();
    buffer_manager.add_free_region(0, 30);
    buffer_manager.add_free_region(100, 30);
    assert_eq!(buffer_manager.use_free_region(10), Ok(0));
}

#[test]
fn out_of_space_leaves_state_unchanged() {
    let mut buffer_manager = BufferManager::new();
    buffer_manager.add_free_region(0, 10);
    buffer_manager.add_used_region(10, 5);
    assert_eq!(buffer_manager.use_free_region(11), Err(AllocatorError::OutOfSpace));
    assert_eq!(buffer_manager.free_regions, vec![BufferRegion { offset: 0, size: 10 }]);
    assert_eq!(buffer_manager.used_regions, vec![BufferRegion { offset: 10, size: 5 }]);
}

#[test]
fn empty_allocator_is_out_of_space() {
    let mut buffer_manager = BufferManager::new();
    assert_eq!(buffer_manager.use_free_region(1), Err(AllocatorError::OutOfSpace));
}

#[test]
fn partial_release_splits_used_region() {
    let mut buffer_manager = BufferManager::new();
    buffer_manager.add_used_region(10, 20);
    buffer_manager.free_segment(BufferRegion { offset: 15, size: 10 });
    assert_eq!(buffer_manager.used_regions, vec![BufferRegion { offset: 10, size: 5 }, BufferRegion { offset: 25, size: 5 }]);
    assert!(buffer_manager.free_regions.contains(&BufferRegion { offset: 15, size: 10 }));
}

#[test]
fn release_cutting_the_front_keeps_the_tail() {
    let mut buffer_manager = BufferManager::new();
    buffer_manager.add_used_region(10, 20);
    buffer_manager.free_segment(BufferRegion { offset: 5, size: 10 });
    assert_eq!(buffer_manager.used_regions, vec![BufferRegion { offset: 15, size: 15 }]);
    assert_eq!(buffer_manager.free_regions, vec![BufferRegion { offset: 5, size: 10 }]);
}

#[test]
fn allocate_release_coalesce_round_trip() {
    let mut buffer_manager = BufferManager::new();
    buffer_manager.add_free_region(0, 100);
    buffer_manager.add_free_region(200, 50);
    let offset = buffer_manager.use_free_region(30).unwrap();
    assert_eq!(offset, 200);
    buffer_manager.free_segment(BufferRegion { offset, size: 30 });
    buffer_manager.coalesce();
    assert_eq!(buffer_manager.free_regions, vec![BufferRegion { offset: 0, size: 100 }, BufferRegion { offset: 200, size: 50 }]);
    assert!(buffer_manager.used_regions.is_empty());
}

#[test]
fn coalesce_sorts_and_merges_both_lists() {
    let mut buffer_manager = BufferManager::new();
    buffer_manager.add_free_region(30, 10);
    buffer_manager.add_free_region(0, 10);
    buffer_manager.add_free_region(10, 10);
    buffer_manager.add_used_region(60, 5);
    buffer_manager.add_used_region(50, 10);
    buffer_manager.add_used_region(70, 1);
    buffer_manager.coalesce();
    assert_eq!(buffer_manager.free_regions, vec![BufferRegion { offset: 0, size: 20 }, BufferRegion { offset: 30, size: 10 }]);
    assert_eq!(buffer_manager.used_regions, vec![BufferRegion { offset: 50, size: 15 }, BufferRegion { offset: 70, size: 1 }]);
}

#[test]
fn merging_an_empty_list_is_a_no_op() {
    let mut buffer_manager = BufferManager::new();
    buffer_manager.merge_contiguous_free_regions();
    buffer_manager.merge_contiguous_used_regions();
    assert!(buffer_manager.free_regions.is_empty());
    assert!(buffer_manager.used_regions.is_empty());
}

#[test]
fn free_used_region_moves_range_to_free_list() {
    let mut buffer_manager = BufferManager::new();
    buffer_manager.add_used_region(0, 8);
    buffer_manager.add_used_region(8, 4);
    buffer_manager.free_used_region(0);
    assert_eq!(buffer_manager.used_regions, vec![BufferRegion { offset: 8, size: 4 }]);
    assert_eq!(buffer_manager.free_regions, vec![BufferRegion { offset: 0, size: 8 }]);
}

#[test]
fn clear_forgets_all_ranges() {
    let mut buffer_manager = BufferManager::new();
    buffer_manager.add_free_region(0, 8);
    buffer_manager.add_used_region(8, 4);
    buffer_manager.clear();
    assert!(buffer_manager.free_regions.is_empty());
    assert!(buffer_manager.used_regions.is_empty());
}

#[test]
fn region_end_and_emptiness() {
    let region = BufferRegion { offset: 7, size: 5 };
    assert_eq!(region.end(), 12);
    assert!(!region.is_empty());
    assert!(BufferRegion { offset: 3, size: 0 }.is_empty());
}
