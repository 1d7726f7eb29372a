use convex_rs::resource_allocation::BlockLayout;

#[test]
fn layout_length_is_blocks_times_width() {
    assert_eq!(BlockLayout::new(3, 4).len(), 12);
    assert_eq!(BlockLayout::new(0, 4).len(), 0);
    assert_eq!(BlockLayout::new(5, 0).len(), 0);
}

#[test]
fn index_of_entry_in_block() {
    let layout = BlockLayout::new(3, 4);
    assert_eq!(layout.index(0, 0), 0);
    assert_eq!(layout.index(1, 2), 6);
    assert_eq!(layout.index(2, 3), 11);
}

#[test]
fn block_start_is_first_entry() {
    let layout = BlockLayout::new(3, 2);
    assert_eq!(layout.block_start(0), 0);
    assert_eq!(layout.block_start(1), 2);
    assert_eq!(layout.block_start(2), 4);
    assert_eq!(layout.block_start(2), layout.index(2, 0));
}

#[test]
fn every_coordinate_belongs_to_exactly_one_entry() {
    let (blocks, width) = (4, 3);
    let layout = BlockLayout::new(blocks, width);
    let mut seen = vec![0usize; layout.len()];
    for b in 0..blocks {
        for k in 0..width {
            let idx = layout.index(b, k);
            assert_eq!(idx / width, b);
            assert_eq!(idx % width, k);
            seen[idx] += 1;
        }
    }
    assert!(seen.iter().all(|&c| c == 1));
}
