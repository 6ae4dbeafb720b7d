use memmap2::MmapMut;
use photon::segment_allocator::{page_align_up, SegmentAllocator, PAGE_SIZE};

#[test]
fn page_align_up_rounds_to_pages() {
    assert_eq!(PAGE_SIZE, 4096);
    assert_eq!(page_align_up(0), 0);
    assert_eq!(page_align_up(1), 4096);
    assert_eq!(page_align_up(4096), 4096);
    assert_eq!(page_align_up(4097), 8192);
    assert_eq!(page_align_up(10000), 12288);
}

#[test]
fn allocations_are_page_aligned_and_disjoint() {
    let mut seg = SegmentAllocator::new(MmapMut::map_anon(4096 * 4).unwrap());
    assert_eq!(seg.capacity(), 4096 * 4);
    assert_eq!(seg.allocate(1), Some(0));
    assert_eq!(seg.allocate(5000), Some(4096));
    assert_eq!(seg.allocate(4096), Some(4096 * 3));
    assert_eq!(seg.allocate(1), None);
}

#[test]
fn allocation_that_does_not_fit_leaves_the_cursor() {
    let mut seg = SegmentAllocator::new(MmapMut::map_anon(4096 * 2).unwrap());
    assert_eq!(seg.allocate(4096 * 3), None);
    assert_eq!(seg.allocate(4096 * 2), Some(0));
}

#[test]
fn read_after_write_returns_the_bytes() {
    let mut seg = SegmentAllocator::new(MmapMut::map_anon(4096).unwrap());
    let offset = seg.allocate(3).unwrap();
    seg.write_at(offset, &[9, 8, 7]);
    assert_eq!(seg.read_at(offset, 3), vec![9, 8, 7]);
    // Bytes outside the written range keep their value (anonymous maps start zeroed).
    assert_eq!(seg.read_at(3, 2), vec![0, 0]);
}

#[test]
fn request_too_large_for_usize_is_refused() {
    let mut seg = SegmentAllocator::new(MmapMut::map_anon(4096).unwrap());
    assert_eq!(seg.allocate(usize::MAX), None);
    assert_eq!(seg.allocate(usize::MAX - 4095), None);
    assert_eq!(seg.allocate(4096), Some(0));
}

#[test]
fn ranges_handed_out_over_a_history_are_aligned_and_disjoint() {
    let mut seg = SegmentAllocator::new(MmapMut::map_anon(4096 * 8).unwrap());
    let sizes = [10usize, 4096, 9000, 4096 * 8, 1, 0, 5000];
    let mut ranges: Vec<(usize, usize)> = vec![];
    for &size in &sizes {
        if let Some(o) = seg.allocate(size) {
            assert_eq!(o % 4096, 0);
            assert!(o + size <= seg.capacity());
            ranges.push((o, size));
        }
    }
    assert_eq!(ranges, vec![(0, 10), (4096, 4096), (8192, 9000), (20480, 1), (24576, 0), (24576, 5000)]);
    for w in ranges.windows(2) {
        assert!(w[0].0 + w[0].1 <= w[1].0);
    }
}

#[test]
fn reading_back_after_later_writes_elsewhere() {
    let mut seg = SegmentAllocator::new(MmapMut::map_anon(4096 * 3).unwrap());
    let a = seg.allocate(4).unwrap();
    let b = seg.allocate(4).unwrap();
    seg.write_at(a, &[1, 2, 3, 4]);
    seg.write_at(b, &[5, 6, 7, 8]);
    seg.write_at(a + 2, &[9, 9]);
    seg.write_at(b + 4, &[7; 100]);
    assert_eq!(seg.read_at(b, 4), vec![5, 6, 7, 8]);
    assert_eq!(seg.read_at(a, 4), vec![1, 2, 9, 9]);
}
