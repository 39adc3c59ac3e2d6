use valkey_cuckoo::alloc_stats::AllocationStats;

/// Record the storage of `buffer` as allocated: its real capacity.
fn record(stats: &mut AllocationStats, buffer: &Vec<u8>) {
    stats.allocated(buffer.capacity());
}

#[test]
fn distinguishes_two_live_buffers_from_the_largest_allocation() {
    // Two 4096-byte buffers alive at once, then both dropped; the counters
    // are fed the capacities the allocator really handed out.
    let mut stats = AllocationStats::new();
    let first = vec![1_u8; 4096];
    record(&mut stats, &first);
    let second = first.clone();
    record(&mut stats, &second);
    let (a, b) = (first.capacity(), second.capacity());
    drop(first);
    stats.freed(a);
    drop(second);
    stats.freed(b);
    assert_eq!(stats.largest_allocation, 4096);
    assert_eq!(stats.peak_live_bytes, 8192);
    assert_eq!(stats.live_bytes, 0);
}

#[test]
fn tracks_live_buffers_across_growth_shrink_and_free() {
    // 16 bytes, grown to 32 and shrunk to 8 by allocate-copy-free, then
    // freed: each step allocates the new buffer before freeing the old one.
    let mut stats = AllocationStats::new();
    let mut buffer: Vec<u8> = Vec::with_capacity(16);
    buffer.push(42);
    record(&mut stats, &buffer);
    for size in [32_usize, 8] {
        let mut moved: Vec<u8> = Vec::with_capacity(size);
        record(&mut stats, &moved);
        moved.extend_from_slice(&buffer);
        stats.freed(buffer.capacity());
        buffer = moved;
        assert_eq!(buffer[0], 42);
    }
    stats.freed(buffer.capacity());
    drop(buffer);
    assert_eq!(stats.largest_allocation, 32);
    assert_eq!(stats.peak_live_bytes, 48);
    assert_eq!(stats.live_bytes, 0);
}

#[test]
fn freeing_more_than_is_live_is_remembered() {
    let mut stats = AllocationStats::new();
    stats.allocated(10);
    stats.freed(11);
    assert!(stats.invalid_deallocation);
    assert_eq!(stats.live_bytes, 10);
    assert_eq!(stats.peak_live_bytes, 10);
}
