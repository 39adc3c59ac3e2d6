use std::cell::Cell;
use valkey_cuckoo::chunks::{chunk_bounds, load_bucket_chunks, ChunkLoader, ChunkPush, RDB_BUCKET_CHUNK_SIZE as CHUNK};
use valkey_cuckoo::reserve::ReserveRequest;

/// The amounts asked of the allocator, in order.
fn amounts(requests: &[ReserveRequest]) -> Vec<usize> {
    requests.iter().map(|q| q.additional()).collect()
}

#[test]
fn missing_first_chunk_does_not_allocate_declared_size() {
    let (result, stats, requests) = load_bucket_chunks(16 * CHUNK, |_| None);
    let largest = stats.largest_allocation;
    assert!(result.is_none());
    assert_eq!(largest, 0);
    assert!(requests.is_empty());
}

#[test]
fn truncated_stream_only_allocates_for_received_chunks() {
    let chunk = vec![100; CHUNK];
    for received in [1_usize, 2, 3, 5] {
        let calls = Cell::new(0);
        let (result, stats, requests) = load_bucket_chunks(16 * CHUNK, |i| {
            calls.set(calls.get() + 1);
            (i < received).then_some(chunk.as_slice())
        });
        let largest = stats.largest_allocation;
        assert!(result.is_none());
        assert_eq!(calls.get(), received + 1);
        assert_eq!(largest, received.next_power_of_two() * CHUNK);
        // Room is asked for only after a chunk is checked: 1, 1, 2, 4 MiB
        // beyond what is loaded, one request per doubling, all granted.
        let expected: Vec<usize> = [CHUNK, CHUNK, 2 * CHUNK, 4 * CHUNK]
            .into_iter()
            .take((received.next_power_of_two().trailing_zeros() + 1) as usize)
            .collect();
        assert_eq!(amounts(&requests), expected);
        assert!(requests.iter().all(|q| q.granted()));
    }
}

#[test]
fn intermediate_capacity_is_bounded_for_non_power_of_two_sizes() {
    let chunk = vec![100; CHUNK];
    for (size, received) in [(7 * CHUNK, 3), (13 * CHUNK, 5)] {
        let calls = Cell::new(0);
        let (result, stats, requests) = load_bucket_chunks(size, |i| {
            calls.set(calls.get() + 1);
            (i < received).then_some(chunk.as_slice())
        });
        assert!(result.is_none());
        assert_eq!(calls.get(), received + 1);
        // A plain doubling strategy would reserve 4 / 8 MiB here, making
        // the subsequent final allocation coexist with more than size/2.
        assert_eq!(stats.largest_allocation, size / 2);
        let total: usize = amounts(&requests).iter().sum();
        assert_eq!(total, size / 2);
        assert!(stats.peak_live_bytes <= size + size / 2);
        assert_eq!(stats.live_bytes, 0);
    }
}

#[test]
fn wrong_chunk_lengths_are_rejected_before_growing() {
    let full = vec![100; CHUNK];
    let oversized = vec![100; CHUNK + 1];
    for (size, bad, expected_allocation) in [
        (16 * CHUNK, &[][..], CHUNK),
        (16 * CHUNK, &full[..CHUNK - 1], CHUNK),
        (16 * CHUNK, oversized.as_slice(), CHUNK),
        (CHUNK + 3, full.as_slice(), CHUNK + 3),
    ] {
        let (result, stats, requests) = load_bucket_chunks(size, |i| Some(if i == 0 { full.as_slice() } else { bad }));
        assert!(result.is_none());
        assert_eq!(stats.largest_allocation, expected_allocation);
        assert_eq!(amounts(&requests), vec![expected_allocation]);
    }
    let one = [0_u8];
    let (result, stats, requests) = load_bucket_chunks(16 * CHUNK, |_| Some(&one[..]));
    assert!(result.is_none());
    assert_eq!(stats.largest_allocation, 0);
    assert!(requests.is_empty());
}

#[test]
fn chunks_preserve_contents_and_partial_tail() {
    for size in [1, CHUNK, CHUNK + 3, 3 * CHUNK, 5 * CHUNK + 7] {
        let input: Vec<u8> = (0..size).map(|index| (index % 251) as u8).collect();
        let chunks: Vec<&[u8]> = input.chunks(CHUNK).collect();
        let calls = Cell::new(0);
        let (result, stats, requests) = load_bucket_chunks(size, |i| {
            calls.set(calls.get() + 1);
            chunks.get(i).copied()
        });
        let values = result.unwrap();
        assert_eq!(values, input);
        // The buffer handed back is the one reservation of the final size.
        assert_eq!(values.capacity(), size);
        assert_eq!(stats.largest_allocation, size);
        assert!(stats.peak_live_bytes <= size + size / 2);
        assert_eq!(stats.live_bytes, size);
        assert_eq!(calls.get(), chunks.len());
        assert_eq!(amounts(&requests).iter().sum::<usize>(), size);
        assert_eq!(chunks.len(), chunk_bounds(size).len());
    }
}

#[test]
fn invalid_allocation_sizes_do_not_read_or_allocate() {
    for size in [0, isize::MAX as usize + 1, usize::MAX] {
        let (result, stats, requests) = load_bucket_chunks(size, |_| -> Option<&[u8]> {
            panic!("invalid size must not read input")
        });
        assert!(result.is_none());
        assert_eq!(stats.largest_allocation, 0);
        assert!(requests.is_empty());
    }
}

#[test]
fn loader_expects_full_chunks_then_the_tail() {
    let mut loader = ChunkLoader::new(CHUNK + 3).unwrap();
    assert_eq!(loader.expected_len(), CHUNK);
    assert!(matches!(loader.push_chunk(&[1, 2, 3]), ChunkPush::WrongLength));
    assert_eq!(loader.expected_len(), CHUNK);
    // The first chunk is more than half: the final size is reserved at once.
    match loader.push_chunk(&vec![9; CHUNK]) {
        ChunkPush::Stored(Some(q)) => assert_eq!((q.additional(), q.granted()), (CHUNK + 3, true)),
        other => panic!("unexpected {other:?}"),
    }
    assert_eq!(loader.expected_len(), 3);
    assert!(!loader.is_complete());
    assert!(matches!(loader.push_chunk(&[1, 2, 3]), ChunkPush::Stored(None)));
    assert!(loader.is_complete());
    let (values, stats) = loader.finish();
    assert_eq!(values.len(), CHUNK + 3);
    assert_eq!(&values[CHUNK..], &[1, 2, 3]);
    assert_eq!(stats.largest_allocation, CHUNK + 3);
    assert_eq!(stats.live_bytes, CHUNK + 3);
}

#[test]
fn abandoned_load_frees_its_storage() {
    let mut loader = ChunkLoader::new(4 * CHUNK).unwrap();
    assert!(matches!(loader.push_chunk(&vec![0; CHUNK]), ChunkPush::Stored(Some(_))));
    let stats = loader.abandon();
    assert_eq!(stats.live_bytes, 0);
    assert_eq!(stats.largest_allocation, CHUNK);
    assert!(!stats.invalid_deallocation);
    assert!(ChunkLoader::new(0).is_none());
}

#[test]
fn saved_chunks_cover_the_bytes_in_order() {
    assert!(chunk_bounds(0).is_empty());
    assert_eq!(chunk_bounds(3), vec![(0, 3)]);
    assert_eq!(chunk_bounds(2 * CHUNK + 5), vec![(0, CHUNK), (CHUNK, 2 * CHUNK), (2 * CHUNK, 2 * CHUNK + 5)]);
    let input: Vec<u8> = (0..CHUNK + 7).map(|i| (i % 13) as u8).collect();
    let bounds = chunk_bounds(input.len());
    let (result, _, _) = load_bucket_chunks(input.len(), |i| bounds.get(i).map(|&(s, e)| &input[s..e]));
    assert_eq!(result.unwrap(), input);
}
