use seedsearch::errors::SearchError;
use seedsearch::planner::{plan, plan_for_encoding};
use seedsearch::OutputEncoding;

#[test]
fn plan_empty_domain_has_no_chunks() {
    let chunks = plan(0, 1, 1024, 32, 64).unwrap();
    assert_eq!(chunks.len(), 0);
}

#[test]
fn plan_single_chunk_when_domain_matches_capacity() {
    // Capacity is 1024 bytes / 1 byte per item = 1024 items.
    let chunks = plan(1024, 1, 1024, 32, 1024).unwrap();
    assert_eq!(chunks.len(), 1);
    assert_eq!(chunks[0].chunk_index, 0);
    assert_eq!(chunks[0].item_offset, 0);
    assert_eq!(chunks[0].item_count, 1024);
    assert_eq!(chunks[0].dispatch.x, 32);
    assert_eq!(chunks[0].dispatch.y, 1);
    assert_eq!(chunks[0].dispatch.z, 1);
}

#[test]
fn plan_one_extra_item_makes_a_second_chunk_of_one() {
    let chunks = plan(1025, 1, 1024, 32, 1024).unwrap();
    assert_eq!(chunks.len(), 2);
    assert_eq!(chunks[0].item_offset, 0);
    assert_eq!(chunks[0].item_count, 1024);
    assert_eq!(chunks[1].item_offset, 1024);
    assert_eq!(chunks[1].item_count, 1);
    assert_eq!(chunks[1].dispatch.x, 1);
}

#[test]
fn plan_chunks_partition_the_domain() {
    let total: u64 = 10_000;
    let chunks = plan(total, 2, 600, 8, 1000).unwrap();
    // Capacity: 600 / 2 = 300 items per chunk.
    let mut next_offset: u64 = 0;
    for (i, ch) in chunks.iter().enumerate() {
        assert_eq!(ch.chunk_index, i as u64);
        assert_eq!(ch.item_offset, next_offset);
        assert!(ch.item_count >= 1);
        // Byte footprint never exceeds the bindable size.
        assert!(ch.item_count * 2 <= 600);
        // The dispatch grid covers the chunk with less than one workgroup
        // of overshoot.
        let invocations = ch.dispatch.x as u64 * ch.dispatch.y as u64 * ch.dispatch.z as u64 * 8;
        assert!(invocations >= ch.item_count);
        assert!(invocations < ch.item_count + 8);
        next_offset += ch.item_count;
    }
    assert_eq!(next_offset, total);
}

#[test]
fn plan_forced_to_four_items_per_chunk() {
    // 8 bindable bytes at 2 bytes per item force items_per_chunk = 4:
    // 10 items split (0,4), (4,4), (8,2).
    let chunks = plan(10, 2, 8, 2, 64).unwrap();
    assert_eq!(chunks.len(), 3);
    let shape: Vec<(u64, u64)> = chunks.iter().map(|c| (c.item_offset, c.item_count)).collect();
    assert_eq!(shape, vec![(0, 4), (4, 4), (8, 2)]);
    assert_eq!(chunks[0].dispatch.x, 2);
    assert_eq!(chunks[2].dispatch.x, 1);
}

#[test]
fn plan_rejects_zero_stride() {
    assert_eq!(plan(10, 0, 1024, 32, 64).unwrap_err(), SearchError::ConfigurationError);
}

#[test]
fn plan_rejects_stride_over_bind_size() {
    assert_eq!(plan(10, 9, 8, 32, 64).unwrap_err(), SearchError::ConfigurationError);
}

#[test]
fn plan_rejects_zero_threads_per_workgroup() {
    assert_eq!(plan(10, 1, 8, 0, 64).unwrap_err(), SearchError::ConfigurationError);
}

#[test]
fn plan_rejects_zero_workgroup_limit() {
    assert_eq!(plan(10, 1, 8, 32, 0).unwrap_err(), SearchError::ConfigurationError);
}

#[test]
fn plan_for_encoding_uses_the_encoding_stride() {
    // Width-2 flags in 8 bindable bytes: 4 items per chunk.
    let chunks = plan_for_encoding(10, OutputEncoding::WidthPerItem(2), 8, 2, 64).unwrap();
    let shape: Vec<(u64, u64)> = chunks.iter().map(|c| (c.item_offset, c.item_count)).collect();
    assert_eq!(shape, vec![(0, 4), (4, 4), (8, 2)]);
}

#[test]
fn plan_for_encoding_bit_packed_keeps_word_boundaries() {
    // 4 bindable bytes hold one 32-item word per chunk.
    let chunks = plan_for_encoding(100, OutputEncoding::BitPacked, 4, 32, 64).unwrap();
    assert_eq!(chunks.len(), 4);
    for ch in chunks.iter() {
        assert_eq!(ch.item_offset % 32, 0);
    }
    assert_eq!(chunks[3].item_offset, 96);
    assert_eq!(chunks[3].item_count, 4);
}

#[test]
fn plan_for_encoding_rejects_unsupported_width() {
    assert_eq!(
        plan_for_encoding(10, OutputEncoding::WidthPerItem(3), 1024, 32, 64).unwrap_err(),
        SearchError::ConfigurationError
    );
}

#[test]
fn plan_for_encoding_rejects_bit_packed_without_a_word() {
    // Fewer than 4 bindable bytes cannot hold one packed word.
    assert_eq!(
        plan_for_encoding(10, OutputEncoding::BitPacked, 3, 32, 64).unwrap_err(),
        SearchError::ConfigurationError
    );
    // A dispatch too small for 32 items cannot cover one word either.
    assert_eq!(
        plan_for_encoding(10, OutputEncoding::BitPacked, 1024, 1, 16).unwrap_err(),
        SearchError::ConfigurationError
    );
}
