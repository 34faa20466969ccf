use seedsearch::errors::SearchError;
use seedsearch::planner::plan_for_encoding;
use seedsearch::search::run_search;
use seedsearch::service::SearchStatus;
use seedsearch::session::{check_device_capability, required_storage_widths};
use seedsearch::OutputEncoding;

#[test]
fn search_even_indices_under_byte_encoding() {
    // 100 items, predicate "index is even", one chunk: exactly the 50 even
    // indices come back, ascending.
    let pred: Vec<bool> = (0..100u64).map(|i| i % 2 == 0).collect();
    let ids = run_search(&pred, OutputEncoding::BytePerItem, 1 << 20, 32, 1024).unwrap();
    let expected: Vec<u64> = (0..50).map(|k| 2 * k).collect();
    assert_eq!(ids.len(), 50);
    assert_eq!(ids, expected);
}

#[test]
fn search_zero_items_is_empty_with_no_chunks() {
    let pred: Vec<bool> = vec![];
    let chunks = plan_for_encoding(0, OutputEncoding::BytePerItem, 1 << 20, 32, 1024).unwrap();
    assert_eq!(chunks.len(), 0);
    let ids = run_search(&pred, OutputEncoding::BytePerItem, 1 << 20, 32, 1024).unwrap();
    assert!(ids.is_empty());
}

#[test]
fn search_results_do_not_depend_on_chunk_boundaries() {
    // 10 items at width 2 in 8 bindable bytes force chunks (0,4), (4,4),
    // (8,2); a huge bind limit plans a single chunk. The decoded results
    // must not depend on which chunk an index landed in.
    let pred: Vec<bool> = (0..10u64).map(|i| i % 3 == 0).collect();
    let enc = OutputEncoding::WidthPerItem(2);
    let chunks = plan_for_encoding(10, enc, 8, 2, 64).unwrap();
    let shape: Vec<(u64, u64)> = chunks.iter().map(|c| (c.item_offset, c.item_count)).collect();
    assert_eq!(shape, vec![(0, 4), (4, 4), (8, 2)]);
    let small = run_search(&pred, enc, 8, 2, 64).unwrap();
    let large = run_search(&pred, enc, 1 << 20, 32, 1024).unwrap();
    assert_eq!(small, vec![0, 3, 6, 9]);
    assert_eq!(small, large);
}

#[test]
fn search_twice_yields_identical_results() {
    let pred: Vec<bool> = (0..257u64).map(|i| i % 7 == 1).collect();
    let enc = OutputEncoding::BitPacked;
    let first = run_search(&pred, enc, 8, 8, 16).unwrap();
    let second = run_search(&pred, enc, 8, 8, 16).unwrap();
    assert_eq!(first, second);
}

#[test]
fn search_bit_packed_across_many_chunks() {
    // 4 bindable bytes hold one 32-item word: 100 items split into four
    // word-aligned chunks.
    let pred: Vec<bool> = (0..100u64).map(|i| i % 3 == 0).collect();
    let ids = run_search(&pred, OutputEncoding::BitPacked, 4, 32, 64).unwrap();
    let expected: Vec<u64> = (0..100u64).filter(|i| i % 3 == 0).collect();
    assert_eq!(ids, expected);
}

#[test]
fn search_each_width_round_trips_the_same_table() {
    let pred: Vec<bool> = (0..67u64).map(|i| i % 5 == 2 || i == 66).collect();
    let expected: Vec<u64> = (0..67u64).filter(|i| i % 5 == 2 || *i == 66).collect();
    for w in [1u64, 2, 4, 8] {
        let ids = run_search(&pred, OutputEncoding::WidthPerItem(w), 64, 4, 512).unwrap();
        assert_eq!(ids, expected, "width {w}");
    }
    let ids = run_search(&pred, OutputEncoding::BytePerItem, 64, 4, 512).unwrap();
    assert_eq!(ids, expected);
    let ids = run_search(&pred, OutputEncoding::BitPacked, 4, 4, 512).unwrap();
    assert_eq!(ids, expected);
}

#[test]
fn search_rejects_a_stride_that_can_never_fit() {
    let pred: Vec<bool> = vec![true; 10];
    assert_eq!(
        run_search(&pred, OutputEncoding::WidthPerItem(8), 4, 32, 64).unwrap_err(),
        SearchError::ConfigurationError
    );
}

#[test]
fn device_without_compute_is_refused() {
    assert_eq!(check_device_capability(false).unwrap_err(), SearchError::NoCompatibleDevice);
    assert!(check_device_capability(true).is_ok());
}

#[test]
fn storage_width_requirements_follow_the_encoding() {
    assert_eq!(required_storage_widths(&OutputEncoding::BitPacked), (false, false));
    assert_eq!(required_storage_widths(&OutputEncoding::BytePerItem), (true, false));
    assert_eq!(required_storage_widths(&OutputEncoding::WidthPerItem(1)), (true, false));
    assert_eq!(required_storage_widths(&OutputEncoding::WidthPerItem(2)), (false, true));
    assert_eq!(required_storage_widths(&OutputEncoding::WidthPerItem(4)), (false, false));
}

#[test]
fn every_error_has_a_message() {
    assert_eq!(
        SearchError::NoCompatibleDevice.message(),
        "no adapter exposes a compute-capable queue"
    );
    assert_eq!(
        SearchError::ConfigurationError.message(),
        "the search configuration can never fit the device limits"
    );
    assert_eq!(
        SearchError::AllocationError.message(),
        "the device refused to create a buffer or pipeline"
    );
    assert_eq!(
        SearchError::ReadbackError.message(),
        "mapping the staging buffer for host reads failed"
    );
}

#[test]
fn search_status_reports_running() {
    assert!(SearchStatus::Running.is_running());
    assert!(!SearchStatus::GalaxySearch(vec![1, 2, 3]).is_running());
    assert!(!SearchStatus::StarSearch(vec![(1, 2)]).is_running());
}
