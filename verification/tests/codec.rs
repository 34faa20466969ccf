use seedsearch::decoder::{decode, decoded_item};
use seedsearch::dispatch::{plan_commands, ChunkCommands, UniformBlock};
use seedsearch::errors::SearchError;
use seedsearch::kernel::{compute, run_chunk, set_bit};
use seedsearch::planner::plan_for_encoding;
use seedsearch::OutputEncoding;

#[test]
fn buffer_bytes_per_encoding() {
    assert_eq!(OutputEncoding::BitPacked.buffer_bytes(0), 0);
    assert_eq!(OutputEncoding::BitPacked.buffer_bytes(1), 4);
    assert_eq!(OutputEncoding::BitPacked.buffer_bytes(32), 4);
    assert_eq!(OutputEncoding::BitPacked.buffer_bytes(33), 8);
    assert_eq!(OutputEncoding::BytePerItem.buffer_bytes(100), 100);
    assert_eq!(OutputEncoding::WidthPerItem(2).buffer_bytes(100), 200);
    assert_eq!(OutputEncoding::WidthPerItem(8).buffer_bytes(100), 800);
}

#[test]
fn only_bit_packing_needs_atomic_writes() {
    assert!(OutputEncoding::BitPacked.needs_atomic_writes());
    assert!(!OutputEncoding::BytePerItem.needs_atomic_writes());
    assert!(!OutputEncoding::WidthPerItem(2).needs_atomic_writes());
}

#[test]
fn well_formed_widths() {
    assert!(OutputEncoding::BitPacked.is_wf());
    assert!(OutputEncoding::BytePerItem.is_wf());
    assert!(OutputEncoding::WidthPerItem(1).is_wf());
    assert!(OutputEncoding::WidthPerItem(8).is_wf());
    assert!(!OutputEncoding::WidthPerItem(0).is_wf());
    assert!(!OutputEncoding::WidthPerItem(3).is_wf());
}

#[test]
fn decode_byte_per_item_flags() {
    let bytes: Vec<u8> = vec![0, 1, 0, 7];
    assert_eq!(decode(&bytes, 4, OutputEncoding::BytePerItem), vec![1, 3]);
}

#[test]
fn decode_bit_packed_flags() {
    // Bits 0, 2 and 15 of one 32-bit word, as little-endian bytes.
    let bytes: Vec<u8> = vec![0b0000_0101, 0b1000_0000, 0, 0];
    assert_eq!(decode(&bytes, 16, OutputEncoding::BitPacked), vec![0, 2, 15]);
}

#[test]
fn decode_width_two_flags_compare_to_the_sentinel() {
    // Item 0 holds 1 (true), item 1 holds 0, item 2 holds 2: only the exact
    // sentinel value 1 counts as satisfied.
    let bytes: Vec<u8> = vec![1, 0, 0, 0, 2, 0];
    assert_eq!(decode(&bytes, 3, OutputEncoding::WidthPerItem(2)), vec![0]);
    assert!(decoded_item(&bytes, 0, OutputEncoding::WidthPerItem(2)));
    assert!(!decoded_item(&bytes, 2, OutputEncoding::WidthPerItem(2)));
}

#[test]
fn decode_width_eight_flag() {
    let mut bytes: Vec<u8> = vec![0; 16];
    bytes[8] = 1;
    assert_eq!(decode(&bytes, 2, OutputEncoding::WidthPerItem(8)), vec![1]);
}

#[test]
fn run_chunk_writes_only_its_byte_range() {
    let pred: Vec<bool> = (0..10u64).map(|i| i % 2 == 0).collect();
    let chunks = plan_for_encoding(10, OutputEncoding::BytePerItem, 4, 2, 64).unwrap();
    assert_eq!(chunks.len(), 3);
    let mut staging: Vec<u8> = vec![0xAA; 10];
    run_chunk(&pred, &chunks[1], OutputEncoding::BytePerItem, 2, &mut staging);
    // Bytes 4..8 hold the encoded results of items 4..8; the rest is
    // untouched.
    assert_eq!(staging, vec![0xAA, 0xAA, 0xAA, 0xAA, 1, 0, 1, 0, 0xAA, 0xAA]);
}

#[test]
fn set_bit_ors_into_the_right_word() {
    let mut words: Vec<u32> = vec![0, 0];
    set_bit(&mut words, 33);
    assert_eq!(words, vec![0, 2]);
    set_bit(&mut words, 0);
    assert_eq!(words, vec![1, 2]);
    // Setting the same bit again is idempotent.
    set_bit(&mut words, 33);
    assert_eq!(words, vec![1, 2]);
}

#[test]
fn uniform_block_round_trips_through_its_wire_format() {
    let u = UniformBlock { item_offset: 0x12345678, item_count: 0x90ABCDEF };
    let bytes = u.to_bytes();
    assert_eq!(bytes, vec![0x78, 0x56, 0x34, 0x12, 0xEF, 0xCD, 0xAB, 0x90]);
    assert_eq!(UniformBlock::from_bytes(&bytes), Some(u));
}

#[test]
fn uniform_block_rejects_a_short_wire_image() {
    let bytes: Vec<u8> = vec![1, 2, 3];
    assert_eq!(UniformBlock::from_bytes(&bytes), None);
}

#[test]
fn plan_commands_lay_out_copies_at_the_right_offsets() {
    let enc = OutputEncoding::WidthPerItem(2);
    let chunks = plan_for_encoding(10, enc, 8, 2, 64).unwrap();
    let cmds: Vec<ChunkCommands> = plan_commands(&chunks, enc).unwrap();
    assert_eq!(cmds.len(), 3);
    let copies: Vec<(u64, u64, u64)> =
        cmds.iter().map(|c| (c.copy_source_offset, c.copy_dest_offset, c.copy_bytes)).collect();
    assert_eq!(copies, vec![(0, 0, 8), (0, 8, 8), (0, 16, 4)]);
    assert_eq!(cmds[1].uniform, UniformBlock { item_offset: 4, item_count: 4 });
    assert_eq!(cmds[1].dispatch, chunks[1].dispatch);
}

#[test]
fn plan_commands_reject_a_domain_beyond_the_uniform_fields() {
    let mut chunks = plan_for_encoding(10, OutputEncoding::BytePerItem, 1024, 32, 64).unwrap();
    chunks[0].item_offset = u32::MAX as u64 + 1;
    assert_eq!(
        plan_commands(&chunks, OutputEncoding::BytePerItem).unwrap_err(),
        SearchError::ConfigurationError
    );
}

#[test]
fn placeholder_flag_kernel_predicate_accepts_every_seed() {
    assert!(compute(0));
    assert!(compute(123456));
}

#[test]
fn placeholder_domain_predicate_rejects_every_seed() {
    assert!(!seedsearch::predicate::compute(0));
    assert!(!seedsearch::predicate::compute(987654321));
}
