//! Tests of the selection decoder and the signed-index readers.

use txfs::error::TxfsError;
use txfs::select::{parse_inout_selection, read_i15, read_i7};

#[test]
fn read_i7_positive() {
    assert_eq!(read_i7(0x00), 0);
    assert_eq!(read_i7(0x01), 1);
    assert_eq!(read_i7(0x3f), 63);
}

#[test]
fn read_i7_negative() {
    assert_eq!(read_i7(0x7f), -1);
    assert_eq!(read_i7(0x40), -64);
    assert_eq!(read_i7(0x41), -63);
}

#[test]
fn read_i7_masks_top_bit() {
    assert_eq!(read_i7(0xff), -1);
    assert_eq!(read_i7(0x80), 0);
}

#[test]
fn read_i15_positive() {
    assert_eq!(read_i15(0x0000), 0);
    assert_eq!(read_i15(0x0123), 0x123);
    assert_eq!(read_i15(0x3fff), 16383);
}

#[test]
fn read_i15_negative() {
    assert_eq!(read_i15(0x7fff), -1);
    assert_eq!(read_i15(0x4000), -16384);
    assert_eq!(read_i15(0x4001), -16383);
}

#[test]
fn read_i15_masks_top_bit() {
    assert_eq!(read_i15(0xffff), -1);
    assert_eq!(read_i15(0x8000), 0);
}

#[test]
fn selection_none() {
    let bytes = vec![0x00u8];
    let mut pos = 0usize;
    let (sel, commit) = parse_inout_selection(&bytes, &mut pos, 5, 0, true).unwrap();
    assert!(sel.is_empty());
    assert!(!commit);
    assert_eq!(pos, 1);
}

#[test]
fn selection_all() {
    let bytes = vec![0x3fu8];
    let mut pos = 0usize;
    let (sel, commit) = parse_inout_selection(&bytes, &mut pos, 5, 0, true).unwrap();
    assert_eq!(sel, vec![0, 1, 2, 3, 4]);
    assert!(!commit);
    assert_eq!(pos, 1);
}

#[test]
fn selection_all_with_number() {
    let bytes = vec![0xbfu8];
    let mut pos = 0usize;
    let (sel, commit) = parse_inout_selection(&bytes, &mut pos, 5, 0, true).unwrap();
    assert_eq!(sel, vec![0, 1, 2, 3, 4]);
    assert!(commit);
}

#[test]
fn selection_current() {
    let bytes = vec![0x40u8];
    let mut pos = 0usize;
    let (sel, commit) = parse_inout_selection(&bytes, &mut pos, 5, 2, true).unwrap();
    assert_eq!(sel, vec![2]);
    assert!(!commit);
}

#[test]
fn selection_current_out_of_range() {
    let bytes = vec![0x40u8];
    let mut pos = 0usize;
    let r = parse_inout_selection(&bytes, &mut pos, 3, 3, true);
    assert_eq!(r.unwrap_err(), TxfsError::OutOfRange);
}

#[test]
fn selection_leading_single_byte() {
    let bytes = vec![0x02u8];
    let mut pos = 0usize;
    let (sel, commit) = parse_inout_selection(&bytes, &mut pos, 5, 0, true).unwrap();
    assert_eq!(sel, vec![0, 1]);
    assert!(!commit);
}

#[test]
fn selection_leading_exceeds_items() {
    let bytes = vec![0x05u8];
    let mut pos = 0usize;
    let r = parse_inout_selection(&bytes, &mut pos, 4, 0, true);
    assert_eq!(r.unwrap_err(), TxfsError::OutOfRange);
}

#[test]
fn selection_leading_count_equal_items_is_fine() {
    let bytes = vec![0x04u8];
    let mut pos = 0usize;
    let (sel, _) = parse_inout_selection(&bytes, &mut pos, 4, 0, true).unwrap();
    assert_eq!(sel, vec![0, 1, 2, 3]);
}

#[test]
fn selection_leading_two_bytes() {
    let bytes = vec![0x21u8, 0x00];
    let mut pos = 0usize;
    let (sel, _) = parse_inout_selection(&bytes, &mut pos, 300, 0, true).unwrap();
    assert_eq!(sel.len(), 256);
    assert_eq!(sel[0], 0);
    assert_eq!(sel[255], 255);
    assert_eq!(pos, 2);
}

#[test]
fn selection_leading_two_bytes_missing_continuation() {
    let bytes = vec![0x21u8];
    let mut pos = 0usize;
    let r = parse_inout_selection(&bytes, &mut pos, 300, 0, true);
    assert_eq!(r.unwrap_err(), TxfsError::MalformedSelector);
}

#[test]
fn selection_leading_two_bytes_zero_count() {
    let bytes = vec![0x20u8, 0x00];
    let mut pos = 0usize;
    let r = parse_inout_selection(&bytes, &mut pos, 300, 0, true);
    assert_eq!(r.unwrap_err(), TxfsError::UnreachableState);
}

#[test]
fn selection_individual_absolute() {
    let bytes = vec![0x42u8, 0x00, 0x02];
    let mut pos = 0usize;
    let (sel, _) = parse_inout_selection(&bytes, &mut pos, 4, 0, true).unwrap();
    assert_eq!(sel, vec![0, 2]);
    assert_eq!(pos, 3);
}

#[test]
fn selection_individual_not_increasing() {
    let bytes = vec![0x42u8, 0x02, 0x00];
    let mut pos = 0usize;
    let r = parse_inout_selection(&bytes, &mut pos, 4, 0, true);
    assert_eq!(r.unwrap_err(), TxfsError::OrderingViolation);
}

#[test]
fn selection_individual_duplicate() {
    let bytes = vec![0x42u8, 0x02, 0x02];
    let mut pos = 0usize;
    let r = parse_inout_selection(&bytes, &mut pos, 4, 0, true);
    assert_eq!(r.unwrap_err(), TxfsError::OrderingViolation);
}

#[test]
fn selection_individual_index_above_count() {
    let bytes = vec![0x41u8, 0x05];
    let mut pos = 0usize;
    let r = parse_inout_selection(&bytes, &mut pos, 4, 0, true);
    assert_eq!(r.unwrap_err(), TxfsError::OutOfRange);
}

#[test]
fn selection_individual_index_equal_count_is_accepted() {
    // The decoder's bound check rejects only indices strictly above the item
    // count; the digest builder faults later when such an index would be
    // dereferenced.
    let bytes = vec![0x41u8, 0x04];
    let mut pos = 0usize;
    let (sel, _) = parse_inout_selection(&bytes, &mut pos, 4, 0, true).unwrap();
    assert_eq!(sel, vec![4]);
}

#[test]
fn selection_individual_missing_entry() {
    let bytes = vec![0x42u8, 0x01];
    let mut pos = 0usize;
    let r = parse_inout_selection(&bytes, &mut pos, 4, 0, true);
    assert_eq!(r.unwrap_err(), TxfsError::MalformedSelector);
}

#[test]
fn selection_individual_relative() {
    // Two entries relative to current input 2: -2 and +1 resolve to 0 and 3.
    let bytes = vec![0x62u8, 0x7e, 0x01];
    let mut pos = 0usize;
    let (sel, _) = parse_inout_selection(&bytes, &mut pos, 4, 2, true).unwrap();
    assert_eq!(sel, vec![0, 3]);
}

#[test]
fn selection_individual_relative_below_zero() {
    let bytes = vec![0x61u8, 0x7f];
    let mut pos = 0usize;
    let r = parse_inout_selection(&bytes, &mut pos, 4, 0, true);
    assert_eq!(r.unwrap_err(), TxfsError::OutOfRange);
}

#[test]
fn selection_individual_relative_minus_one() {
    let bytes = vec![0x61u8, 0x7f];
    let mut pos = 0usize;
    let (sel, _) = parse_inout_selection(&bytes, &mut pos, 4, 1, true).unwrap();
    assert_eq!(sel, vec![0]);
}

#[test]
fn selection_individual_two_byte_entry() {
    // A two-byte absolute entry: 0x81 0x04 carries magnitude 0x0104.
    let bytes = vec![0x41u8, 0x81, 0x04];
    let mut pos = 0usize;
    let (sel, _) = parse_inout_selection(&bytes, &mut pos, 300, 0, true).unwrap();
    assert_eq!(sel, vec![0x0104]);
    assert_eq!(pos, 3);
}

#[test]
fn selection_individual_two_byte_missing_second() {
    let bytes = vec![0x41u8, 0x81];
    let mut pos = 0usize;
    let r = parse_inout_selection(&bytes, &mut pos, 300, 0, true);
    assert_eq!(r.unwrap_err(), TxfsError::MalformedSelector);
}

#[test]
fn selection_missing_byte_tolerated() {
    let bytes: Vec<u8> = Vec::new();
    let mut pos = 0usize;
    let (sel, commit) = parse_inout_selection(&bytes, &mut pos, 4, 0, true).unwrap();
    assert!(sel.is_empty());
    assert!(!commit);
}

#[test]
fn selection_missing_byte_rejected() {
    let bytes: Vec<u8> = Vec::new();
    let mut pos = 0usize;
    let r = parse_inout_selection(&bytes, &mut pos, 4, 0, false);
    assert_eq!(r.unwrap_err(), TxfsError::MalformedSelector);
}
