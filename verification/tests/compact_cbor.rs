use zkevm_verifier::compact_prestate_processing::{CompactCursor, CompactParsingError};

#[test]
fn byte_vector_is_decoded_and_the_cursor_moves_past_it() {
    // A CBOR array of three small integers, then one more byte.
    let mut cursor = CompactCursor::new(vec![0x83, 0x01, 0x02, 0x03, 0x06]);
    assert_eq!(cursor.read_cbor_byte_array_to_vec(), Ok(vec![1, 2, 3]));
    assert!(!cursor.at_eof());
    assert_eq!(cursor.read_byte(), Ok(0x06));
    assert!(cursor.at_eof());
}

#[test]
fn empty_stream_holds_no_byte_vector() {
    let mut cursor = CompactCursor::new(vec![]);
    let r = cursor.read_cbor_byte_array_to_vec();
    assert!(matches!(r, Err(CompactParsingError::InvalidByteVector(_))));
    assert!(cursor.at_eof());
}

#[test]
fn branch_mask_is_decoded_after_the_bytes_before_it() {
    let mut cursor = CompactCursor::new(vec![0x02, 0x18, 0x2a, 0x05]);
    assert_eq!(cursor.read_byte(), Ok(0x02));
    assert_eq!(cursor.read_branch_mask(), Ok(42));
    assert_eq!(cursor.read_branch_mask(), Ok(5));
    assert!(cursor.at_eof());
}

#[test]
fn branch_mask_of_four_bytes() {
    let mut cursor = CompactCursor::new(vec![0x1a, 0x00, 0x01, 0x00, 0x01]);
    assert_eq!(cursor.read_branch_mask(), Ok(65537));
    assert!(cursor.at_eof());
}

#[test]
fn branch_mask_that_does_not_fit_reports_its_bytes_in_hex() {
    let bytes = vec![0x1b, 0xff, 0xff, 0xff, 0xff, 0xff, 0xff, 0xff, 0xab];
    let mut cursor = CompactCursor::new(bytes);
    match cursor.read_branch_mask() {
        Err(CompactParsingError::InvalidBytesForType(name, hex, message)) => {
            assert_eq!(name, "u32");
            assert_eq!(hex, "1bffffffffffffffab");
            assert!(!message.is_empty());
        }
        other => panic!("unexpected result: {:?}", other),
    }
    assert!(cursor.at_eof());
}

#[test]
fn accepting_a_decoder_result_moves_by_what_it_consumed() {
    let mut cursor = CompactCursor::new(vec![0x0a, 0x0b, 0x0c, 0x0d]);
    assert_eq!(cursor.accept_branch_mask(Ok(9), 1), Ok(9));
    assert_eq!(cursor.read_byte(), Ok(0x0b));
    assert_eq!(
        cursor.accept_branch_mask(Err(String::from("bad")), 2),
        Err(CompactParsingError::InvalidBytesForType(
            "u32",
            String::from("0c0d"),
            String::from("bad")
        ))
    );
    assert!(cursor.at_eof());
    assert_eq!(
        cursor.accept_byte_vec(Err(String::from("none")), 0),
        Err(CompactParsingError::InvalidByteVector(String::from("none")))
    );
    assert_eq!(cursor.accept_byte_vec(Ok(vec![1]), 0), Ok(vec![1]));
}

#[test]
fn advancing_stops_at_the_end() {
    let mut cursor = CompactCursor::new(vec![1, 2, 3]);
    cursor.advance(2);
    assert_eq!(cursor.read_byte(), Ok(3));
    let mut cursor = CompactCursor::new(vec![1, 2, 3]);
    cursor.advance(usize::MAX);
    assert!(cursor.at_eof());
}
