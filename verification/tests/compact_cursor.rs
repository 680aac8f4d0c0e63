use zkevm_verifier::compact_prestate_processing::{
    parse_header, read_opcode, CompactCursor, CompactParsingError, Header, Opcode,
};

#[test]
fn header_version_matches_only_its_own_version() {
    let header = Header { version: 1 };
    assert!(header.version_is_compatible(1));
    assert!(!header.version_is_compatible(0));
    assert!(!header.version_is_compatible(2));
}

#[test]
fn empty_stream_is_at_eof_and_has_no_header() {
    let mut cursor = CompactCursor::new(vec![]);
    assert!(cursor.at_eof());
    assert_eq!(parse_header(&mut cursor), Err(CompactParsingError::MissingHeader));
    assert!(cursor.at_eof());
}

#[test]
fn cursor_reads_bytes_in_order_until_the_end() {
    let mut cursor = CompactCursor::new(vec![7, 8]);
    assert!(!cursor.at_eof());
    assert_eq!(cursor.read_byte(), Ok(7));
    assert!(!cursor.at_eof());
    assert_eq!(cursor.read_byte(), Ok(8));
    assert!(cursor.at_eof());
    assert_eq!(cursor.read_byte(), Err(CompactParsingError::UnexpectedEndOfStream));
    assert!(cursor.at_eof());
}

#[test]
fn header_then_operators() {
    let mut cursor = CompactCursor::new(vec![1, 0x03, 0x06, 0x07]);
    assert_eq!(parse_header(&mut cursor), Ok(Header { version: 1 }));
    assert_eq!(read_opcode(&mut cursor), Ok(Opcode::Hash));
    assert_eq!(read_opcode(&mut cursor), Ok(Opcode::EmptyRoot));
    assert_eq!(read_opcode(&mut cursor), Err(CompactParsingError::InvalidOperator(0x07)));
    assert_eq!(read_opcode(&mut cursor), Err(CompactParsingError::UnexpectedEndOfStream));
}

#[test]
fn every_operator_byte_decodes_to_its_operator() {
    let expected = [
        Opcode::Leaf,
        Opcode::Extension,
        Opcode::Branch,
        Opcode::Hash,
        Opcode::Code,
        Opcode::AccountLeaf,
        Opcode::EmptyRoot,
    ];
    for (byte, op) in expected.iter().enumerate() {
        assert_eq!(Opcode::n(byte as u8), Some(*op));
    }
    for byte in 7u8..=255 {
        assert_eq!(Opcode::n(byte), None);
    }
}
