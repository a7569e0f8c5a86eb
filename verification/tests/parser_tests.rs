use serlink::parser::{parse_field_value, ProtocolParser};
use serlink::protocol::{ByteOrder, ChecksumType, FieldType, Protocol, ProtocolField};

fn plain_protocol(fields: Vec<ProtocolField>) -> Protocol {
    let mut p = Protocol::new("plain");
    for f in fields {
        p.add_field(f);
    }
    p
}

fn framed_protocol() -> Protocol {
    let mut p = Protocol::new("framed").with_header(vec![0xAA, 0x55]).with_footer(vec![0x0D, 0x0A]);
    p.add_field(ProtocolField::new("value", FieldType::Uint16, 0));
    p
}

#[test]
fn short_buffer_is_invalid_with_insufficient_data() {
    let parser = ProtocolParser::new();
    let p = framed_protocol();
    for data in [&[][..], &[0xAA][..]] {
        let frame = parser.parse_with_protocol(data, &p);
        assert!(!frame.valid);
        assert_eq!(frame.error.as_deref(), Some("insufficient data"));
        assert!(frame.fields.is_empty());
        assert_eq!(frame.raw_data, data.to_vec());
    }
}

#[test]
fn wrong_leading_bytes_are_a_header_mismatch() {
    let parser = ProtocolParser::new();
    let p = framed_protocol();
    let frame = parser.parse_with_protocol(&[0xAA, 0x56, 0x01, 0x02, 0x0D, 0x0A], &p);
    assert!(!frame.valid);
    assert_eq!(frame.error.as_deref(), Some("header mismatch"));
    assert!(frame.fields.is_empty());
}

#[test]
fn wrong_trailing_bytes_are_a_footer_mismatch() {
    let parser = ProtocolParser::new();
    let p = framed_protocol();
    let frame = parser.parse_with_protocol(&[0xAA, 0x55, 0x01, 0x02, 0x0D, 0x0B], &p);
    assert!(!frame.valid);
    assert_eq!(frame.error.as_deref(), Some("footer mismatch"));
}

#[test]
fn fitting_fields_parse_in_descriptor_order() {
    let parser = ProtocolParser::new();
    let p = plain_protocol(vec![
        ProtocolField::new("a", FieldType::Uint8, 0),
        ProtocolField::new("b", FieldType::Uint16, 1),
        ProtocolField::new("c", FieldType::Bytes, 3).with_length(2),
    ]);
    let frame = parser.parse_with_protocol(&[7, 0x01, 0x00, 0xDE, 0xAD], &p);
    assert!(frame.valid);
    assert!(frame.error.is_none());
    assert_eq!(frame.fields.len(), 3);
    assert_eq!(frame.fields[0].name, "a");
    assert_eq!(frame.fields[1].name, "b");
    assert_eq!(frame.fields[2].name, "c");
    assert_eq!(frame.fields[0].value, "7");
    assert_eq!(frame.fields[1].value, "256");
    assert_eq!(frame.fields[2].value, "DE AD");
    assert_eq!(frame.fields[2].raw_bytes, vec![0xDE, 0xAD]);
}

#[test]
fn uint32_round_trip_by_byte_order() {
    let bytes = [0x00, 0x00, 0x01, 0x00];
    let be = parse_field_value(&bytes, &FieldType::Uint32, &ByteOrder::BigEndian);
    assert_eq!(be, "256");
    let le = parse_field_value(&bytes, &FieldType::Uint32, &ByteOrder::LittleEndian);
    assert_eq!(le, "65536");
    // The byte orders agree when the bytes are reversed.
    let le_rev = parse_field_value(&[0x00, 0x01, 0x00, 0x00], &FieldType::Uint32, &ByteOrder::LittleEndian);
    assert_eq!(le_rev, "256");
}

#[test]
fn parsing_twice_yields_identical_frames() {
    let parser = ProtocolParser::new();
    let p = plain_protocol(vec![
        ProtocolField::new("x", FieldType::Int32, 0),
        ProtocolField::new("s", FieldType::String, 4).with_length(3),
    ]);
    let data = [0xFF, 0xFF, 0xFF, 0xFE, b'h', b'i', b'!'];
    let a = parser.parse_with_protocol(&data, &p);
    let b = parser.parse_with_protocol(&data, &p);
    assert_eq!(a.protocol_name, b.protocol_name);
    assert_eq!(a.raw_data, b.raw_data);
    assert_eq!(a.valid, b.valid);
    assert_eq!(a.error, b.error);
    assert_eq!(a.fields.len(), b.fields.len());
    for (fa, fb) in a.fields.iter().zip(b.fields.iter()) {
        assert_eq!(fa.name, fb.name);
        assert_eq!(fa.raw_bytes, fb.raw_bytes);
        assert_eq!(fa.value, fb.value);
        assert_eq!(fa.description, fb.description);
    }
}

#[test]
fn field_beyond_buffer_is_a_soft_failure() {
    let parser = ProtocolParser::new();
    let p = plain_protocol(vec![
        ProtocolField::new("fits", FieldType::Uint8, 0),
        ProtocolField::new("late", FieldType::Uint32, 5),
    ]);
    let frame = parser.parse_with_protocol(&[9, 1, 2], &p);
    assert!(frame.valid);
    assert!(frame.error.is_none());
    assert_eq!(frame.fields.len(), 2);
    assert_eq!(frame.fields[0].value, "9");
    assert_eq!(frame.fields[1].value, "insufficient data");
    assert!(frame.fields[1].raw_bytes.is_empty());
}

#[test]
fn offsets_are_relative_to_the_header_end() {
    let parser = ProtocolParser::new();
    let mut p = Protocol::new("offset").with_header(vec![0x7E]);
    p.add_field(ProtocolField::new("v", FieldType::Uint8, 1));
    let frame = parser.parse_with_protocol(&[0x7E, 10, 20], &p);
    assert!(frame.valid);
    assert_eq!(frame.fields[0].value, "20");
    assert_eq!(frame.fields[0].raw_bytes, vec![20]);
}

#[test]
fn signed_and_unsigned_decodes_render_in_decimal() {
    assert_eq!(parse_field_value(&[0xFF], &FieldType::Uint8, &ByteOrder::BigEndian), "255");
    assert_eq!(parse_field_value(&[0xFF], &FieldType::Int8, &ByteOrder::BigEndian), "-1");
    assert_eq!(parse_field_value(&[0x80], &FieldType::Int8, &ByteOrder::BigEndian), "-128");
    assert_eq!(
        parse_field_value(&[0xFF, 0xFE], &FieldType::Int16, &ByteOrder::BigEndian),
        "-2"
    );
    assert_eq!(
        parse_field_value(&[0xFE, 0xFF], &FieldType::Int16, &ByteOrder::LittleEndian),
        "-2"
    );
    assert_eq!(
        parse_field_value(&[0x12, 0x34], &FieldType::Uint16, &ByteOrder::LittleEndian),
        "13330"
    );
    assert_eq!(
        parse_field_value(&[0xFF, 0xFF, 0xFF, 0xFF], &FieldType::Int32, &ByteOrder::BigEndian),
        "-1"
    );
    assert_eq!(
        parse_field_value(
            &[0x80, 0x00, 0x00, 0x00, 0x00, 0x00, 0x00, 0x00],
            &FieldType::Int64,
            &ByteOrder::BigEndian
        ),
        "-9223372036854775808"
    );
    assert_eq!(
        parse_field_value(
            &[0xFF, 0xFF, 0xFF, 0xFF, 0xFF, 0xFF, 0xFF, 0xFF],
            &FieldType::Uint64,
            &ByteOrder::BigEndian
        ),
        "18446744073709551615"
    );
}

#[test]
fn string_fields_decode_as_lossy_utf8() {
    assert_eq!(
        parse_field_value(&[b'A', b'T', b'+', b'?'], &FieldType::String, &ByteOrder::BigEndian),
        "AT+?"
    );
    // An invalid byte becomes the replacement character, not itself.
    assert_eq!(
        parse_field_value(&[b'o', b'k', 0xFF], &FieldType::String, &ByteOrder::BigEndian),
        "ok\u{FFFD}"
    );
}

#[test]
fn bytes_and_hex_fields_render_as_spaced_uppercase_pairs() {
    assert_eq!(
        parse_field_value(&[0x00, 0x0F, 0xA5], &FieldType::Bytes, &ByteOrder::BigEndian),
        "00 0F A5"
    );
    assert_eq!(
        parse_field_value(&[0xDE], &FieldType::Hex, &ByteOrder::BigEndian),
        "DE"
    );
}

#[test]
fn fixed_width_decodes_use_only_their_leading_bytes() {
    // A longer slice decodes from its first bytes, as a direct call may
    // hand more than the type needs.
    assert_eq!(
        parse_field_value(&[0x01, 0x00, 0xFF], &FieldType::Uint16, &ByteOrder::BigEndian),
        "256"
    );
}

#[test]
fn sentinels_for_empty_and_short_slices() {
    assert_eq!(parse_field_value(&[], &FieldType::Uint32, &ByteOrder::BigEndian), "empty");
    assert_eq!(
        parse_field_value(&[1, 2], &FieldType::Uint32, &ByteOrder::BigEndian),
        "insufficient data (needs 4 bytes)"
    );
    assert_eq!(
        parse_field_value(&[1], &FieldType::Uint16, &ByteOrder::BigEndian),
        "insufficient data (needs 2 bytes)"
    );
}

#[test]
fn registry_registers_replaces_and_removes_by_id() {
    let mut parser = ProtocolParser::new();
    let mut p1 = Protocol::new("first");
    p1.id = "id-1".to_string();
    let mut p2 = Protocol::new("second");
    p2.id = "id-2".to_string();
    parser.register_protocol(p1.clone());
    parser.register_protocol(p2.clone());
    assert_eq!(parser.get_protocols().len(), 2);
    assert_eq!(parser.get_protocol("id-1").unwrap().name, "first");

    // Replacing under the same id keeps one entry.
    let mut p1b = Protocol::new("first-renamed");
    p1b.id = "id-1".to_string();
    parser.register_protocol(p1b);
    assert_eq!(parser.get_protocols().len(), 2);
    assert_eq!(parser.get_protocol("id-1").unwrap().name, "first-renamed");

    parser.remove_protocol("id-1");
    assert!(parser.get_protocol("id-1").is_none());
    assert_eq!(parser.get_protocols().len(), 1);
}

#[test]
fn active_protocol_drives_implicit_parse() {
    let mut parser = ProtocolParser::new();
    let mut p = Protocol::new("active");
    p.id = "the-id".to_string();
    p.add_field(ProtocolField::new("v", FieldType::Uint8, 0));
    parser.register_protocol(p);

    // No active protocol: nothing parses.
    assert!(parser.parse(&[1]).is_none());

    // An unknown active id also parses to nothing.
    parser.set_active_protocol(Some("missing".to_string()));
    assert!(parser.parse(&[1]).is_none());

    parser.set_active_protocol(Some("the-id".to_string()));
    let frame = parser.parse(&[42]).expect("active protocol parses");
    assert!(frame.valid);
    assert_eq!(frame.fields[0].value, "42");

    // Removing the active protocol clears the active id.
    parser.remove_protocol("the-id");
    assert!(parser.parse(&[42]).is_none());
}

#[test]
fn parsing_by_name_fails_for_an_unknown_id() {
    let mut parser = ProtocolParser::new();
    let mut p = Protocol::new("named");
    p.id = "known".to_string();
    p.add_field(ProtocolField::new("v", FieldType::Uint8, 0));
    parser.register_protocol(p);
    let frame = parser.parse_data_with_protocol(&[5], "known").unwrap();
    assert!(frame.valid);
    assert_eq!(frame.fields[0].value, "5");
    let err = parser.parse_data_with_protocol(&[5], "unknown").unwrap_err();
    assert_eq!(err, "Protocol not found");
}

#[test]
fn min_frame_length_sums_all_reserved_parts() {
    let mut p = Protocol::new("m").with_header(vec![1, 2]).with_footer(vec![3]);
    p.checksum = Some(ChecksumType::Crc16);
    p.add_field(ProtocolField::new("a", FieldType::Uint8, 0));
    p.add_field(ProtocolField::new("b", FieldType::Uint32, 2));
    // header 2 + fields end (2 + 4) + footer 1 + checksum 2
    assert_eq!(p.min_frame_length(), 11);

    let empty = Protocol::new("empty");
    assert_eq!(empty.min_frame_length(), 0);

    // A variable-width field without a length counts one byte.
    let mut v = Protocol::new("v");
    v.add_field(ProtocolField::new("s", FieldType::String, 3));
    assert_eq!(v.min_frame_length(), 4);
}

#[test]
fn checksum_sizes_reserve_their_encoded_lengths() {
    assert_eq!(ChecksumType::NoChecksum.size(), 0);
    assert_eq!(ChecksumType::Sum8.size(), 1);
    assert_eq!(ChecksumType::Sum16.size(), 2);
    assert_eq!(ChecksumType::Crc8.size(), 1);
    assert_eq!(ChecksumType::Crc16.size(), 2);
    assert_eq!(ChecksumType::Crc32.size(), 4);
    assert_eq!(ChecksumType::Xor8.size(), 1);
}

#[test]
fn field_type_sizes() {
    assert_eq!(FieldType::Uint8.size(), Some(1));
    assert_eq!(FieldType::Int16.size(), Some(2));
    assert_eq!(FieldType::Float32.size(), Some(4));
    assert_eq!(FieldType::Uint64.size(), Some(8));
    assert_eq!(FieldType::String.size(), None);
    assert_eq!(FieldType::Hex.size(), None);
}

#[test]
fn protocol_builders_set_their_parts() {
    let f = ProtocolField::new("n", FieldType::Uint16, 3)
        .with_length(5)
        .with_byte_order(ByteOrder::LittleEndian)
        .with_description("a field");
    assert_eq!(f.name, "n");
    assert_eq!(f.offset, 3);
    assert_eq!(f.length, Some(5));
    assert_eq!(f.byte_order, ByteOrder::LittleEndian);
    assert_eq!(f.description.as_deref(), Some("a field"));
    assert!(f.visible);

    let p = Protocol::new("np");
    assert_eq!(p.id.len(), 36);
    assert_eq!(p.created_at, p.updated_at);
    assert!(p.fields.is_empty());
}
