use serlink::hexstr::{encode_send_data, parse_hex_string};
use serlink::protocol::{ByteOrder, ChecksumType};
use serlink::session::{
    flush_error_message, list_ports_error_message, make_port_info, make_receive_packet,
    open_error_message, port_kind_label, write_error_message, DataDirection, DataFormat, PortKind,
    SerialConfig, SerialManager, SerialStatus,
};
use serlink::throttler::DataThrottler;

#[test]
fn open_then_close_drives_status_and_send_permission() {
    let mut m = SerialManager::new();
    assert_eq!(m.status(), SerialStatus::Closed);
    assert!(m.check_send().is_err());

    // The open decision passes while closed, and the session records
    // the successful hardware open.
    assert!(m.check_can_open().is_ok());
    m.complete_open(SerialConfig::default());
    m.start_reader();
    assert_eq!(m.status(), SerialStatus::Open);
    assert!(m.check_send().is_ok());
    assert!(m.reader_should_continue());

    // A second open is refused while one is held.
    assert_eq!(m.check_can_open().unwrap_err(), "already open");

    // Close: stop the reader, then release.
    m.request_stop();
    assert!(!m.reader_should_continue());
    assert!(m.complete_close().is_ok());
    assert_eq!(m.status(), SerialStatus::Closed);

    // A send after close is refused as not open.
    assert_eq!(m.check_send().unwrap_err(), "not open");
    // A second close reports the same.
    assert_eq!(m.complete_close().unwrap_err(), "not open");
}

#[test]
fn opening_a_missing_port_leaves_the_session_closed() {
    let mut m = SerialManager::new();
    let config = SerialConfig {
        port_name: "/dev/definitely-not-a-port-7f3a".to_string(),
        ..SerialConfig::default()
    };
    assert!(m.check_can_open().is_ok());
    // The hardware open fails; the session never records an open, so no
    // partial handle is retained.
    let attempt = serialport::new(&config.port_name, config.baud_rate)
        .timeout(std::time::Duration::from_millis(100))
        .open();
    match attempt {
        Ok(_) => panic!("a port under that name should not exist"),
        Err(e) => {
            let msg = open_error_message(&config.port_name, &e.to_string());
            assert!(msg.contains("/dev/definitely-not-a-port-7f3a"));
            assert!(msg.contains(&e.to_string()));
            drop(m.complete_close()); // close of a never-opened session fails
        }
    }
    assert_eq!(m.status(), SerialStatus::Closed);
    assert_eq!(m.check_send().unwrap_err(), "not open");
}

#[test]
fn ascii_payload_encodes_one_byte_per_character() {
    let bytes = encode_send_data("AT\r\n", DataFormat::Ascii).unwrap();
    assert_eq!(bytes.len(), 4);
    assert_eq!(bytes, b"AT\r\n".to_vec());
}

#[test]
fn odd_length_hex_fails_before_any_write() {
    let mut m = SerialManager::new();
    m.complete_open(SerialConfig::default());
    // The encoding error surfaces first; nothing reaches the port.
    let err = encode_send_data("ABC", DataFormat::Hex).unwrap_err();
    assert_eq!(err, "hex string length must be even");
    assert!(m.check_send().is_ok(), "the session itself was open and untouched");
}

#[test]
fn hex_strings_parse_ignoring_whitespace() {
    assert_eq!(parse_hex_string("0AFF").unwrap(), vec![0x0A, 0xFF]);
    assert_eq!(parse_hex_string("0a ff\t01\n").unwrap(), vec![0x0A, 0xFF, 0x01]);
    assert_eq!(parse_hex_string("").unwrap(), Vec::<u8>::new());
    assert_eq!(parse_hex_string("  \n ").unwrap(), Vec::<u8>::new());
    assert_eq!(parse_hex_string("123").unwrap_err(), "hex string length must be even");
    assert_eq!(parse_hex_string("0G").unwrap_err(), "invalid hex character");
    assert_eq!(parse_hex_string("zz").unwrap_err(), "invalid hex character");
}

#[test]
fn receive_packets_carry_hex_payload_fresh_id_and_tags() {
    let packet = make_receive_packet(&[0x01, 0xAB]);
    assert_eq!(packet.data, "01 AB");
    assert_eq!(packet.id.len(), 36);
    assert!(matches!(packet.direction, DataDirection::Rx));
    assert!(matches!(packet.format, DataFormat::Hex));
    // Two packets never share an id.
    let other = make_receive_packet(&[0x01, 0xAB]);
    assert_ne!(packet.id, other.id);
    // A millisecond Unix timestamp of the present era.
    assert!(packet.timestamp > 1_600_000_000_000);
}

#[test]
fn received_hex_text_parses_back_to_the_same_bytes() {
    let bytes = vec![0x00, 0x7F, 0x80, 0xFF, 0x0A];
    let packet = make_receive_packet(&bytes);
    assert_eq!(parse_hex_string(&packet.data).unwrap(), bytes);
}

#[test]
fn port_kinds_carry_their_labels() {
    assert_eq!(port_kind_label(PortKind::Usb), "USB");
    assert_eq!(port_kind_label(PortKind::Bluetooth), "Bluetooth");
    assert_eq!(port_kind_label(PortKind::Pci), "PCI");
    assert_eq!(port_kind_label(PortKind::Unknown), "Unknown");
    let info = make_port_info(
        "COM3".to_string(),
        PortKind::Usb,
        Some("Acme".to_string()),
        None,
    );
    assert_eq!(info.name, "COM3");
    assert_eq!(info.port_type, "USB");
    assert_eq!(info.manufacturer.as_deref(), Some("Acme"));
    assert!(info.product.is_none());
}

#[test]
fn transport_errors_carry_their_causes_verbatim() {
    assert_eq!(
        open_error_message("COM9", "device busy"),
        "failed to open serial port COM9: device busy"
    );
    assert_eq!(write_error_message("broken pipe"), "failed to write data: broken pipe");
    assert_eq!(
        flush_error_message("timed out"),
        "failed to flush serial port: timed out"
    );
    assert_eq!(
        list_ports_error_message("no permission"),
        "failed to list serial ports: no permission"
    );
}

#[test]
fn default_config_matches_the_usual_line_settings() {
    let c = SerialConfig::default();
    assert_eq!(c.port_name, "");
    assert_eq!(c.baud_rate, 115200);
}

#[test]
fn throttler_buffers_until_its_interval_and_loses_nothing() {
    // A long interval so the pushes after the first all fall inside it.
    let mut t = DataThrottler::new(600_000);
    // The first push emits: the throttler starts ready.
    let first = t.push(&[1, 2]).expect("first push emits");
    assert_eq!(first, vec![1, 2]);
    // Chunks pushed within the interval stay buffered...
    assert!(t.push(&[3]).is_none());
    assert!(t.push(&[4, 5]).is_none());
    assert!(t.push(&[]).is_none());
    assert!(t.push(&[6]).is_none());
    // ...and a flush returns their exact concatenation.
    let batch = t.flush().expect("buffered bytes flush");
    assert_eq!(batch, vec![3, 4, 5, 6]);
    // Nothing left: a second flush reports an empty buffer.
    assert!(t.flush().is_none());
}

#[test]
fn push_emits_exactly_when_the_interval_has_elapsed() {
    let mut t = DataThrottler::new(50);
    // The first push emits and records its instant.
    assert_eq!(t.push_at(1000, &[1]).unwrap(), vec![1]);
    // Within the interval every push withholds, whatever the order of
    // the clock readings.
    assert!(t.push_at(1049, &[2]).is_none());
    assert!(t.push_at(999, &[3]).is_none());
    // At exactly the interval the accumulated batch comes out.
    assert_eq!(t.push_at(1050, &[4]).unwrap(), vec![2, 3, 4]);
    // The emission instant moved to 1050.
    assert!(t.push_at(1099, &[5]).is_none());
    // A flush emits regardless of the interval, and resets the instant.
    assert_eq!(t.flush_at(1060).unwrap(), vec![5]);
    assert!(t.push_at(1109, &[6]).is_none());
    assert_eq!(t.push_at(1110, &[7]).unwrap(), vec![6, 7]);
}

#[test]
fn defaults_for_byte_order_and_checksum() {
    assert_eq!(ByteOrder::default(), ByteOrder::BigEndian);
    assert_eq!(ChecksumType::default(), ChecksumType::NoChecksum);
}

#[test]
fn throttler_clear_and_interval_updates() {
    let mut t = DataThrottler::new(600_000);
    let _ = t.push(&[9]);
    assert!(t.push(&[7]).is_none());
    t.clear();
    assert!(t.flush().is_none(), "cleared bytes are gone");
    // Dropping the interval to zero makes the next push emit.
    t.set_interval(0);
    assert_eq!(t.push(&[8]).expect("interval elapsed"), vec![8]);
}
