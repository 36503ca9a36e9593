use gjallarbot::mac::{InvalidMacError, MacAddress, MagicPacket, MAC_ADDRESS_SIZE};

#[test]
fn given_invalid_mac_with_non_hex_characters_then_returns_invalid_hex_string_error() {
    let result = MacAddress::from_str("AA:BB:CC:DD:EE:GG");
    assert!(result.is_err());
    let error = result.unwrap_err();
    assert!(matches!(error, InvalidMacError::InvalidHexString(_)));
    assert_eq!(error, InvalidMacError::InvalidHexString("GG".to_string()));
}

#[test]
fn given_mac_with_incorrect_number_of_parts_then_returns_wrong_part_count_error() {
    let result = MacAddress::from_str("AA:BB:CC:DD:EE");
    assert!(result.is_err());
    let error = result.unwrap_err();
    assert_eq!(error, InvalidMacError::WrongPartCount { expected: MAC_ADDRESS_SIZE, actual: 5 });
}

#[test]
fn given_a_mac_address_then_it_is_formatted_properly() {
    let mac_address = MacAddress([0xAA, 0xBB, 0xCC, 0xDD, 0xEE, 0xFF]);
    assert_eq!(mac_address.to_string(), "AA:BB:CC:DD:EE:FF");
}

#[test]
fn given_valid_mac_address_then_builds_correct_magic_packet() {
    let mac_address = MacAddress([0xAA, 0xBB, 0xCC, 0xDD, 0xEE, 0xFF]);
    let magic_packet = MagicPacket::from_mac(&mac_address);
    let mut expected_magic_packet = vec![0xFFu8; 6];
    for _ in 0..16 {
        expected_magic_packet.extend_from_slice(&[0xAA, 0xBB, 0xCC, 0xDD, 0xEE, 0xFF]);
    }
    assert_eq!(magic_packet.as_bytes().to_vec(), expected_magic_packet);
}

#[test]
fn parses_lower_and_upper_case_digits() {
    let mac = MacAddress::from_str("d8:43:AE:57:b4:1D").unwrap();
    assert_eq!(mac, MacAddress([0xD8, 0x43, 0xAE, 0x57, 0xB4, 0x1D]));
    assert_eq!(mac.to_string(), "D8:43:AE:57:B4:1D");
}

#[test]
fn groups_must_be_exactly_two_hex_digits() {
    assert_eq!(MacAddress::from_str("1:2:3:4:5:6"), Err(InvalidMacError::InvalidHexString("1".to_string())));
    assert_eq!(
        MacAddress::from_str("01:02:03:04:05:+f"),
        Err(InvalidMacError::InvalidHexString("+f".to_string()))
    );
    assert_eq!(
        MacAddress::from_str("001:02:03:04:05:06"),
        Err(InvalidMacError::InvalidHexString("001".to_string()))
    );
    assert_eq!(MacAddress::from_str("0a:0B:ff:FF:00:99").unwrap(), MacAddress([0x0A, 0x0B, 0xFF, 0xFF, 0x00, 0x99]));
}

#[test]
fn out_of_range_and_empty_segments_are_invalid_hex() {
    assert_eq!(
        MacAddress::from_str("100:02:03:04:05:06"),
        Err(InvalidMacError::InvalidHexString("100".to_string()))
    );
    assert_eq!(
        MacAddress::from_str("01::03:04:05:06"),
        Err(InvalidMacError::InvalidHexString("".to_string()))
    );
    assert_eq!(
        MacAddress::from_str("01:02:03:04:05:+"),
        Err(InvalidMacError::InvalidHexString("+".to_string()))
    );
    assert_eq!(
        MacAddress::from_str("01:-2:03:04:05:ZZ"),
        Err(InvalidMacError::InvalidHexString("-2".to_string()))
    );
}

#[test]
fn empty_and_overlong_addresses_have_wrong_part_count() {
    assert_eq!(MacAddress::from_str(""), Err(InvalidMacError::WrongPartCount { expected: 6, actual: 1 }));
    assert_eq!(
        MacAddress::from_str("1:2:3:4:5:6:7"),
        Err(InvalidMacError::WrongPartCount { expected: 6, actual: 7 })
    );
}

#[test]
fn magic_packet_starts_with_header_and_repeats_address() {
    let packet = MagicPacket::from_mac(&MacAddress([1, 2, 3, 4, 5, 6]));
    let bytes = packet.as_bytes();
    assert_eq!(bytes.len(), 102);
    assert_eq!(&bytes[0..6], &[0xFF; 6]);
    assert_eq!(&bytes[96..102], &[1, 2, 3, 4, 5, 6]);
}
