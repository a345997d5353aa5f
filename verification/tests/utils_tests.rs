use bgfastnet_lib::calculate_checksum;

#[test]
fn test_checksum_empty() {
    assert_eq!(calculate_checksum(&[]), 0);
}

#[test]
fn test_checksum_single_byte() {
    assert_eq!(calculate_checksum(&[0x00]), 0x00);
    assert_eq!(calculate_checksum(&[0xFF]), 0x01);
}

#[test]
fn test_checksum_known_values() {
    let header = [0xFF, 0x05, 0x14, 0x01];
    assert_eq!(calculate_checksum(&header), 0xE7);

    let body = [
        0x8D, 0x81, 0x05, 0x26, 0x3B, 0x31, 0x01, 0xFA, 0x34, 0x47, 0x00, 0xF3, 0x00, 0xCC, 0x9B,
        0x47, 0x00, 0xA0, 0x00, 0x09,
    ];
    assert_eq!(calculate_checksum(&body), 0x9B);
}

#[test]
fn checksum_appended_sums_to_zero() {
    let data = [0x12, 0x34, 0x56, 0x78, 0x9A];
    let c = calculate_checksum(&data);
    let total: u32 = data.iter().map(|&b| b as u32).sum::<u32>() + c as u32;
    assert_eq!(total % 256, 0);
}

#[test]
fn checksum_two_bytes_wrap() {
    // 0x80 + 0x90 = 0x110; the low byte 0x10 gives 0xF0.
    assert_eq!(calculate_checksum(&[0x80, 0x90]), 0xF0);
}

#[test]
fn checksum_long_data_sums_modulo_256() {
    // 300 bytes of 0xFF sum to 76500, past the 16-bit range; 76500 % 256 == 212.
    let data = vec![0xFFu8; 300];
    assert_eq!(calculate_checksum(&data), 44);
}
