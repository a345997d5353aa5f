use bgfastnet_lib::text::{hex_to_bytes, trim};

#[test]
fn hex_to_bytes_skips_separators() {
    assert_eq!(hex_to_bytes(" FF 05\t0A\r\n"), Some(vec![0xFF, 0x05, 0x0A]));
    assert_eq!(hex_to_bytes("ff05"), Some(vec![0xFF, 0x05]));
    assert_eq!(hex_to_bytes(""), Some(vec![]));
}

#[test]
fn hex_to_bytes_skips_pairs_that_are_not_hex() {
    assert_eq!(hex_to_bytes("FFzz05"), Some(vec![0xFF, 0x05]));
}

#[test]
fn hex_to_bytes_odd_length_refused() {
    assert_eq!(hex_to_bytes("FF0"), None);
}

#[test]
fn trim_whitespace() {
    assert_eq!(trim("  abc \n"), "abc");
    assert_eq!(trim(""), "");
}

#[test]
fn hex_to_bytes_reads_back_any_case_and_separators() {
    let bytes: Vec<u8> = vec![0x00, 0xAB, 0x7F, 0x10, 0xFF, 0xC9];
    let upper: String = bytes.iter().map(|b| format!("{:02X}", b)).collect();
    let lower: String = bytes.iter().map(|b| format!("{:02x}", b)).collect();
    let spaced: String = bytes.iter().map(|b| format!(" {:02x}\t", b)).collect::<String>() + "\r\n";
    let split_pairs = "0\n0a B7 f1\t0fF\rc9";
    assert_eq!(hex_to_bytes(&upper), Some(bytes.clone()));
    assert_eq!(hex_to_bytes(&lower), Some(bytes.clone()));
    assert_eq!(hex_to_bytes(&spaced), Some(bytes.clone()));
    assert_eq!(hex_to_bytes(split_pairs), Some(bytes));
}
