use bgfastnet_lib::decode::{decode_format_and_data, DecodeError, Scaled};
use bgfastnet_lib::{decode_ascii_frame, decode_frame, decode_light_frame, DecodedValue};

fn bytes_from_hex(hex: &str) -> Vec<u8> {
    let hex = hex.replace([' ', '\n', '\t'], "");
    (0..hex.len())
        .step_by(2)
        .map(|i| u8::from_str_radix(&hex[i..i + 2], 16).unwrap())
        .collect()
}

fn as_f64(x: Scaled) -> f64 {
    let v = x.magnitude as f64 / x.divisor as f64;
    if x.negative {
        -v
    } else {
        v
    }
}

fn value_of(values: &[(String, DecodedValue)], name: &str) -> DecodedValue {
    values.iter().find(|(k, _)| k == name).unwrap().1.clone()
}

#[test]
fn test_decode_frame_basic() {
    let frame = bytes_from_hex("FF050601E74F10002600009B");
    let result = decode_frame(&frame);
    assert!(result.is_ok());
    let decoded = result.unwrap();
    assert_eq!(decoded.to_address, "Entire System");
    assert_eq!(decoded.from_address, "Normal CPU (Wind Board in H2000)");
    assert_eq!(decoded.command, "Broadcast");
}

#[test]
fn test_decode_ascii_frame() {
    let frame = bytes_from_hex("FF050E03034700333335322E3435305331353131332E393230459B");
    let result = decode_ascii_frame(&frame);
    assert!(result.is_ok());
    let decoded = result.unwrap();
    assert_eq!(decoded.command, "LatLon");
}

#[test]
fn test_decode_light_frame() {
    let frame = bytes_from_hex("FF5001C9E704FC");
    let result = decode_light_frame(&frame);
    assert!(result.is_ok());
    let decoded = result.unwrap();
    assert_eq!(decoded.command, "Light Intensity");
}

#[test]
fn test_decode_apparent_wind_speed() {
    let frame = bytes_from_hex("FF050401E74F6100509B");
    let decoded = decode_frame(&frame).unwrap();
    let aws = value_of(&decoded.values, "Apparent Wind Speed (m/s)");
    assert_eq!(aws.value.map(as_f64), Some(8.0));
}

#[test]
fn test_decode_heel_angle() {
    let frame = bytes_from_hex("FF050601E7344700F300CC9B");
    let decoded = decode_frame(&frame).unwrap();
    let heel = value_of(&decoded.values, "Heel Angle");
    assert_eq!(heel.value.map(as_f64), Some(-20.4));
    assert_eq!(heel.layout, Some("H[data]".to_string()));
}

#[test]
fn test_decode_autopilot_mode() {
    let frame = bytes_from_hex("FF050401E7B50150009B");
    let decoded = decode_frame(&frame).unwrap();
    let ap_mode = value_of(&decoded.values, "Autopilot Mode");
    assert_eq!(ap_mode.value.map(as_f64), Some(20480.0));
}

#[test]
fn heel_angle_exact_value_and_text() {
    let frame = bytes_from_hex("FF050601E7344700F300CC9B");
    let decoded = decode_frame(&frame).unwrap();
    let heel = value_of(&decoded.values, "Heel Angle");
    assert_eq!(heel.channel_id, "0x34");
    assert_eq!(heel.value, Some(Scaled { negative: true, magnitude: 204, divisor: 10 }));
    assert_eq!(heel.display_text, Some("H20.4".to_string()));
}

#[test]
fn apparent_wind_speed_exact_value() {
    let frame = bytes_from_hex("FF050401E74F6100509B");
    let decoded = decode_frame(&frame).unwrap();
    assert_eq!(decoded.values.len(), 1);
    let aws = value_of(&decoded.values, "Apparent Wind Speed (m/s)");
    assert_eq!(aws.channel_id, "0x4F");
    assert_eq!(aws.value, Some(Scaled { negative: false, magnitude: 80, divisor: 10 }));
}

#[test]
fn decode_frame_too_short() {
    assert_eq!(decode_frame(&[0xFF, 0x05, 0x00, 0x01, 0xFB]).err(), Some(DecodeError::FrameTooShort));
}

#[test]
fn decode_frame_wrong_body_size() {
    let frame = bytes_from_hex("FF050801E74F6100509B");
    match decode_frame(&frame) {
        Err(DecodeError::InvalidBodySize { expected, actual }) => {
            assert_eq!(expected, 8);
            assert_eq!(actual, 4);
        }
        other => panic!("unexpected {:?}", other.err()),
    }
    assert_eq!(
        DecodeError::InvalidBodySize { expected: 8, actual: 4 }.message(),
        "Invalid body size: expected=8, actual=4"
    );
}

#[test]
fn decode_frame_incomplete_channel() {
    // One channel record announcing two data bytes with only one present.
    let frame = bytes_from_hex("FF050301E74F61009B");
    assert_eq!(decode_frame(&frame).err(), Some(DecodeError::IncompleteChannelData(0x4F)));
    assert_eq!(DecodeError::IncompleteChannelData(0x4F).message(), "Incomplete data for channel 0x4F");
}

#[test]
fn decode_frame_insufficient_channel_header() {
    // Five body bytes: one whole record, then a lone channel byte.
    let frame = bytes_from_hex("FF050501E74F610050519B");
    assert_eq!(decode_frame(&frame).err(), Some(DecodeError::InsufficientChannelHeader));
}

#[test]
fn decode_light_frame_empty_body() {
    assert_eq!(decode_light_frame(&[0xFF, 0x50, 0x00, 0xC9, 0xE8, 0x00]).err(), Some(DecodeError::EmptyBody));
}

#[test]
fn decode_light_frame_level() {
    let frame = bytes_from_hex("FF5001C9E704FC");
    let decoded = decode_light_frame(&frame).unwrap();
    assert_eq!(decoded.values.len(), 1);
    let v = &decoded.values[0].1;
    assert_eq!(v.display_text, Some("High".to_string()));
}

#[test]
fn decode_ascii_frame_text() {
    let frame = bytes_from_hex("FF050E03034700333335322E3435305331353131332E393230459B");
    let decoded = decode_ascii_frame(&frame).unwrap();
    let texts: Vec<String> = decoded.values.iter().filter_map(|(_, v)| v.display_text.clone()).collect();
    assert!(texts.iter().any(|t| t.contains("3352.450S15113.920E")));
}

#[test]
fn decode_ascii_frame_invalid_utf8() {
    // Body: two header bytes and 0xFF, 0xFE, which are not UTF-8.
    let body = [0x03, 0x47, 0xFF, 0xFE];
    let mut frame = vec![0xFF, 0x05, body.len() as u8, 0x03];
    frame.push(bgfastnet_lib::calculate_checksum(&frame));
    frame.extend_from_slice(&body);
    frame.push(bgfastnet_lib::calculate_checksum(&body));
    assert_eq!(decode_ascii_frame(&frame).err(), Some(DecodeError::AsciiDecodeFailed));
}

#[test]
fn format_and_data_unsigned() {
    let v = decode_format_and_data(0x4F, 0x61, &[0x00, 0x50]);
    assert_eq!(v.value, Some(Scaled { negative: false, magnitude: 80, divisor: 10 }));
    assert_eq!(v.channel_id, "0x4F");
}

#[test]
fn repeated_channel_keeps_one_entry_with_last_value() {
    // Two records of channel 0x4F: 8.0 then 9.6.
    let frame = bytes_from_hex("FF050801E74F6100504F6100609B");
    let decoded = decode_frame(&frame).unwrap();
    assert_eq!(decoded.values.len(), 1);
    let aws = value_of(&decoded.values, "Apparent Wind Speed (m/s)");
    assert_eq!(aws.value, Some(Scaled { negative: false, magnitude: 96, divisor: 10 }));
}
