use bgfastnet_lib::decode::Scaled;
use bgfastnet_lib::map::{project, Conversion, Reading};
use bgfastnet_lib::n2k::{decode_frame_to_n2k, n2k_line, n2k_message, split_frames, N2kPayload};
use bgfastnet_lib::pgn_map::get_pgn_name;
use bgfastnet_lib::text::hex_to_bytes;
use bgfastnet_lib::{decode_frame, DecodedFrame, DecodedValue};

fn number(magnitude: u32, divisor: u32) -> Reading {
    Reading::Number(Conversion::Identity, Scaled { negative: false, magnitude, divisor })
}

fn entries(list: &[(&str, Reading)]) -> Vec<(String, Reading)> {
    list.iter().map(|(k, v)| (k.to_string(), v.clone())).collect()
}

#[test]
fn n2k_line_plain_format() {
    let data = 8.3f32.to_le_bytes();
    let mut bytes = data.to_vec();
    bytes.extend_from_slice(&[0, 0, 0, 0]);
    assert_eq!(
        n2k_line("2026-08-05T05:32:36.387Z", 128258, 0, &bytes),
        "2026-08-05T05:32:36.387Z,3,128258,0,CD,CC,04,41,00,00,00,00"
    );
}

#[test]
fn n2k_line_empty_data() {
    assert_eq!(n2k_line("T", 7, 255, &[]), "T,3,7,255,");
}

#[test]
fn split_frames_takes_whole_frames() {
    let bytes = hex_to_bytes("FF050401E74F6100509B FF5001C9E704FC FF05").unwrap();
    let (frames, rest) = split_frames(&bytes);
    assert_eq!(frames.len(), 2);
    assert_eq!(frames[0], hex_to_bytes("FF050401E74F6100509B").unwrap());
    assert_eq!(frames[1], hex_to_bytes("FF5001C9E704FC").unwrap());
    assert_eq!(rest, vec![0xFF, 0x05]);
    let mut joined: Vec<u8> = frames.concat();
    joined.extend_from_slice(&rest);
    assert_eq!(joined, bytes);
}

#[test]
fn split_frames_waits_for_short_frame() {
    let bytes = hex_to_bytes("FF050401E74F61").unwrap();
    let (frames, rest) = split_frames(&bytes);
    assert!(frames.is_empty());
    assert_eq!(rest, bytes);
}

#[test]
fn apparent_wind_speed_message() {
    let frame = hex_to_bytes("FF050401E74F6100509B").unwrap();
    let decoded = decode_frame(&frame).unwrap();
    let m = decode_frame_to_n2k(&decoded).unwrap();
    assert_eq!(m.pgn, 128258);
    assert_eq!(m.source, 0);
    match m.payload {
        N2kPayload::Singles(Some(Reading::Number(Conversion::Identity, x)), None) => {
            assert_eq!(x, Scaled { negative: false, magnitude: 80, divisor: 10 });
        }
        other => panic!("unexpected payload {:?}", other),
    }
    assert_eq!(get_pgn_name(m.pgn), Some("Apparent Wind Speed"));
}

#[test]
fn attitude_comes_first() {
    let sk = entries(&[
        ("environment.wind.speedApparent", number(80, 10)),
        ("navigation.attitude.pitch", number(3, 1)),
    ]);
    let m = n2k_message(&sk).unwrap();
    assert_eq!(m.pgn, 127240);
    assert!(matches!(m.payload, N2kPayload::Singles(None, Some(_))));
}

#[test]
fn heading_true_before_magnetic() {
    let sk = entries(&[
        ("navigation.headingMagnetic", number(1, 1)),
        ("navigation.headingTrue", number(2, 1)),
    ]);
    let m = n2k_message(&sk).unwrap();
    assert_eq!(m.pgn, 127250);
    match m.payload {
        N2kPayload::SingleMarked(Some(Reading::Number(_, x))) => assert_eq!(x.magnitude, 2),
        other => panic!("unexpected payload {:?}", other),
    }
}

#[test]
fn rudder_alone_gives_vessel_heading() {
    let sk = entries(&[("steering.rudderAngle", number(5, 1))]);
    let m = n2k_message(&sk).unwrap();
    assert_eq!(m.pgn, 127251);
    assert!(matches!(m.payload, N2kPayload::Singles(None, Some(_))));
}

#[test]
fn cog_sog_needs_both() {
    let only_sog = entries(&[("navigation.speedOverGround", number(5, 1))]);
    assert!(n2k_message(&only_sog).is_none());
    let both = entries(&[
        ("navigation.courseOverGroundTrue", number(90, 1)),
        ("navigation.speedOverGround", number(5, 1)),
    ]);
    let m = n2k_message(&both).unwrap();
    assert_eq!(m.pgn, 129291);
    match m.payload {
        N2kPayload::Singles(Some(Reading::Number(_, s)), Some(Reading::Number(_, c))) => {
            assert_eq!(s.magnitude, 5);
            assert_eq!(c.magnitude, 90);
        }
        other => panic!("unexpected payload {:?}", other),
    }
}

#[test]
fn nothing_mapped_gives_no_message() {
    let sk = entries(&[("bandg.wind.upwash", number(5, 1))]);
    assert!(n2k_message(&sk).is_none());
    assert!(n2k_message(&Vec::new()).is_none());
}

#[test]
fn position_gives_double() {
    let frame = DecodedFrame {
        to_address: "Entire System".to_string(),
        from_address: "Normal CPU (Wind Board in H2000)".to_string(),
        command: "LatLon".to_string(),
        values: vec![(
            "LatLon".to_string(),
            DecodedValue {
                channel_id: "0x03".to_string(),
                value: None,
                display_text: Some("3352.450S15113.920E".to_string()),
                layout: None,
            },
        )],
    };
    let sk = project(&frame);
    let m = n2k_message(&sk).unwrap();
    assert_eq!(m.pgn, 129025);
    match m.payload {
        N2kPayload::Double(Reading::Position(p)) => {
            assert!(p.lat_negative);
            assert_eq!(p.lat_degrees, 33);
            assert_eq!(p.lat_minutes, "52.450");
        }
        other => panic!("unexpected payload {:?}", other),
    }
}

#[test]
fn split_frames_same_for_any_chunking() {
    let bytes = hex_to_bytes("FF050401E74F6100509B FF5001C9E704FC FF050401E7B50150009B FF05").unwrap();
    let (all_frames, all_rest) = split_frames(&bytes);
    for cut in 0..=bytes.len() {
        let (mut frames, rest) = split_frames(&bytes[..cut]);
        let mut remaining = rest;
        remaining.extend_from_slice(&bytes[cut..]);
        let (more, rest2) = split_frames(&remaining);
        frames.extend(more);
        assert_eq!(frames, all_frames);
        assert_eq!(rest2, all_rest);
    }
}
