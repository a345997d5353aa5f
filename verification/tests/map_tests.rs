use bgfastnet_lib::decode::Scaled;
use bgfastnet_lib::map::{
    channel_map, parse_channel_id, parse_position, project, project_checked, standard_path_of,
    unit_for,
    Conversion, PositionFix, Reading,
};
use bgfastnet_lib::{DecodedFrame, DecodedValue};

fn num(magnitude: u32, divisor: u32) -> Option<Scaled> {
    Some(Scaled { negative: false, magnitude, divisor })
}

fn value(channel_id: &str, v: Option<Scaled>, text: &str, layout: Option<&str>) -> DecodedValue {
    DecodedValue {
        channel_id: channel_id.to_string(),
        value: v,
        display_text: Some(text.to_string()),
        layout: layout.map(|l| l.to_string()),
    }
}

fn frame(from: &str, values: Vec<(&str, DecodedValue)>) -> DecodedFrame {
    DecodedFrame {
        to_address: "Entire System".to_string(),
        from_address: from.to_string(),
        command: "Broadcast".to_string(),
        values: values.into_iter().map(|(k, v)| (k.to_string(), v)).collect(),
    }
}

fn contains_key(r: &[(String, Reading)], key: &str) -> bool {
    r.iter().any(|(k, _)| k == key)
}

fn get<'a>(r: &'a [(String, Reading)], key: &str) -> Option<&'a Reading> {
    r.iter().find(|(k, _)| k == key).map(|(_, v)| v)
}

fn scaled_f64(x: &Scaled) -> f64 {
    let v = x.magnitude as f64 / x.divisor as f64;
    if x.negative {
        -v
    } else {
        v
    }
}

fn si(c: Conversion, v: f64) -> f64 {
    match c {
        Conversion::Identity => v,
        Conversion::Knots => v * 0.514444,
        Conversion::NauticalMiles => v * 1852.0,
        Conversion::Degrees => v * (std::f64::consts::PI / 180.0),
        Conversion::Celsius => v + 273.15,
        Conversion::Hectopascals => v * 100.0,
        Conversion::Percent => v / 100.0,
        Conversion::Feet => v * 0.3048,
        Conversion::Fathoms => v * 1.8288,
    }
}

fn reading_f64(r: &Reading) -> f64 {
    match r {
        Reading::Number(c, x) => si(*c, scaled_f64(x)),
        Reading::Position(_) => f64::NAN,
    }
}

#[test]
fn test_project_basic() {
    let decoded_frame = frame(
        "Normal CPU (Wind Board in H2000)",
        vec![
            ("Apparent Wind Speed (m/s)", value("0x4F", num(38, 10), "3.8", None)),
            ("Apparent Wind Angle", value("0x51", num(450, 10), "45.0", None)),
        ],
    );
    let result = project(&decoded_frame);
    assert!(contains_key(&result, "environment.wind.speedApparent"));
    assert!(contains_key(&result, "environment.wind.angleApparent"));
}

#[test]
fn test_parse_position() {
    let result = parse_position("3352.450S15113.920E");
    assert!(result.is_some());
}

#[test]
fn test_unit_for() {
    assert_eq!(unit_for("navigation.speedThroughWater"), "m/s");
    assert_eq!(unit_for("environment.wind.angleApparent"), "rad");
}

#[test]
fn test_project_autopilot_state() {
    let decoded_frame = frame(
        "Pilot FFD (50)",
        vec![("Autopilot Mode", value("0xB5", num(20480, 1), "Standby", None))],
    );
    let result = project(&decoded_frame);
    assert!(contains_key(&result, "steering.autopilot.state"));
}

#[test]
fn test_project_twd_magnetic() {
    let decoded_frame = frame(
        "Normal CPU (Wind Board in H2000)",
        vec![("True Wind Direction", value("0x6D", num(1800, 10), "180.0°M", Some("°M")))],
    );
    let result = project(&decoded_frame);
    assert!(contains_key(&result, "environment.wind.directionMagnetic"));
    assert!(!contains_key(&result, "environment.wind.directionTrue"));
}

#[test]
fn test_project_twd_true() {
    let decoded_frame = frame(
        "Normal CPU (Wind Board in H2000)",
        vec![("True Wind Direction", value("0x6D", num(1800, 10), "180.0°T", Some("°T")))],
    );
    let result = project(&decoded_frame);
    assert!(contains_key(&result, "environment.wind.directionTrue"));
    assert!(!contains_key(&result, "environment.wind.directionMagnetic"));
}

#[test]
fn test_project_depth_fallback() {
    let decoded_frame = frame(
        "Normal CPU (Depth Board in H2000)",
        vec![
            ("Depth (Meters)", value("0xC1", num(73, 10), "7.3", None)),
            ("Depth (Feet)", value("0xC2", num(241, 10), "24.1", None)),
        ],
    );
    let result = project(&decoded_frame);
    assert!(contains_key(&result, "environment.depth.belowTransducer"));
    let depth = reading_f64(get(&result, "environment.depth.belowTransducer").unwrap());
    assert!((depth - 7.3).abs() < 0.001);
}

#[test]
fn test_project_vendor_paths() {
    let decoded_frame = frame(
        "Normal CPU (Wind Board in H2000)",
        vec![("Upwash", value("0x85", num(50, 10), "5.0", None))],
    );
    let result = project(&decoded_frame);
    assert!(contains_key(&result, "bandg.wind.upwash"));
}

#[test]
fn test_project_unknown_channel() {
    let decoded_frame = frame(
        "Normal CPU (Wind Board in H2000)",
        vec![("Linear 5", value("0x0C", num(123, 1), "123", None))],
    );
    let result = project(&decoded_frame);
    assert!(contains_key(&result, "bandg.unknown.0x0C"));
}

#[test]
fn project_depth_from_feet_when_no_meters() {
    let decoded_frame = frame(
        "Normal CPU (Depth Board in H2000)",
        vec![("Depth (Feet)", value("0xC2", num(241, 10), "24.1", None))],
    );
    let result = project(&decoded_frame);
    let depth = reading_f64(get(&result, "environment.depth.belowTransducer").unwrap());
    assert!((depth - 24.1 * 0.3048).abs() < 1e-9);
}

#[test]
fn project_converts_degrees_and_keeps_exact_value() {
    let decoded_frame = frame(
        "Normal CPU (Wind Board in H2000)",
        vec![("Apparent Wind Angle", value("0x51", num(450, 10), "45.0", None))],
    );
    let result = project(&decoded_frame);
    match get(&result, "environment.wind.angleApparent").unwrap() {
        Reading::Number(c, x) => {
            assert_eq!(*c, Conversion::Degrees);
            assert_eq!(*x, Scaled { negative: false, magnitude: 450, divisor: 10 });
        }
        Reading::Position(_) => panic!("expected a number"),
    }
}

#[test]
fn project_drops_and_collapses() {
    let decoded_frame = frame(
        "Normal CPU (Wind Board in H2000)",
        vec![
            ("Dropped", value("0x00", num(1, 1), "1", None)),
            ("Collapsed", value("0x4D", num(2, 1), "2", None)),
        ],
    );
    assert!(project(&decoded_frame).is_empty());
}

#[test]
fn project_autopilot_standby_is_zero() {
    let decoded_frame = frame(
        "Pilot FFD (50)",
        vec![("Autopilot Mode", value("0xB5", num(20480, 1), "Standby", None))],
    );
    let result = project(&decoded_frame);
    assert_eq!(reading_f64(get(&result, "steering.autopilot.state").unwrap()), 0.0);
}

#[test]
fn project_latlon_position() {
    let decoded_frame = DecodedFrame {
        to_address: "Entire System".to_string(),
        from_address: "Normal CPU (Wind Board in H2000)".to_string(),
        command: "LatLon".to_string(),
        values: vec![(
            "LatLon".to_string(),
            DecodedValue {
                channel_id: "0x03".to_string(),
                value: None,
                display_text: Some("3352.450S15113.920E".to_string()),
                layout: None,
            },
        )],
    };
    let result = project(&decoded_frame);
    assert_eq!(result.len(), 1);
    assert_eq!(result[0].0, "navigation.position");
    assert!(matches!(result[0].1, Reading::Position(_)));
    assert!(project_checked(&decoded_frame).is_some());
}

#[test]
fn project_checked_refuses_unreadable_position() {
    // The latitude part starts with a two-byte character, so its two
    // degree bytes end inside a character.
    let decoded_frame = DecodedFrame {
        to_address: "Entire System".to_string(),
        from_address: "Normal CPU (Wind Board in H2000)".to_string(),
        command: "LatLon".to_string(),
        values: vec![(
            "LatLon".to_string(),
            DecodedValue {
                channel_id: "0x03".to_string(),
                value: None,
                display_text: Some("0é52.450S15113.920E".to_string()),
                layout: None,
            },
        )],
    };
    assert!(project_checked(&decoded_frame).is_none());
}

#[test]
fn parse_position_fields() {
    let p: PositionFix = parse_position("3352.450S15113.920E").unwrap();
    assert_eq!(p.lat_degrees, 33);
    assert_eq!(p.lat_minutes, "52.450");
    assert!(p.lat_negative);
    assert_eq!(p.lon_degrees, 151);
    assert_eq!(p.lon_minutes, "13.920");
    assert!(!p.lon_negative);
}

#[test]
fn parse_position_west_longitude() {
    let p = parse_position("  3352.450N15113.920W ").unwrap();
    assert!(p.lon_negative);
    assert!(!p.lat_negative);
    let q = parse_position("3352.450S15113.920W").unwrap();
    assert!(q.lat_negative);
    assert!(q.lon_negative);
}

#[test]
fn parse_position_without_letters() {
    assert!(parse_position("3352.45015113.920").is_none());
    assert!(parse_position("").is_none());
    assert!(parse_position("33x2.450S15113.920E").is_none());
}

#[test]
fn parse_channel_id_reads_hex() {
    assert_eq!(parse_channel_id("0x4F"), Some(0x4F));
    assert_eq!(parse_channel_id("0X4f"), Some(0x4F));
    assert_eq!(parse_channel_id("4F"), None);
    assert_eq!(parse_channel_id("0x1FF"), None);
    for c in [0u8, 0x0C, 0x4F, 0xA0, 0xFF] {
        assert_eq!(parse_channel_id(&format!("0x{:02X}", c)), Some(c));
    }
}

#[test]
fn unit_for_unknown_path() {
    assert_eq!(unit_for("bandg.wind.upwash"), "");
    assert_eq!(unit_for("environment.outside.pressure"), "Pa");
    assert_eq!(unit_for("steering.autopilot.state"), "enum");
}

#[test]
fn channel_map_dispositions() {
    let map = channel_map();
    assert!(!map.is_empty());
    let heel = map.iter().find(|c| c.name == "Heel Angle").unwrap();
    assert_eq!(heel.path, "navigation.attitude.roll");
    assert_eq!(heel.unit, "rad");
    assert_eq!(heel.kind, "standard");
    let twd = map.iter().find(|c| c.name == "True Wind Direction").unwrap();
    assert_eq!(twd.path, "environment.wind.direction{Magnetic,True}");
    assert_eq!(twd.kind, "routed(M/T)");
    let unknown = map.iter().find(|c| c.name == "Linear 5").unwrap();
    assert_eq!(unknown.path, "bandg.unknown.0x0C");
    assert_eq!(unknown.kind, "unknown");
    let depth = map.iter().find(|c| c.name == "Depth (Feet)").unwrap();
    assert_eq!(depth.kind, "standard(depth fallback)");
}

#[test]
fn standard_paths_convert_to_their_units() {
    let mut checked = 0;
    for cid in 0u8..=255 {
        if let Some((path, c)) = standard_path_of(cid) {
            let expected = match c {
                Conversion::Identity => continue,
                Conversion::Knots => "m/s",
                Conversion::NauticalMiles => "m",
                Conversion::Degrees => "rad",
                Conversion::Celsius => "K",
                Conversion::Hectopascals => "Pa",
                Conversion::Percent => "ratio",
                Conversion::Feet | Conversion::Fathoms => "m",
            };
            assert_eq!(unit_for(path), expected, "{}", path);
            checked += 1;
        }
    }
    assert!(checked > 30);
}

fn fix_degrees(minutes: &str, degrees: u32, negative: bool) -> f64 {
    let v = degrees as f64 + minutes.parse::<f64>().unwrap() / 60.0;
    if negative {
        -v
    } else {
        v
    }
}

#[test]
fn parse_position_south_latitude_is_negative() {
    let p = parse_position("3352.450S15113.920E").unwrap();
    let lat = fix_degrees(&p.lat_minutes, p.lat_degrees, p.lat_negative);
    let lon = fix_degrees(&p.lon_minutes, p.lon_degrees, p.lon_negative);
    let packed = lat + lon / 1000.0;
    let expected = -(33.0 + 52.450 / 60.0) + (151.0 + 13.920 / 60.0) / 1000.0;
    assert!((packed - expected).abs() < 1e-12);
    assert!((lat - (-(33.0 + 52.450 / 60.0))).abs() < 1e-12);
}

#[test]
fn single_channel_lands_on_channel_map_path() {
    for info in channel_map() {
        if info.kind == "routed(M/T)" || info.path == "steering.autopilot.state" {
            continue;
        }
        let cid = bgfastnet_lib::constants::named_channel_ids()
            .into_iter()
            .find(|c| bgfastnet_lib::constants::channel_name_of(*c) == Some(info.name.as_str()))
            .unwrap();
        let f = frame(
            "Entire System",
            vec![(info.name.as_str(), value(&format!("0x{:02X}", cid), num(12, 1), "12", None))],
        );
        let out = project(&f);
        if info.kind == "drop" || info.kind == "collapsed" {
            assert!(out.is_empty());
        } else {
            assert_eq!(out.len(), 1);
            assert_eq!(out[0].0, info.path);
        }
    }
}

#[test]
fn parse_position_west_only_when_letter_ends_text() {
    let p = parse_position("3352.450N15113.920Wx").unwrap();
    assert!(!p.lon_negative);
    assert_eq!(p.lon_degrees, 151);
    let q = parse_position("3352.450N15113.920W").unwrap();
    assert!(q.lon_negative);
}

#[test]
fn parse_channel_id_any_case_round_trip() {
    for b in 0u8..=255 {
        assert_eq!(parse_channel_id(&format!("0x{:02X}", b)), Some(b));
        assert_eq!(parse_channel_id(&format!("0X{:02x}", b)), Some(b));
    }
    assert_eq!(parse_channel_id("x4F"), None);
    assert_eq!(parse_channel_id("0y4F"), None);
    assert_eq!(parse_channel_id("0xG1"), None);
    assert_eq!(parse_channel_id("0x"), None);
}
