//! Projection of decoded channel values onto Signal K paths.
use vstd::prelude::*;
use vstd::string::*;

use crate::constants::{
    autopilot_mode_of, channel_name, channel_name_of, named_channel_ids, named_channels,
};
use crate::decode::{
    decode_ascii_frame_spec, channel_id_text, entries_view, keys_unique, last_index, lemma_upsert_keeps_keys_unique, upsert, upsert_entry, DecodedFrame, DecodedFrameView, DecodedValue,
    DecodedValueView, Scaled,
};
use crate::text::{
    all_hex, chars_of, float_syntax, hex2, hex_digit_value, hex_pairs_of, hex_value, is_float_text,
    is_hex_digit, lemma_hex2_reads_back, parse_dec_u32, parse_hex_u8,
    parse_hex_u8_in,
    parse_short_u32, push_hex_byte, sub_chars, text_eq, trim, trim_text, utf8_width,
};

verus! {

/// The conversion of a decoded number to SI units (the arithmetic itself is
/// done in floating point by the caller).
#[derive(Clone, Copy, Debug, PartialEq, Eq, Structural)]
pub enum Conversion {
    /// Unchanged.
    Identity,
    /// Knots to metres per second: times 0.514444.
    Knots,
    /// Nautical miles to metres: times 1852.
    NauticalMiles,
    /// Degrees to radians: times π/180.
    Degrees,
    /// Degrees Celsius to kelvin: plus 273.15.
    Celsius,
    /// Hectopascals to pascals: times 100.
    Hectopascals,
    /// Percent to a ratio: divided by 100.
    Percent,
    /// Feet to metres: times 0.3048.
    Feet,
    /// Fathoms to metres: times 1.8288.
    Fathoms,
}

/// The channels whose values are not projected.
pub open spec fn is_dropped(cid: u8) -> bool {
    cid == 0x00 || cid == 0x50 || cid == 0x68 || cid == 0x6A || cid == 0x36 || cid == 0x37
        || cid == 0xC9
}

/// The channels that repeat another channel in other units and are not projected.
pub open spec fn is_collapsed(cid: u8) -> bool {
    cid == 0x1C || cid == 0x1E || cid == 0x4D || cid == 0x55 || cid == 0x65
}

/// The path that a collapsed channel repeats.
pub open spec fn collapsed_target(cid: u8) -> Seq<char> {
    if cid == 0x1C {
        "environment.outside.temperature"@
    } else if cid == 0x1E {
        "environment.water.temperature"@
    } else if cid == 0x4D {
        "environment.wind.speedApparent"@
    } else if cid == 0x55 {
        "environment.wind.speedTrue"@
    } else {
        "bandg.navigation.speedThroughWaterAverage"@
    }
}

/// Whether a channel is one of the three depth channels (metres, feet, fathoms).
pub open spec fn is_depth(cid: u8) -> bool {
    cid == 0xC1 || cid == 0xC2 || cid == 0xC3
}

/// The channel carrying the autopilot mode word.
pub open spec fn is_autopilot(cid: u8) -> bool {
    cid == 0xB5
}

/// The path under which depth is projected.
pub open spec fn depth_path() -> Seq<char> {
    "environment.depth.belowTransducer"@
}

/// The path under which the autopilot state is projected.
pub open spec fn autopilot_path() -> Seq<char> {
    "steering.autopilot.state"@
}

/// The path under which a position is projected.
pub open spec fn position_path() -> Seq<char> {
    "navigation.position"@
}

/// The path stem of a channel that is projected under a magnetic or a true
/// path depending on its layout symbol (`stem` + `Magnetic` or `stem` + `True`).
/// All of them are angles in degrees.
pub open spec fn routed_stem(cid: u8) -> Option<Seq<char>> {
    match cid {
        0x49 => Some("navigation.heading"@),
        0x6D => Some("environment.wind.direction"@),
        0x84 => Some("environment.current.set"@),
        _ => None,
    }
}

/// Looks up the path stem of a routed channel.
pub fn routed_stem_of(cid: u8) -> (r: Option<&'static str>)
    ensures
        crate::constants::opt_text(r) == routed_stem(cid),
{
    match cid {
        0x49 => Some("navigation.heading"),
        0x6D => Some("environment.wind.direction"),
        0x84 => Some("environment.current.set"),
        _ => None,
    }
}

/// The standard Signal K path of a channel and the conversion of its value.
pub open spec fn standard_path(cid: u8) -> Option<(Seq<char>, Conversion)> {
    match cid {
        0x41 => Some(("navigation.speedThroughWater"@, Conversion::Knots)),
        0xEB => Some(("navigation.speedOverGround"@, Conversion::Knots)),
        0xE9 => Some(("navigation.courseOverGroundTrue"@, Conversion::Degrees)),
        0xEA => Some(("navigation.courseOverGroundMagnetic"@, Conversion::Degrees)),
        0x44 => Some(("navigation.rateOfTurn"@, Conversion::Degrees)),
        0x34 => Some(("navigation.attitude.roll"@, Conversion::Degrees)),
        0x9B => Some(("navigation.attitude.pitch"@, Conversion::Degrees)),
        0x82 => Some(("navigation.leewayAngle"@, Conversion::Degrees)),
        0xCD => Some(("navigation.log"@, Conversion::NauticalMiles)),
        0xCF => Some(("navigation.trip.log"@, Conversion::NauticalMiles)),
        0xE7 => Some(("navigation.courseRhumbline.nextPoint.distance"@, Conversion::NauticalMiles)),
        0xE8 => Some(
            ("navigation.courseGreatCircle.nextPoint.distance"@, Conversion::NauticalMiles),
        ),
        0xFA => Some(
            ("navigation.courseGreatCircle.nextPoint.distance"@, Conversion::NauticalMiles),
        ),
        0xE3 => Some(("navigation.courseRhumbline.nextPoint.bearingTrue"@, Conversion::Degrees)),
        0xE4 => Some(
            ("navigation.courseRhumbline.nextPoint.bearingMagnetic"@, Conversion::Degrees),
        ),
        0xE5 => Some(
            ("navigation.courseGreatCircle.nextPoint.bearingTrue"@, Conversion::Degrees),
        ),
        0xE6 => Some(
            ("navigation.courseGreatCircle.nextPoint.bearingMagnetic"@, Conversion::Degrees),
        ),
        0xE0 => Some(("navigation.courseGreatCircle.bearingTrackTrue"@, Conversion::Degrees)),
        0xE1 => Some(
            ("navigation.courseGreatCircle.bearingTrackMagnetic"@, Conversion::Degrees),
        ),
        0xEC => Some(
            ("navigation.courseGreatCircle.nextPoint.velocityMadeGood"@, Conversion::Knots),
        ),
        0xED => Some(("navigation.courseGreatCircle.nextPoint.timeToGo"@, Conversion::Identity)),
        0xEE => Some(("navigation.courseGreatCircle.crossTrackError"@, Conversion::NauticalMiles)),
        0xE2 => Some(("navigation.racing.layline.distance"@, Conversion::NauticalMiles)),
        0xFB => Some(("navigation.racing.layline.time"@, Conversion::Identity)),
        0x1F => Some(("environment.water.temperature"@, Conversion::Celsius)),
        0x1D => Some(("environment.outside.temperature"@, Conversion::Celsius)),
        0x87 => Some(("environment.outside.pressure"@, Conversion::Hectopascals)),
        0x4F => Some(("environment.wind.speedApparent"@, Conversion::Identity)),
        0x51 => Some(("environment.wind.angleApparent"@, Conversion::Degrees)),
        0x56 => Some(("environment.wind.speedTrue"@, Conversion::Identity)),
        0x59 => Some(("environment.wind.angleTrueWater"@, Conversion::Degrees)),
        0x83 => Some(("environment.current.drift"@, Conversion::Knots)),
        0x0B => Some(("steering.rudderAngle"@, Conversion::Degrees)),
        0xA6 => Some(("steering.autopilot.target.headingMagnetic"@, Conversion::Degrees)),
        0x7F => Some(("performance.velocityMadeGood"@, Conversion::Knots)),
        0x7D => Some(("performance.targetSpeed"@, Conversion::Knots)),
        0x53 => Some(("performance.targetAngle"@, Conversion::Degrees)),
        0x7C => Some(("performance.polarSpeedRatio"@, Conversion::Percent)),
        0x9A => Some(("performance.tackMagnetic"@, Conversion::Degrees)),
        0x8D => Some(("electrical.batteries.house.voltage"@, Conversion::Identity)),
        _ => None,
    }
}

/// The view of an optional table path.
pub open spec fn opt_path(r: Option<(&'static str, Conversion)>) -> Option<(Seq<char>, Conversion)> {
    match r {
        Some((p, c)) => Some((p@, c)),
        None => None,
    }
}

/// Looks up the standard path of a channel.
pub fn standard_path_of(cid: u8) -> (r: Option<(&'static str, Conversion)>)
    ensures
        opt_path(r) == standard_path(cid),
{
    match cid {
        0x41 => Some(("navigation.speedThroughWater", Conversion::Knots)),
        0xEB => Some(("navigation.speedOverGround", Conversion::Knots)),
        0xE9 => Some(("navigation.courseOverGroundTrue", Conversion::Degrees)),
        0xEA => Some(("navigation.courseOverGroundMagnetic", Conversion::Degrees)),
        0x44 => Some(("navigation.rateOfTurn", Conversion::Degrees)),
        0x34 => Some(("navigation.attitude.roll", Conversion::Degrees)),
        0x9B => Some(("navigation.attitude.pitch", Conversion::Degrees)),
        0x82 => Some(("navigation.leewayAngle", Conversion::Degrees)),
        0xCD => Some(("navigation.log", Conversion::NauticalMiles)),
        0xCF => Some(("navigation.trip.log", Conversion::NauticalMiles)),
        0xE7 => Some(("navigation.courseRhumbline.nextPoint.distance", Conversion::NauticalMiles)),
        0xE8 => Some(
            ("navigation.courseGreatCircle.nextPoint.distance", Conversion::NauticalMiles),
        ),
        0xFA => Some(
            ("navigation.courseGreatCircle.nextPoint.distance", Conversion::NauticalMiles),
        ),
        0xE3 => Some(("navigation.courseRhumbline.nextPoint.bearingTrue", Conversion::Degrees)),
        0xE4 => Some(("navigation.courseRhumbline.nextPoint.bearingMagnetic", Conversion::Degrees)),
        0xE5 => Some(("navigation.courseGreatCircle.nextPoint.bearingTrue", Conversion::Degrees)),
        0xE6 => Some(
            ("navigation.courseGreatCircle.nextPoint.bearingMagnetic", Conversion::Degrees),
        ),
        0xE0 => Some(("navigation.courseGreatCircle.bearingTrackTrue", Conversion::Degrees)),
        0xE1 => Some(("navigation.courseGreatCircle.bearingTrackMagnetic", Conversion::Degrees)),
        0xEC => Some(
            ("navigation.courseGreatCircle.nextPoint.velocityMadeGood", Conversion::Knots),
        ),
        0xED => Some(("navigation.courseGreatCircle.nextPoint.timeToGo", Conversion::Identity)),
        0xEE => Some(("navigation.courseGreatCircle.crossTrackError", Conversion::NauticalMiles)),
        0xE2 => Some(("navigation.racing.layline.distance", Conversion::NauticalMiles)),
        0xFB => Some(("navigation.racing.layline.time", Conversion::Identity)),
        0x1F => Some(("environment.water.temperature", Conversion::Celsius)),
        0x1D => Some(("environment.outside.temperature", Conversion::Celsius)),
        0x87 => Some(("environment.outside.pressure", Conversion::Hectopascals)),
        0x4F => Some(("environment.wind.speedApparent", Conversion::Identity)),
        0x51 => Some(("environment.wind.angleApparent", Conversion::Degrees)),
        0x56 => Some(("environment.wind.speedTrue", Conversion::Identity)),
        0x59 => Some(("environment.wind.angleTrueWater", Conversion::Degrees)),
        0x83 => Some(("environment.current.drift", Conversion::Knots)),
        0x0B => Some(("steering.rudderAngle", Conversion::Degrees)),
        0xA6 => Some(("steering.autopilot.target.headingMagnetic", Conversion::Degrees)),
        0x7F => Some(("performance.velocityMadeGood", Conversion::Knots)),
        0x7D => Some(("performance.targetSpeed", Conversion::Knots)),
        0x53 => Some(("performance.targetAngle", Conversion::Degrees)),
        0x7C => Some(("performance.polarSpeedRatio", Conversion::Percent)),
        0x9A => Some(("performance.tackMagnetic", Conversion::Degrees)),
        0x8D => Some(("electrical.batteries.house.voltage", Conversion::Identity)),
        _ => None,
    }
}

/// The vendor (`bandg.*`) path of a channel and the conversion of its value.
pub open spec fn vendor_path(cid: u8) -> Option<(Seq<char>, Conversion)> {
    match cid {
        0x57 => Some(("bandg.wind.measuredSpeed"@, Conversion::Knots)),
        0x5A => Some(("bandg.wind.measuredAngle"@, Conversion::Degrees)),
        0x85 => Some(("bandg.wind.upwash"@, Conversion::Degrees)),
        0x4E => Some(("bandg.wind.rawSpeedApparent"@, Conversion::Identity)),
        0x52 => Some(("bandg.wind.rawAngleApparent"@, Conversion::Identity)),
        0x42 => Some(("bandg.navigation.rawSpeedThroughWater"@, Conversion::Identity)),
        0x4A => Some(("bandg.navigation.rawHeading"@, Conversion::Identity)),
        0x9C => Some(("bandg.mast.rotation"@, Conversion::Degrees)),
        0x9D => Some(("bandg.mast.windAngle"@, Conversion::Degrees)),
        0x27 => Some(("bandg.performance.headLiftTrend"@, Conversion::Identity)),
        0x32 => Some(("bandg.performance.tacking"@, Conversion::Percent)),
        0x33 => Some(("bandg.performance.reaching"@, Conversion::Percent)),
        0xF9 => Some(("bandg.performance.courseToSail"@, Conversion::Degrees)),
        0x35 => Some(("bandg.performance.optimumWindAngle"@, Conversion::Degrees)),
        0x6F => Some(("bandg.performance.nextLeg.angleApparent"@, Conversion::Degrees)),
        0x71 => Some(("bandg.performance.nextLeg.speedApparent"@, Conversion::Knots)),
        0x70 => Some(("bandg.performance.nextLeg.targetSpeed"@, Conversion::Knots)),
        0x64 => Some(("bandg.navigation.speedThroughWaterAverage"@, Conversion::Knots)),
        0x69 => Some(("bandg.navigation.courseThroughWater"@, Conversion::Degrees)),
        0x81 => Some(("bandg.navigation.deadReckoning.distance"@, Conversion::NauticalMiles)),
        0xD3 => Some(("bandg.navigation.deadReckoning.course"@, Conversion::Degrees)),
        0x3C => Some(("bandg.motion.rate"@, Conversion::Identity)),
        0x9E => Some(("bandg.motion.pitchRate"@, Conversion::Degrees)),
        0x29 => Some(("bandg.steering.offCourse"@, Conversion::Degrees)),
        0xAF => Some(("bandg.steering.autopilot.offCourse"@, Conversion::Degrees)),
        0x46 => Some(("bandg.steering.autopilot.fixedSpeed"@, Conversion::Knots)),
        0x86 => Some(("bandg.environment.pressureTrend"@, Conversion::Identity)),
        0xDC => Some(("bandg.time.local"@, Conversion::Identity)),
        0x75 => Some(("bandg.time.timer"@, Conversion::Identity)),
        _ => None,
    }
}

/// Looks up the vendor path of a channel.
pub fn vendor_path_of(cid: u8) -> (r: Option<(&'static str, Conversion)>)
    ensures
        opt_path(r) == vendor_path(cid),
{
    match cid {
        0x57 => Some(("bandg.wind.measuredSpeed", Conversion::Knots)),
        0x5A => Some(("bandg.wind.measuredAngle", Conversion::Degrees)),
        0x85 => Some(("bandg.wind.upwash", Conversion::Degrees)),
        0x4E => Some(("bandg.wind.rawSpeedApparent", Conversion::Identity)),
        0x52 => Some(("bandg.wind.rawAngleApparent", Conversion::Identity)),
        0x42 => Some(("bandg.navigation.rawSpeedThroughWater", Conversion::Identity)),
        0x4A => Some(("bandg.navigation.rawHeading", Conversion::Identity)),
        0x9C => Some(("bandg.mast.rotation", Conversion::Degrees)),
        0x9D => Some(("bandg.mast.windAngle", Conversion::Degrees)),
        0x27 => Some(("bandg.performance.headLiftTrend", Conversion::Identity)),
        0x32 => Some(("bandg.performance.tacking", Conversion::Percent)),
        0x33 => Some(("bandg.performance.reaching", Conversion::Percent)),
        0xF9 => Some(("bandg.performance.courseToSail", Conversion::Degrees)),
        0x35 => Some(("bandg.performance.optimumWindAngle", Conversion::Degrees)),
        0x6F => Some(("bandg.performance.nextLeg.angleApparent", Conversion::Degrees)),
        0x71 => Some(("bandg.performance.nextLeg.speedApparent", Conversion::Knots)),
        0x70 => Some(("bandg.performance.nextLeg.targetSpeed", Conversion::Knots)),
        0x64 => Some(("bandg.navigation.speedThroughWaterAverage", Conversion::Knots)),
        0x69 => Some(("bandg.navigation.courseThroughWater", Conversion::Degrees)),
        0x81 => Some(("bandg.navigation.deadReckoning.distance", Conversion::NauticalMiles)),
        0xD3 => Some(("bandg.navigation.deadReckoning.course", Conversion::Degrees)),
        0x3C => Some(("bandg.motion.rate", Conversion::Identity)),
        0x9E => Some(("bandg.motion.pitchRate", Conversion::Degrees)),
        0x29 => Some(("bandg.steering.offCourse", Conversion::Degrees)),
        0xAF => Some(("bandg.steering.autopilot.offCourse", Conversion::Degrees)),
        0x46 => Some(("bandg.steering.autopilot.fixedSpeed", Conversion::Knots)),
        0x86 => Some(("bandg.environment.pressureTrend", Conversion::Identity)),
        0xDC => Some(("bandg.time.local", Conversion::Identity)),
        0x75 => Some(("bandg.time.timer", Conversion::Identity)),
        _ => None,
    }
}

/// The unit of a Signal K path, empty for paths without a known unit.
pub open spec fn unit_of(path: Seq<char>) -> Seq<char> {
    if path == "navigation.speedThroughWater"@ {
        "m/s"@
    } else if path == "navigation.speedOverGround"@ {
        "m/s"@
    } else if path == "navigation.courseOverGroundTrue"@ {
        "rad"@
    } else if path == "navigation.courseOverGroundMagnetic"@ {
        "rad"@
    } else if path == "navigation.rateOfTurn"@ {
        "rad"@
    } else if path == "navigation.attitude.roll"@ {
        "rad"@
    } else if path == "navigation.attitude.pitch"@ {
        "rad"@
    } else if path == "navigation.leewayAngle"@ {
        "rad"@
    } else if path == "navigation.log"@ {
        "m"@
    } else if path == "navigation.trip.log"@ {
        "m"@
    } else if path == "navigation.courseRhumbline.nextPoint.distance"@ {
        "m"@
    } else if path == "navigation.courseGreatCircle.nextPoint.distance"@ {
        "m"@
    } else if path == "navigation.courseRhumbline.nextPoint.bearingTrue"@ {
        "rad"@
    } else if path == "navigation.courseRhumbline.nextPoint.bearingMagnetic"@ {
        "rad"@
    } else if path == "navigation.courseGreatCircle.nextPoint.bearingTrue"@ {
        "rad"@
    } else if path == "navigation.courseGreatCircle.nextPoint.bearingMagnetic"@ {
        "rad"@
    } else if path == "navigation.courseGreatCircle.bearingTrackTrue"@ {
        "rad"@
    } else if path == "navigation.courseGreatCircle.bearingTrackMagnetic"@ {
        "rad"@
    } else if path == "navigation.courseGreatCircle.nextPoint.velocityMadeGood"@ {
        "m/s"@
    } else if path == "navigation.courseGreatCircle.nextPoint.timeToGo"@ {
        "s"@
    } else if path == "navigation.courseGreatCircle.crossTrackError"@ {
        "m"@
    } else if path == "navigation.racing.layline.distance"@ {
        "m"@
    } else if path == "navigation.racing.layline.time"@ {
        "s"@
    } else if path == "environment.water.temperature"@ {
        "K"@
    } else if path == "environment.outside.temperature"@ {
        "K"@
    } else if path == "environment.outside.pressure"@ {
        "Pa"@
    } else if path == "environment.wind.speedApparent"@ {
        "m/s"@
    } else if path == "environment.wind.angleApparent"@ {
        "rad"@
    } else if path == "environment.wind.speedTrue"@ {
        "m/s"@
    } else if path == "environment.wind.angleTrueWater"@ {
        "rad"@
    } else if path == "environment.current.drift"@ {
        "m/s"@
    } else if path == "steering.rudderAngle"@ {
        "rad"@
    } else if path == "steering.autopilot.target.headingMagnetic"@ {
        "rad"@
    } else if path == "performance.velocityMadeGood"@ {
        "m/s"@
    } else if path == "performance.targetSpeed"@ {
        "m/s"@
    } else if path == "performance.targetAngle"@ {
        "rad"@
    } else if path == "performance.polarSpeedRatio"@ {
        "ratio"@
    } else if path == "performance.tackMagnetic"@ {
        "rad"@
    } else if path == "electrical.batteries.house.voltage"@ {
        "V"@
    } else if path == "environment.depth.belowTransducer"@ {
        "m"@
    } else if path == "steering.autopilot.state"@ {
        "enum"@
    } else {
        ""@
    }
}

/// The SI unit of a Signal K path: `m/s`, `rad`, `m`, `s`, `K`, `Pa`,
/// `ratio`, `V` or `enum`, and the empty text for paths without a known unit.
pub fn unit_for(path: &str) -> (r: &'static str)
    ensures
        r@ == unit_of(path@),
{
    if text_eq(path, "navigation.speedThroughWater") {
        "m/s"
    } else if text_eq(path, "navigation.speedOverGround") {
        "m/s"
    } else if text_eq(path, "navigation.courseOverGroundTrue") {
        "rad"
    } else if text_eq(path, "navigation.courseOverGroundMagnetic") {
        "rad"
    } else if text_eq(path, "navigation.rateOfTurn") {
        "rad"
    } else if text_eq(path, "navigation.attitude.roll") {
        "rad"
    } else if text_eq(path, "navigation.attitude.pitch") {
        "rad"
    } else if text_eq(path, "navigation.leewayAngle") {
        "rad"
    } else if text_eq(path, "navigation.log") {
        "m"
    } else if text_eq(path, "navigation.trip.log") {
        "m"
    } else if text_eq(path, "navigation.courseRhumbline.nextPoint.distance") {
        "m"
    } else if text_eq(path, "navigation.courseGreatCircle.nextPoint.distance") {
        "m"
    } else if text_eq(path, "navigation.courseRhumbline.nextPoint.bearingTrue") {
        "rad"
    } else if text_eq(path, "navigation.courseRhumbline.nextPoint.bearingMagnetic") {
        "rad"
    } else if text_eq(path, "navigation.courseGreatCircle.nextPoint.bearingTrue") {
        "rad"
    } else if text_eq(path, "navigation.courseGreatCircle.nextPoint.bearingMagnetic") {
        "rad"
    } else if text_eq(path, "navigation.courseGreatCircle.bearingTrackTrue") {
        "rad"
    } else if text_eq(path, "navigation.courseGreatCircle.bearingTrackMagnetic") {
        "rad"
    } else if text_eq(path, "navigation.courseGreatCircle.nextPoint.velocityMadeGood") {
        "m/s"
    } else if text_eq(path, "navigation.courseGreatCircle.nextPoint.timeToGo") {
        "s"
    } else if text_eq(path, "navigation.courseGreatCircle.crossTrackError") {
        "m"
    } else if text_eq(path, "navigation.racing.layline.distance") {
        "m"
    } else if text_eq(path, "navigation.racing.layline.time") {
        "s"
    } else if text_eq(path, "environment.water.temperature") {
        "K"
    } else if text_eq(path, "environment.outside.temperature") {
        "K"
    } else if text_eq(path, "environment.outside.pressure") {
        "Pa"
    } else if text_eq(path, "environment.wind.speedApparent") {
        "m/s"
    } else if text_eq(path, "environment.wind.angleApparent") {
        "rad"
    } else if text_eq(path, "environment.wind.speedTrue") {
        "m/s"
    } else if text_eq(path, "environment.wind.angleTrueWater") {
        "rad"
    } else if text_eq(path, "environment.current.drift") {
        "m/s"
    } else if text_eq(path, "steering.rudderAngle") {
        "rad"
    } else if text_eq(path, "steering.autopilot.target.headingMagnetic") {
        "rad"
    } else if text_eq(path, "performance.velocityMadeGood") {
        "m/s"
    } else if text_eq(path, "performance.targetSpeed") {
        "m/s"
    } else if text_eq(path, "performance.targetAngle") {
        "rad"
    } else if text_eq(path, "performance.polarSpeedRatio") {
        "ratio"
    } else if text_eq(path, "performance.tackMagnetic") {
        "rad"
    } else if text_eq(path, "electrical.batteries.house.voltage") {
        "V"
    } else if text_eq(path, "environment.depth.belowTransducer") {
        "m"
    } else if text_eq(path, "steering.autopilot.state") {
        "enum"
    } else {
        ""
    }
}


/// The SI unit that a conversion gives; `None` for the identity, which keeps
/// whatever unit the channel has.
pub open spec fn conversion_unit(c: Conversion) -> Option<Seq<char>> {
    match c {
        Conversion::Identity => None,
        Conversion::Knots => Some("m/s"@),
        Conversion::NauticalMiles => Some("m"@),
        Conversion::Degrees => Some("rad"@),
        Conversion::Celsius => Some("K"@),
        Conversion::Hectopascals => Some("Pa"@),
        Conversion::Percent => Some("ratio"@),
        Conversion::Feet => Some("m"@),
        Conversion::Fathoms => Some("m"@),
    }
}

/// The lengths of the paths that have a unit, and how paths of equal length differ.
proof fn lemma_unit_paths_distinct()
    ensures
        "navigation.speedThroughWater"@.len() == 28,
        "navigation.speedOverGround"@.len() == 26,
        "navigation.courseOverGroundTrue"@.len() == 31,
        "navigation.courseOverGroundMagnetic"@.len() == 35,
        "navigation.rateOfTurn"@.len() == 21,
        "navigation.attitude.roll"@.len() == 24,
        "navigation.attitude.pitch"@.len() == 25,
        "navigation.leewayAngle"@.len() == 22,
        "navigation.log"@.len() == 14,
        "navigation.trip.log"@.len() == 19,
        "navigation.courseRhumbline.nextPoint.distance"@.len() == 45,
        "navigation.courseGreatCircle.nextPoint.distance"@.len() == 47,
        "navigation.courseRhumbline.nextPoint.bearingTrue"@.len() == 48,
        "navigation.courseRhumbline.nextPoint.bearingMagnetic"@.len() == 52,
        "navigation.courseGreatCircle.nextPoint.bearingTrue"@.len() == 50,
        "navigation.courseGreatCircle.nextPoint.bearingMagnetic"@.len() == 54,
        "navigation.courseGreatCircle.bearingTrackTrue"@.len() == 45,
        "navigation.courseGreatCircle.bearingTrackMagnetic"@.len() == 49,
        "navigation.courseGreatCircle.nextPoint.velocityMadeGood"@.len() == 55,
        "navigation.courseGreatCircle.nextPoint.timeToGo"@.len() == 47,
        "navigation.courseGreatCircle.crossTrackError"@.len() == 44,
        "navigation.racing.layline.distance"@.len() == 34,
        "navigation.racing.layline.time"@.len() == 30,
        "environment.water.temperature"@.len() == 29,
        "environment.outside.temperature"@.len() == 31,
        "environment.outside.pressure"@.len() == 28,
        "environment.wind.speedApparent"@.len() == 30,
        "environment.wind.angleApparent"@.len() == 30,
        "environment.wind.speedTrue"@.len() == 26,
        "environment.wind.angleTrueWater"@.len() == 31,
        "environment.current.drift"@.len() == 25,
        "steering.rudderAngle"@.len() == 20,
        "steering.autopilot.target.headingMagnetic"@.len() == 41,
        "performance.velocityMadeGood"@.len() == 28,
        "performance.targetSpeed"@.len() == 23,
        "performance.targetAngle"@.len() == 23,
        "performance.polarSpeedRatio"@.len() == 27,
        "performance.tackMagnetic"@.len() == 24,
        "electrical.batteries.house.voltage"@.len() == 34,
        "environment.depth.belowTransducer"@.len() == 33,
        "steering.autopilot.state"@.len() == 24,
        "navigation.speedThroughWater"@ != "environment.outside.pressure"@,
        "navigation.speedThroughWater"@ != "performance.velocityMadeGood"@,
        "environment.outside.pressure"@ != "performance.velocityMadeGood"@,
        "navigation.speedOverGround"@ != "environment.wind.speedTrue"@,
        "navigation.courseOverGroundTrue"@ != "environment.outside.temperature"@,
        "navigation.courseOverGroundTrue"@ != "environment.wind.angleTrueWater"@,
        "environment.outside.temperature"@ != "environment.wind.angleTrueWater"@,
        "navigation.attitude.roll"@ != "performance.tackMagnetic"@,
        "navigation.attitude.roll"@ != "steering.autopilot.state"@,
        "performance.tackMagnetic"@ != "steering.autopilot.state"@,
        "navigation.attitude.pitch"@ != "environment.current.drift"@,
        "navigation.courseRhumbline.nextPoint.distance"@ != "navigation.courseGreatCircle.bearingTrackTrue"@,
        "navigation.courseGreatCircle.nextPoint.distance"@ != "navigation.courseGreatCircle.nextPoint.timeToGo"@,
        "navigation.racing.layline.distance"@ != "electrical.batteries.house.voltage"@,
        "navigation.racing.layline.time"@ != "environment.wind.speedApparent"@,
        "navigation.racing.layline.time"@ != "environment.wind.angleApparent"@,
        "environment.wind.speedApparent"@ != "environment.wind.angleApparent"@,
        "performance.targetSpeed"@ != "performance.targetAngle"@,
{
    reveal_strlit("navigation.speedThroughWater");
    reveal_strlit("navigation.speedOverGround");
    reveal_strlit("navigation.courseOverGroundTrue");
    reveal_strlit("navigation.courseOverGroundMagnetic");
    reveal_strlit("navigation.rateOfTurn");
    reveal_strlit("navigation.attitude.roll");
    reveal_strlit("navigation.attitude.pitch");
    reveal_strlit("navigation.leewayAngle");
    reveal_strlit("navigation.log");
    reveal_strlit("navigation.trip.log");
    reveal_strlit("navigation.courseRhumbline.nextPoint.distance");
    reveal_strlit("navigation.courseGreatCircle.nextPoint.distance");
    reveal_strlit("navigation.courseRhumbline.nextPoint.bearingTrue");
    reveal_strlit("navigation.courseRhumbline.nextPoint.bearingMagnetic");
    reveal_strlit("navigation.courseGreatCircle.nextPoint.bearingTrue");
    reveal_strlit("navigation.courseGreatCircle.nextPoint.bearingMagnetic");
    reveal_strlit("navigation.courseGreatCircle.bearingTrackTrue");
    reveal_strlit("navigation.courseGreatCircle.bearingTrackMagnetic");
    reveal_strlit("navigation.courseGreatCircle.nextPoint.velocityMadeGood");
    reveal_strlit("navigation.courseGreatCircle.nextPoint.timeToGo");
    reveal_strlit("navigation.courseGreatCircle.crossTrackError");
    reveal_strlit("navigation.racing.layline.distance");
    reveal_strlit("navigation.racing.layline.time");
    reveal_strlit("environment.water.temperature");
    reveal_strlit("environment.outside.temperature");
    reveal_strlit("environment.outside.pressure");
    reveal_strlit("environment.wind.speedApparent");
    reveal_strlit("environment.wind.angleApparent");
    reveal_strlit("environment.wind.speedTrue");
    reveal_strlit("environment.wind.angleTrueWater");
    reveal_strlit("environment.current.drift");
    reveal_strlit("steering.rudderAngle");
    reveal_strlit("steering.autopilot.target.headingMagnetic");
    reveal_strlit("performance.velocityMadeGood");
    reveal_strlit("performance.targetSpeed");
    reveal_strlit("performance.targetAngle");
    reveal_strlit("performance.polarSpeedRatio");
    reveal_strlit("performance.tackMagnetic");
    reveal_strlit("electrical.batteries.house.voltage");
    reveal_strlit("environment.depth.belowTransducer");
    reveal_strlit("steering.autopilot.state");
    assert("navigation.speedThroughWater"@[0] != "environment.outside.pressure"@[0]);
    assert("navigation.speedThroughWater"@[0] != "performance.velocityMadeGood"@[0]);
    assert("environment.outside.pressure"@[0] != "performance.velocityMadeGood"@[0]);
    assert("navigation.speedOverGround"@[0] != "environment.wind.speedTrue"@[0]);
    assert("navigation.courseOverGroundTrue"@[0] != "environment.outside.temperature"@[0]);
    assert("navigation.courseOverGroundTrue"@[0] != "environment.wind.angleTrueWater"@[0]);
    assert("environment.outside.temperature"@[12] != "environment.wind.angleTrueWater"@[12]);
    assert("navigation.attitude.roll"@[0] != "performance.tackMagnetic"@[0]);
    assert("navigation.attitude.roll"@[0] != "steering.autopilot.state"@[0]);
    assert("performance.tackMagnetic"@[0] != "steering.autopilot.state"@[0]);
    assert("navigation.attitude.pitch"@[0] != "environment.current.drift"@[0]);
    assert("navigation.courseRhumbline.nextPoint.distance"@[17] != "navigation.courseGreatCircle.bearingTrackTrue"@[17]);
    assert("navigation.courseGreatCircle.nextPoint.distance"@[39] != "navigation.courseGreatCircle.nextPoint.timeToGo"@[39]);
    assert("navigation.racing.layline.distance"@[0] != "electrical.batteries.house.voltage"@[0]);
    assert("navigation.racing.layline.time"@[0] != "environment.wind.speedApparent"@[0]);
    assert("navigation.racing.layline.time"@[0] != "environment.wind.angleApparent"@[0]);
    assert("environment.wind.speedApparent"@[17] != "environment.wind.angleApparent"@[17]);
    assert("performance.targetSpeed"@[18] != "performance.targetAngle"@[18]);
}

/// A value projected onto a standard path is converted to the unit that
/// `unit_for` gives for that path.
pub proof fn lemma_standard_units(cid: u8)
    ensures
        standard_path(cid) matches Some((p, c)) ==> (conversion_unit(c) matches Some(u) ==> unit_of(
            p,
        ) == u),
{
    lemma_unit_paths_distinct();
}

/// A unit in which instruments report a channel on the bus.
pub enum BusUnit {
    Knots,
    Degrees,
    NauticalMiles,
    Celsius,
    Hectopascals,
    Percent,
    MetresPerSecond,
    Seconds,
    Volts,
    Metres,
    Feet,
    Fathoms,
}

/// The unit in which the bus reports each channel that has a standard path:
/// speeds through the water and over ground in knots (wind speeds already in
/// metres per second), angles in degrees, distances in nautical miles,
/// temperatures in degrees Celsius, pressure in hectopascals, the polar
/// ratio in percent, times in seconds and the battery in volts; and the
/// three depth channels in metres, feet and fathoms.
pub open spec fn bus_unit(cid: u8) -> Option<BusUnit> {
    match cid {
        0xC1 => Some(BusUnit::Metres),
        0xC2 => Some(BusUnit::Feet),
        0xC3 => Some(BusUnit::Fathoms),
        0x41 => Some(BusUnit::Knots),
        0xEB => Some(BusUnit::Knots),
        0xE9 => Some(BusUnit::Degrees),
        0xEA => Some(BusUnit::Degrees),
        0x44 => Some(BusUnit::Degrees),
        0x34 => Some(BusUnit::Degrees),
        0x9B => Some(BusUnit::Degrees),
        0x82 => Some(BusUnit::Degrees),
        0xCD => Some(BusUnit::NauticalMiles),
        0xCF => Some(BusUnit::NauticalMiles),
        0xE7 => Some(BusUnit::NauticalMiles),
        0xE8 => Some(BusUnit::NauticalMiles),
        0xFA => Some(BusUnit::NauticalMiles),
        0xE3 => Some(BusUnit::Degrees),
        0xE4 => Some(BusUnit::Degrees),
        0xE5 => Some(BusUnit::Degrees),
        0xE6 => Some(BusUnit::Degrees),
        0xE0 => Some(BusUnit::Degrees),
        0xE1 => Some(BusUnit::Degrees),
        0xEC => Some(BusUnit::Knots),
        0xED => Some(BusUnit::Seconds),
        0xEE => Some(BusUnit::NauticalMiles),
        0xE2 => Some(BusUnit::NauticalMiles),
        0xFB => Some(BusUnit::Seconds),
        0x1F => Some(BusUnit::Celsius),
        0x1D => Some(BusUnit::Celsius),
        0x87 => Some(BusUnit::Hectopascals),
        0x4F => Some(BusUnit::MetresPerSecond),
        0x51 => Some(BusUnit::Degrees),
        0x56 => Some(BusUnit::MetresPerSecond),
        0x59 => Some(BusUnit::Degrees),
        0x83 => Some(BusUnit::Knots),
        0x0B => Some(BusUnit::Degrees),
        0xA6 => Some(BusUnit::Degrees),
        0x7F => Some(BusUnit::Knots),
        0x7D => Some(BusUnit::Knots),
        0x53 => Some(BusUnit::Degrees),
        0x7C => Some(BusUnit::Percent),
        0x9A => Some(BusUnit::Degrees),
        0x8D => Some(BusUnit::Volts),
        _ => None,
    }
}

/// The unit a value reported in `u` has after conversion `c`; `None` when
/// the conversion does not apply to that unit.
pub open spec fn unit_after(c: Conversion, u: BusUnit) -> Option<Seq<char>> {
    match (c, u) {
        (Conversion::Knots, BusUnit::Knots) => Some("m/s"@),
        (Conversion::Degrees, BusUnit::Degrees) => Some("rad"@),
        (Conversion::NauticalMiles, BusUnit::NauticalMiles) => Some("m"@),
        (Conversion::Celsius, BusUnit::Celsius) => Some("K"@),
        (Conversion::Hectopascals, BusUnit::Hectopascals) => Some("Pa"@),
        (Conversion::Percent, BusUnit::Percent) => Some("ratio"@),
        (Conversion::Identity, BusUnit::MetresPerSecond) => Some("m/s"@),
        (Conversion::Identity, BusUnit::Seconds) => Some("s"@),
        (Conversion::Identity, BusUnit::Volts) => Some("V"@),
        (Conversion::Identity, BusUnit::Metres) => Some("m"@),
        (Conversion::Feet, BusUnit::Feet) => Some("m"@),
        (Conversion::Fathoms, BusUnit::Fathoms) => Some("m"@),
        _ => None,
    }
}

/// Every standard channel is projected with the conversion that takes the
/// unit the bus reports it in to the unit `unit_for` gives for its path (boat
/// speed in knots becomes metres per second, for example).
pub proof fn lemma_standard_conversions_reach_path_units(cid: u8)
    ensures
        standard_path(cid) matches Some((p, c)) ==> bus_unit(cid) matches Some(u) && unit_after(
            c,
            u,
        ) == Some(unit_of(p)),
{
    lemma_unit_paths_distinct();
}

/// Whether `p` is the path of some standard channel.
pub open spec fn is_standard_path(p: Seq<char>) -> bool {
    exists|cid: u8| #[trigger] standard_path(cid) is Some && standard_path(cid).unwrap().0 == p
}

/// `unit_for` gives a unit exactly for the standard paths, the depth path and
/// the autopilot state path, and the empty text for every other path.
pub proof fn lemma_units_exactly_for_known_paths(p: Seq<char>)
    ensures
        unit_of(p).len() > 0 <==> (is_standard_path(p) || p == depth_path() || p
            == autopilot_path()),
{
    lemma_unit_paths_distinct();
    reveal_strlit("m/s");
    reveal_strlit("rad");
    reveal_strlit("m");
    reveal_strlit("s");
    reveal_strlit("K");
    reveal_strlit("Pa");
    reveal_strlit("ratio");
    reveal_strlit("V");
    reveal_strlit("enum");
    reveal_strlit("");
    if unit_of(p).len() > 0 {
        assert(standard_path(0x41) is Some);
        assert(standard_path(0xEB) is Some);
        assert(standard_path(0xE9) is Some);
        assert(standard_path(0xEA) is Some);
        assert(standard_path(0x44) is Some);
        assert(standard_path(0x34) is Some);
        assert(standard_path(0x9B) is Some);
        assert(standard_path(0x82) is Some);
        assert(standard_path(0xCD) is Some);
        assert(standard_path(0xCF) is Some);
        assert(standard_path(0xE7) is Some);
        assert(standard_path(0xE8) is Some);
        assert(standard_path(0xE3) is Some);
        assert(standard_path(0xE4) is Some);
        assert(standard_path(0xE5) is Some);
        assert(standard_path(0xE6) is Some);
        assert(standard_path(0xE0) is Some);
        assert(standard_path(0xE1) is Some);
        assert(standard_path(0xEC) is Some);
        assert(standard_path(0xED) is Some);
        assert(standard_path(0xEE) is Some);
        assert(standard_path(0xE2) is Some);
        assert(standard_path(0xFB) is Some);
        assert(standard_path(0x1F) is Some);
        assert(standard_path(0x1D) is Some);
        assert(standard_path(0x87) is Some);
        assert(standard_path(0x4F) is Some);
        assert(standard_path(0x51) is Some);
        assert(standard_path(0x56) is Some);
        assert(standard_path(0x59) is Some);
        assert(standard_path(0x83) is Some);
        assert(standard_path(0x0B) is Some);
        assert(standard_path(0xA6) is Some);
        assert(standard_path(0x7F) is Some);
        assert(standard_path(0x7D) is Some);
        assert(standard_path(0x53) is Some);
        assert(standard_path(0x7C) is Some);
        assert(standard_path(0x9A) is Some);
        assert(standard_path(0x8D) is Some);
    }
    if is_standard_path(p) {
        let cid = choose|cid: u8| #[trigger] standard_path(cid) is Some && standard_path(cid).unwrap().0
            == p;
        assert(standard_path(cid) is Some);
    }
}

/// How a channel is projected: its name, its path, the unit of the path and
/// the kind of projection.
#[derive(Clone, Debug)]
pub struct ChannelInfo {
    pub name: String,
    pub path: String,
    pub unit: String,
    pub kind: String,
}

/// What a `ChannelInfo` holds, as character sequences.
pub struct ChannelInfoView {
    pub name: Seq<char>,
    pub path: Seq<char>,
    pub unit: Seq<char>,
    pub kind: Seq<char>,
}

impl View for ChannelInfo {
    type V = ChannelInfoView;

    open spec fn view(&self) -> ChannelInfoView {
        ChannelInfoView { name: self.name@, path: self.path@, unit: self.unit@, kind: self.kind@ }
    }
}

/// The path under which an unmapped channel is projected: `bandg.unknown.0x..`.
pub open spec fn unknown_path(cid: u8) -> Seq<char> {
    "bandg.unknown.0x"@ + hex2(cid)
}

/// How channel `cid`, named `name`, is projected.
pub open spec fn disposition(cid: u8, name: Seq<char>) -> ChannelInfoView {
    if routed_stem(cid) is Some {
        ChannelInfoView {
            name,
            path: routed_stem(cid).unwrap() + "{Magnetic,True}"@,
            unit: "rad"@,
            kind: "routed(M/T)"@,
        }
    } else if is_depth(cid) {
        ChannelInfoView {
            name,
            path: depth_path(),
            unit: "m"@,
            kind: "standard(depth fallback)"@,
        }
    } else if is_autopilot(cid) {
        ChannelInfoView { name, path: autopilot_path(), unit: "enum"@, kind: "standard"@ }
    } else if standard_path(cid) is Some {
        let p = standard_path(cid).unwrap().0;
        ChannelInfoView { name, path: p, unit: unit_of(p), kind: "standard"@ }
    } else if vendor_path(cid) is Some {
        let p = vendor_path(cid).unwrap().0;
        ChannelInfoView { name, path: p, unit: unit_of(p), kind: "vendor"@ }
    } else if is_collapsed(cid) {
        ChannelInfoView {
            name,
            path: "→ "@ + collapsed_target(cid),
            unit: ""@,
            kind: "collapsed"@,
        }
    } else if is_dropped(cid) {
        ChannelInfoView { name, path: "—"@, unit: ""@, kind: "drop"@ }
    } else {
        ChannelInfoView { name, path: unknown_path(cid), unit: ""@, kind: "unknown"@ }
    }
}

/// The path under which an unmapped channel is projected.
fn unknown_path_string(cid: u8) -> (r: String)
    ensures
        r@ == unknown_path(cid),
{
    let mut s = String::from_str("bandg.unknown.0x");
    push_hex_byte(&mut s, cid);
    s
}

/// The target path of a collapsed channel.
fn collapsed_target_of(cid: u8) -> (r: &'static str)
    requires
        is_collapsed(cid),
    ensures
        r@ == collapsed_target(cid),
{
    if cid == 0x1C {
        "environment.outside.temperature"
    } else if cid == 0x1E {
        "environment.water.temperature"
    } else if cid == 0x4D {
        "environment.wind.speedApparent"
    } else if cid == 0x55 {
        "environment.wind.speedTrue"
    } else {
        "bandg.navigation.speedThroughWaterAverage"
    }
}

/// Builds a `ChannelInfo` from its four texts.
fn channel_info(name: &str, path: String, unit: &str, kind: &str) -> (r: ChannelInfo)
    ensures
        r@ == (ChannelInfoView { name: name@, path: path@, unit: unit@, kind: kind@ }),
{
    ChannelInfo {
        name: String::from_str(name),
        path,
        unit: String::from_str(unit),
        kind: String::from_str(kind),
    }
}

/// How a channel is projected: routed by its layout to a magnetic or a true
/// path, the depth fallback, the autopilot state, a standard path, a vendor
/// path, collapsed into another channel, dropped, or an unknown path.
fn channel_disposition(cid: u8, name: &str) -> (r: ChannelInfo)
    ensures
        r@ == disposition(cid, name@),
{
    if let Some(stem) = routed_stem_of(cid) {
        return channel_info(name, String::from_str(stem).concat("{Magnetic,True}"), "rad", "routed(M/T)");
    }
    if cid == 0xC1 || cid == 0xC2 || cid == 0xC3 {
        return channel_info(
            name,
            String::from_str("environment.depth.belowTransducer"),
            "m",
            "standard(depth fallback)",
        );
    }
    if cid == 0xB5 {
        return channel_info(name, String::from_str("steering.autopilot.state"), "enum", "standard");
    }
    if let Some((path, _)) = standard_path_of(cid) {
        return channel_info(name, String::from_str(path), unit_for(path), "standard");
    }
    if let Some((path, _)) = vendor_path_of(cid) {
        return channel_info(name, String::from_str(path), unit_for(path), "vendor");
    }
    if cid == 0x1C || cid == 0x1E || cid == 0x4D || cid == 0x55 || cid == 0x65 {
        return channel_info(
            name,
            String::from_str("→ ").concat(collapsed_target_of(cid)),
            "",
            "collapsed",
        );
    }
    if cid == 0x00 || cid == 0x50 || cid == 0x68 || cid == 0x6A || cid == 0x36 || cid == 0x37
        || cid == 0xC9 {
        return channel_info(name, String::from_str("—"), "", "drop");
    }
    channel_info(name, unknown_path_string(cid), "", "unknown")
}

/// The projection of every named channel, one entry per channel in ascending
/// order of channel id.
pub fn channel_map() -> (r: Vec<ChannelInfo>)
    ensures
        r@.len() == named_channels().len(),
        forall|i: int|
            0 <= i < r@.len() ==> #[trigger] r@[i]@ == disposition(
                named_channels()[i],
                channel_name(named_channels()[i]).unwrap(),
            ),
{
    let ids = named_channel_ids();
    let mut out: Vec<ChannelInfo> = Vec::new();
    let mut i: usize = 0;
    while i < ids.len()
        invariant
            ids@ == named_channels(),
            i <= ids.len(),
            out@.len() == i,
            forall|j: int|
                0 <= j < i ==> #[trigger] out@[j]@ == disposition(
                    named_channels()[j],
                    channel_name(named_channels()[j]).unwrap(),
                ),
        decreases ids.len() - i,
    {
        let cid = ids[i];
        proof {
            crate::constants::lemma_named_channels_listed(cid);
            assert(named_channels().contains(cid));
        }
        let name = match channel_name_of(cid) {
            Some(n) => n,
            None => "",
        };
        out.push(channel_disposition(cid, name));
        i = i + 1;
    }
    out
}

/// The channel number written in a channel id: `0x` or `0X` followed by a
/// hexadecimal byte (as `u8::from_str_radix(.., 16)` reads it).
pub open spec fn channel_number(id: Seq<char>) -> Option<u8> {
    if id.len() >= 2 && id[0] == '0' && (id[1] == 'x' || id[1] == 'X') {
        parse_hex_u8(id.skip(2))
    } else {
        None
    }
}

/// The channel id that decoding gives a channel (`0x` and two upper-case
/// hex digits) reads back as that channel number.
pub proof fn lemma_channel_id_reads_back(cid: u8)
    ensures
        channel_number(channel_id_text(cid)) == Some(cid),
{
    reveal_strlit("0x");
    let t = channel_id_text(cid);
    assert(t.skip(2) =~= hex2(cid));
    lemma_hex2_reads_back(cid);
}

/// A channel id of `0x` or `0X` and two hex digits of either case reads as
/// the byte the digits write; an id without that prefix reads as nothing.
pub proof fn lemma_channel_id_forms(id: Seq<char>, d: Seq<char>, b: u8)
    requires
        hex_pairs_of(d, seq![b]),
    ensures
        channel_number("0x"@ + d) == Some(b),
        channel_number("0X"@ + d) == Some(b),
        !(id.len() >= 2 && id[0] == '0' && (id[1] == 'x' || id[1] == 'X')) ==> channel_number(id)
            is None,
{
    reveal_strlit("0x");
    reveal_strlit("0X");
    assert(seq![b][0] == b);
    assert(is_hex_digit(d[0]));
    assert(is_hex_digit(d[1]));
    assert(d.drop_last() =~= seq![d[0]]);
    assert(seq![d[0]].drop_last() =~= Seq::<char>::empty());
    assert(hex_value(seq![d[0]].drop_last()) == 0);
    assert(seq![d[0]].last() == d[0]);
    assert(hex_value(seq![d[0]]) == hex_digit_value(d[0]));
    assert(hex_value(d) == hex_value(d.drop_last()) * 16 + hex_digit_value(d[1]));
    assert(all_hex(d));
    assert(("0x"@ + d).skip(2) =~= d);
    assert(("0X"@ + d).skip(2) =~= d);
}

/// Reads the channel number from a channel id such as `0x4F`.
pub fn parse_channel_id(channel_id: &str) -> (r: Option<u8>)
    ensures
        r == channel_number(channel_id@),
{
    let c = chars_of(channel_id);
    if c.len() >= 2 && c[0] == '0' && (c[1] == 'x' || c[1] == 'X') {
        proof {
            assert(c@.subrange(2, c@.len() as int) =~= channel_id@.skip(2));
        }
        parse_hex_u8_in(&c, 2, c.len())
    } else {
        None
    }
}


/// A position read from a `LatLon` text: whole degrees and the minutes text of
/// latitude and longitude, and whether each is negated. The minutes are kept
/// as text in the syntax `str::parse::<f64>` accepts. The latitude in degrees
/// is `±(lat_degrees + lat_minutes / 60)`, negative for south, and the
/// longitude `±(lon_degrees + lon_minutes / 60)`, negative for west (a `W`
/// that ends the text).
#[derive(Clone, Debug)]
pub struct PositionFix {
    pub lat_degrees: u32,
    pub lat_minutes: String,
    pub lat_negative: bool,
    pub lon_degrees: u32,
    pub lon_minutes: String,
    pub lon_negative: bool,
}

/// What a `PositionFix` holds, with its texts as character sequences.
pub struct PositionFixView {
    pub lat_degrees: u32,
    pub lat_minutes: Seq<char>,
    pub lat_negative: bool,
    pub lon_degrees: u32,
    pub lon_minutes: Seq<char>,
    pub lon_negative: bool,
}

impl View for PositionFix {
    type V = PositionFixView;

    open spec fn view(&self) -> PositionFixView {
        PositionFixView {
            lat_degrees: self.lat_degrees,
            lat_minutes: self.lat_minutes@,
            lat_negative: self.lat_negative,
            lon_degrees: self.lon_degrees,
            lon_minutes: self.lon_minutes@,
            lon_negative: self.lon_negative,
        }
    }
}

/// How reading a position text ends: it cannot be split where the format
/// needs it (the text is cut inside a character or is too short at the
/// degrees), it holds no position, or it holds one.
pub enum PositionOutcome {
    Aborts,
    NoFix,
    Fix(PositionFixView),
}

/// The position of the first `c` in `t`, if any.
pub open spec fn first_pos(t: Seq<char>, c: char) -> Option<int>
    decreases t.len(),
{
    if t.len() == 0 {
        None
    } else if t[0] == c {
        Some(0)
    } else {
        match first_pos(t.drop_first(), c) {
            Some(i) => Some(i + 1),
            None => None,
        }
    }
}

/// The position of the first `c` in `t`, or 0 when there is none.
pub open spec fn pos_or_zero(t: Seq<char>, c: char) -> int {
    match first_pos(t, c) {
        Some(i) => i,
        None => 0,
    }
}

/// The larger of two integers.
pub open spec fn later(a: int, b: int) -> int {
    if a >= b {
        a
    } else {
        b
    }
}

/// The number of leading characters of `s` whose UTF-8 encoding takes exactly
/// `n` bytes, if the first `n` bytes end on a character boundary.
pub open spec fn chars_for_bytes(s: Seq<char>, n: int) -> Option<int>
    decreases s.len(),
{
    if n <= 0 {
        Some(0)
    } else if s.len() == 0 {
        None
    } else if utf8_width(s[0]) > n {
        None
    } else {
        match chars_for_bytes(s.drop_first(), n - utf8_width(s[0])) {
            Some(k) => Some(k + 1),
            None => None,
        }
    }
}

/// How a position text is read.
///
/// The text is trimmed. The latitude letter is the later of the first `N` and
/// the first `S`, the longitude letter the later of the first `E` and the first
/// `W`. Both must be present, not first, the latitude letter not last, and the
/// longitude letter after it. The latitude part is the text before its letter:
/// two bytes of whole degrees, then the minutes; the longitude part lies
/// between the letters: three bytes of whole degrees, then the minutes. The
/// latitude is negative (south) when its letter is `S`; the longitude is
/// negative (west) when its letter is `W` and ends the text.
#[verifier::opaque]
pub open spec fn position_outcome(text: Seq<char>) -> PositionOutcome {
    let t = trim_text(text);
    let lat = later(pos_or_zero(t, 'N'), pos_or_zero(t, 'S'));
    let lon = later(pos_or_zero(t, 'E'), pos_or_zero(t, 'W'));
    if lat == 0 || lon == 0 || lat >= t.len() - 1 || lon <= lat {
        PositionOutcome::NoFix
    } else {
        let lat_part = t.take(lat);
        match chars_for_bytes(lat_part, 2) {
            None => PositionOutcome::Aborts,
            Some(k) => match parse_dec_u32(lat_part.take(k)) {
                None => PositionOutcome::NoFix,
                Some(lat_degrees) => if !float_syntax(lat_part.skip(k)) {
                    PositionOutcome::NoFix
                } else {
                    let lon_part = t.subrange(lat + 1, lon);
                    match chars_for_bytes(lon_part, 3) {
                        None => PositionOutcome::Aborts,
                        Some(k2) => match parse_dec_u32(lon_part.take(k2)) {
                            None => PositionOutcome::NoFix,
                            Some(lon_degrees) => if !float_syntax(lon_part.skip(k2)) {
                                PositionOutcome::NoFix
                            } else {
                                PositionOutcome::Fix(
                                    PositionFixView {
                                        lat_degrees,
                                        lat_minutes: lat_part.skip(k),
                                        lat_negative: t[lat] == 'S',
                                        lon_degrees,
                                        lon_minutes: lon_part.skip(k2),
                                        lon_negative: lon == t.len() - 1 && t[lon] == 'W',
                                    },
                                )
                            },
                        },
                    }
                },
            },
        }
    }
}

/// The position of the first `c` in `t`, or 0 when there is none.
fn pos_or_zero_of(t: &Vec<char>, c: char) -> (r: usize)
    ensures
        r as int == pos_or_zero(t@, c),
        r < t.len() || r == 0,
{
    let mut i: usize = 0;
    assert(t@.skip(0) =~= t@);
    while i < t.len()
        invariant
            i <= t.len(),
            first_pos(t@, c) == match first_pos(t@.skip(i as int), c) {
                Some(j) => Some(j + i),
                None => None,
            },
        decreases t.len() - i,
    {
        let ghost rest = t@.skip(i as int);
        assert(rest[0] == t@[i as int]);
        if t[i] == c {
            return i;
        }
        assert(rest.drop_first() =~= t@.skip(i + 1));
        i = i + 1;
    }
    assert(t@.skip(i as int).len() == 0);
    0
}

/// The number of leading characters of `s` taking exactly `n` bytes (see `chars_for_bytes`).
fn chars_for_bytes_of(s: &Vec<char>, n: usize) -> (r: Option<usize>)
    ensures
        r matches Some(k) ==> chars_for_bytes(s@, n as int) == Some(k as int) && k <= s.len() && k
            <= n,
        r is None ==> chars_for_bytes(s@, n as int) is None,
{
    let mut i: usize = 0;
    let mut rem: usize = n;
    assert(s@.skip(0) =~= s@);
    while rem > 0
        invariant
            i <= s.len(),
            rem <= n,
            i + rem <= n,
            chars_for_bytes(s@, n as int) == match chars_for_bytes(s@.skip(i as int), rem as int) {
                Some(k) => Some(k + i),
                None => None,
            },
        decreases rem,
    {
        if i >= s.len() {
            return None;
        }
        let ghost rest = s@.skip(i as int);
        assert(rest[0] == s@[i as int]);
        let u = s[i] as u32;
        let w: usize = if u < 0x80 {
            1
        } else if u < 0x800 {
            2
        } else if u < 0x10000 {
            3
        } else {
            4
        };
        if w > rem {
            return None;
        }
        assert(rest.drop_first() =~= s@.skip(i + 1));
        rem = rem - w;
        i = i + 1;
    }
    Some(i)
}

/// Reads a position text (see `position_outcome`): `Err` where the text
/// cannot be split as the format needs, else the position if it holds one.
fn read_position(ascii_text: &str) -> (r: Result<Option<PositionFix>, ()>)
    ensures
        match position_outcome(ascii_text@) {
            PositionOutcome::Aborts => r is Err,
            PositionOutcome::NoFix => r matches Ok(None),
            PositionOutcome::Fix(p) => r matches Ok(Some(f)) && f@ == p,
        },
{
    reveal(position_outcome);
    let tt = trim(ascii_text);
    let t = chars_of(tt);
    let ghost tv = trim_text(ascii_text@);
    let n = t.len();
    let lat_n = pos_or_zero_of(&t, 'N');
    let lat_s = pos_or_zero_of(&t, 'S');
    let lat = if lat_n >= lat_s {
        lat_n
    } else {
        lat_s
    };
    let lon_e = pos_or_zero_of(&t, 'E');
    let lon_w = pos_or_zero_of(&t, 'W');
    let lon = if lon_e >= lon_w {
        lon_e
    } else {
        lon_w
    };
    if lat == 0 || lon == 0 || lat >= n - 1 || lon <= lat {
        return Ok(None);
    }
    let lat_part = sub_chars(&t, 0, lat);
    assert(lat_part@ =~= tv.take(lat as int));
    let k = match chars_for_bytes_of(&lat_part, 2) {
        Some(k) => k,
        None => {
            return Err(());
        },
    };
    let lat_degrees = match parse_short_u32(&sub_chars(&lat_part, 0, k)) {
        Some(v) => v,
        None => {
            assert(lat_part@.subrange(0, k as int) =~= lat_part@.take(k as int));
            return Ok(None);
        },
    };
    assert(lat_part@.subrange(0, k as int) =~= lat_part@.take(k as int));
    let lat_min = sub_chars(&lat_part, k, lat);
    assert(lat_min@ =~= lat_part@.skip(k as int));
    if !is_float_text(&lat_min) {
        return Ok(None);
    }
    let lon_part = sub_chars(&t, lat + 1, lon);
    let k2 = match chars_for_bytes_of(&lon_part, 3) {
        Some(k2) => k2,
        None => {
            return Err(());
        },
    };
    let lon_degrees = match parse_short_u32(&sub_chars(&lon_part, 0, k2)) {
        Some(v) => v,
        None => {
            assert(lon_part@.subrange(0, k2 as int) =~= lon_part@.take(k2 as int));
            return Ok(None);
        },
    };
    assert(lon_part@.subrange(0, k2 as int) =~= lon_part@.take(k2 as int));
    let lon_min = sub_chars(&lon_part, k2, lon_part.len());
    assert(lon_min@ =~= lon_part@.skip(k2 as int));
    if !is_float_text(&lon_min) {
        return Ok(None);
    }
    let lat_negative = t[lat] == 'S';
    let lon_negative = lon + 1 == n && t[lon] == 'W';
    let lat_minutes = String::from_str(tt.substring_char(k, lat));
    let lon_minutes = String::from_str(tt.substring_char(lat + 1 + k2, lon));
    proof {
        assert(tv.subrange(k as int, lat as int) =~= lat_part@.skip(k as int));
        assert(tv.subrange(lat + 1 + k2, lon as int) =~= lon_part@.skip(k2 as int));
        assert(lat as int == later(pos_or_zero(tv, 'N'), pos_or_zero(tv, 'S')));
        assert(lon as int == later(pos_or_zero(tv, 'E'), pos_or_zero(tv, 'W')));
        assert(chars_for_bytes(tv.take(lat as int), 2) == Some(k as int));
        assert(parse_dec_u32(tv.take(lat as int).take(k as int)) == Some(lat_degrees));
        assert(float_syntax(tv.take(lat as int).skip(k as int)));
        assert(lon_part@ =~= tv.subrange(lat + 1, lon as int));
        assert(chars_for_bytes(lon_part@, 3) == Some(k2 as int));
        assert(parse_dec_u32(lon_part@.take(k2 as int)) == Some(lon_degrees));
        assert(float_syntax(lon_part@.skip(k2 as int)));
    }
    Ok(Some(
        PositionFix {
            lat_degrees,
            lat_minutes,
            lat_negative,
            lon_degrees,
            lon_minutes,
            lon_negative,
        },
    ))
}

/// Reads a position from a `LatLon` text such as `3352.450S15113.920E`
/// (see `position_outcome`).
pub fn parse_position(ascii_text: &str) -> (r: Option<PositionFix>)
    requires
        !(position_outcome(ascii_text@) is Aborts),
    ensures
        match position_outcome(ascii_text@) {
            PositionOutcome::Fix(p) => r matches Some(f) && f@ == p,
            _ => r is None,
        },
{
    match read_position(ascii_text) {
        Ok(r) => r,
        Err(_) => None,
    }
}


/// A projected reading: a number with the conversion that brings it to SI
/// units, or a position.
#[derive(Clone, Debug)]
pub enum Reading {
    Number(Conversion, Scaled),
    Position(PositionFix),
}

/// What a `Reading` holds.
pub enum ReadingView {
    Number(Conversion, Scaled),
    Position(PositionFixView),
}

impl View for Reading {
    type V = ReadingView;

    open spec fn view(&self) -> ReadingView {
        match self {
            Reading::Number(c, v) => ReadingView::Number(*c, *v),
            Reading::Position(p) => ReadingView::Position(p@),
        }
    }
}

/// The depth values seen in a frame, by depth channel.
pub struct DepthSeen {
    pub meters: Option<Scaled>,
    pub feet: Option<Scaled>,
    pub fathoms: Option<Scaled>,
}

/// The reading of a position text, looked for in the values of a `LatLon`
/// frame: the first value whose display text holds a position. `None` when a
/// text that is tried cannot be read (see `PositionOutcome::Aborts`).
pub open spec fn latlon_search(values: Seq<(Seq<char>, DecodedValueView)>) -> Option<
    Seq<(Seq<char>, ReadingView)>,
>
    decreases values.len(),
{
    if values.len() == 0 {
        Some(Seq::empty())
    } else {
        match values[0].1.display_text {
            None => latlon_search(values.drop_first()),
            Some(t) => match position_outcome(t) {
                PositionOutcome::Aborts => None,
                PositionOutcome::Fix(p) => Some(seq![(position_path(), ReadingView::Position(p))]),
                PositionOutcome::NoFix => latlon_search(values.drop_first()),
            },
        }
    }
}

/// An integer limited to the range of `i32`.
pub open spec fn clamp_i32(v: int) -> int {
    if v > i32::MAX {
        i32::MAX as int
    } else if v < i32::MIN {
        i32::MIN as int
    } else {
        v
    }
}

/// The value rounded half away from zero and converted to `i32`, saturating
/// (a zero divisor reads as an infinite value, or as zero for `0 / 0`).
pub open spec fn rounded_i32(x: Scaled) -> int {
    if x.divisor == 0 {
        if x.magnitude == 0 {
            0
        } else if x.negative {
            i32::MIN as int
        } else {
            i32::MAX as int
        }
    } else {
        let r = x.magnitude as int / x.divisor as int + if 2 * (x.magnitude as int % x.divisor as int)
            >= x.divisor {
            1int
        } else {
            0int
        };
        clamp_i32(
            if x.negative {
                -r
            } else {
                r
            },
        )
    }
}

/// The number of an autopilot state name.
pub open spec fn state_number(name: Seq<char>) -> nat {
    if name == "standby"@ {
        0
    } else if name == "auto"@ {
        1
    } else if name == "wind"@ {
        2
    } else if name == "route"@ {
        3
    } else if name == "directControl"@ {
        4
    } else {
        0
    }
}

/// The autopilot state number of a mode word value: standby (0) when the high
/// byte is `0x50`, the state named for the low byte when the high byte is
/// `0x51` or `0x59`.
pub open spec fn autopilot_state(value: Option<Scaled>) -> Option<nat> {
    match value {
        None => None,
        Some(x) => {
            let raw = rounded_i32(x);
            let high = (raw / 256) % 256;
            let low = raw % 256;
            if high == 0x50 {
                Some(0)
            } else if high == 0x51 || high == 0x59 {
                match crate::constants::autopilot_mode(low as u8) {
                    Some(name) => Some(state_number(name)),
                    None => None,
                }
            } else {
                None
            }
        },
    }
}

/// The magnetic or true path of a routed channel, by its layout symbol.
pub open spec fn routed_path(stem: Seq<char>, layout: Option<Seq<char>>) -> Seq<char> {
    if layout == Some("°M"@) {
        stem + "Magnetic"@
    } else {
        stem + "True"@
    }
}

/// Sets `path` to a number when there is a value.
pub open spec fn put_number(
    out: Seq<(Seq<char>, ReadingView)>,
    path: Seq<char>,
    c: Conversion,
    value: Option<Scaled>,
) -> Seq<(Seq<char>, ReadingView)> {
    match value {
        Some(x) => upsert(out, path, ReadingView::Number(c, x)),
        None => out,
    }
}

/// One channel value added to the projection so far.
pub open spec fn project_step(
    out: Seq<(Seq<char>, ReadingView)>,
    depth: DepthSeen,
    v: DecodedValueView,
) -> (Seq<(Seq<char>, ReadingView)>, DepthSeen) {
    match channel_number(v.channel_id) {
        None => (out, depth),
        Some(cid) => if is_dropped(cid) || is_collapsed(cid) {
            (out, depth)
        } else if is_depth(cid) {
            match v.value {
                None => (out, depth),
                Some(x) => (
                    out,
                    if cid == 0xC1 {
                        DepthSeen { meters: Some(x), ..depth }
                    } else if cid == 0xC2 {
                        DepthSeen { feet: Some(x), ..depth }
                    } else {
                        DepthSeen { fathoms: Some(x), ..depth }
                    },
                ),
            }
        } else if is_autopilot(cid) {
            match autopilot_state(v.value) {
                None => (out, depth),
                Some(n) => (
                    upsert(
                        out,
                        autopilot_path(),
                        ReadingView::Number(
                            Conversion::Identity,
                            Scaled { negative: false, magnitude: n as u32, divisor: 1 },
                        ),
                    ),
                    depth,
                ),
            }
        } else if routed_stem(cid) is Some {
            (
                put_number(
                    out,
                    routed_path(routed_stem(cid).unwrap(), v.layout),
                    Conversion::Degrees,
                    v.value,
                ),
                depth,
            )
        } else if standard_path(cid) is Some {
            (
                put_number(
                    out,
                    standard_path(cid).unwrap().0,
                    standard_path(cid).unwrap().1,
                    v.value,
                ),
                depth,
            )
        } else if vendor_path(cid) is Some {
            (put_number(out, vendor_path(cid).unwrap().0, vendor_path(cid).unwrap().1, v.value), depth)
        } else {
            (put_number(out, unknown_path(cid), Conversion::Identity, v.value), depth)
        },
    }
}

/// The projection of the channel values, in order, before depth is placed.
pub open spec fn project_fold(values: Seq<(Seq<char>, DecodedValueView)>) -> (
    Seq<(Seq<char>, ReadingView)>,
    DepthSeen,
)
    decreases values.len(),
{
    if values.len() == 0 {
        (Seq::empty(), DepthSeen { meters: None, feet: None, fathoms: None })
    } else {
        let (out, depth) = project_fold(values.drop_last());
        project_step(out, depth, values.last().1)
    }
}

/// Depth placed after the other values: metres when seen, else feet, else fathoms.
pub open spec fn place_depth(out: Seq<(Seq<char>, ReadingView)>, depth: DepthSeen) -> Seq<
    (Seq<char>, ReadingView),
> {
    match (depth.meters, depth.feet, depth.fathoms) {
        (Some(x), _, _) => upsert(out, depth_path(), ReadingView::Number(Conversion::Identity, x)),
        (None, Some(x), _) => upsert(out, depth_path(), ReadingView::Number(Conversion::Feet, x)),
        (None, None, Some(x)) => upsert(
            out,
            depth_path(),
            ReadingView::Number(Conversion::Fathoms, x),
        ),
        _ => out,
    }
}

/// The Signal K projection of a decoded frame; `None` when a position text of
/// a `LatLon` frame cannot be read.
pub open spec fn project_outcome(f: DecodedFrameView) -> Option<Seq<(Seq<char>, ReadingView)>> {
    if f.command == "LatLon"@ {
        latlon_search(f.values)
    } else {
        let (out, depth) = project_fold(f.values);
        Some(place_depth(out, depth))
    }
}


/// The value rounded half away from zero and converted to `i32`, saturating.
fn rounded_i32_of(x: Scaled) -> (r: i64)
    ensures
        r as int == rounded_i32(x),
        i32::MIN <= r <= i32::MAX,
{
    if x.divisor == 0 {
        if x.magnitude == 0 {
            0
        } else if x.negative {
            -2147483648
        } else {
            2147483647
        }
    } else {
        let m = x.magnitude as u64;
        let d = x.divisor as u64;
        let q = m / d;
        let rem = m % d;
        let r: u64 = if 2 * rem >= d {
            q + 1
        } else {
            q
        };
        proof {
            assert(q <= m) by (nonlinear_arith)
                requires
                    q == m / d,
                    d > 0,
            ;
        }
        let v: i64 = if x.negative {
            -(r as i64)
        } else {
            r as i64
        };
        if v > 2147483647 {
            2147483647
        } else if v < -2147483648 {
            -2147483648
        } else {
            v
        }
    }
}

/// The number of an autopilot state name.
fn state_number_of(name: &str) -> (r: u32)
    ensures
        r as nat == state_number(name@),
{
    if text_eq(name, "standby") {
        0
    } else if text_eq(name, "auto") {
        1
    } else if text_eq(name, "wind") {
        2
    } else if text_eq(name, "route") {
        3
    } else if text_eq(name, "directControl") {
        4
    } else {
        0
    }
}

/// The autopilot state number of a mode word value (see `autopilot_state`).
#[verifier::spinoff_prover]
#[verifier::rlimit(40)]
fn ap_state(value: Option<Scaled>) -> (r: Option<u32>)
    ensures
        match autopilot_state(value) {
            Some(n) => r == Some(n as u32) && n <= 4,
            None => r is None,
        },
{
    let x = match value {
        Some(x) => x,
        None => {
            return None;
        },
    };
    let raw = rounded_i32_of(x);
    let u: u64 = if raw < 0 {
        (raw + 4294967296) as u64
    } else {
        raw as u64
    };
    let high = (u / 256) % 256;
    let low = u % 256;
    proof {
        let ri = raw as int;
        if raw < 0 {
            assert((ri / 256) % 256 == ((ri + 4294967296) / 256) % 256);
            assert(ri % 256 == (ri + 4294967296) % 256);
        }
    }
    if high == 0x50 {
        return Some(0);
    }
    if high == 0x51 || high == 0x59 {
        match autopilot_mode_of(low as u8) {
            Some(name) => {
                let n = state_number_of(name);
                return Some(n);
            },
            None => {
                return None;
            },
        }
    }
    None
}

/// The projection of a `LatLon` frame's values: the first display text that
/// holds a position, under `navigation.position`; `None` where a text that
/// is tried cannot be read.
fn project_position(values: &Vec<(String, DecodedValue)>) -> (r: Option<Vec<(String, Reading)>>)
    ensures
        r is Some <==> latlon_search(entries_view(values@)) is Some,
        r matches Some(v) ==> entries_view(v@) == latlon_search(entries_view(values@)).unwrap(),
{
    let ghost vs = entries_view(values@);
    let mut i: usize = 0;
    assert(vs.skip(0) =~= vs);
    while i < values.len()
        invariant
            vs == entries_view(values@),
            i <= values.len(),
            latlon_search(vs) == latlon_search(vs.skip(i as int)),
        decreases values.len() - i,
    {
        let ghost rest = vs.skip(i as int);
        assert(rest[0] == vs[i as int]);
        assert(rest.drop_first() =~= vs.skip(i + 1));
        if let Some(t) = &values[i].1.display_text {
            proof {
                reveal(position_outcome);
            }
            match read_position(t.as_str()) {
                Err(_) => {
                    return None;
                },
                Ok(Some(fix)) => {
                    let mut out: Vec<(String, Reading)> = Vec::new();
                    let ghost kv = (position_path(), ReadingView::Position(fix@));
                    out.push((String::from_str("navigation.position"), Reading::Position(fix)));
                    assert(entries_view(out@) =~= seq![kv]);
                    return Some(out);
                },
                Ok(None) => {},
            }
        }
        i = i + 1;
    }
    let out: Vec<(String, Reading)> = Vec::new();
    assert(entries_view(out@) =~= Seq::empty());
    Some(out)
}

/// Projects a decoded frame onto Signal K paths.
///
/// A `LatLon` frame gives `navigation.position` from the first value whose
/// text holds a position. Other frames give, for each value with a channel
/// number that is neither dropped nor collapsed: the autopilot state, a
/// routed magnetic or true path (by the `°M` layout), a standard path, a
/// vendor path or an unknown path; the depth is placed last, from metres,
/// else feet, else fathoms. Numbers keep their exact value and carry the
/// conversion to SI units.
pub fn project(decoded_frame: &DecodedFrame) -> (r: Vec<(String, Reading)>)
    requires
        project_outcome(decoded_frame@) is Some,
    ensures
        entries_view(r@) == project_outcome(decoded_frame@).unwrap(),
{
    if text_eq(decoded_frame.command.as_str(), "LatLon") {
        return match project_position(&decoded_frame.values) {
            Some(out) => out,
            None => Vec::new(),
        };
    }
    let values = &decoded_frame.values;
    let ghost vs = entries_view(values@);
    let mut out: Vec<(String, Reading)> = Vec::new();
    let mut meters: Option<Scaled> = None;
    let mut feet: Option<Scaled> = None;
    let mut fathoms: Option<Scaled> = None;
    let mut i: usize = 0;
    proof {
        assert(vs.take(0) =~= Seq::<(Seq<char>, DecodedValueView)>::empty());
        assert(entries_view(out@) =~= Seq::empty());
    }
    while i < values.len()
        invariant
            vs == entries_view(values@),
            i <= values.len(),
            (entries_view(out@), DepthSeen { meters, feet, fathoms }) == project_fold(
                vs.take(i as int),
            ),
        decreases values.len() - i,
    {
        assert(vs.take(i + 1).drop_last() =~= vs.take(i as int));
        assert(vs.take(i + 1).last() == vs[i as int]);
        let v = &values[i].1;
        match parse_channel_id(v.channel_id.as_str()) {
            None => {},
            Some(cid) => {
                if cid == 0x00 || cid == 0x50 || cid == 0x68 || cid == 0x6A || cid == 0x36 || cid
                    == 0x37 || cid == 0xC9 || cid == 0x1C || cid == 0x1E || cid == 0x4D || cid
                    == 0x55 || cid == 0x65 {
                } else if cid == 0xC1 || cid == 0xC2 || cid == 0xC3 {
                    if let Some(x) = v.value {
                        if cid == 0xC1 {
                            meters = Some(x);
                        } else if cid == 0xC2 {
                            feet = Some(x);
                        } else {
                            fathoms = Some(x);
                        }
                    }
                } else if cid == 0xB5 {
                    if let Some(n) = ap_state(v.value) {
                        upsert_entry(
                            &mut out,
                            String::from_str("steering.autopilot.state"),
                            Reading::Number(
                                Conversion::Identity,
                                Scaled { negative: false, magnitude: n, divisor: 1 },
                            ),
                        );
                    }
                } else if let Some(stem) = routed_stem_of(cid) {
                    if let Some(x) = v.value {
                        let magnetic = match &v.layout {
                            Some(l) => text_eq(l.as_str(), "°M"),
                            None => false,
                        };
                        let path = if magnetic {
                            String::from_str(stem).concat("Magnetic")
                        } else {
                            String::from_str(stem).concat("True")
                        };
                        upsert_entry(&mut out, path, Reading::Number(Conversion::Degrees, x));
                    }
                } else if let Some((p, c)) = standard_path_of(cid) {
                    if let Some(x) = v.value {
                        upsert_entry(&mut out, String::from_str(p), Reading::Number(c, x));
                    }
                } else if let Some((p, c)) = vendor_path_of(cid) {
                    if let Some(x) = v.value {
                        upsert_entry(&mut out, String::from_str(p), Reading::Number(c, x));
                    }
                } else {
                    if let Some(x) = v.value {
                        upsert_entry(
                            &mut out,
                            unknown_path_string(cid),
                            Reading::Number(Conversion::Identity, x),
                        );
                    }
                }
            },
        }
        i = i + 1;
    }
    assert(vs.take(i as int) =~= vs);
    if let Some(x) = meters {
        upsert_entry(
            &mut out,
            String::from_str("environment.depth.belowTransducer"),
            Reading::Number(Conversion::Identity, x),
        );
    } else if let Some(x) = feet {
        upsert_entry(
            &mut out,
            String::from_str("environment.depth.belowTransducer"),
            Reading::Number(Conversion::Feet, x),
        );
    } else if let Some(x) = fathoms {
        upsert_entry(
            &mut out,
            String::from_str("environment.depth.belowTransducer"),
            Reading::Number(Conversion::Fathoms, x),
        );
    }
    out
}

/// Projects a decoded frame as `project` does, or gives `None` for a
/// `LatLon` frame whose position text cannot be read (see `project_outcome`).
pub fn project_checked(decoded_frame: &DecodedFrame) -> (r: Option<Vec<(String, Reading)>>)
    ensures
        r is Some <==> project_outcome(decoded_frame@) is Some,
        r matches Some(v) ==> entries_view(v@) == project_outcome(decoded_frame@).unwrap(),
{
    if text_eq(decoded_frame.command.as_str(), "LatLon") {
        project_position(&decoded_frame.values)
    } else {
        Some(project(decoded_frame))
    }
}

/// A frame other than `LatLon` that holds one channel value with a number is
/// projected onto exactly the path that `channel_map` gives for the channel
/// (see `disposition`): onto nothing for a dropped or collapsed channel, else
/// onto that one path. Routed channels, whose map path names both the
/// magnetic and the true path, and the autopilot channel, whose mode word may
/// not name a state, are not covered.
#[verifier::rlimit(60)]
pub proof fn lemma_single_channel_lands_on_map_path(f: DecodedFrameView, cid: u8, x: Scaled)
    requires
        f.command != "LatLon"@,
        f.values.len() == 1,
        f.values[0].1.channel_id == channel_id_text(cid),
        f.values[0].1.value == Some(x),
        routed_stem(cid) is None,
        !is_autopilot(cid),
    ensures
        (is_dropped(cid) || is_collapsed(cid)) ==> project_outcome(f) == Some(
            Seq::<(Seq<char>, ReadingView)>::empty(),
        ),
        !(is_dropped(cid) || is_collapsed(cid)) ==> (project_outcome(f) matches Some(out)
            && out.len() == 1 && out[0].0 == disposition(cid, f.values[0].0).path),
{
    lemma_channel_id_reads_back(cid);
    lemma_disposition_path(cid, f.values[0].0);
    let vs = f.values;
    assert(vs.drop_last() =~= Seq::<(Seq<char>, DecodedValueView)>::empty());
    assert(vs.last() == vs[0]);
    let empty = Seq::<(Seq<char>, ReadingView)>::empty();
    let none = DepthSeen { meters: None, feet: None, fathoms: None };
    assert(project_fold(vs.drop_last()) == (empty, none));
    assert(project_fold(vs) == project_step(empty, none, vs[0].1));
    assert forall|k: Seq<char>, r: ReadingView| #[trigger] upsert(empty, k, r) == seq![(k, r)] by {
        assert(last_index(empty, k) is None);
        assert(empty.push((k, r)) =~= seq![(k, r)]);
    }
}

/// The path in a channel's disposition.
proof fn lemma_disposition_path(cid: u8, name: Seq<char>)
    ensures
        disposition(cid, name).path == if routed_stem(cid) is Some {
            routed_stem(cid).unwrap() + "{Magnetic,True}"@
        } else if is_depth(cid) {
            depth_path()
        } else if is_autopilot(cid) {
            autopilot_path()
        } else if standard_path(cid) is Some {
            standard_path(cid).unwrap().0
        } else if vendor_path(cid) is Some {
            vendor_path(cid).unwrap().0
        } else if is_collapsed(cid) {
            "→ "@ + collapsed_target(cid)
        } else if is_dropped(cid) {
            "—"@
        } else {
            unknown_path(cid)
        },
{
}

/// One projection step keeps one entry per path.
proof fn lemma_project_step_keys_unique(
    out: Seq<(Seq<char>, ReadingView)>,
    depth: DepthSeen,
    v: DecodedValueView,
)
    requires
        keys_unique(out),
    ensures
        keys_unique(project_step(out, depth, v).0),
{
    match channel_number(v.channel_id) {
        None => {},
        Some(cid) => {
            if is_autopilot(cid) {
                match autopilot_state(v.value) {
                    Some(n) => lemma_upsert_keeps_keys_unique(
                        out,
                        autopilot_path(),
                        ReadingView::Number(
                            Conversion::Identity,
                            Scaled { negative: false, magnitude: n as u32, divisor: 1 },
                        ),
                    ),
                    None => {},
                }
            }
            match v.value {
                Some(x) => {
                    if routed_stem(cid) is Some {
                        lemma_upsert_keeps_keys_unique(
                            out,
                            routed_path(routed_stem(cid).unwrap(), v.layout),
                            ReadingView::Number(Conversion::Degrees, x),
                        );
                    }
                    if standard_path(cid) is Some {
                        lemma_upsert_keeps_keys_unique(
                            out,
                            standard_path(cid).unwrap().0,
                            ReadingView::Number(standard_path(cid).unwrap().1, x),
                        );
                    }
                    if vendor_path(cid) is Some {
                        lemma_upsert_keeps_keys_unique(
                            out,
                            vendor_path(cid).unwrap().0,
                            ReadingView::Number(vendor_path(cid).unwrap().1, x),
                        );
                    }
                    lemma_upsert_keeps_keys_unique(
                        out,
                        unknown_path(cid),
                        ReadingView::Number(Conversion::Identity, x),
                    );
                },
                None => {},
            }
        },
    }
}

/// The projection before depth is placed keeps one entry per path.
proof fn lemma_project_fold_keys_unique(values: Seq<(Seq<char>, DecodedValueView)>)
    ensures
        keys_unique(project_fold(values).0),
    decreases values.len(),
{
    if values.len() > 0 {
        lemma_project_fold_keys_unique(values.drop_last());
        let (out, depth) = project_fold(values.drop_last());
        lemma_project_step_keys_unique(out, depth, values.last().1);
    }
}

/// A projection holds one reading per path.
pub proof fn lemma_projected_keys_unique(f: DecodedFrameView)
    ensures
        project_outcome(f) matches Some(out) ==> keys_unique(out),
{
    if f.command != "LatLon"@ {
        lemma_project_fold_keys_unique(f.values);
        let (out, depth) = project_fold(f.values);
        match (depth.meters, depth.feet, depth.fathoms) {
            (Some(x), _, _) => lemma_upsert_keeps_keys_unique(
                out,
                depth_path(),
                ReadingView::Number(Conversion::Identity, x),
            ),
            (None, Some(x), _) => lemma_upsert_keeps_keys_unique(
                out,
                depth_path(),
                ReadingView::Number(Conversion::Feet, x),
            ),
            (None, None, Some(x)) => lemma_upsert_keeps_keys_unique(
                out,
                depth_path(),
                ReadingView::Number(Conversion::Fathoms, x),
            ),
            _ => {},
        }
    } else {
        lemma_latlon_search_keys_unique(f.values);
    }
}

/// The projection of a position frame holds at most one reading.
proof fn lemma_latlon_search_keys_unique(values: Seq<(Seq<char>, DecodedValueView)>)
    ensures
        latlon_search(values) matches Some(out) ==> out.len() <= 1 && keys_unique(out),
    decreases values.len(),
{
    if values.len() > 0 {
        lemma_latlon_search_keys_unique(values.drop_first());
    }
}

/// A position frame (command 0x03) whose bytes after the channel id and one
/// skipped byte, up to the checksum, are UTF-8 text that, trimmed, holds a
/// position, decodes to a single value with that trimmed text, and projects
/// onto `navigation.position` holding that position.
pub proof fn lemma_latlon_frame_projects_position(f: Seq<u8>)
    requires
        f.len() >= 8,
        f[3] == 0x03,
        vstd::utf8::valid_utf8(f.subrange(7, f.len() - 1)),
        position_outcome(trim_text(vstd::utf8::decode_utf8(f.subrange(7, f.len() - 1)))) is Fix,
    ensures
        ({
            let text = trim_text(vstd::utf8::decode_utf8(f.subrange(7, f.len() - 1)));
            &&& decode_ascii_frame_spec(f) is Ok
            &&& decode_ascii_frame_spec(f).unwrap().values.len() == 1
            &&& decode_ascii_frame_spec(f).unwrap().values[0].1.display_text == Some(text)
            &&& match position_outcome(text) {
                PositionOutcome::Fix(p) => project_outcome(decode_ascii_frame_spec(f).unwrap())
                    == Some(seq![("navigation.position"@, ReadingView::Position(p))]),
                _ => false,
            }
        }),
{
    let body = f.subrange(5, f.len() - 1);
    assert(body.skip(2) =~= f.subrange(7, f.len() - 1));
    reveal_strlit("LatLon");
    let d = decode_ascii_frame_spec(f).unwrap();
    assert(d.command == "LatLon"@);
    let vs = d.values;
    assert(vs.drop_first() =~= Seq::<(Seq<char>, DecodedValueView)>::empty());
    assert(position_path() == "navigation.position"@);
}

/// A frame other than `LatLon` holding one numeric value of a standard or
/// depth channel projects to one reading that keeps the exact number and
/// carries the conversion from the unit the bus reports the channel in to
/// the unit `unit_for` gives for the projected path.
pub proof fn lemma_single_channel_units(f: DecodedFrameView, cid: u8, x: Scaled)
    requires
        f.command != "LatLon"@,
        f.values.len() == 1,
        f.values[0].1.channel_id == channel_id_text(cid),
        f.values[0].1.value == Some(x),
        bus_unit(cid) is Some,
    ensures
        project_outcome(f) matches Some(out) && out.len() == 1 && (out[0].1 matches ReadingView::Number(
            c,
            y,
        ) && y == x && unit_after(c, bus_unit(cid).unwrap()) == Some(unit_of(out[0].0))),
{
    lemma_channel_id_reads_back(cid);
    lemma_standard_conversions_reach_path_units(cid);
    lemma_unit_paths_distinct();
    let vs = f.values;
    assert(vs.drop_last() =~= Seq::<(Seq<char>, DecodedValueView)>::empty());
    assert(vs.last() == vs[0]);
    let empty = Seq::<(Seq<char>, ReadingView)>::empty();
    let none = DepthSeen { meters: None, feet: None, fathoms: None };
    assert(project_fold(vs.drop_last()) == (empty, none));
    assert(project_fold(vs) == project_step(empty, none, vs[0].1));
    assert forall|k: Seq<char>, r: ReadingView| #[trigger] upsert(empty, k, r) == seq![(k, r)] by {
        assert(last_index(empty, k) is None);
        assert(empty.push((k, r)) =~= seq![(k, r)]);
    }
}

} // verus!
