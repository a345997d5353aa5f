//! Name tables of the FastNet bus: node addresses, commands, channels, data
//! formats and display symbols.
//!
//! Each table is given twice, as a spec function that contracts speak of and as
//! an executable lookup proved equal to it. The tables list the codes whose
//! meaning this crate knows; any other code reads as unnamed.
use vstd::prelude::*;

verus! {

/// The text view of an optional string literal.
pub open spec fn opt_text(s: Option<&'static str>) -> Option<Seq<char>> {
    match s {
        Some(t) => Some(t@),
        None => None,
    }
}

/// The name of a bus node address.
pub open spec fn address_name(a: u8) -> Option<Seq<char>> {
    match a {
        0x05 => Some("Normal CPU (Wind Board in H2000)"@),
        0xFF => Some("Entire System"@),
        _ => None,
    }
}

/// Looks up the name of a bus node address.
pub fn address_name_of(a: u8) -> (r: Option<&'static str>)
    ensures
        opt_text(r) == address_name(a),
{
    match a {
        0x05 => Some("Normal CPU (Wind Board in H2000)"),
        0xFF => Some("Entire System"),
        _ => None,
    }
}

/// The name of a frame command.
pub open spec fn command_name(c: u8) -> Option<Seq<char>> {
    match c {
        0x01 => Some("Broadcast"@),
        0x03 => Some("LatLon"@),
        0xC9 => Some("Light Intensity"@),
        _ => None,
    }
}

/// Looks up the name of a frame command.
pub fn command_name_of(c: u8) -> (r: Option<&'static str>)
    ensures
        opt_text(r) == command_name(c),
{
    match c {
        0x01 => Some("Broadcast"),
        0x03 => Some("LatLon"),
        0xC9 => Some("Light Intensity"),
        _ => None,
    }
}

/// The command of frames whose body is a list of channel records.
pub const BROADCAST: u8 = 0x01;

/// The command of frames whose body is a position written in ASCII.
pub const LATLON: u8 = 0x03;

/// The command of frames whose body is a backlight level.
pub const LIGHT_INTENSITY: u8 = 0xC9;

/// The name of a data channel.
pub open spec fn channel_name(id: u8) -> Option<Seq<char>> {
    match id {
        0x0C => Some("Linear 5"@),
        0x34 => Some("Heel Angle"@),
        0x4F => Some("Apparent Wind Speed (m/s)"@),
        0x51 => Some("Apparent Wind Angle"@),
        0x6D => Some("True Wind Direction"@),
        0x85 => Some("Upwash"@),
        0xB5 => Some("Autopilot Mode"@),
        0xC1 => Some("Depth (Meters)"@),
        0xC2 => Some("Depth (Feet)"@),
        _ => None,
    }
}

/// Looks up the name of a data channel.
pub fn channel_name_of(id: u8) -> (r: Option<&'static str>)
    ensures
        opt_text(r) == channel_name(id),
{
    match id {
        0x0C => Some("Linear 5"),
        0x34 => Some("Heel Angle"),
        0x4F => Some("Apparent Wind Speed (m/s)"),
        0x51 => Some("Apparent Wind Angle"),
        0x6D => Some("True Wind Direction"),
        0x85 => Some("Upwash"),
        0xB5 => Some("Autopilot Mode"),
        0xC1 => Some("Depth (Meters)"),
        0xC2 => Some("Depth (Feet)"),
        _ => None,
    }
}

/// The channels that have a name, in ascending order of their ids.
pub open spec fn named_channels() -> Seq<u8> {
    seq![0x0Cu8, 0x34, 0x4F, 0x51, 0x6D, 0x85, 0xB5, 0xC1, 0xC2]
}

/// The named channels, in ascending order of their ids.
pub fn named_channel_ids() -> (r: Vec<u8>)
    ensures
        r@ == named_channels(),
{
    let r = vec![0x0Cu8, 0x34, 0x4F, 0x51, 0x6D, 0x85, 0xB5, 0xC1, 0xC2];
    assert(r@ =~= named_channels());
    r
}

/// Exactly the named channels are listed, each once.
pub proof fn lemma_named_channels_listed(id: u8)
    ensures
        channel_name(id) is Some <==> named_channels().contains(id),
        forall|i: int, j: int|
            0 <= i < j < named_channels().len() ==> named_channels()[i] != named_channels()[j],
{
    if channel_name(id) is Some {
        let s = named_channels();
        if id == 0x0C {
            assert(s[0] == id);
        } else if id == 0x34 {
            assert(s[1] == id);
        } else if id == 0x4F {
            assert(s[2] == id);
        } else if id == 0x51 {
            assert(s[3] == id);
        } else if id == 0x6D {
            assert(s[4] == id);
        } else if id == 0x85 {
            assert(s[5] == id);
        } else if id == 0xB5 {
            assert(s[6] == id);
        } else if id == 0xC1 {
            assert(s[7] == id);
        } else {
            assert(s[8] == id);
        }
    }
}

/// The number of data bytes that follow a channel record's format byte, by
/// the low four bits of the format byte.
pub open spec fn format_size(format_bits: u8) -> nat {
    match format_bits {
        0x00 => 4,
        0x01 => 2,
        0x02 => 2,
        0x03 => 2,
        0x04 => 4,
        0x05 => 4,
        0x06 => 4,
        0x07 => 4,
        0x08 => 2,
        0x0A => 4,
        _ => 0,
    }
}

/// Looks up the data size of a record format.
pub fn format_size_of(format_bits: u8) -> (r: usize)
    ensures
        r == format_size(format_bits),
{
    match format_bits {
        0x00 => 4,
        0x01 => 2,
        0x02 => 2,
        0x03 => 2,
        0x04 => 4,
        0x05 => 4,
        0x06 => 4,
        0x07 => 4,
        0x08 => 2,
        0x0A => 4,
        _ => 0,
    }
}

/// The layout symbol that a segment code shows around a number.
pub open spec fn segment_a(code: u8) -> Option<Seq<char>> {
    match code {
        0xF3 => Some("H[data]"@),
        _ => None,
    }
}

/// Looks up the layout symbol of a segment code.
pub fn segment_a_of(code: u8) -> (r: Option<&'static str>)
    ensures
        opt_text(r) == segment_a(code),
{
    match code {
        0xF3 => Some("H[data]"),
        _ => None,
    }
}

/// The glyph shown by a seven-segment display byte. No glyph codes are
/// catalogued: every byte reads as unnamed.
pub open spec fn segment_b(code: u8) -> Option<Seq<char>> {
    None
}

/// Looks up the glyph of a seven-segment display byte.
pub fn segment_b_of(code: u8) -> (r: Option<&'static str>)
    ensures
        opt_text(r) == segment_b(code),
{
    None
}

/// The name of an autopilot mode, by the low byte of the mode word. No mode
/// codes are catalogued: every low byte reads as unnamed.
pub open spec fn autopilot_mode(low: u8) -> Option<Seq<char>> {
    None
}

/// Looks up the name of an autopilot mode.
pub fn autopilot_mode_of(low: u8) -> (r: Option<&'static str>)
    ensures
        opt_text(r) == autopilot_mode(low),
{
    None
}

/// The name of a backlight level.
pub open spec fn backlight_level(level: u8) -> Option<Seq<char>> {
    match level {
        0x00 => Some("Off"@),
        0x01 => Some("Low"@),
        0x02 => Some("Medium"@),
        0x04 => Some("High"@),
        _ => None,
    }
}

/// Looks up the name of a backlight level.
pub fn backlight_level_of(level: u8) -> (r: Option<&'static str>)
    ensures
        opt_text(r) == backlight_level(level),
{
    match level {
        0x00 => Some("Off"),
        0x01 => Some("Low"),
        0x02 => Some("Medium"),
        0x04 => Some("High"),
        _ => None,
    }
}

} // verus!
