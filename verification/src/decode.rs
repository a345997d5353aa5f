//! Decoding of FastNet frames: channel records, ASCII position frames and
//! backlight frames.
use vstd::prelude::*;
use vstd::string::*;

use crate::constants::{
    address_name, address_name_of, autopilot_mode, autopilot_mode_of, backlight_level,
    backlight_level_of, channel_name,
    channel_name_of, command_name, command_name_of, format_size, format_size_of, opt_text,
    segment_a, segment_a_of, segment_b, segment_b_of,
};
use crate::text::{
    chars_of, dec_digits, fixed_text, hex2, lemma_pow10_bound, pad2, pow10, pow10_u64, push_decimal,
    push_fixed, push_hex_byte, push_pad2, push_short, push_sign, short_text, sign_text, text_eq,
    trim, trim_text, utf8_text,
};

verus! {

/// An exact decoded number: `±magnitude / divisor`, with the sign kept apart so
/// that a negative zero stays distinguishable from zero.
#[derive(Clone, Copy, Debug, PartialEq, Eq, Structural)]
pub struct Scaled {
    pub negative: bool,
    pub magnitude: u32,
    pub divisor: u32,
}

/// A value decoded from one channel record.
#[derive(Clone, Debug)]
pub struct DecodedValue {
    /// The channel id written as `0x` and two upper-case hex digits.
    pub channel_id: String,
    /// The number the record carries, if it carries one.
    pub value: Option<Scaled>,
    /// The text an instrument display shows for the record.
    pub display_text: Option<String>,
    /// The layout symbol placed around the number on the display.
    pub layout: Option<String>,
}

/// What a `DecodedValue` holds, with its texts as character sequences.
pub struct DecodedValueView {
    pub channel_id: Seq<char>,
    pub value: Option<Scaled>,
    pub display_text: Option<Seq<char>>,
    pub layout: Option<Seq<char>>,
}

/// The text view of an optional string.
pub open spec fn opt_string(s: Option<String>) -> Option<Seq<char>> {
    match s {
        Some(t) => Some(t@),
        None => None,
    }
}

impl View for DecodedValue {
    type V = DecodedValueView;

    open spec fn view(&self) -> DecodedValueView {
        DecodedValueView {
            channel_id: self.channel_id@,
            value: self.value,
            display_text: opt_string(self.display_text),
            layout: opt_string(self.layout),
        }
    }
}

/// A channel id as the decoder writes it: `0x` and two upper-case hex digits.
pub open spec fn channel_id_text(cid: u8) -> Seq<char> {
    "0x"@ + hex2(cid)
}

/// The name given to a code that a table does not know: `Unknown (0x..)`.
pub open spec fn unknown_code_text(code: u8) -> Seq<char> {
    "Unknown (0x"@ + hex2(code) + ")"@
}

/// A table name, or the unknown-code text when the table has none.
pub open spec fn name_or_unknown(name: Option<Seq<char>>, code: u8) -> Seq<char> {
    match name {
        Some(n) => n,
        None => unknown_code_text(code),
    }
}

/// A signed integer written in decimal.
pub open spec fn int_text(v: int) -> Seq<char> {
    sign_text(v < 0) + dec_digits(abs(v) as nat)
}

/// The absolute value of an integer.
pub open spec fn abs(v: int) -> int {
    if v < 0 {
        -v
    } else {
        v
    }
}

/// The signed 16-bit big-endian integer held by two bytes.
pub open spec fn be_i16(hi: u8, lo: u8) -> int {
    let u = hi as int * 256 + lo as int;
    if u >= 32768 {
        u - 65536
    } else {
        u
    }
}

/// The unsigned 32-bit big-endian integer held by four bytes.
pub open spec fn be_u32(d: Seq<u8>) -> nat {
    ((d[0] as nat * 256 + d[1] as nat) * 256 + d[2] as nat) * 256 + d[3] as nat
}

/// The exact number `v / divisor`.
pub open spec fn signed_scaled(v: int, divisor: nat) -> Scaled {
    Scaled { negative: v < 0, magnitude: abs(v) as u32, divisor: divisor as u32 }
}

/// A record with no number, no text and no layout.
pub open spec fn empty_value(cid: u8) -> DecodedValueView {
    DecodedValueView {
        channel_id: channel_id_text(cid),
        value: None,
        display_text: None,
        layout: None,
    }
}

/// Whether a layout symbol makes the number negative: `-[data]`, `=[data]`,
/// `L[data]` and `H[data]` do.
pub open spec fn layout_is_negative(layout: Option<Seq<char>>) -> bool {
    layout == Some("-[data]"@) || layout == Some("=[data]"@) || layout == Some("L[data]"@)
        || layout == Some("H[data]"@)
}

/// `s` without its leading `'-'` characters.
pub open spec fn strip_leading_dashes(s: Seq<char>) -> Seq<char>
    decreases s.len(),
{
    if s.len() > 0 && s[0] == '-' {
        strip_leading_dashes(s.drop_first())
    } else {
        s
    }
}

/// The display text of a number `f` placed in a layout symbol.
pub open spec fn layout_text(layout: Option<Seq<char>>, f: Seq<char>) -> Seq<char> {
    match layout {
        None => f,
        Some(l) => if l == "°M"@ {
            f + "°M"@
        } else if l == "H[data]"@ {
            "H"@ + strip_leading_dashes(f)
        } else if l == "[data]H"@ {
            f + "H"@
        } else if l == "[data]="@ {
            f + "="@
        } else if l == "[data]-"@ {
            f + "-"@
        } else if l == "[data]°C"@ {
            f + "°C"@
        } else if l == "[data]°F"@ {
            f + "°F"@
        } else if l == "[data]L"@ {
            f + "L"@
        } else if l == "L[data]"@ {
            "L"@ + f
        } else if l == "[data]z"@ {
            f + "z"@
        } else if l == "z[data]"@ {
            "z"@ + f
        } else if l == "u[data]"@ {
            "u"@ + f
        } else if l == "d[data]"@ {
            "d"@ + f
        } else {
            f
        },
    }
}

/// The display text of a seven-segment display: each byte's glyph, or `TBC`
/// for a byte without one.
pub open spec fn segment_text(d: Seq<u8>) -> Seq<char>
    decreases d.len(),
{
    if d.len() == 0 {
        Seq::empty()
    } else {
        segment_text(d.drop_last()) + match segment_b(d.last()) {
            Some(g) => g,
            None => "TBC"@,
        }
    }
}

/// The display text of the autopilot mode word `hi lo`, whose value is `raw`.
pub open spec fn autopilot_text(hi: u8, lo: u8, raw: int) -> Seq<char> {
    if hi == 0x50 {
        "Standby"@
    } else if (hi == 0x51 || hi == 0x59) && autopilot_mode(lo) is Some {
        autopilot_mode(lo).unwrap()
    } else {
        "Unknown ("@ + int_text(raw) + ")"@
    }
}

/// What one channel record decodes to, from its channel id, format byte and
/// data bytes.
///
/// The top two bits of the format byte give the number of decimal places
/// (the divisor is ten to that power); the low four bits give the data format.
/// A record whose data does not have the size its format needs carries
/// nothing.
#[verifier::opaque]
pub open spec fn decoded_value(cid: u8, format_byte: u8, d: Seq<u8>) -> DecodedValueView {
    let places = (format_byte / 64) as nat;
    let divisor = pow10(places);
    let fmt = format_byte % 16;
    let id = channel_id_text(cid);
    if d.len() == 0 {
        empty_value(cid)
    } else if fmt == 0x01 || fmt == 0x02 || fmt == 0x03 || fmt == 0x08 {
        if d.len() != 2 {
            empty_value(cid)
        } else if fmt == 0x01 {
            let raw = be_i16(d[0], d[1]);
            if cid == 0xB5 {
                DecodedValueView {
                    channel_id: id,
                    value: Some(signed_scaled(raw, 1)),
                    display_text: Some(autopilot_text(d[0], d[1], raw)),
                    layout: None,
                }
            } else {
                DecodedValueView {
                    channel_id: id,
                    value: Some(signed_scaled(raw, divisor)),
                    display_text: Some(fixed_text(raw < 0, abs(raw) as nat, places)),
                    layout: None,
                }
            }
        } else if fmt == 0x02 {
            let u = (d[0] % 4) as nat * 256 + d[1] as nat;
            DecodedValueView {
                channel_id: id,
                value: Some(signed_scaled(u as int, divisor)),
                display_text: Some(fixed_text(false, u, places)),
                layout: None,
            }
        } else if fmt == 0x03 {
            let layout = segment_a(d[0]);
            let neg = layout_is_negative(layout);
            DecodedValueView {
                channel_id: id,
                value: Some(Scaled { negative: neg, magnitude: d[1] as u32, divisor: divisor as u32 }),
                display_text: Some(layout_text(layout, fixed_text(neg, d[1] as nat, places))),
                layout: layout,
            }
        } else {
            let layout = segment_a(d[0] / 2);
            let u = (d[0] % 2) as nat * 256 + d[1] as nat;
            DecodedValueView {
                channel_id: id,
                value: Some(signed_scaled(u as int, divisor)),
                display_text: Some(layout_text(layout, fixed_text(false, u, places))),
                layout: layout,
            }
        }
    } else if fmt == 0x04 || fmt == 0x05 || fmt == 0x06 || fmt == 0x07 || fmt == 0x0A {
        if d.len() != 4 {
            empty_value(cid)
        } else if fmt == 0x04 {
            let u = be_u32(d);
            DecodedValueView {
                channel_id: id,
                value: Some(signed_scaled(u as int, divisor)),
                display_text: Some(fixed_text(false, u, places)),
                layout: None,
            }
        } else if fmt == 0x05 {
            let secs = d[1] as nat * 3600 + d[2] as nat * 60 + d[3] as nat;
            DecodedValueView {
                channel_id: id,
                value: Some(signed_scaled(secs as int, 1)),
                display_text: Some(
                    pad2(d[1] as nat) + ":"@ + pad2(d[2] as nat) + ":"@ + pad2(d[3] as nat),
                ),
                layout: None,
            }
        } else if fmt == 0x06 {
            DecodedValueView {
                channel_id: id,
                value: None,
                display_text: Some(segment_text(d)),
                layout: None,
            }
        } else if fmt == 0x07 {
            let layout = segment_a(d[1]);
            let neg = layout_is_negative(layout);
            let u = (d[2] % 128) as nat * 256 + d[3] as nat;
            DecodedValueView {
                channel_id: id,
                value: Some(Scaled { negative: neg, magnitude: u as u32, divisor: divisor as u32 }),
                display_text: Some(layout_text(layout, fixed_text(neg, u, places))),
                layout: layout,
            }
        } else {
            let first = be_i16(d[0], d[1]);
            let second = be_i16(d[2], d[3]);
            DecodedValueView {
                channel_id: id,
                value: Some(signed_scaled(first, divisor)),
                display_text: Some(
                    short_text(first < 0, abs(first) as nat, places) + " / "@ + short_text(
                        second < 0,
                        abs(second) as nat,
                        places,
                    ),
                ),
                layout: None,
            }
        }
    } else {
        empty_value(cid)
    }
}


/// A format 0x01 record (other than the autopilot mode word) holds a signed
/// 16-bit big-endian word: the value is negative exactly when the top bit of
/// the first data byte is set, its magnitude is then `65536 - word`, and it is
/// divided by ten to the number of decimal places in the top two bits of the
/// format byte. The display text shows that signed number with those places.
pub proof fn lemma_signed_word_records(cid: u8, format_byte: u8, d: Seq<u8>)
    requires
        format_byte % 16 == 0x01,
        cid != 0xB5,
        d.len() == 2,
    ensures
        ({
            let word = d[0] as nat * 256 + d[1] as nat;
            let negative = d[0] >= 128;
            let magnitude = if negative {
                (65536 - word) as nat
            } else {
                word
            };
            let places = (format_byte / 64) as nat;
            &&& decoded_value(cid, format_byte, d).value == Some(
                Scaled {
                    negative,
                    magnitude: magnitude as u32,
                    divisor: pow10(places) as u32,
                },
            )
            &&& decoded_value(cid, format_byte, d).display_text == Some(
                fixed_text(negative, magnitude, places),
            )
        }),
{
    reveal(decoded_value);
}

/// The text view of an optional string slice.
pub open spec fn opt_str(s: Option<&str>) -> Option<Seq<char>> {
    match s {
        Some(t) => Some(t@),
        None => None,
    }
}

/// A channel id written as `0x` and two upper-case hex digits.
fn channel_id_string(cid: u8) -> (r: String)
    ensures
        r@ == channel_id_text(cid),
{
    let mut s = String::from_str("0x");
    push_hex_byte(&mut s, cid);
    s
}

/// The name of a code a table does not know: `Unknown (0x..)`.
pub fn unknown_code_string(code: u8) -> (r: String)
    ensures
        r@ == unknown_code_text(code),
{
    let mut s = String::from_str("Unknown (0x");
    push_hex_byte(&mut s, code);
    s.append(")");
    s
}

/// A table name as a `String`, or the unknown-code text when there is none.
pub fn name_or_unknown_string(name: Option<&'static str>, code: u8) -> (r: String)
    ensures
        r@ == name_or_unknown(opt_text(name), code),
{
    match name {
        Some(n) => String::from_str(n),
        None => unknown_code_string(code),
    }
}

/// Appends a signed integer in decimal.
fn push_int(s: &mut String, v: i64)
    requires
        v > i64::MIN,
    ensures
        final(s)@ == old(s)@ + int_text(v as int),
{
    push_sign(s, v < 0);
    let m: u64 = if v < 0 {
        (-v) as u64
    } else {
        v as u64
    };
    push_decimal(s, m);
    assert(final(s)@ =~= old(s)@ + int_text(v as int));
}

/// The sign a layout symbol gives the number: `-1` for `-[data]`, `=[data]`,
/// `L[data]` and `H[data]`, `1` otherwise.
fn sign_from_layout(layout: Option<&str>) -> (r: i32)
    ensures
        r == (if layout_is_negative(opt_str(layout)) {
            -1i32
        } else {
            1i32
        }),
{
    match layout {
        Some(l) => {
            if text_eq(l, "-[data]") || text_eq(l, "=[data]") || text_eq(l, "L[data]") || text_eq(
                l,
                "H[data]",
            ) {
                -1
            } else {
                1
            }
        },
        None => 1,
    }
}

/// `s` without its leading `'-'` characters.
fn trim_leading_dashes(s: &str) -> (r: &str)
    ensures
        r@ == strip_leading_dashes(s@),
{
    let c = chars_of(s);
    let mut a: usize = 0;
    assert(c@.subrange(0, c@.len() as int) =~= c@);
    while a < c.len() && c[a] == '-'
        invariant
            c@ == s@,
            a <= c.len(),
            strip_leading_dashes(s@) == strip_leading_dashes(c@.subrange(a as int, c@.len() as int)),
        decreases c.len() - a,
    {
        assert(c@.subrange(a as int, c@.len() as int).drop_first() =~= c@.subrange(
            a + 1,
            c@.len() as int,
        ));
        a = a + 1;
    }
    proof {
        let t = c@.subrange(a as int, c@.len() as int);
        if a < c.len() {
            assert(t[0] == c@[a as int]);
        }
        assert(strip_leading_dashes(t) == t);
    }
    s.substring_char(a, c.len())
}

/// The display text of the number `formatted` placed in a layout symbol.
fn display_from_layout(layout: Option<&str>, formatted: &str) -> (r: String)
    ensures
        r@ == layout_text(opt_str(layout), formatted@),
{
    match layout {
        None => String::from_str(formatted),
        Some(l) => {
            if text_eq(l, "°M") {
                String::from_str(formatted).concat("°M")
            } else if text_eq(l, "H[data]") {
                String::from_str("H").concat(trim_leading_dashes(formatted))
            } else if text_eq(l, "[data]H") {
                String::from_str(formatted).concat("H")
            } else if text_eq(l, "[data]=") {
                String::from_str(formatted).concat("=")
            } else if text_eq(l, "[data]-") {
                String::from_str(formatted).concat("-")
            } else if text_eq(l, "[data]°C") {
                String::from_str(formatted).concat("°C")
            } else if text_eq(l, "[data]°F") {
                String::from_str(formatted).concat("°F")
            } else if text_eq(l, "[data]L") {
                String::from_str(formatted).concat("L")
            } else if text_eq(l, "L[data]") {
                String::from_str("L").concat(formatted)
            } else if text_eq(l, "[data]z") {
                String::from_str(formatted).concat("z")
            } else if text_eq(l, "z[data]") {
                String::from_str("z").concat(formatted)
            } else if text_eq(l, "u[data]") {
                String::from_str("u").concat(formatted)
            } else if text_eq(l, "d[data]") {
                String::from_str("d").concat(formatted)
            } else {
                String::from_str(formatted)
            }
        },
    }
}


/// A record with no number, no text and no layout.
fn empty_decoded(cid: u8) -> (r: DecodedValue)
    ensures
        r@ == empty_value(cid),
{
    DecodedValue { channel_id: channel_id_string(cid), value: None, display_text: None, layout: None }
}

/// The exact number `v / divisor`.
fn scaled_of(v: i64, divisor: u32) -> (r: Scaled)
    requires
        -(u32::MAX as int) <= v <= u32::MAX,
    ensures
        r == signed_scaled(v as int, divisor as nat),
{
    if v < 0 {
        Scaled { negative: true, magnitude: (-v) as u32, divisor }
    } else {
        Scaled { negative: false, magnitude: v as u32, divisor }
    }
}

/// The signed 16-bit big-endian integer held by two bytes.
fn be_i16_of(hi: u8, lo: u8) -> (r: i64)
    ensures
        r as int == be_i16(hi, lo),
        -32768 <= r < 32768,
{
    let u: i64 = hi as i64 * 256 + lo as i64;
    if u >= 32768 {
        u - 65536
    } else {
        u
    }
}

/// An optional layout symbol as an owned string.
fn layout_string(layout: Option<&'static str>) -> (r: Option<String>)
    ensures
        opt_string(r) == opt_text(layout),
{
    match layout {
        Some(l) => Some(String::from_str(l)),
        None => None,
    }
}

/// The text of `±magnitude / 10^places` with exactly `places` decimals.
fn fixed_string(negative: bool, magnitude: u64, places: u32) -> (r: String)
    requires
        places <= 9,
    ensures
        r@ == fixed_text(negative, magnitude as nat, places as nat),
{
    let mut s = String::new();
    push_fixed(&mut s, negative, magnitude, places);
    assert(s@ =~= fixed_text(negative, magnitude as nat, places as nat));
    s
}

/// Decodes the data of one channel record by its format byte.
///
/// The top two bits of the format byte select the number of decimal places
/// (divisor 1, 10, 100 or 1000); the low four bits select the data format:
/// signed 16-bit (`0x01`), 10-bit unsigned (`0x02`), byte with layout symbol
/// (`0x03`), unsigned 32-bit (`0x04`), time of day (`0x05`), seven-segment text
/// (`0x06`), 15-bit with layout symbol (`0x07`), 9-bit with layout symbol
/// (`0x08`) and two signed 16-bit numbers (`0x0A`). The autopilot mode channel
/// (`0xB5`) reads its signed 16-bit word as a mode.
pub fn decode_format_and_data(channel_id: u8, format_byte: u8, data_bytes: &[u8]) -> (r:
    DecodedValue)
    ensures
        r@ == decoded_value(channel_id, format_byte, data_bytes@),
{
    reveal(decoded_value);
    let d = data_bytes;
    let places: u32 = (format_byte / 64) as u32;
    let divisor: u32 = pow10_u64(places) as u32;
    proof {
        lemma_pow10_bound(places as nat);
        assert(pow10(3) == 1000) by {
            reveal_with_fuel(pow10, 4);
        }
        assert(pow10(places as nat) <= 1000) by {
            reveal_with_fuel(pow10, 4);
        }
    }
    let fmt = format_byte % 16;
    if d.len() == 0 {
        return empty_decoded(channel_id);
    }
    if fmt == 0x01 || fmt == 0x02 || fmt == 0x03 || fmt == 0x08 {
        if d.len() != 2 {
            return empty_decoded(channel_id);
        }
        if fmt == 0x01 {
            let raw = be_i16_of(d[0], d[1]);
            if channel_id == 0xB5 {
                let text = if d[0] == 0x50 {
                    String::from_str("Standby")
                } else {
                    let mode = if d[0] == 0x51 || d[0] == 0x59 {
                        autopilot_mode_of(d[1])
                    } else {
                        None
                    };
                    match mode {
                        Some(n) => String::from_str(n),
                        None => {
                            let mut t = String::from_str("Unknown (");
                            push_int(&mut t, raw);
                            t.append(")");
                            t
                        },
                    }
                };
                DecodedValue {
                    channel_id: channel_id_string(channel_id),
                    value: Some(scaled_of(raw, 1)),
                    display_text: Some(text),
                    layout: None,
                }
            } else {
                let m: u64 = if raw < 0 {
                    (-raw) as u64
                } else {
                    raw as u64
                };
                DecodedValue {
                    channel_id: channel_id_string(channel_id),
                    value: Some(scaled_of(raw, divisor)),
                    display_text: Some(fixed_string(raw < 0, m, places)),
                    layout: None,
                }
            }
        } else if fmt == 0x02 {
            let u: u64 = (d[0] % 4) as u64 * 256 + d[1] as u64;
            DecodedValue {
                channel_id: channel_id_string(channel_id),
                value: Some(scaled_of(u as i64, divisor)),
                display_text: Some(fixed_string(false, u, places)),
                layout: None,
            }
        } else if fmt == 0x03 {
            let layout = segment_a_of(d[0]);
            let neg = sign_from_layout(layout) < 0;
            let f = fixed_string(neg, d[1] as u64, places);
            let text = display_from_layout(layout, f.as_str());
            DecodedValue {
                channel_id: channel_id_string(channel_id),
                value: Some(Scaled { negative: neg, magnitude: d[1] as u32, divisor }),
                display_text: Some(text),
                layout: layout_string(layout),
            }
        } else {
            let layout = segment_a_of(d[0] / 2);
            let u: u64 = (d[0] % 2) as u64 * 256 + d[1] as u64;
            let f = fixed_string(false, u, places);
            let text = display_from_layout(layout, f.as_str());
            DecodedValue {
                channel_id: channel_id_string(channel_id),
                value: Some(scaled_of(u as i64, divisor)),
                display_text: Some(text),
                layout: layout_string(layout),
            }
        }
    } else if fmt == 0x04 || fmt == 0x05 || fmt == 0x06 || fmt == 0x07 || fmt == 0x0A {
        if d.len() != 4 {
            return empty_decoded(channel_id);
        }
        if fmt == 0x04 {
            let u: u64 = ((d[0] as u64 * 256 + d[1] as u64) * 256 + d[2] as u64) * 256
                + d[3] as u64;
            DecodedValue {
                channel_id: channel_id_string(channel_id),
                value: Some(scaled_of(u as i64, divisor)),
                display_text: Some(fixed_string(false, u, places)),
                layout: None,
            }
        } else if fmt == 0x05 {
            let secs: u64 = d[1] as u64 * 3600 + d[2] as u64 * 60 + d[3] as u64;
            let mut t = String::new();
            push_pad2(&mut t, d[1] as u64);
            t.append(":");
            push_pad2(&mut t, d[2] as u64);
            t.append(":");
            push_pad2(&mut t, d[3] as u64);
            assert(t@ =~= pad2(d[1] as nat) + ":"@ + pad2(d[2] as nat) + ":"@ + pad2(
                d[3] as nat,
            ));
            DecodedValue {
                channel_id: channel_id_string(channel_id),
                value: Some(scaled_of(secs as i64, 1)),
                display_text: Some(t),
                layout: None,
            }
        } else if fmt == 0x06 {
            DecodedValue {
                channel_id: channel_id_string(channel_id),
                value: None,
                display_text: Some(segment_string(d)),
                layout: None,
            }
        } else if fmt == 0x07 {
            let layout = segment_a_of(d[1]);
            let neg = sign_from_layout(layout) < 0;
            let u: u64 = (d[2] % 128) as u64 * 256 + d[3] as u64;
            let f = fixed_string(neg, u, places);
            let text = display_from_layout(layout, f.as_str());
            DecodedValue {
                channel_id: channel_id_string(channel_id),
                value: Some(Scaled { negative: neg, magnitude: u as u32, divisor }),
                display_text: Some(text),
                layout: layout_string(layout),
            }
        } else {
            let first = be_i16_of(d[0], d[1]);
            let second = be_i16_of(d[2], d[3]);
            let m1: u64 = if first < 0 {
                (-first) as u64
            } else {
                first as u64
            };
            let m2: u64 = if second < 0 {
                (-second) as u64
            } else {
                second as u64
            };
            let mut t = String::new();
            push_short(&mut t, first < 0, m1, places);
            t.append(" / ");
            push_short(&mut t, second < 0, m2, places);
            assert(t@ =~= short_text(first < 0, m1 as nat, places as nat) + " / "@ + short_text(
                second < 0,
                m2 as nat,
                places as nat,
            ));
            DecodedValue {
                channel_id: channel_id_string(channel_id),
                value: Some(scaled_of(first, divisor)),
                display_text: Some(t),
                layout: None,
            }
        }
    } else {
        empty_decoded(channel_id)
    }
}

/// The text of a seven-segment display: each byte's glyph, or `TBC`.
fn segment_string(d: &[u8]) -> (r: String)
    ensures
        r@ == segment_text(d@),
{
    let mut s = String::new();
    let mut i: usize = 0;
    while i < d.len()
        invariant
            i <= d.len(),
            s@ == segment_text(d@.subrange(0, i as int)),
        decreases d.len() - i,
    {
        proof {
            assert(d@.subrange(0, i + 1).drop_last() =~= d@.subrange(0, i as int));
        }
        match segment_b_of(d[i]) {
            Some(g) => s.append(g),
            None => s.append("TBC"),
        }
        i = i + 1;
    }
    assert(d@.subrange(0, d@.len() as int) =~= d@);
    s
}


/// A complete decoded frame: the names of its addresses and command and the
/// values of its channel records, keyed by channel name.
#[derive(Clone, Debug)]
pub struct DecodedFrame {
    pub to_address: String,
    pub from_address: String,
    pub command: String,
    /// One entry per channel name, in the order the names first appeared.
    pub values: Vec<(String, DecodedValue)>,
}

/// What a `DecodedFrame` holds, with its texts as character sequences.
pub struct DecodedFrameView {
    pub to_address: Seq<char>,
    pub from_address: Seq<char>,
    pub command: Seq<char>,
    pub values: Seq<(Seq<char>, DecodedValueView)>,
}

/// The views of keyed entries.
pub open spec fn entries_view<V: View>(s: Seq<(String, V)>) -> Seq<(Seq<char>, V::V)> {
    s.map_values(|e: (String, V)| (e.0@, e.1@))
}

impl View for DecodedFrame {
    type V = DecodedFrameView;

    open spec fn view(&self) -> DecodedFrameView {
        DecodedFrameView {
            to_address: self.to_address@,
            from_address: self.from_address@,
            command: self.command@,
            values: entries_view(self.values@),
        }
    }
}

/// The position of the last entry with key `k`, if any.
pub open spec fn last_index<V>(s: Seq<(Seq<char>, V)>, k: Seq<char>) -> Option<int>
    decreases s.len(),
{
    if s.len() == 0 {
        None
    } else if s.last().0 == k {
        Some(s.len() - 1)
    } else {
        last_index(s.drop_last(), k)
    }
}

/// Sets the value of key `k` in keyed entries: the last entry with that key
/// takes the new value in place, or the pair is appended when no entry has
/// the key.
pub open spec fn upsert<V>(s: Seq<(Seq<char>, V)>, k: Seq<char>, v: V) -> Seq<(Seq<char>, V)> {
    match last_index(s, k) {
        Some(i) => s.update(i, (k, v)),
        None => s.push((k, v)),
    }
}

/// The value of the last entry with key `k`, if any.
pub open spec fn lookup<V>(s: Seq<(Seq<char>, V)>, k: Seq<char>) -> Option<V> {
    match last_index(s, k) {
        Some(i) => Some(s[i].1),
        None => None,
    }
}

/// The position found for a key lies in range and holds that key.
pub proof fn lemma_last_index<V>(s: Seq<(Seq<char>, V)>, k: Seq<char>)
    ensures
        last_index(s, k) matches Some(i) ==> 0 <= i < s.len() && s[i].0 == k,
        last_index(s, k) is None ==> forall|m: int| 0 <= m < s.len() ==> #[trigger] s[m].0 != k,
    decreases s.len(),
{
    if s.len() > 0 && s.last().0 != k {
        lemma_last_index(s.drop_last(), k);
        if last_index(s, k) is None {
            assert forall|m: int| 0 <= m < s.len() implies #[trigger] s[m].0 != k by {
                if m < s.len() - 1 {
                    assert(s[m] == s.drop_last()[m]);
                }
            }
        }
    }
}

/// Positions of keys depend on the keys alone.
proof fn lemma_last_index_same_keys<V>(a: Seq<(Seq<char>, V)>, b: Seq<(Seq<char>, V)>, k: Seq<char>)
    requires
        a.len() == b.len(),
        forall|m: int| 0 <= m < a.len() ==> #[trigger] a[m].0 == b[m].0,
    ensures
        last_index(a, k) == last_index(b, k),
    decreases a.len(),
{
    if a.len() > 0 {
        assert(a.last().0 == b[b.len() - 1].0);
        lemma_last_index_same_keys(a.drop_last(), b.drop_last(), k);
    }
}

/// Setting a key and then looking it up gives the value set; other keys keep
/// their values.
pub proof fn lemma_upsert_lookup<V>(s: Seq<(Seq<char>, V)>, k: Seq<char>, v: V, j: Seq<char>)
    ensures
        lookup(upsert(s, k, v), j) == if j == k {
            Some(v)
        } else {
            lookup(s, j)
        },
{
    lemma_last_index(s, k);
    match last_index(s, k) {
        Some(i) => {
            let u = s.update(i, (k, v));
            lemma_last_index_same_keys(u, s, j);
            lemma_last_index_same_keys(u, s, k);
            lemma_last_index(s, j);
            if j != k {
                match last_index(s, j) {
                    Some(m) => {
                        assert(m != i);
                    },
                    None => {},
                }
            }
        },
        None => {
            assert(s.push((k, v)).drop_last() =~= s);
            lemma_last_index(s, j);
        },
    }
}

/// Whether no two entries have the same key.
pub open spec fn keys_unique<V>(s: Seq<(Seq<char>, V)>) -> bool {
    forall|i: int, j: int| 0 <= i < j < s.len() ==> #[trigger] s[i].0 != #[trigger] s[j].0
}

/// Setting a key keeps every key to one entry.
pub proof fn lemma_upsert_keeps_keys_unique<V>(s: Seq<(Seq<char>, V)>, k: Seq<char>, v: V)
    requires
        keys_unique(s),
    ensures
        keys_unique(upsert(s, k, v)),
{
    lemma_last_index(s, k);
    let u = upsert(s, k, v);
    match last_index(s, k) {
        Some(i) => {
            assert forall|a: int, b: int| 0 <= a < b < u.len() implies #[trigger] u[a].0
                != #[trigger] u[b].0 by {
                assert(u[a].0 == s[a].0);
                assert(u[b].0 == s[b].0);
            }
        },
        None => {
            assert forall|a: int, b: int| 0 <= a < b < u.len() implies #[trigger] u[a].0
                != #[trigger] u[b].0 by {
                if b == s.len() {
                    assert(u[a].0 == s[a].0);
                } else {
                    assert(u[a] == s[a]);
                    assert(u[b] == s[b]);
                }
            }
        },
    }
}

/// Sets the value of `key` in keyed entries (see `upsert`).
pub fn upsert_entry<V: View>(entries: &mut Vec<(String, V)>, key: String, value: V)
    ensures
        entries_view(final(entries)@) == upsert(entries_view(old(entries)@), key@, value@),
{
    let ghost e0 = entries_view(old(entries)@);
    let mut i = entries.len();
    assert(e0.subrange(0, e0.len() as int) =~= e0);
    while i > 0
        invariant
            i <= entries.len(),
            entries@ == old(entries)@,
            e0 == entries_view(entries@),
            last_index(e0, key@) == last_index(e0.subrange(0, i as int), key@),
        decreases i,
    {
        let ghost p = e0.subrange(0, i as int);
        assert(p.last() == e0[i - 1]);
        assert(p.drop_last() =~= e0.subrange(0, i - 1));
        if entries[i - 1].0 == key {
            let ghost kv = (key@, value@);
            entries.set(i - 1, (key, value));
            proof {
                assert(entries_view(entries@) =~= e0.update(i - 1, kv));
            }
            return ;
        }
        i = i - 1;
    }
    let ghost kv = (key@, value@);
    entries.push((key, value));
    proof {
        assert(entries_view(entries@) =~= e0.push(kv));
    }
}


/// Why a frame could not be decoded.
#[derive(Clone, Copy, Debug, PartialEq, Eq, Structural)]
pub enum DecodeError {
    /// The frame is shorter than a header and a checksum.
    FrameTooShort,
    /// The body is shorter than one channel record or its length is not the
    /// one the header announces.
    InvalidBodySize { expected: u8, actual: usize },
    /// A channel record is cut off within its two header bytes.
    InsufficientChannelHeader,
    /// A channel record is cut off within its data.
    IncompleteChannelData(u8),
    /// The body holds no bytes.
    EmptyBody,
    /// The position text is not valid UTF-8.
    AsciiDecodeFailed,
}

impl DecodeError {
    /// The message that describes the error.
    pub open spec fn text(self) -> Seq<char> {
        match self {
            DecodeError::FrameTooShort => "Frame too short"@,
            DecodeError::InvalidBodySize { expected, actual } => "Invalid body size: expected="@
                + dec_digits(expected as nat) + ", actual="@ + dec_digits(actual as nat),
            DecodeError::InsufficientChannelHeader => "Insufficient bytes for channel header"@,
            DecodeError::IncompleteChannelData(cid) => "Incomplete data for channel 0x"@ + hex2(
                cid,
            ),
            DecodeError::EmptyBody => "Empty body"@,
            DecodeError::AsciiDecodeFailed => "ASCII decode failed"@,
        }
    }

    /// The message that describes the error.
    pub fn message(&self) -> (r: String)
        ensures
            r@ == self.text(),
    {
        match self {
            DecodeError::FrameTooShort => String::from_str("Frame too short"),
            DecodeError::InvalidBodySize { expected, actual } => {
                let mut s = String::from_str("Invalid body size: expected=");
                push_decimal(&mut s, *expected as u64);
                s.append(", actual=");
                push_decimal(&mut s, *actual as u64);
                s
            },
            DecodeError::InsufficientChannelHeader => String::from_str(
                "Insufficient bytes for channel header",
            ),
            DecodeError::IncompleteChannelData(cid) => {
                let mut s = String::from_str("Incomplete data for channel 0x");
                push_hex_byte(&mut s, *cid);
                s
            },
            DecodeError::EmptyBody => String::from_str("Empty body"),
            DecodeError::AsciiDecodeFailed => String::from_str("ASCII decode failed"),
        }
    }
}

/// The body of a frame: the bytes between the five header bytes and the
/// final checksum byte.
pub open spec fn frame_body(f: Seq<u8>) -> Seq<u8> {
    f.subrange(5, f.len() - 1)
}

/// The channel records of `rest` added, in order, to the entries `acc`, each
/// under its channel name (a later record with the same name replaces the
/// earlier value). Each record is a channel id, a format byte and as many
/// data bytes as the format needs.
pub open spec fn parse_records(rest: Seq<u8>, acc: Seq<(Seq<char>, DecodedValueView)>) -> Result<
    Seq<(Seq<char>, DecodedValueView)>,
    DecodeError,
>
    decreases rest.len(),
{
    if rest.len() == 0 {
        Ok(acc)
    } else if rest.len() < 2 {
        Err(DecodeError::InsufficientChannelHeader)
    } else {
        let cid = rest[0];
        let fb = rest[1];
        let n = format_size(fb % 16) as int;
        if 2 + n > rest.len() {
            Err(DecodeError::IncompleteChannelData(cid))
        } else {
            parse_records(
                rest.skip(2 + n),
                upsert(
                    acc,
                    name_or_unknown(channel_name(cid), cid),
                    decoded_value(cid, fb, rest.subrange(2, 2 + n)),
                ),
            )
        }
    }
}

/// Channel records added to entries with one entry per key leave one entry per key.
proof fn lemma_parse_records_keys_unique(rest: Seq<u8>, acc: Seq<(Seq<char>, DecodedValueView)>)
    requires
        keys_unique(acc),
    ensures
        parse_records(rest, acc) matches Ok(vals) ==> keys_unique(vals),
    decreases rest.len(),
{
    if rest.len() >= 2 {
        let cid = rest[0];
        let fb = rest[1];
        let n = format_size(fb % 16) as int;
        if 2 + n <= rest.len() {
            let name = name_or_unknown(channel_name(cid), cid);
            let val = decoded_value(cid, fb, rest.subrange(2, 2 + n));
            lemma_upsert_keeps_keys_unique(acc, name, val);
            lemma_parse_records_keys_unique(rest.skip(2 + n), upsert(acc, name, val));
        }
    }
}

/// A decoded frame holds one value per channel name.
pub proof fn lemma_decoded_keys_unique(f: Seq<u8>)
    ensures
        decode_frame_spec(f) matches Ok(d) ==> keys_unique(d.values),
        decode_ascii_frame_spec(f) matches Ok(d) ==> keys_unique(d.values),
        decode_light_frame_spec(f) matches Ok(d) ==> keys_unique(d.values),
{
    if f.len() >= 6 {
        lemma_parse_records_keys_unique(frame_body(f), Seq::empty());
    }
}

/// The address and command names of a frame with no values yet.
pub open spec fn frame_header(f: Seq<u8>, values: Seq<(Seq<char>, DecodedValueView)>) -> DecodedFrameView {
    DecodedFrameView {
        to_address: name_or_unknown(address_name(f[0]), f[0]),
        from_address: name_or_unknown(address_name(f[1]), f[1]),
        command: name_or_unknown(command_name(f[3]), f[3]),
        values: values,
    }
}

/// What `decode_frame` makes of a frame of channel records.
pub open spec fn decode_frame_spec(f: Seq<u8>) -> Result<DecodedFrameView, DecodeError> {
    if f.len() < 6 {
        Err(DecodeError::FrameTooShort)
    } else if frame_body(f).len() < 2 || frame_body(f).len() != f[2] {
        Err(DecodeError::InvalidBodySize { expected: f[2], actual: frame_body(f).len() as usize })
    } else {
        match parse_records(frame_body(f), Seq::empty()) {
            Ok(values) => Ok(frame_header(f, values)),
            Err(e) => Err(e),
        }
    }
}

/// The view of a decoding result.
pub open spec fn result_view(r: Result<DecodedFrame, DecodeError>) -> Result<
    DecodedFrameView,
    DecodeError,
> {
    match r {
        Ok(f) => Ok(f@),
        Err(e) => Err(e),
    }
}

/// The names of a frame's addresses and command, with no values yet.
fn frame_with_names(frame: &[u8]) -> (r: DecodedFrame)
    requires
        frame.len() >= 6,
    ensures
        r@ == frame_header(frame@, Seq::empty()),
{
    let r = DecodedFrame {
        to_address: name_or_unknown_string(address_name_of(frame[0]), frame[0]),
        from_address: name_or_unknown_string(address_name_of(frame[1]), frame[1]),
        command: name_or_unknown_string(command_name_of(frame[3]), frame[3]),
        values: Vec::new(),
    };
    assert(entries_view(r.values@) =~= Seq::empty());
    r
}

/// Decodes a frame whose body is a list of channel records.
///
/// Frame layout: byte 0 the destination address, byte 1 the source address,
/// byte 2 the body size, byte 3 the command, byte 4 the header checksum, then
/// the body and a final body checksum. Checksums are not checked here.
pub fn decode_frame(frame: &[u8]) -> (r: Result<DecodedFrame, DecodeError>)
    ensures
        result_view(r) == decode_frame_spec(frame@),
{
    if frame.len() < 6 {
        return Err(DecodeError::FrameTooShort);
    }
    let body_len = frame.len() - 6;
    let ghost body = frame_body(frame@);
    if body_len < 2 || body_len != frame[2] as usize {
        return Err(DecodeError::InvalidBodySize { expected: frame[2], actual: body_len });
    }
    let mut decoded = frame_with_names(frame);
    let mut index: usize = 0;
    proof {
        assert(body.skip(0) =~= body);
    }
    while index < body_len
        invariant
            frame.len() >= 6,
            body_len == frame.len() - 6,
            body == frame_body(frame@),
            body.len() == body_len,
            body_len >= 2,
            body_len == frame@[2],
            index <= body_len,
            decoded@.to_address == frame_header(frame@, Seq::empty()).to_address,
            decoded@.from_address == frame_header(frame@, Seq::empty()).from_address,
            decoded@.command == frame_header(frame@, Seq::empty()).command,
            parse_records(body, Seq::empty()) == parse_records(
                body.skip(index as int),
                decoded@.values,
            ),
        decreases body_len - index,
    {
        let ghost rest = body.skip(index as int);
        if index + 1 >= body_len {
            return Err(DecodeError::InsufficientChannelHeader);
        }
        let channel_id = frame[5 + index];
        let format_byte = frame[5 + index + 1];
        assert(rest[0] == channel_id && rest[1] == format_byte);
        let name = name_or_unknown_string(channel_name_of(channel_id), channel_id);
        index = index + 2;
        let data_length = format_size_of(format_byte % 16);
        if index + data_length > body_len {
            return Err(DecodeError::IncompleteChannelData(channel_id));
        }
        let value = decode_format_and_data(
            channel_id,
            format_byte,
            vstd::slice::slice_subrange(frame, 5 + index, 5 + index + data_length),
        );
        proof {
            assert(frame@.subrange(5 + index, 5 + index + data_length as int) =~= rest.subrange(
                2,
                2 + data_length as int,
            ));
            assert(rest.skip(2 + data_length as int) =~= body.skip(index + data_length));
        }
        upsert_entry(&mut decoded.values, name, value);
        index = index + data_length;
    }
    proof {
        assert(body.skip(index as int).len() == 0);
        assert(decoded@ == frame_header(frame@, decoded@.values));
    }
    Ok(decoded)
}


/// What `decode_ascii_frame` makes of a frame whose body is a position in
/// ASCII: the body's first byte is the channel id, its second byte is
/// skipped, and the rest is the text, trimmed of whitespace.
pub open spec fn decode_ascii_frame_spec(f: Seq<u8>) -> Result<DecodedFrameView, DecodeError> {
    if f.len() < 6 {
        Err(DecodeError::FrameTooShort)
    } else if frame_body(f).len() == 0 {
        Err(DecodeError::EmptyBody)
    } else if !vstd::utf8::valid_utf8(frame_body(f).skip(2)) {
        Err(DecodeError::AsciiDecodeFailed)
    } else {
        let name = name_or_unknown(command_name(f[3]), f[3]);
        let v = DecodedValueView {
            channel_id: channel_id_text(frame_body(f)[0]),
            value: None,
            display_text: Some(trim_text(vstd::utf8::decode_utf8(frame_body(f).skip(2)))),
            layout: None,
        };
        Ok(frame_header(f, seq![(name, v)]))
    }
}

/// Decodes a frame whose body is text, such as a `LatLon` position frame.
///
/// A body of exactly one byte has no text part to skip to and is not accepted.
pub fn decode_ascii_frame(frame: &[u8]) -> (r: Result<DecodedFrame, DecodeError>)
    requires
        frame.len() != 7,
    ensures
        result_view(r) == decode_ascii_frame_spec(frame@),
{
    if frame.len() < 6 {
        return Err(DecodeError::FrameTooShort);
    }
    let body_len = frame.len() - 6;
    if body_len == 0 {
        return Err(DecodeError::EmptyBody);
    }
    let channel_id = frame[5];
    let data = vstd::slice::slice_subrange(frame, 7, frame.len() - 1);
    proof {
        assert(data@ =~= frame_body(frame@).skip(2));
    }
    let text = match utf8_text(data) {
        Some(t) => String::from_str(trim(t)),
        None => {
            return Err(DecodeError::AsciiDecodeFailed);
        },
    };
    let mut decoded = frame_with_names(frame);
    let name = name_or_unknown_string(command_name_of(frame[3]), frame[3]);
    let value = DecodedValue {
        channel_id: channel_id_string(channel_id),
        value: None,
        display_text: Some(text),
        layout: None,
    };
    let ghost kv = (name@, value@);
    decoded.values.push((name, value));
    assert(decoded@.values =~= seq![kv]);
    Ok(decoded)
}

/// The display text of a backlight level: its name, or `Unknown (level)`.
pub open spec fn backlight_text(level: u8) -> Seq<char> {
    match backlight_level(level) {
        Some(n) => n,
        None => "Unknown ("@ + dec_digits(level as nat) + ")"@,
    }
}

/// What `decode_light_frame` makes of a backlight frame: the first body byte
/// is the level, reported under `Backlight` on channel `0xC9`.
pub open spec fn decode_light_frame_spec(f: Seq<u8>) -> Result<DecodedFrameView, DecodeError> {
    if f.len() < 6 {
        Err(DecodeError::FrameTooShort)
    } else if frame_body(f).len() == 0 {
        Err(DecodeError::EmptyBody)
    } else {
        let level = frame_body(f)[0];
        let v = DecodedValueView {
            channel_id: channel_id_text(0xC9),
            value: Some(Scaled { negative: false, magnitude: level as u32, divisor: 1 }),
            display_text: Some(backlight_text(level)),
            layout: None,
        };
        Ok(frame_header(f, seq![("Backlight"@, v)]))
    }
}

/// Decodes a Light Intensity frame (backlight level: 0 off, 1 low, 2 medium, 4 high).
pub fn decode_light_frame(frame: &[u8]) -> (r: Result<DecodedFrame, DecodeError>)
    ensures
        result_view(r) == decode_light_frame_spec(frame@),
{
    if frame.len() < 6 {
        return Err(DecodeError::FrameTooShort);
    }
    if frame.len() == 6 {
        return Err(DecodeError::EmptyBody);
    }
    let level = frame[5];
    let text = match backlight_level_of(level) {
        Some(n) => String::from_str(n),
        None => {
            let mut t = String::from_str("Unknown (");
            push_decimal(&mut t, level as u64);
            t.append(")");
            t
        },
    };
    let mut decoded = frame_with_names(frame);
    let value = DecodedValue {
        channel_id: channel_id_string(0xC9),
        value: Some(Scaled { negative: false, magnitude: level as u32, divisor: 1 }),
        display_text: Some(text),
        layout: None,
    };
    let name = String::from_str("Backlight");
    let ghost kv = (name@, value@);
    decoded.values.push((name, value));
    assert(decoded@.values =~= seq![kv]);
    Ok(decoded)
}

} // verus!
