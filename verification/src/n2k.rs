//! From FastNet frames to NMEA 2000 messages: the framing of a raw byte
//! stream, the choice of the PGN and of the readings that fill its data bytes,
//! and the text line written for each message.
use vstd::prelude::*;
use vstd::string::*;

use crate::decode::{entries_view, last_index, lookup, DecodedFrame};
use crate::map::{project, project_outcome, PositionFix, Reading, ReadingView};
use crate::pgn_map::{lemma_row_of_own_path, paths_of_pgn, pgn_row, row_of_path, row_of_pgn, PGN_ROWS};
use crate::text::{dec_digits, hex2, push_decimal, push_hex_byte, text_eq};

verus! {

/// The whole frames at the front of a byte stream, taken one after another by
/// the body size in each header (five header bytes, the body, one checksum
/// byte; checksums are not checked), and the bytes left when too few remain
/// for the next frame.
pub open spec fn raw_frames(b: Seq<u8>) -> (Seq<Seq<u8>>, Seq<u8>)
    decreases b.len(),
{
    if b.len() >= 6 && b.len() >= 6 + b[2] {
        let n = 6 + b[2] as int;
        let (fs, rest) = raw_frames(b.skip(n));
        (seq![b.take(n)] + fs, rest)
    } else {
        (Seq::empty(), b)
    }
}

/// The frames and the bytes left over, put back together, are the stream:
/// splitting loses and reorders nothing.
pub proof fn lemma_raw_frames_rebuild(b: Seq<u8>)
    ensures
        raw_frames(b).0.flatten() + raw_frames(b).1 == b,
    decreases b.len(),
{
    if b.len() >= 6 && b.len() >= 6 + b[2] {
        let n = 6 + b[2] as int;
        lemma_raw_frames_rebuild(b.skip(n));
        let fs = raw_frames(b).0;
        assert(fs.first() == b.take(n));
        assert(fs.drop_first() =~= raw_frames(b.skip(n)).0);
        assert(b.take(n) + b.skip(n) =~= b);
        assert(fs.flatten() + raw_frames(b).1 =~= b.take(n) + (raw_frames(b.skip(n)).0.flatten()
            + raw_frames(b.skip(n)).1));
    } else {
        assert(raw_frames(b).0.flatten() =~= Seq::<u8>::empty());
        assert(Seq::<u8>::empty() + b =~= b);
    }
}

/// Splitting a stream that arrives in two pieces, where the bytes left from
/// the first piece are put before the second, gives the same frames and
/// leaves the same bytes as splitting the whole stream at once.
pub proof fn lemma_raw_frames_in_pieces(a: Seq<u8>, b: Seq<u8>)
    ensures
        raw_frames(a + b).0 == raw_frames(a).0 + raw_frames(raw_frames(a).1 + b).0,
        raw_frames(a + b).1 == raw_frames(raw_frames(a).1 + b).1,
    decreases a.len(),
{
    if a.len() >= 6 && a.len() >= 6 + a[2] {
        let n = 6 + a[2] as int;
        let ab = a + b;
        assert(ab[2] == a[2]);
        assert(ab.take(n) =~= a.take(n));
        assert(ab.skip(n) =~= a.skip(n) + b);
        lemma_raw_frames_in_pieces(a.skip(n), b);
        let fa = raw_frames(a.skip(n)).0;
        let fb = raw_frames(raw_frames(a).1 + b).0;
        assert(seq![a.take(n)] + fa + fb =~= seq![a.take(n)] + (fa + fb));
    } else {
        assert(raw_frames(a).0 + raw_frames(a + b).0 =~= raw_frames(a + b).0);
    }
}

/// The views of a sequence of byte vectors.
pub open spec fn byte_views(s: Seq<Vec<u8>>) -> Seq<Seq<u8>> {
    s.map_values(|v: Vec<u8>| v@)
}

/// Splits a byte stream into whole frames and the bytes left over (see
/// `raw_frames`).
pub fn split_frames(bytes: &[u8]) -> (r: (Vec<Vec<u8>>, Vec<u8>))
    ensures
        byte_views(r.0@) == raw_frames(bytes@).0,
        r.1@ == raw_frames(bytes@).1,
{
    let ghost b0 = bytes@;
    let mut frames: Vec<Vec<u8>> = Vec::new();
    let mut start: usize = 0;
    assert(b0.skip(0) =~= b0);
    assert(byte_views(frames@) + raw_frames(b0.skip(0)).0 =~= raw_frames(b0).0);
    while bytes.len() - start >= 6 && bytes.len() - start >= 6 + bytes[start + 2] as usize
        invariant
            bytes@ == b0,
            start <= bytes.len(),
            raw_frames(b0).1 == raw_frames(b0.skip(start as int)).1,
            raw_frames(b0).0 == byte_views(frames@) + raw_frames(b0.skip(start as int)).0,
        decreases bytes.len() - start,
    {
        let ghost rest = b0.skip(start as int);
        assert(rest[2] == b0[start + 2]);
        let full = 6 + bytes[start + 2] as usize;
        let frame = vstd::slice::slice_to_vec(vstd::slice::slice_subrange(bytes, start, start + full));
        proof {
            assert(frame@ =~= rest.take(full as int));
            assert(rest.skip(full as int) =~= b0.skip(start + full));
        }
        let ghost before = byte_views(frames@);
        frames.push(frame);
        proof {
            assert(byte_views(frames@) =~= before.push(rest.take(full as int)));
            assert(raw_frames(rest).0 =~= seq![rest.take(full as int)] + raw_frames(
                b0.skip(start + full),
            ).0);
            assert(before + raw_frames(rest).0 =~= byte_views(frames@) + raw_frames(
                b0.skip(start + full),
            ).0);
        }
        start = start + full;
    }
    proof {
        let rest = b0.skip(start as int);
        if rest.len() >= 6 {
            assert(rest[2] == b0[start + 2]);
        }
        assert(byte_views(frames@) + Seq::<Seq<u8>>::empty() =~= byte_views(frames@));
    }
    let rest = vstd::slice::slice_to_vec(vstd::slice::slice_subrange(bytes, start, bytes.len()));
    assert(rest@ =~= b0.skip(start as int));
    (frames, rest)
}

/// The eight data bytes of an NMEA 2000 message, as the readings written into
/// them (in SI units; the caller writes the floating-point bytes).
#[derive(Clone, Debug)]
pub enum N2kPayload {
    /// Two little-endian single-precision values, at bytes 0..4 and 4..8; an
    /// absent reading is written as 0.0.
    Singles(Option<Reading>, Option<Reading>),
    /// A little-endian single-precision value at bytes 0..4 (0.0 when absent),
    /// the byte 0xFF at byte 4 and zeros after it.
    SingleMarked(Option<Reading>),
    /// One little-endian double-precision value over all eight bytes (for a
    /// position, its latitude in degrees).
    Double(Reading),
}

/// An NMEA 2000 message: its PGN, its source address and its data bytes.
#[derive(Clone, Debug)]
pub struct N2kMessage {
    pub pgn: u32,
    pub source: u8,
    pub payload: N2kPayload,
}

/// What an `N2kPayload` holds.
pub enum N2kPayloadView {
    Singles(Option<ReadingView>, Option<ReadingView>),
    SingleMarked(Option<ReadingView>),
    Double(ReadingView),
}

/// What an `N2kMessage` holds.
pub struct N2kMessageView {
    pub pgn: u32,
    pub source: u8,
    pub payload: N2kPayloadView,
}

/// The view of an optional reading.
pub open spec fn opt_reading(o: Option<Reading>) -> Option<ReadingView> {
    match o {
        Some(x) => Some(x@),
        None => None,
    }
}

impl View for N2kPayload {
    type V = N2kPayloadView;

    open spec fn view(&self) -> N2kPayloadView {
        match self {
            N2kPayload::Singles(a, b) => N2kPayloadView::Singles(opt_reading(*a), opt_reading(*b)),
            N2kPayload::SingleMarked(a) => N2kPayloadView::SingleMarked(opt_reading(*a)),
            N2kPayload::Double(a) => N2kPayloadView::Double(a@),
        }
    }
}

impl View for N2kMessage {
    type V = N2kMessageView;

    open spec fn view(&self) -> N2kMessageView {
        N2kMessageView { pgn: self.pgn, source: self.source, payload: self.payload@ }
    }
}

/// The view of an optional message.
pub open spec fn opt_message(o: Option<N2kMessage>) -> Option<N2kMessageView> {
    match o {
        Some(m) => Some(m@),
        None => None,
    }
}

/// The first of two optional readings that is present.
pub open spec fn either(a: Option<ReadingView>, b: Option<ReadingView>) -> Option<ReadingView> {
    if a is Some {
        a
    } else {
        b
    }
}

/// A message from source address 0.
pub open spec fn message(pgn: u32, payload: N2kPayloadView) -> N2kMessageView {
    N2kMessageView { pgn, source: 0, payload }
}

/// The NMEA 2000 message for projected readings, by the first rule that
/// applies:
/// roll or pitch give Attitude (127240); the rate of turn gives 127245; the
/// leeway gives 127249; a true or magnetic heading gives Heading (127250, the
/// true one first); a heading or the rudder angle gives Vessel Heading
/// (127251); then boat speed (127257), apparent wind speed (128258), true
/// wind speed (128259), depth (128267), log (128275), the position as one
/// double (129025), and speed and course over ground together (129291).
pub open spec fn n2k_plan(sk: Seq<(Seq<char>, ReadingView)>) -> Option<N2kMessageView> {
    let roll = lookup(sk, "navigation.attitude.roll"@);
    let pitch = lookup(sk, "navigation.attitude.pitch"@);
    let rot = lookup(sk, "navigation.rateOfTurn"@);
    let leeway = lookup(sk, "navigation.leewayAngle"@);
    let heading_true = lookup(sk, "navigation.headingTrue"@);
    let heading_magnetic = lookup(sk, "navigation.headingMagnetic"@);
    let rudder = lookup(sk, "steering.rudderAngle"@);
    let stw = lookup(sk, "navigation.speedThroughWater"@);
    let aws = lookup(sk, "environment.wind.speedApparent"@);
    let tws = lookup(sk, "environment.wind.speedTrue"@);
    let depth = lookup(sk, "environment.depth.belowTransducer"@);
    let log = lookup(sk, "navigation.log"@);
    let position = lookup(sk, "navigation.position"@);
    let sog = lookup(sk, "navigation.speedOverGround"@);
    let cog = lookup(sk, "navigation.courseOverGroundTrue"@);
    let heading = either(heading_true, heading_magnetic);
    if roll is Some || pitch is Some {
        Some(message(127240, N2kPayloadView::Singles(roll, pitch)))
    } else if rot is Some {
        Some(message(127245, N2kPayloadView::Singles(rot, None)))
    } else if leeway is Some {
        Some(message(127249, N2kPayloadView::Singles(leeway, None)))
    } else if heading_true is Some || heading_magnetic is Some {
        Some(message(127250, N2kPayloadView::SingleMarked(heading)))
    } else if heading_true is Some || heading_magnetic is Some || rudder is Some {
        if rudder is Some {
            Some(message(127251, N2kPayloadView::Singles(heading, rudder)))
        } else {
            Some(message(127251, N2kPayloadView::SingleMarked(heading)))
        }
    } else if stw is Some {
        Some(message(127257, N2kPayloadView::Singles(stw, None)))
    } else if aws is Some {
        Some(message(128258, N2kPayloadView::Singles(aws, None)))
    } else if tws is Some {
        Some(message(128259, N2kPayloadView::Singles(tws, None)))
    } else if depth is Some {
        Some(message(128267, N2kPayloadView::Singles(depth, None)))
    } else if log is Some {
        Some(message(128275, N2kPayloadView::Singles(log, None)))
    } else if position is Some {
        Some(message(129025, N2kPayloadView::Double(position.unwrap())))
    } else if sog is Some && cog is Some {
        Some(message(129291, N2kPayloadView::Singles(sog, cog)))
    } else {
        None
    }
}

/// Every message that `n2k_plan` chooses carries a PGN listed in the PGN
/// table, which `get_pgn_name` therefore names.
pub proof fn lemma_planned_pgn_listed(sk: Seq<(Seq<char>, ReadingView)>)
    ensures
        n2k_plan(sk) matches Some(m) ==> row_of_pgn(m.pgn, 0) is Some,
{
    reveal_with_fuel(row_of_pgn, 16);
}

/// Whether the PGN table lists `path` under `pgn` (as `get_pgn_for_path`
/// finds it).
pub open spec fn listed_for(pgn: u32, path: Seq<char>) -> bool {
    row_of_path(path, 0) matches Some(i) && pgn_row(i as int).1 == pgn
}

/// The reading slots of a payload.
pub open spec fn payload_readings(p: N2kPayloadView) -> Seq<Option<ReadingView>> {
    match p {
        N2kPayloadView::Singles(a, b) => seq![a, b],
        N2kPayloadView::SingleMarked(a) => seq![a],
        N2kPayloadView::Double(r) => seq![Some(r)],
    }
}

/// Whether `r` is the reading found under some path that the PGN table lists
/// under `pgn`.
pub open spec fn from_listed_path(sk: Seq<(Seq<char>, ReadingView)>, pgn: u32, r: ReadingView) -> bool {
    exists|path: Seq<char>| #[trigger] listed_for(pgn, path) && lookup(sk, path) == Some(r)
}

/// A chosen message carries the readings of its PGN's paths: every reading
/// in its payload is the reading found under a path that the PGN table lists
/// for the message's PGN, and the payload holds the reading of at least one
/// such path.
pub proof fn lemma_plan_carries_listed_readings(sk: Seq<(Seq<char>, ReadingView)>)
    ensures
        n2k_plan(sk) matches Some(m) ==> {
            &&& forall|k: int|
                0 <= k < payload_readings(m.payload).len() ==> (#[trigger] payload_readings(
                    m.payload,
                )[k] matches Some(r) ==> from_listed_path(sk, m.pgn, r))
            &&& exists|path: Seq<char>|
                #[trigger] listed_for(m.pgn, path) && lookup(sk, path) is Some
                    && payload_readings(m.payload).contains(lookup(sk, path))
        },
{
    lemma_row_of_own_path(0, 0);
    lemma_row_of_own_path(1, 0);
    lemma_row_of_own_path(2, 0);
    lemma_row_of_own_path(3, 0);
    lemma_row_of_own_path(4, 0);
    lemma_row_of_own_path(5, 0);
    lemma_row_of_own_path(6, 0);
    lemma_row_of_own_path(7, 0);
    lemma_row_of_own_path(8, 0);
    lemma_row_of_own_path(9, 0);
    lemma_row_of_own_path(10, 0);
    lemma_row_of_own_path(11, 0);
    lemma_row_of_own_path(12, 0);
    lemma_row_of_own_path(13, 0);
    lemma_row_of_own_path(14, 0);
    assert(listed_for(127240, "navigation.attitude.roll"@));
    assert(listed_for(127240, "navigation.attitude.pitch"@));
    assert(listed_for(127245, "navigation.rateOfTurn"@));
    assert(listed_for(127249, "navigation.leewayAngle"@));
    assert(listed_for(127250, "navigation.headingTrue"@));
    assert(listed_for(127250, "navigation.headingMagnetic"@));
    assert(listed_for(127251, "steering.rudderAngle"@));
    assert(listed_for(127257, "navigation.speedThroughWater"@));
    assert(listed_for(128258, "environment.wind.speedApparent"@));
    assert(listed_for(128259, "environment.wind.speedTrue"@));
    assert(listed_for(128267, "environment.depth.belowTransducer"@));
    assert(listed_for(128275, "navigation.log"@));
    assert(listed_for(129025, "navigation.position"@));
    assert(listed_for(129291, "navigation.speedOverGround"@));
    assert(listed_for(129291, "navigation.courseOverGroundTrue"@));
    if n2k_plan(sk) is Some {
        let m = n2k_plan(sk).unwrap();
        let rs = payload_readings(m.payload);
        assert forall|k: int| 0 <= k < rs.len() implies (#[trigger] rs[k] matches Some(r)
            ==> from_listed_path(sk, m.pgn, r)) by {}
        assert(rs.contains(rs[0]));
        if rs.len() > 1 {
            assert(rs.contains(rs[1]));
        }
    }
}

/// When a chosen message's PGN has two paths in the table and its payload
/// is two single values, the first value is the reading of the path listed
/// first and the second the reading of the path listed second (roll then
/// pitch; speed then course over ground).
pub proof fn lemma_plan_slots_follow_table(sk: Seq<(Seq<char>, ReadingView)>)
    ensures
        n2k_plan(sk) matches Some(m) ==> (paths_of_pgn(m.pgn, PGN_ROWS as nat).len() == 2
            && m.payload is Singles ==> m.payload == N2kPayloadView::Singles(
            lookup(sk, paths_of_pgn(m.pgn, PGN_ROWS as nat)[0]),
            lookup(sk, paths_of_pgn(m.pgn, PGN_ROWS as nat)[1]),
        )),
{
    reveal_with_fuel(paths_of_pgn, 16);
}

/// The reading of the last entry with key `key`, if any (see `lookup`).
pub fn find_reading(values: &Vec<(String, Reading)>, key: &str) -> (r: Option<Reading>)
    ensures
        opt_reading(r) == lookup(entries_view(values@), key@),
{
    let ghost e = entries_view(values@);
    let mut i = values.len();
    assert(e.subrange(0, e.len() as int) =~= e);
    while i > 0
        invariant
            i <= values.len(),
            e == entries_view(values@),
            last_index(e, key@) == last_index(e.subrange(0, i as int), key@),
        decreases i,
    {
        let ghost p = e.subrange(0, i as int);
        assert(p.last() == e[i - 1]);
        assert(p.drop_last() =~= e.subrange(0, i - 1));
        if text_eq(values[i - 1].0.as_str(), key) {
            return Some(copy_reading(&values[i - 1].1));
        }
        i = i - 1;
    }
    None
}

/// A copy of a reading.
fn copy_reading(x: &Reading) -> (r: Reading)
    ensures
        r@ == x@,
{
    match x {
        Reading::Number(c, v) => Reading::Number(*c, *v),
        Reading::Position(p) => Reading::Position(
            PositionFix {
                lat_degrees: p.lat_degrees,
                lat_minutes: p.lat_minutes.clone(),
                lat_negative: p.lat_negative,
                lon_degrees: p.lon_degrees,
                lon_minutes: p.lon_minutes.clone(),
                lon_negative: p.lon_negative,
            },
        ),
    }
}

/// A message from source address 0.
fn message_of(pgn: u32, payload: N2kPayload) -> (r: Option<N2kMessage>)
    ensures
        opt_message(r) == Some(message(pgn, payload@)),
{
    Some(N2kMessage { pgn, source: 0, payload })
}

/// The NMEA 2000 message for projected readings (see `n2k_plan`).
pub fn n2k_message(signal_k: &Vec<(String, Reading)>) -> (r: Option<N2kMessage>)
    ensures
        opt_message(r) == n2k_plan(entries_view(signal_k@)),
{
    let roll = find_reading(signal_k, "navigation.attitude.roll");
    let pitch = find_reading(signal_k, "navigation.attitude.pitch");
    if roll.is_some() || pitch.is_some() {
        return message_of(127240, N2kPayload::Singles(roll, pitch));
    }
    let rot = find_reading(signal_k, "navigation.rateOfTurn");
    if rot.is_some() {
        return message_of(127245, N2kPayload::Singles(rot, None));
    }
    let leeway = find_reading(signal_k, "navigation.leewayAngle");
    if leeway.is_some() {
        return message_of(127249, N2kPayload::Singles(leeway, None));
    }
    let heading_true = find_reading(signal_k, "navigation.headingTrue");
    let heading_magnetic = find_reading(signal_k, "navigation.headingMagnetic");
    let rudder = find_reading(signal_k, "steering.rudderAngle");
    if heading_true.is_some() || heading_magnetic.is_some() || rudder.is_some() {
        let marked = heading_true.is_some() || heading_magnetic.is_some();
        let heading = if heading_true.is_some() {
            heading_true
        } else {
            heading_magnetic
        };
        if marked {
            return message_of(127250, N2kPayload::SingleMarked(heading));
        }
        return match rudder {
            Some(x) => message_of(127251, N2kPayload::Singles(heading, Some(x))),
            None => message_of(127251, N2kPayload::SingleMarked(heading)),
        };
    }
    let stw = find_reading(signal_k, "navigation.speedThroughWater");
    if stw.is_some() {
        return message_of(127257, N2kPayload::Singles(stw, None));
    }
    let aws = find_reading(signal_k, "environment.wind.speedApparent");
    if aws.is_some() {
        return message_of(128258, N2kPayload::Singles(aws, None));
    }
    let tws = find_reading(signal_k, "environment.wind.speedTrue");
    if tws.is_some() {
        return message_of(128259, N2kPayload::Singles(tws, None));
    }
    let depth = find_reading(signal_k, "environment.depth.belowTransducer");
    if depth.is_some() {
        return message_of(128267, N2kPayload::Singles(depth, None));
    }
    let log = find_reading(signal_k, "navigation.log");
    if log.is_some() {
        return message_of(128275, N2kPayload::Singles(log, None));
    }
    let position = find_reading(signal_k, "navigation.position");
    if let Some(x) = position {
        return message_of(129025, N2kPayload::Double(x));
    }
    let sog = find_reading(signal_k, "navigation.speedOverGround");
    let cog = find_reading(signal_k, "navigation.courseOverGroundTrue");
    if sog.is_some() && cog.is_some() {
        return message_of(129291, N2kPayload::Singles(sog, cog));
    }
    None
}

/// The NMEA 2000 message for a decoded frame: its projection onto Signal K
/// paths (see `project`), mapped by `n2k_plan`.
pub fn decode_frame_to_n2k(frame: &DecodedFrame) -> (r: Option<N2kMessage>)
    requires
        project_outcome(frame@) is Some,
    ensures
        opt_message(r) == n2k_plan(project_outcome(frame@).unwrap()),
{
    let signal_k = project(frame);
    n2k_message(&signal_k)
}

/// Bytes as upper-case hex pairs separated by commas.
pub open spec fn hex_list(d: Seq<u8>) -> Seq<char>
    decreases d.len(),
{
    if d.len() == 0 {
        Seq::empty()
    } else if d.len() == 1 {
        hex2(d[0])
    } else {
        hex_list(d.drop_last()) + seq![','] + hex2(d.last())
    }
}

/// The text line of an NMEA 2000 message: the timestamp, the priority 3, the
/// PGN and the source address in decimal, and the data bytes in hex, all
/// separated by commas.
pub open spec fn n2k_line_text(timestamp: Seq<char>, pgn: u32, source: u8, data: Seq<u8>) -> Seq<
    char,
> {
    timestamp + seq![',', '3', ','] + dec_digits(pgn as nat) + seq![','] + dec_digits(
        source as nat,
    ) + seq![','] + hex_list(data)
}

/// Writes the text line of an NMEA 2000 message (see `n2k_line_text`).
pub fn n2k_line(timestamp: &str, pgn: u32, source: u8, data: &[u8]) -> (r: String)
    ensures
        r@ == n2k_line_text(timestamp@, pgn, source, data@),
{
    let mut s = String::from_str(timestamp);
    proof {
        reveal_strlit(",3,");
        reveal_strlit(",");
    }
    s.append(",3,");
    push_decimal(&mut s, pgn as u64);
    s.append(",");
    push_decimal(&mut s, source as u64);
    s.append(",");
    let ghost head = s@;
    let mut i: usize = 0;
    while i < data.len()
        invariant
            i <= data.len(),
            s@ == head + hex_list(data@.subrange(0, i as int)),
        decreases data.len() - i,
    {
        let ghost before = s@;
        proof {
            reveal_strlit(",");
            let p = data@.subrange(0, i + 1);
            assert(p.drop_last() =~= data@.subrange(0, i as int));
            assert(p.last() == data@[i as int]);
        }
        if i > 0 {
            s.append(",");
        }
        push_hex_byte(&mut s, data[i]);
        proof {
            if i == 0 {
                assert(data@.subrange(0, 1) =~= seq![data@[0]]);
                assert(hex_list(data@.subrange(0, 0)) =~= Seq::empty());
                assert(s@ =~= head + hex_list(data@.subrange(0, 1)));
            } else {
                let p = data@.subrange(0, i + 1);
                assert(hex_list(p) == hex_list(p.drop_last()) + seq![','] + hex2(p.last()));
                assert(s@ =~= head + hex_list(data@.subrange(0, i + 1)));
            }
        }
        i = i + 1;
    }
    assert(data@.subrange(0, data@.len() as int) =~= data@);
    assert(s@ =~= n2k_line_text(timestamp@, pgn, source, data@));
    s
}

} // verus!
