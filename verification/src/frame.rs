//! Reassembly of frames from the raw byte stream of the bus, and the queue of
//! decoded frames.
use vstd::prelude::*;
use vstd::string::*;

use crate::constants::{address_name, command_name, BROADCAST, LATLON, LIGHT_INTENSITY};
use crate::decode::{
    decode_ascii_frame, decode_ascii_frame_spec, decode_frame, decode_frame_spec,
    decode_light_frame, decode_light_frame_spec, entries_view, keys_unique, lemma_decoded_keys_unique,
    name_or_unknown,
    DecodeError, DecodedFrameView,
    DecodedValue, DecodedValueView,
};
use crate::map::{
    lemma_projected_keys_unique, project, project_checked, project_outcome, Conversion, Reading,
    ReadingView,
};
use crate::text::{
    hex_line_bytes, hex_text, lemma_hex_pairs_of_hex_text, lemma_hex_text_digits,
    lemma_no_separators, lemma_trim_hex_digits, push_hex_byte,
};
use crate::utils::{calculate_checksum, checksum_of};

verus! {

/// A decoded frame whose values are projected readings (or, without
/// projection, the plain channel numbers under their channel names).
#[derive(Clone, Debug)]
pub struct DecodedFrame {
    pub to_address: String,
    pub from_address: String,
    pub command: String,
    pub values: Vec<(String, Reading)>,
}

/// What a queued `DecodedFrame` holds.
pub struct QueuedFrameView {
    pub to_address: Seq<char>,
    pub from_address: Seq<char>,
    pub command: Seq<char>,
    pub values: Seq<(Seq<char>, ReadingView)>,
}

impl View for DecodedFrame {
    type V = QueuedFrameView;

    open spec fn view(&self) -> QueuedFrameView {
        QueuedFrameView {
            to_address: self.to_address@,
            from_address: self.from_address@,
            command: self.command@,
            values: entries_view(self.values@),
        }
    }
}

/// The views of queued frames.
pub open spec fn queue_view(q: Seq<DecodedFrame>) -> Seq<QueuedFrameView> {
    q.map_values(|f: DecodedFrame| f@)
}

/// What the frame search does at the front of the buffer.
pub enum ScanStep {
    /// Too few bytes for a whole frame: wait for more.
    Wait,
    /// A checksum does not match: drop the first byte and search again.
    Skip,
    /// A whole frame of this many bytes with matching checksums.
    Take(nat),
}

/// The frame search at the front of `buf`: a header of five bytes (to, from,
/// body size, command, header checksum), the body and a body checksum.
pub open spec fn scan_step(buf: Seq<u8>) -> ScanStep {
    if buf.len() < 6 {
        ScanStep::Wait
    } else if buf.len() < 6 + buf[2] {
        ScanStep::Wait
    } else if checksum_of(buf.take(4)) != buf[4] {
        ScanStep::Skip
    } else if checksum_of(buf.subrange(5, 5 + buf[2] as int)) != buf[5 + buf[2] as int] {
        ScanStep::Skip
    } else {
        ScanStep::Take((6 + buf[2]) as nat)
    }
}

/// The frames found in `buf`, in order, and the bytes left over.
pub open spec fn scan(buf: Seq<u8>) -> (Seq<u8>, Seq<Seq<u8>>)
    decreases buf.len(),
{
    match scan_step(buf) {
        ScanStep::Wait => (buf, Seq::empty()),
        ScanStep::Skip => if buf.len() > 0 {
            scan(buf.drop_first())
        } else {
            (buf, Seq::empty())
        },
        ScanStep::Take(n) => if 0 < n <= buf.len() {
            let (rest, frames) = scan(buf.skip(n as int));
            (rest, seq![buf.take(n as int)] + frames)
        } else {
            (buf, Seq::empty())
        },
    }
}

/// Whether `f` is a whole frame with matching checksums: five header bytes
/// whose checksum is the fifth, the body of the announced size, and the
/// checksum of the body.
pub open spec fn frame_checked(f: Seq<u8>) -> bool {
    &&& f.len() >= 6
    &&& f.len() == 6 + f[2]
    &&& checksum_of(f.take(4)) == f[4]
    &&& checksum_of(f.subrange(5, f.len() - 1)) == f[f.len() - 1]
}

/// The frame search only takes whole frames with matching checksums, and the
/// bytes it leaves are the end of the buffer.
pub proof fn lemma_scan_takes_checked_frames(buf: Seq<u8>)
    ensures
        forall|i: int| 0 <= i < scan(buf).1.len() ==> frame_checked(#[trigger] scan(buf).1[i]),
        scan(buf).0.len() <= buf.len(),
        scan(buf).0 == buf.skip(buf.len() - scan(buf).0.len()),
    decreases buf.len(),
{
    match scan_step(buf) {
        ScanStep::Wait => {
            assert(buf.skip(0) =~= buf);
        },
        ScanStep::Skip => {
            if buf.len() > 0 {
                lemma_scan_takes_checked_frames(buf.drop_first());
                let r = scan(buf.drop_first()).0;
                assert(buf.drop_first().skip(buf.drop_first().len() - r.len()) =~= buf.skip(
                    buf.len() - r.len(),
                ));
            }
        },
        ScanStep::Take(n) => {
            if 0 < n <= buf.len() {
                let next = buf.skip(n as int);
                lemma_scan_takes_checked_frames(next);
                let f = buf.take(n as int);
                let fs = scan(buf).1;
                assert(f.take(4) =~= buf.take(4));
                assert(f.subrange(5, f.len() - 1) =~= buf.subrange(5, 5 + buf[2] as int));
                assert(frame_checked(f));
                assert forall|i: int| 0 <= i < fs.len() implies frame_checked(#[trigger] fs[i]) by {
                    if i > 0 {
                        assert(fs[i] == scan(next).1[i - 1]);
                    }
                }
                let r = scan(next).0;
                assert(next.skip(next.len() - r.len()) =~= buf.skip(buf.len() - r.len()));
            }
        },
    }
}

/// A step of the frame search that does not wait reads only bytes already
/// there, so bytes appended later do not change it.
proof fn lemma_scan_step_append(a: Seq<u8>, b: Seq<u8>)
    requires
        !(scan_step(a) is Wait),
    ensures
        scan_step(a + b) == scan_step(a),
{
    let ab = a + b;
    assert(ab[2] == a[2]);
    assert(ab[4] == a[4]);
    assert(ab.take(4) =~= a.take(4));
    assert(ab.subrange(5, 5 + a[2] as int) =~= a.subrange(5, 5 + a[2] as int));
    assert(ab[5 + a[2] as int] == a[5 + a[2] as int]);
}

/// Searching a buffer and then, after more bytes arrive, searching what was
/// left plus the new bytes finds the same frames, and leaves the same bytes,
/// as searching all the bytes at once.
pub proof fn lemma_scan_in_pieces(a: Seq<u8>, b: Seq<u8>)
    ensures
        scan(a + b).0 == scan(scan(a).0 + b).0,
        scan(a + b).1 == scan(a).1 + scan(scan(a).0 + b).1,
    decreases a.len(),
{
    match scan_step(a) {
        ScanStep::Wait => {
            assert(scan(a).1 + scan(scan(a).0 + b).1 =~= scan(scan(a).0 + b).1);
        },
        ScanStep::Skip => {
            lemma_scan_step_append(a, b);
            assert((a + b).drop_first() =~= a.drop_first() + b);
            lemma_scan_in_pieces(a.drop_first(), b);
        },
        ScanStep::Take(n) => {
            lemma_scan_step_append(a, b);
            let ab = a + b;
            assert(ab.take(n as int) =~= a.take(n as int));
            assert(ab.skip(n as int) =~= a.skip(n as int) + b);
            lemma_scan_in_pieces(a.skip(n as int), b);
            let fa = scan(a.skip(n as int)).1;
            let fb = scan(scan(a).0 + b).1;
            assert(seq![a.take(n as int)] + fa + fb =~= seq![a.take(n as int)] + (fa + fb));
        },
    }
}

/// Handling frames in two runs gives the queue that handling them in one
/// run gives.
pub proof fn lemma_queue_frames_append(
    q: Seq<QueuedFrameView>,
    fs: Seq<Seq<u8>>,
    gs: Seq<Seq<u8>>,
    project: bool,
    max: nat,
)
    ensures
        queue_frames(q, fs + gs, project, max) == queue_frames(
            queue_frames(q, fs, project, max),
            gs,
            project,
            max,
        ),
    decreases fs.len(),
{
    if fs.len() == 0 {
        assert(fs + gs =~= gs);
    } else {
        assert((fs + gs)[0] == fs[0]);
        assert((fs + gs).drop_first() =~= fs.drop_first() + gs);
        lemma_queue_frames_append(queue_frame(q, fs[0], project, max), fs.drop_first(), gs, project, max);
    }
}

/// The command of frames of channel records.
pub open spec fn is_broadcast(f: Seq<u8>) -> bool {
    f[3] == BROADCAST
}

/// The command of position text frames.
pub open spec fn is_latlon(f: Seq<u8>) -> bool {
    f[3] == LATLON
}

/// The command of backlight frames.
pub open spec fn is_light(f: Seq<u8>) -> bool {
    f[3] == LIGHT_INTENSITY
}

/// How a whole frame decodes, by its command; `None` for other commands.
pub open spec fn frame_decoding(f: Seq<u8>) -> Option<Result<DecodedFrameView, DecodeError>> {
    if is_broadcast(f) {
        Some(decode_frame_spec(f))
    } else if is_latlon(f) {
        Some(decode_ascii_frame_spec(f))
    } else if is_light(f) {
        Some(decode_light_frame_spec(f))
    } else {
        None
    }
}

/// The channel numbers of decoded values, under their channel names, for
/// values that carry a number.
pub open spec fn plain_values(values: Seq<(Seq<char>, DecodedValueView)>) -> Seq<
    (Seq<char>, ReadingView),
>
    decreases values.len(),
{
    if values.len() == 0 {
        Seq::empty()
    } else {
        let rest = plain_values(values.drop_last());
        match values.last().1.value {
            Some(x) => rest.push((values.last().0, ReadingView::Number(Conversion::Identity, x))),
            None => rest,
        }
    }
}

/// Whether handling frame `f` cannot complete: a position frame of one body
/// byte, or a position text that cannot be read while projecting.
pub open spec fn frame_aborts(f: Seq<u8>, project: bool) -> bool {
    (is_latlon(f) && f.len() == 7) || (project && match frame_decoding(f) {
        Some(Ok(d)) => d.values.len() > 0 && project_outcome(d) is None,
        _ => false,
    })
}

/// The values kept without projection are some of the decoded values, with
/// one entry per channel name when the decoded values have one.
proof fn lemma_plain_values_keys(values: Seq<(Seq<char>, DecodedValueView)>)
    ensures
        forall|i: int|
            0 <= i < plain_values(values).len() ==> exists|j: int|
                0 <= j < values.len() && #[trigger] values[j].0 == #[trigger] plain_values(
                    values,
                )[i].0,
        keys_unique(values) ==> keys_unique(plain_values(values)),
    decreases values.len(),
{
    if values.len() > 0 {
        let d = values.drop_last();
        lemma_plain_values_keys(d);
        let rest = plain_values(d);
        let p = plain_values(values);
        assert forall|i: int| 0 <= i < p.len() implies exists|j: int|
            0 <= j < values.len() && #[trigger] values[j].0 == #[trigger] p[i].0 by {
            if i < rest.len() {
                assert(p[i] == rest[i]);
                let j = choose|j: int| 0 <= j < d.len() && #[trigger] d[j].0 == #[trigger] rest[i].0;
                assert(values[j] == d[j]);
            } else {
                assert(p[i].0 == values[values.len() - 1].0);
            }
        }
        if keys_unique(values) {
            assert forall|a: int, b: int| 0 <= a < d.len() && 0 <= b < d.len() && a < b implies #[trigger] d[a].0
                != #[trigger] d[b].0 by {
                assert(d[a] == values[a]);
                assert(d[b] == values[b]);
            }
            assert forall|a: int, b: int| 0 <= a < b < p.len() implies #[trigger] p[a].0
                != #[trigger] p[b].0 by {
                if b < rest.len() {
                    assert(p[a] == rest[a]);
                    assert(p[b] == rest[b]);
                } else {
                    assert(p[a] == rest[a]);
                    let j = choose|j: int| 0 <= j < d.len() && #[trigger] d[j].0 == #[trigger] rest[a].0;
                    assert(values[j] == d[j]);
                    assert(p[b].0 == values[values.len() - 1].0);
                }
            }
        }
    }
}

/// Whether every queued frame holds one reading per name.
pub open spec fn queue_keys_unique(q: Seq<QueuedFrameView>) -> bool {
    forall|i: int| 0 <= i < q.len() ==> keys_unique(#[trigger] q[i].values)
}

/// Every frame the buffer queues holds one reading per name (per Signal K
/// path when projecting, per channel name otherwise).
pub proof fn lemma_queued_keys_unique(
    q: Seq<QueuedFrameView>,
    fs: Seq<Seq<u8>>,
    project: bool,
    max: nat,
)
    requires
        queue_keys_unique(q),
        frames_complete(fs, project),
    ensures
        queue_keys_unique(queue_frames(q, fs, project, max)),
    decreases fs.len(),
{
    if fs.len() > 0 {
        let f = fs[0];
        lemma_decoded_keys_unique(f);
        let q1 = queue_frame(q, f, project, max);
        match frame_decoding(f) {
            Some(Ok(d)) => {
                lemma_projected_keys_unique(d);
                lemma_plain_values_keys(d.values);
                assert(keys_unique(d.values));
                if q1 != q {
                    let e = q1.last();
                    if project {
                        assert(e.values == project_outcome(d).unwrap());
                    } else {
                        assert(e.values == plain_values(d.values));
                    }
                    assert(keys_unique(e.values));
                    assert forall|i: int| 0 <= i < q1.len() implies keys_unique(
                        #[trigger] q1[i].values,
                    ) by {
                        if i == q1.len() - 1 {
                        } else if q.len() >= max && q.len() > 0 {
                            assert(q1[i] == q[i + 1]);
                        } else {
                            assert(q1[i] == q[i]);
                        }
                    }
                }
            },
            _ => {},
        }
        assert(!frame_aborts(fs[0], project));
        assert forall|i: int| 0 <= i < fs.drop_first().len() implies !frame_aborts(
            #[trigger] fs.drop_first()[i],
            project,
        ) by {
            assert(fs.drop_first()[i] == fs[i + 1]);
        }
        lemma_queued_keys_unique(q1, fs.drop_first(), project, max);
    }
}

/// Whether every frame of `fs` can be handled (see `frame_aborts`).
pub open spec fn frames_complete(fs: Seq<Seq<u8>>, project: bool) -> bool {
    forall|i: int| 0 <= i < fs.len() ==> !frame_aborts(#[trigger] fs[i], project)
}

/// Frames can all be handled when the first can and the rest can.
proof fn lemma_frames_complete_cons(f: Seq<u8>, fs: Seq<Seq<u8>>, project: bool)
    ensures
        frames_complete(seq![f] + fs, project) == (!frame_aborts(f, project) && frames_complete(
            fs,
            project,
        )),
{
    let all = seq![f] + fs;
    assert(all[0] == f);
    if frames_complete(all, project) {
        assert forall|i: int| 0 <= i < fs.len() implies !frame_aborts(#[trigger] fs[i], project) by {
            assert(fs[i] == all[i + 1]);
        }
    }
    if !frame_aborts(f, project) && frames_complete(fs, project) {
        assert forall|i: int| 0 <= i < all.len() implies !frame_aborts(#[trigger] all[i], project) by {
            if i > 0 {
                assert(all[i] == fs[i - 1]);
            }
        }
    }
}

/// The queue after frame `f` is handled: a frame that decodes to at least one
/// value, and to at least one reading, is appended; the oldest frame leaves
/// when the queue holds `max` frames.
pub open spec fn queue_frame(q: Seq<QueuedFrameView>, f: Seq<u8>, project: bool, max: nat) -> Seq<
    QueuedFrameView,
> {
    match frame_decoding(f) {
        Some(Ok(d)) => if d.values.len() == 0 {
            q
        } else {
            let values = if project {
                project_outcome(d).unwrap()
            } else {
                plain_values(d.values)
            };
            if values.len() == 0 {
                q
            } else {
                let entry = QueuedFrameView {
                    to_address: d.to_address,
                    from_address: d.from_address,
                    command: d.command,
                    values,
                };
                if q.len() >= max && q.len() > 0 {
                    q.drop_first().push(entry)
                } else {
                    q.push(entry)
                }
            }
        },
        _ => q,
    }
}

/// A frame that handling adds to the queue keeps the header of the bytes it
/// came from: its destination is the name of byte 0, its source the name of
/// byte 1 and its command the name of byte 3.
pub proof fn lemma_queued_frame_header(q: Seq<QueuedFrameView>, f: Seq<u8>, project: bool, max: nat)
    ensures
        queue_frame(q, f, project, max) != q ==> {
            let e = queue_frame(q, f, project, max).last();
            &&& e.to_address == name_or_unknown(address_name(f[0]), f[0])
            &&& e.from_address == name_or_unknown(address_name(f[1]), f[1])
            &&& e.command == name_or_unknown(command_name(f[3]), f[3])
        },
{
}

/// The queue after the frames `fs` are handled in order.
pub open spec fn queue_frames(q: Seq<QueuedFrameView>, fs: Seq<Seq<u8>>, project: bool, max: nat) -> Seq<
    QueuedFrameView,
>
    decreases fs.len(),
{
    if fs.len() == 0 {
        q
    } else {
        queue_frames(queue_frame(q, fs[0], project, max), fs.drop_first(), project, max)
    }
}

/// The last `n` items of `s`, or all of them when there are fewer.
pub open spec fn keep_last<T>(s: Seq<T>, n: nat) -> Seq<T> {
    if s.len() > n {
        s.skip(s.len() - n)
    } else {
        s
    }
}



/// The channel numbers of decoded values that carry one, under their names.
fn plain_values_of(values: &Vec<(String, DecodedValue)>) -> (r: Vec<(String, Reading)>)
    ensures
        entries_view(r@) == plain_values(entries_view(values@)),
{
    let ghost vs = entries_view(values@);
    let mut out: Vec<(String, Reading)> = Vec::new();
    let mut i: usize = 0;
    assert(vs.take(0) =~= Seq::<(Seq<char>, DecodedValueView)>::empty());
    assert(entries_view(out@) =~= Seq::empty());
    while i < values.len()
        invariant
            vs == entries_view(values@),
            i <= values.len(),
            entries_view(out@) == plain_values(vs.take(i as int)),
        decreases values.len() - i,
    {
        assert(vs.take(i + 1).drop_last() =~= vs.take(i as int));
        assert(vs.take(i + 1).last() == vs[i as int]);
        if let Some(x) = values[i].1.value {
            let name = values[i].0.clone();
            let ghost kv = (name@, ReadingView::Number(Conversion::Identity, x));
            let ghost before = entries_view(out@);
            out.push((name, Reading::Number(Conversion::Identity, x)));
            assert(entries_view(out@) =~= before.push(kv));
        }
        i = i + 1;
    }
    assert(vs.take(i as int) =~= vs);
    out
}

/// Whether handling the whole frame `frame` cannot complete (see `frame_aborts`).
fn frame_cannot_complete(frame: &[u8], project_values: bool) -> (r: bool)
    requires
        frame.len() >= 6,
    ensures
        r == frame_aborts(frame@, project_values),
{
    let command = frame[3];
    if command == LATLON && frame.len() == 7 {
        return true;
    }
    if !project_values {
        return false;
    }
    let decoded = if command == BROADCAST {
        decode_frame(frame)
    } else if command == LATLON {
        decode_ascii_frame(frame)
    } else if command == LIGHT_INTENSITY {
        decode_light_frame(frame)
    } else {
        return false;
    };
    match decoded {
        Ok(d) => d.values.len() > 0 && project_checked(&d).is_none(),
        Err(_) => false,
    }
}

/// Decodes a whole frame by its command and appends its readings to the
/// queue (see `queue_frame`).
fn decode_and_queue_frame(queue: &mut Vec<DecodedFrame>, max: usize, project_values: bool, frame: &[u8])
    requires
        frame.len() >= 6,
        max > 0,
        old(queue).len() <= max,
        !frame_aborts(frame@, project_values),
    ensures
        queue_view(final(queue)@) == queue_frame(queue_view(old(queue)@), frame@, project_values, max as nat),
        final(queue).len() <= max,
{
    let command = frame[3];
    let decoded = if command == BROADCAST {
        decode_frame(frame)
    } else if command == LATLON {
        decode_ascii_frame(frame)
    } else if command == LIGHT_INTENSITY {
        decode_light_frame(frame)
    } else {
        return ;
    };
    let d = match decoded {
        Ok(d) => d,
        Err(_) => {
            return ;
        },
    };
    if d.values.len() == 0 {
        return ;
    }
    let values = if project_values {
        project(&d)
    } else {
        plain_values_of(&d.values)
    };
    if values.len() == 0 {
        return ;
    }
    let ghost q0 = queue_view(queue@);
    if queue.len() >= max {
        queue.remove(0);
        assert(queue_view(queue@) =~= q0.drop_first());
    }
    let ghost q1 = queue_view(queue@);
    let entry = DecodedFrame {
        to_address: d.to_address,
        from_address: d.from_address,
        command: d.command,
        values,
    };
    let ghost ev = entry@;
    queue.push(entry);
    assert(queue_view(queue@) =~= q1.push(ev));
}

/// The hex text that `get_buffer_contents` gives, read by `hex_to_bytes`,
/// gives back the bytes waiting in the buffer.
pub proof fn lemma_buffer_contents_read_back(buf: Seq<u8>)
    ensures
        hex_line_bytes(hex_text(buf)) == Some(buf),
{
    lemma_hex_text_digits(buf);
    lemma_trim_hex_digits(hex_text(buf));
    lemma_no_separators(hex_text(buf));
    lemma_hex_pairs_of_hex_text(buf);
}

/// The buffer after `add_to_buffer(data)` followed by `get_complete_frames()`
/// (the composition of their contracts).
pub open spec fn feed(v: FrameBufferView, data: Seq<u8>) -> FrameBufferView {
    let buf = keep_last(v.buffer + data, v.max_buffer_size);
    FrameBufferView {
        buffer: scan(buf).0,
        queue: queue_frames(v.queue, scan(buf).1, v.project, v.max_buffer_size),
        ..v
    }
}

/// Bytes fed in two pieces give the same buffer and queue as the same bytes
/// fed at once, as long as no byte is dropped for want of room.
pub proof fn lemma_feed_in_pieces(v: FrameBufferView, a: Seq<u8>, b: Seq<u8>)
    requires
        v.buffer.len() + a.len() + b.len() <= v.max_buffer_size,
    ensures
        feed(feed(v, a), b) == feed(v, a + b),
{
    let ba = v.buffer + a;
    assert(keep_last(ba, v.max_buffer_size) == ba);
    lemma_scan_takes_checked_frames(ba);
    let rest = scan(ba).0;
    assert(keep_last(rest + b, v.max_buffer_size) == rest + b);
    assert(v.buffer + (a + b) =~= ba + b);
    assert(keep_last(ba + b, v.max_buffer_size) == ba + b);
    lemma_scan_in_pieces(ba, b);
    lemma_queue_frames_append(v.queue, scan(ba).1, scan(rest + b).1, v.project, v.max_buffer_size);
}

/// A buffer that reassembles frames from the raw bytes of the bus and queues
/// the decoded ones.
pub struct FrameBuffer {
    buffer: Vec<u8>,
    max_buffer_size: usize,
    frame_queue: Vec<DecodedFrame>,
    project: bool,
}

/// What a `FrameBuffer` holds: the bytes not yet framed, the size limit of
/// the buffer (which also limits the queue), the queued frames, oldest first,
/// and whether values are projected onto Signal K paths.
pub struct FrameBufferView {
    pub buffer: Seq<u8>,
    pub max_buffer_size: nat,
    pub queue: Seq<QueuedFrameView>,
    pub project: bool,
}

impl View for FrameBuffer {
    type V = FrameBufferView;

    closed spec fn view(&self) -> FrameBufferView {
        FrameBufferView {
            buffer: self.buffer@,
            max_buffer_size: self.max_buffer_size as nat,
            queue: queue_view(self.frame_queue@),
            project: self.project,
        }
    }
}

impl FrameBuffer {
    /// Neither the buffer nor the queue is longer than the size limit.
    #[verifier::type_invariant]
    spec fn within_limits(self) -> bool {
        self.buffer.len() <= self.max_buffer_size && self.frame_queue.len() <= self.max_buffer_size
    }

    /// An empty buffer and queue. `max_queue_size` only reserves room for the
    /// queue: its length is limited by `max_buffer_size`.
    pub fn new(max_buffer_size: usize, max_queue_size: usize, project: bool) -> (r: Self)
        ensures
            r@ == (FrameBufferView {
                buffer: Seq::empty(),
                max_buffer_size: max_buffer_size as nat,
                queue: Seq::empty(),
                project,
            }),
    {
        let r = FrameBuffer {
            buffer: Vec::with_capacity(max_buffer_size),
            max_buffer_size,
            frame_queue: Vec::with_capacity(max_queue_size),
            project,
        };
        assert(queue_view(r.frame_queue@) =~= Seq::empty());
        r
    }

    /// A buffer of 8192 bytes with room for 1000 frames, projecting values.
    pub fn new_default() -> (r: Self)
        ensures
            r@ == (FrameBufferView {
                buffer: Seq::empty(),
                max_buffer_size: 8192,
                queue: Seq::empty(),
                project: true,
            }),
    {
        Self::new(8192, 1000, true)
    }

    /// Appends bytes to the buffer, keeping only the newest `max_buffer_size` bytes.
    pub fn add_to_buffer(&mut self, new_data: &[u8])
        ensures
            final(self)@ == (FrameBufferView {
                buffer: keep_last(old(self)@.buffer + new_data@, old(self)@.max_buffer_size),
                ..old(self)@
            }),
            final(self)@.buffer.len() <= final(self)@.max_buffer_size,
    {
        proof {
            use_type_invariant(&*self);
        }
        let mut all: Vec<u8> = Vec::new();
        std::mem::swap(&mut all, &mut self.buffer);
        let ghost b0 = all@;
        let mut i: usize = 0;
        while i < new_data.len()
            invariant
                i <= new_data.len(),
                all@ =~= b0 + new_data@.subrange(0, i as int),
            decreases new_data.len() - i,
        {
            all.push(new_data[i]);
            i = i + 1;
        }
        assert(new_data@.subrange(0, new_data@.len() as int) =~= new_data@);
        if all.len() > self.max_buffer_size {
            let from = all.len() - self.max_buffer_size;
            let mut kept: Vec<u8> = Vec::new();
            let mut j = from;
            while j < all.len()
                invariant
                    from <= j <= all.len(),
                    kept@ =~= all@.subrange(from as int, j as int),
                decreases all.len() - j,
            {
                kept.push(all[j]);
                j = j + 1;
            }
            self.buffer = kept;
        } else {
            self.buffer = all;
        }
    }

    /// Takes every whole frame with matching checksums from the front of the
    /// buffer and queues the decoded ones (see `scan` and `queue_frames`).
    /// A byte at which no valid frame starts is dropped; an incomplete frame
    /// is left in the buffer to wait for more bytes.
    #[verifier::spinoff_prover]
    #[verifier::rlimit(40)]
    pub fn get_complete_frames(&mut self)
        requires
            frames_complete(scan(old(self)@.buffer).1, old(self)@.project),
        ensures
            final(self)@ == (FrameBufferView {
                buffer: scan(old(self)@.buffer).0,
                queue: queue_frames(
                    old(self)@.queue,
                    scan(old(self)@.buffer).1,
                    old(self)@.project,
                    old(self)@.max_buffer_size,
                ),
                ..old(self)@
            }),
            final(self)@.buffer.len() <= final(self)@.max_buffer_size,
            final(self)@.queue.len() <= final(self)@.max_buffer_size,
    {
        proof {
            use_type_invariant(&*self);
        }
        let max = self.max_buffer_size;
        let project_values = self.project;
        let mut queue: Vec<DecodedFrame> = Vec::new();
        std::mem::swap(&mut queue, &mut self.frame_queue);
        let mut all: Vec<u8> = Vec::new();
        std::mem::swap(&mut all, &mut self.buffer);
        let ghost b0 = all@;
        let ghost q0 = queue_view(queue@);
        let mut start: usize = 0;
        assert(b0.skip(0) =~= b0);
        assert(b0 == old(self)@.buffer);
        assert forall|i: int|
            0 <= i < scan(b0.skip(0)).1.len() implies !frame_aborts(
            #[trigger] scan(b0.skip(0)).1[i],
            project_values,
        ) by {
            assert(scan(b0.skip(0)).1[i] == scan(old(self)@.buffer).1[i]);
        }
        while all.len() - start >= 6 && all.len() - start >= 6 + all[start + 2] as usize
            invariant
                all@ == b0,
                b0.len() <= max,
                start <= all.len(),
                queue.len() <= max,
                scan(b0).0 == scan(b0.skip(start as int)).0,
                queue_frames(q0, scan(b0).1, project_values, max as nat) == queue_frames(
                    queue_view(queue@),
                    scan(b0.skip(start as int)).1,
                    project_values,
                    max as nat,
                ),
                forall|i: int|
                    0 <= i < scan(b0.skip(start as int)).1.len() ==> !frame_aborts(
                        #[trigger] scan(b0.skip(start as int)).1[i],
                        project_values,
                    ),
            decreases all.len() - start,
        {
            let ghost rest = b0.skip(start as int);
            let body_size = all[start + 2] as usize;
            let full = 6 + body_size;
            assert(rest[2] == all@[start + 2]);
            let header = vstd::slice::slice_subrange(all.as_slice(), start, start + 4);
            let body = vstd::slice::slice_subrange(all.as_slice(), start + 5, start + 5 + body_size);
            proof {
                assert(header@ =~= rest.take(4));
                assert(body@ =~= rest.subrange(5, 5 + body_size as int));
                assert(rest[4] == all@[start + 4]);
                assert(rest[5 + body_size as int] == all@[start + 5 + body_size]);
            }
            if calculate_checksum(header) != all[start + 4] || calculate_checksum(body) != all[start
                + 5 + body_size] {
                assert(rest.drop_first() =~= b0.skip(start + 1));
                start = start + 1;
            } else {
                let frame = vstd::slice::slice_subrange(all.as_slice(), start, start + full);
                proof {
                    assert(frame@ =~= rest.take(full as int));
                    assert(rest.skip(full as int) =~= b0.skip(start + full));
                    let fs = scan(rest).1;
                    assert(fs[0] == frame@);
                    assert(fs.drop_first() =~= scan(b0.skip(start + full)).1);
                    assert forall|i: int|
                        0 <= i < scan(b0.skip(start + full)).1.len() implies !frame_aborts(
                        #[trigger] scan(b0.skip(start + full)).1[i],
                        project_values,
                    ) by {
                        assert(scan(b0.skip(start + full)).1[i] == fs[i + 1]);
                    }
                    assert(!frame_aborts(fs[0], project_values));
                }
                decode_and_queue_frame(&mut queue, max, project_values, frame);
                start = start + full;
            }
        }
        proof {
            let rest = b0.skip(start as int);
            if rest.len() >= 6 {
                assert(rest[2] == all@[start + 2]);
            }
        }
        let mut kept: Vec<u8> = Vec::new();
        let mut j = start;
        while j < all.len()
            invariant
                start <= j <= all.len(),
                kept@ =~= all@.subrange(start as int, j as int),
            decreases all.len() - j,
        {
            kept.push(all[j]);
            j = j + 1;
        }
        assert(kept@ =~= b0.skip(start as int));
        self.buffer = kept;
        self.frame_queue = queue;
    }

    /// Whether `get_complete_frames` can handle every whole frame now in the
    /// buffer (see `frames_complete`).
    pub fn can_complete_frames(&self) -> (r: bool)
        ensures
            r == frames_complete(scan(self@.buffer).1, self@.project),
    {
        let ghost b0 = self.buffer@;
        let all = &self.buffer;
        let project_values = self.project;
        let mut start: usize = 0;
        assert(b0.skip(0) =~= b0);
        while all.len() - start >= 6 && all.len() - start >= 6 + all[start + 2] as usize
            invariant
                all@ == b0,
                start <= all.len(),
                project_values == self@.project,
                b0 == self@.buffer,
                frames_complete(scan(b0).1, project_values) == frames_complete(
                    scan(b0.skip(start as int)).1,
                    project_values,
                ),
            decreases all.len() - start,
        {
            let ghost rest = b0.skip(start as int);
            let body_size = all[start + 2] as usize;
            let full = 6 + body_size;
            assert(rest[2] == all@[start + 2]);
            let header = vstd::slice::slice_subrange(all.as_slice(), start, start + 4);
            let body = vstd::slice::slice_subrange(all.as_slice(), start + 5, start + 5 + body_size);
            proof {
                assert(header@ =~= rest.take(4));
                assert(body@ =~= rest.subrange(5, 5 + body_size as int));
                assert(rest[4] == all@[start + 4]);
                assert(rest[5 + body_size as int] == all@[start + 5 + body_size]);
            }
            if calculate_checksum(header) != all[start + 4] || calculate_checksum(body) != all[start
                + 5 + body_size] {
                assert(rest.drop_first() =~= b0.skip(start + 1));
                start = start + 1;
            } else {
                let frame = vstd::slice::slice_subrange(all.as_slice(), start, start + full);
                proof {
                    assert(frame@ =~= rest.take(full as int));
                    assert(rest.skip(full as int) =~= b0.skip(start + full));
                    lemma_frames_complete_cons(frame@, scan(b0.skip(start + full)).1, project_values);
                }
                if frame_cannot_complete(frame, project_values) {
                    return false;
                }
                start = start + full;
            }
        }
        proof {
            let rest = b0.skip(start as int);
            if rest.len() >= 6 {
                assert(rest[2] == all@[start + 2]);
            }
        }
        true
    }

    /// The queued frames, oldest first.
    pub fn frame_queue(&self) -> (r: &[DecodedFrame])
        ensures
            queue_view(r@) == self@.queue,
    {
        self.frame_queue.as_slice()
    }

    /// Takes the newest queued frame.
    pub fn frame_queue_pop(&mut self) -> (r: Option<DecodedFrame>)
        ensures
            old(self)@.queue.len() == 0 ==> r is None && final(self)@ == old(self)@,
            old(self)@.queue.len() > 0 ==> (r matches Some(f) && f@ == old(self)@.queue.last()),
            old(self)@.queue.len() > 0 ==> final(self)@ == (FrameBufferView {
                queue: old(self)@.queue.drop_last(),
                ..old(self)@
            }),
    {
        proof {
            use_type_invariant(&*self);
        }
        let mut queue: Vec<DecodedFrame> = Vec::new();
        std::mem::swap(&mut queue, &mut self.frame_queue);
        let ghost q0 = queue@;
        let r = queue.pop();
        proof {
            if q0.len() > 0 {
                assert(queue_view(queue@) =~= queue_view(q0).drop_last());
            }
        }
        self.frame_queue = queue;
        r
    }

    /// The number of bytes waiting in the buffer.
    pub fn get_buffer_size(&self) -> (r: usize)
        ensures
            r == self@.buffer.len(),
    {
        self.buffer.len()
    }

    /// The bytes waiting in the buffer as upper-case hex text.
    pub fn get_buffer_contents(&self) -> (r: String)
        ensures
            r@ == hex_text(self@.buffer),
    {
        let mut s = String::new();
        let mut i: usize = 0;
        while i < self.buffer.len()
            invariant
                i <= self.buffer.len(),
                s@ == hex_text(self.buffer@.subrange(0, i as int)),
            decreases self.buffer.len() - i,
        {
            assert(self.buffer@.subrange(0, i + 1).drop_last() =~= self.buffer@.subrange(0, i as int));
            push_hex_byte(&mut s, self.buffer[i]);
            i = i + 1;
        }
        assert(self.buffer@.subrange(0, i as int) =~= self.buffer@);
        s
    }
}

} // verus!
