//! Length-prefixed frames on a byte stream.
//!
//! A byte stream keeps no message boundaries: what one node writes in one
//! piece may reach its peer in several, or glued to the next message. Every
//! message therefore travels as a frame: four bytes that give the length of
//! the payload, most significant byte first, and then the payload itself.

use vstd::prelude::*;
use vstd::slice::{slice_subrange, slice_to_vec};

verus! {

/// Number of bytes of a frame's length prefix.
pub const PREFIX_LEN: usize = 4;

/// The longest payload a frame can carry.
pub const MAX_PAYLOAD: u64 = 0xffff_ffff;

/// The four-byte prefix that stands for the length `n`.
pub open spec fn length_prefix(n: nat) -> Seq<u8> {
    seq![
        (n / 0x100_0000 % 0x100) as u8,
        (n / 0x1_0000 % 0x100) as u8,
        (n / 0x100 % 0x100) as u8,
        (n % 0x100) as u8,
    ]
}

/// The length that the first four bytes of `bytes` stand for.
pub open spec fn prefix_value(bytes: Seq<u8>) -> nat
    recommends
        bytes.len() >= 4,
{
    (bytes[0] as nat) * 0x100_0000 + (bytes[1] as nat) * 0x1_0000 + (bytes[2] as nat) * 0x100
        + (bytes[3] as nat)
}

/// The frame that carries `payload`.
pub open spec fn frame_of(payload: Seq<u8>) -> Seq<u8> {
    length_prefix(payload.len()) + payload
}

/// Takes the first frame off `buffer`: its payload and the bytes that follow
/// the frame. `None` while the buffer does not yet hold a whole frame.
pub open spec fn split_frame(buffer: Seq<u8>) -> Option<(Seq<u8>, Seq<u8>)> {
    if buffer.len() < 4 {
        None
    } else {
        let n = prefix_value(buffer);
        if buffer.len() - 4 < n {
            None
        } else {
            Some(
                (
                    buffer.subrange(4, 4 + n as int),
                    buffer.subrange(4 + n as int, buffer.len() as int),
                ),
            )
        }
    }
}

/// The frames of `payloads`, one after the other, as they appear on the wire.
pub open spec fn frames_of(payloads: Seq<Seq<u8>>) -> Seq<u8>
    decreases payloads.len(),
{
    if payloads.len() == 0 {
        Seq::empty()
    } else {
        frame_of(payloads[0]) + frames_of(payloads.drop_first())
    }
}

/// The contents of a list of payloads.
pub open spec fn payload_views(payloads: Seq<Vec<u8>>) -> Seq<Seq<u8>> {
    payloads.map_values(|p: Vec<u8>| p@)
}

/// Why a payload could not be framed.
#[derive(Clone, Copy, Debug, PartialEq, Eq, Structural)]
pub enum FrameError {
    /// The payload is longer than four bytes of length can say.
    PayloadTooLarge,
}

/// Wraps `payload` into a frame. Fails only for a payload of more than
/// `MAX_PAYLOAD` bytes.
pub fn encode_frame(payload: &[u8]) -> (outcome: Result<Vec<u8>, FrameError>)
    ensures
        match outcome {
            Ok(frame) => payload@.len() <= MAX_PAYLOAD && frame@ == frame_of(payload@),
            Err(e) => payload@.len() > MAX_PAYLOAD && e == FrameError::PayloadTooLarge,
        },
{
    let n: u64 = payload.len() as u64;
    if n > MAX_PAYLOAD {
        return Err(FrameError::PayloadTooLarge);
    }
    let mut frame: Vec<u8> = Vec::new();
    frame.push((n / 0x100_0000 % 0x100) as u8);
    frame.push((n / 0x1_0000 % 0x100) as u8);
    frame.push((n / 0x100 % 0x100) as u8);
    frame.push((n % 0x100) as u8);
    assert(frame@ =~= length_prefix(payload@.len()));
    let mut body = slice_to_vec(payload);
    frame.append(&mut body);
    Ok(frame)
}

/// Looks for a whole frame at the start of `buffer`. Returns its payload and
/// the number of bytes the frame takes up, or `None` while the frame is not
/// complete. The bytes after the frame are left for the next call.
pub fn decode_frame(buffer: &[u8]) -> (found: Option<(Vec<u8>, usize)>)
    ensures
        match found {
            Some((payload, used)) => split_frame(buffer@) == Some(
                (payload@, buffer@.subrange(used as int, buffer@.len() as int)),
            ) && used == 4 + payload@.len(),
            None => split_frame(buffer@) is None,
        },
{
    if buffer.len() < PREFIX_LEN {
        return None;
    }
    let n: u64 = (buffer[0] as u64) * 0x100_0000 + (buffer[1] as u64) * 0x1_0000
        + (buffer[2] as u64) * 0x100 + (buffer[3] as u64);
    if ((buffer.len() - PREFIX_LEN) as u64) < n {
        return None;
    }
    let end: usize = PREFIX_LEN + (n as usize);
    let payload = slice_to_vec(slice_subrange(buffer, PREFIX_LEN, end));
    Some((payload, end))
}

/// Collects the bytes that arrive on one connection and hands out the frames
/// they hold, however the stream was cut into pieces on the way.
#[derive(Debug)]
pub struct FrameReader {
    pending: Vec<u8>,
}

impl View for FrameReader {
    type V = Seq<u8>;

    /// The bytes received and not yet handed out.
    closed spec fn view(&self) -> Seq<u8> {
        self.pending@
    }
}

impl FrameReader {
    /// A reader that has received nothing yet.
    pub fn new() -> (reader: FrameReader)
        ensures
            reader@ == Seq::<u8>::empty(),
    {
        FrameReader { pending: Vec::new() }
    }

    /// Number of bytes received and not yet handed out.
    pub fn pending_len(&self) -> (n: usize)
        ensures
            n == self@.len(),
    {
        self.pending.len()
    }

    /// Adds bytes that were just read from the connection.
    pub fn feed(&mut self, bytes: &[u8])
        ensures
            final(self)@ == old(self)@ + bytes@,
    {
        let mut more = slice_to_vec(bytes);
        self.pending.append(&mut more);
    }

    /// Hands out the payload of the next whole frame and drops the frame
    /// from the pending bytes. Returns `None`, and changes nothing, while no
    /// whole frame has arrived.
    pub fn next_frame(&mut self) -> (payload: Option<Vec<u8>>)
        ensures
            match payload {
                Some(p) => split_frame(old(self)@) == Some((p@, final(self)@)),
                None => split_frame(old(self)@) is None && final(self)@ == old(self)@,
            },
    {
        match decode_frame(self.pending.as_slice()) {
            Some((payload, used)) => {
                let rest = self.pending.split_off(used);
                self.pending = rest;
                Some(payload)
            },
            None => None,
        }
    }

    /// Hands out the payloads of all whole frames that have arrived, in the
    /// order of arrival. What stays pending is the incomplete start of the
    /// next frame, if any.
    pub fn drain_frames(&mut self) -> (payloads: Vec<Vec<u8>>)
        ensures
            old(self)@ == frames_of(payload_views(payloads@)) + final(self)@,
            split_frame(final(self)@) is None,
            forall|i: int|
                0 <= i < payloads@.len() ==> (#[trigger] payloads@[i])@.len() <= MAX_PAYLOAD,
    {
        let mut payloads: Vec<Vec<u8>> = Vec::new();
        assert(payload_views(payloads@) =~= Seq::<Seq<u8>>::empty());
        assert(frames_of(payload_views(payloads@)) + self@ =~= self@);
        loop
            invariant
                old(self)@ == frames_of(payload_views(payloads@)) + self@,
                forall|i: int|
                    0 <= i < payloads@.len() ==> (#[trigger] payloads@[i])@.len()
                        <= MAX_PAYLOAD,
            ensures
                split_frame(self@) is None,
            decreases self@.len(),
        {
            let ghost before = self@;
            let ghost done = payload_views(payloads@);
            match self.next_frame() {
                Some(payload) => {
                    proof {
                        lemma_split_is_exact(before);
                        lemma_frames_of_push(done, payload@);
                        assert(payload_views(payloads@.push(payload)) =~= done.push(payload@));
                        assert(frames_of(done) + (frame_of(payload@) + self@) =~= (frames_of(done)
                            + frame_of(payload@)) + self@);
                    }
                    payloads.push(payload);
                },
                None => {
                    break ;
                },
            }
        }
        payloads
    }
}

/// A length of at most `MAX_PAYLOAD` is read back from its prefix.
pub proof fn lemma_prefix_round_trip(n: nat)
    requires
        n <= MAX_PAYLOAD,
    ensures
        length_prefix(n).len() == 4,
        prefix_value(length_prefix(n)) == n,
{
}

/// Four bytes are read back from the length they stand for, and that length
/// is at most `MAX_PAYLOAD`.
pub proof fn lemma_value_round_trip(b0: u8, b1: u8, b2: u8, b3: u8)
    ensures
        prefix_value(seq![b0, b1, b2, b3]) <= MAX_PAYLOAD,
        length_prefix(prefix_value(seq![b0, b1, b2, b3])) == seq![b0, b1, b2, b3],
        prefix_value(seq![b0, b1, b2, b3]) == (b0 as nat) * 0x100_0000 + (b1 as nat) * 0x1_0000
            + (b2 as nat) * 0x100 + (b3 as nat),
{
    let n = prefix_value(seq![b0, b1, b2, b3]);
    assert(n == (b0 as nat) * 0x100_0000 + (b1 as nat) * 0x1_0000 + (b2 as nat) * 0x100
        + (b3 as nat));
    assert(n % 0x100 == b3 as nat);
    assert(n / 0x100 == (b0 as nat) * 0x1_0000 + (b1 as nat) * 0x100 + (b2 as nat));
    assert(n / 0x1_0000 == (b0 as nat) * 0x100 + (b1 as nat));
    assert(n / 0x100_0000 == b0 as nat);
    assert(length_prefix(n) =~= seq![b0, b1, b2, b3]);
}

/// Framing loses nothing: from a frame followed by any other bytes, exactly
/// the payload and those bytes are taken apart again.
pub proof fn lemma_frame_round_trip(payload: Seq<u8>, rest: Seq<u8>)
    requires
        payload.len() <= MAX_PAYLOAD,
    ensures
        split_frame(frame_of(payload) + rest) == Some((payload, rest)),
{
    lemma_prefix_round_trip(payload.len());
    let buffer = frame_of(payload) + rest;
    let prefix = length_prefix(payload.len());
    assert(buffer[0] == prefix[0] && buffer[1] == prefix[1] && buffer[2] == prefix[2] && buffer[3]
        == prefix[3]);
    assert(prefix_value(buffer) == prefix_value(prefix));
    assert(buffer.subrange(4, 4 + payload.len() as int) =~= payload);
    assert(buffer.subrange(4 + payload.len() as int, buffer.len() as int) =~= rest);
}

/// A frame that has arrived only in part is never mistaken for a whole one:
/// every proper prefix of a frame is reported as incomplete.
pub proof fn lemma_partial_frame_is_incomplete(payload: Seq<u8>, k: int)
    requires
        payload.len() <= MAX_PAYLOAD,
        0 <= k < frame_of(payload).len(),
    ensures
        split_frame(frame_of(payload).subrange(0, k)) is None,
{
    lemma_prefix_round_trip(payload.len());
    let part = frame_of(payload).subrange(0, k);
    if k >= 4 {
        let prefix = length_prefix(payload.len());
        assert(part[0] == prefix[0] && part[1] == prefix[1] && part[2] == prefix[2] && part[3]
            == prefix[3]);
        assert(prefix_value(part) == prefix_value(prefix));
    }
}

/// What is taken off a buffer is what was put there: a buffer from which a
/// payload can be split starts with that payload's frame.
pub proof fn lemma_split_is_exact(buffer: Seq<u8>)
    requires
        split_frame(buffer) is Some,
    ensures
        ({
            let parts = split_frame(buffer).unwrap();
            buffer == frame_of(parts.0) + parts.1 && parts.0.len() <= MAX_PAYLOAD
        }),
{
    let n = prefix_value(buffer);
    let parts = split_frame(buffer).unwrap();
    let payload = parts.0;
    let rest = parts.1;
    lemma_value_round_trip(buffer[0], buffer[1], buffer[2], buffer[3]);
    assert(length_prefix(n) =~= buffer.subrange(0, 4));
    assert(payload.len() == n);
    assert(buffer =~= buffer.subrange(0, 4) + payload + rest);
}

/// Frames follow one another without gaps: the frames of a list with one
/// more payload are the frames of the list and then the frame of that
/// payload.
pub proof fn lemma_frames_of_push(payloads: Seq<Seq<u8>>, last: Seq<u8>)
    ensures
        frames_of(payloads.push(last)) == frames_of(payloads) + frame_of(last),
    decreases payloads.len(),
{
    if payloads.len() == 0 {
        let single = payloads.push(last);
        assert(single.drop_first() =~= Seq::<Seq<u8>>::empty());
        assert(frames_of(single.drop_first()) =~= Seq::<u8>::empty());
        assert(single[0] == last);
        assert(frames_of(single) == frame_of(single[0]) + frames_of(single.drop_first()));
        assert(frames_of(single) =~= frame_of(last));
        assert(frames_of(payloads) =~= Seq::<u8>::empty());
        assert(frames_of(payloads) + frame_of(last) =~= frame_of(last));
    } else {
        assert(payloads.push(last).drop_first() =~= payloads.drop_first().push(last));
        lemma_frames_of_push(payloads.drop_first(), last);
        let head = frame_of(payloads[0]);
        let tail = frames_of(payloads.drop_first());
        assert(head + (tail + frame_of(last)) =~= (head + tail) + frame_of(last));
    }
}

/// A stream of frames can be read in one way only. If the same bytes are
/// the frames of `first` followed by an incomplete rest, and also the frames
/// of `second` followed by an incomplete rest, then the two lists of payloads
/// are the same and so are the rests. However the stream was cut into pieces
/// on its way, the receiver gets the payloads that were sent.
pub proof fn lemma_stream_reads_one_way(
    first: Seq<Seq<u8>>,
    first_rest: Seq<u8>,
    second: Seq<Seq<u8>>,
    second_rest: Seq<u8>,
)
    requires
        forall|i: int| 0 <= i < first.len() ==> (#[trigger] first[i]).len() <= MAX_PAYLOAD,
        forall|i: int| 0 <= i < second.len() ==> (#[trigger] second[i]).len() <= MAX_PAYLOAD,
        split_frame(first_rest) is None,
        split_frame(second_rest) is None,
        frames_of(first) + first_rest == frames_of(second) + second_rest,
    ensures
        first == second,
        first_rest == second_rest,
    decreases first.len() + second.len(),
{
    let stream = frames_of(first) + first_rest;
    if first.len() == 0 && second.len() == 0 {
        assert(frames_of(first) + first_rest =~= first_rest);
        assert(frames_of(second) + second_rest =~= second_rest);
        assert(first =~= second);
    } else if first.len() == 0 {
        assert(frames_of(first) + first_rest =~= first_rest);
        lemma_stream_head(second, second_rest);
    } else if second.len() == 0 {
        assert(frames_of(second) + second_rest =~= second_rest);
        lemma_stream_head(first, first_rest);
    } else {
        lemma_stream_head(first, first_rest);
        lemma_stream_head(second, second_rest);
        assert(first[0] == second[0]);
        let first_tail = first.drop_first();
        let second_tail = second.drop_first();
        assert forall|i: int| 0 <= i < first_tail.len() implies (#[trigger] first_tail[i]).len()
            <= MAX_PAYLOAD by {
            assert(first_tail[i] == first[i + 1]);
        }
        assert forall|i: int| 0 <= i < second_tail.len() implies (#[trigger] second_tail[i]).len()
            <= MAX_PAYLOAD by {
            assert(second_tail[i] == second[i + 1]);
        }
        lemma_stream_reads_one_way(first_tail, first_rest, second_tail, second_rest);
        assert(first =~= seq![first[0]] + first_tail);
        assert(second =~= seq![second[0]] + second_tail);
    }
}

/// The first frame of a stream is taken off whole: from the frames of a
/// list that is not empty, followed by any bytes, the first payload is split,
/// and what is left are the frames of the others followed by those bytes.
pub proof fn lemma_stream_head(payloads: Seq<Seq<u8>>, rest: Seq<u8>)
    requires
        payloads.len() > 0,
        payloads[0].len() <= MAX_PAYLOAD,
    ensures
        split_frame(frames_of(payloads) + rest) == Some(
            (payloads[0], frames_of(payloads.drop_first()) + rest),
        ),
{
    let tail = frames_of(payloads.drop_first()) + rest;
    assert(frames_of(payloads) + rest =~= frame_of(payloads[0]) + tail);
    lemma_frame_round_trip(payloads[0], tail);
}

} // verus!
