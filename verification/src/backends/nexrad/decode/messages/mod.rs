//! NEXRAD message stream.
//!
//! The walk over the stream resyncs to the declared boundary of every message,
//! whatever a parser has read of it. A payload that its typed parser refuses
//! is handed on as raw bytes.

pub mod msg1;
pub mod msg2;
pub mod msg31;
pub mod msg5;

use crate::backends::nexrad::decode::error::{eof, NexradDecodeError};
use crate::backends::nexrad::decode::header::{
    header_at, MessageHeader, MessageType, LOGICAL_HEADER_SIZE, SEGMENT_FRAME_SIZE, SIZE,
    TCM_PREFIX_SIZE,
};
use crate::backends::nexrad::decode::messages::msg1::{msg1_outcome, Msg1};
use crate::backends::nexrad::decode::messages::msg2::{Msg2, MSG2_BYTES};
use crate::backends::nexrad::decode::messages::msg31::{msg31_outcome, parse, Msg31};
use crate::backends::nexrad::decode::messages::msg5::{
    msg5_error, patterns_have_1_to_32_cuts, Msg5,
};
use crate::backends::nexrad::decode::reader::SliceReader;
use crate::wire::be16;
use vstd::prelude::*;

verus! {

/// One decoded message.
#[derive(Debug)]
pub struct Message<'a> {
    pub header: MessageHeader,
    pub payload: MessagePayload<'a>,
    /// Offset of the message's first byte in the stream.
    pub offset: usize,
    /// Bytes that the message takes in the stream; the frame width for a
    /// fixed-segment message.
    pub size: usize,
}

/// What a message carries.
#[derive(Debug)]
pub enum MessagePayload<'a> {
    /// Payload bytes of a message without a typed parser, or of one that its
    /// parser refused.
    Raw(&'a [u8]),
    /// The payloads of a multi-segment message, joined in segment order.
    Reassembled(Vec<u8>),
    Msg1(Box<Msg1>),
    Msg2(Box<Msg2>),
    Msg5(Box<Msg5>),
    Msg31(Box<Msg31<'a>>),
}

/// One message as the walk delimits it, before its payload is interpreted.
pub ghost struct Frame {
    pub header: MessageHeader,
    pub offset: int,
    pub size: int,
    pub body: Seq<u8>,
    /// Joined from several segments.
    pub reassembled: bool,
}

/// A multi-segment message in progress; `count` is 0 when there is none.
pub ghost struct Assembly {
    pub count: int,
    pub next: int,
    pub sequence_number: int,
    pub bytes: Seq<u8>,
}

/// No message in progress.
pub open spec fn idle() -> Assembly {
    Assembly { count: 0, next: 0, sequence_number: 0, bytes: Seq::empty() }
}

/// What one more segment does to an assembly: the assembly afterwards and the
/// joined payload if the segment was the last.
///
/// When nothing is in progress, a segment other than the first is dropped, and
/// so is one of a message without segments. A segment that does not continue
/// the message in progress abandons it.
pub open spec fn feed_segment(a: Assembly, h: MessageHeader, payload: Seq<u8>) -> (
    Assembly,
    Option<Seq<u8>>,
) {
    let open = if a.count > 0 {
        a
    } else {
        Assembly {
            count: h.segment_count as int,
            next: 1,
            sequence_number: h.sequence_number as int,
            bytes: Seq::empty(),
        }
    };
    if a.count == 0 && (h.segment_number != 1 || h.segment_count == 0) {
        (a, None)
    } else if h.sequence_number != open.sequence_number || h.segment_count != open.count
        || h.segment_number != open.next {
        (idle(), None)
    } else if h.segment_number == h.segment_count {
        (idle(), Some(open.bytes + payload))
    } else {
        (
            Assembly { next: open.next + 1, bytes: open.bytes + payload, ..open },
            None,
        )
    }
}

/// The messages of the stream from offset `pos` on.
pub open spec fn walk(d: Seq<u8>, pos: int, a: Assembly) -> Result<Seq<Frame>, NexradDecodeError>
    decreases d.len() - pos,
{
    let len = d.len() as int;
    let h = header_at(d, pos);
    let size = h.size_bytes();
    let body_start = pos + SIZE;
    let body_end = pos + TCM_PREFIX_SIZE + size;
    let frame_end = pos + SEGMENT_FRAME_SIZE;
    if len - pos < SIZE {
        Ok(Seq::empty())
    } else if !h.is_segmented() {
        if size < LOGICAL_HEADER_SIZE {
            Err(
                NexradDecodeError::MalformedHeader {
                    offset: pos as usize,
                    reason: "declared message_size smaller than the 16-byte Table II header",
                },
            )
        } else if body_end > len {
            Err(eof(pos, TCM_PREFIX_SIZE + size, len))
        } else {
            let frame = Frame {
                header: h,
                offset: pos,
                size: TCM_PREFIX_SIZE + size,
                body: d.subrange(body_start, body_end),
                reassembled: false,
            };
            prepend(frame, walk(d, body_end, a))
        }
    } else if size < LOGICAL_HEADER_SIZE {
        // A zero-padded frame behind the last message.
        if frame_end > len {
            Err(eof(body_start, frame_end - body_start, len))
        } else {
            walk(d, frame_end, a)
        }
    } else if body_end > len {
        Err(eof(body_start, size - LOGICAL_HEADER_SIZE, len))
    } else if frame_end > len {
        Err(eof(body_end, frame_end - body_end, len))
    } else {
        let next = if frame_end > body_end {
            frame_end
        } else {
            body_end
        };
        let body = d.subrange(body_start, body_end);
        let frame = Frame {
            header: h,
            offset: pos,
            size: SEGMENT_FRAME_SIZE as int,
            body,
            reassembled: false,
        };
        if h.segment_count <= 1 {
            prepend(frame, walk(d, next, a))
        } else {
            let (a2, joined) = feed_segment(a, h, body);
            match joined {
                Some(bytes) => prepend(
                    Frame { body: bytes, reassembled: true, ..frame },
                    walk(d, next, a2),
                ),
                None => walk(d, next, a2),
            }
        }
    }
}

/// One frame more in front of a walk's result.
pub open spec fn prepend(
    frame: Frame,
    rest: Result<Seq<Frame>, NexradDecodeError>,
) -> Result<Seq<Frame>, NexradDecodeError> {
    match rest {
        Ok(frames) => Ok(seq![frame] + frames),
        Err(e) => Err(e),
    }
}

/// Several frames more in front of a walk's result.
pub open spec fn prepend_all(
    done: Seq<Frame>,
    rest: Result<Seq<Frame>, NexradDecodeError>,
) -> Result<Seq<Frame>, NexradDecodeError> {
    match rest {
        Ok(frames) => Ok(done + frames),
        Err(e) => Err(e),
    }
}

/// The messages of a stream.
#[verifier::opaque]
pub open spec fn message_frames(d: Seq<u8>) -> Result<Seq<Frame>, NexradDecodeError> {
    walk(d, 0, idle())
}

/// Whether a frame's body is what its type's parser accepts.
pub open spec fn parses(t: MessageType, body: Seq<u8>) -> bool {
    match t {
        MessageType::DigitalRadarDataLegacy => msg1_outcome(body, 0) is Ok,
        MessageType::RdaStatusData => body.len() >= MSG2_BYTES,
        MessageType::VolumeCoveragePattern => msg5_error(body, 0) is None,
        MessageType::DigitalRadarDataGenericFormat => msg31_outcome(body, 0, 0) is Ok,
        _ => false,
    }
}

impl<'a> MessagePayload<'a> {
    /// `self` is the payload of a message of type `t` with this body: typed
    /// where the type's parser accepts the body, the bytes themselves
    /// otherwise.
    pub open spec fn is_of(&self, t: MessageType, body: Seq<u8>, reassembled: bool) -> bool {
        match self {
            MessagePayload::Msg1(m) => {
                &&& t == MessageType::DigitalRadarDataLegacy
                &&& parses(t, body)
                &&& m.header_is_at(body, 0)
                &&& m.gates() == msg1_outcome(body, 0)->Ok_0.0
            },
            MessagePayload::Msg2(m) => {
                &&& t == MessageType::RdaStatusData
                &&& parses(t, body)
                &&& m.is_at(body, 0)
            },
            MessagePayload::Msg5(m) => {
                &&& t == MessageType::VolumeCoveragePattern
                &&& parses(t, body)
                &&& m.is_at(body, 0)
            },
            MessagePayload::Msg31(m) => {
                &&& t == MessageType::DigitalRadarDataGenericFormat
                &&& parses(t, body)
                &&& m.header.is_at(body, 0)
                &&& m.has_blocks(body, msg31_outcome(body, 0, 0)->Ok_0.0)
            },
            MessagePayload::Raw(bytes) => !parses(t, body) && !reassembled && bytes@ == body,
            MessagePayload::Reassembled(bytes) => !parses(t, body) && reassembled && bytes@
                == body,
        }
    }
}

impl<'a> Message<'a> {
    /// `self` is the message that `frame` delimits.
    pub open spec fn is_of(&self, frame: Frame) -> bool {
        &&& self.header == frame.header
        &&& self.offset == frame.offset
        &&& self.size == frame.size
        &&& self.payload.is_of(frame.header.message_type, frame.body, frame.reassembled)
    }
}

/// `messages` are the messages that `frames` delimit, in order.
pub open spec fn all_of(messages: Seq<Message<'_>>, frames: Seq<Frame>) -> bool {
    &&& messages.len() == frames.len()
    &&& forall|i: int| 0 <= i < frames.len() ==> (#[trigger] messages[i]).is_of(frames[i])
}

/// The typed payload of a body that lies in the stream.
fn borrowed_payload<'a>(t: MessageType, body: &'a [u8]) -> (p: MessagePayload<'a>)
    ensures
        p.is_of(t, body@, false),
{
    let mut reader = SliceReader::new(body);
    match t {
        MessageType::DigitalRadarDataLegacy => match Msg1::read(&mut reader) {
            Ok(m) => MessagePayload::Msg1(Box::new(m)),
            Err(_) => MessagePayload::Raw(body),
        },
        MessageType::RdaStatusData => match Msg2::read(&mut reader) {
            Ok(m) => MessagePayload::Msg2(Box::new(m)),
            Err(_) => MessagePayload::Raw(body),
        },
        MessageType::VolumeCoveragePattern => match Msg5::read(&mut reader) {
            Ok(m) => MessagePayload::Msg5(Box::new(m)),
            Err(_) => MessagePayload::Raw(body),
        },
        MessageType::DigitalRadarDataGenericFormat => match parse(&mut reader, 0) {
            Ok(m) => MessagePayload::Msg31(Box::new(m)),
            Err(_) => MessagePayload::Raw(body),
        },
        _ => MessagePayload::Raw(body),
    }
}

/// The typed payload of a body joined from several segments.
fn joined_payload<'a>(t: MessageType, body: Vec<u8>) -> (p: MessagePayload<'a>)
    requires
        t != MessageType::DigitalRadarDataGenericFormat,
    ensures
        p.is_of(t, body@, true),
{
    let mut reader = SliceReader::new(body.as_slice());
    match t {
        MessageType::DigitalRadarDataLegacy => match Msg1::read(&mut reader) {
            Ok(m) => MessagePayload::Msg1(Box::new(m)),
            Err(_) => MessagePayload::Reassembled(body),
        },
        MessageType::RdaStatusData => match Msg2::read(&mut reader) {
            Ok(m) => MessagePayload::Msg2(Box::new(m)),
            Err(_) => MessagePayload::Reassembled(body),
        },
        MessageType::VolumeCoveragePattern => match Msg5::read(&mut reader) {
            Ok(m) => MessagePayload::Msg5(Box::new(m)),
            Err(_) => MessagePayload::Reassembled(body),
        },
        _ => MessagePayload::Reassembled(body),
    }
}

proof fn lemma_prepend_all_step(
    done: Seq<Frame>,
    frame: Frame,
    rest: Result<Seq<Frame>, NexradDecodeError>,
)
    ensures
        prepend_all(done, prepend(frame, rest)) == prepend_all(done.push(frame), rest),
{
    if let Ok(frames) = rest {
        assert(done + (seq![frame] + frames) =~= done.push(frame) + frames);
    }
}

/// Walk a message stream from end to end. Payloads are borrowed from `bytes`
/// where possible.
#[verifier::rlimit(60)]
pub fn decode_messages<'a>(bytes: &'a [u8]) -> (r: Result<Vec<Message<'a>>, NexradDecodeError>)
    ensures
        match r {
            Ok(messages) => {
                &&& message_frames(bytes@) is Ok
                &&& all_of(messages@, message_frames(bytes@)->Ok_0)
            },
            Err(e) => message_frames(bytes@) == Err::<Seq<Frame>, NexradDecodeError>(e),
        },
{
    let ghost d = bytes@;
    proof {
        reveal(message_frames);
    }
    let mut reader = SliceReader::new(bytes);
    let mut messages: Vec<Message<'a>> = Vec::new();
    let mut accumulator = SegmentAccumulator::new();
    let ghost mut done: Seq<Frame> = Seq::empty();
    assert(prepend_all(done, walk(d, 0, idle())) == walk(d, 0, idle())) by {
        if let Ok(frames) = walk(d, 0, idle()) {
            assert(done + frames =~= frames);
        }
    }
    while reader.remaining().len() >= SIZE
        invariant
            d == bytes@,
            reader.wf(),
            reader.data() == d,
            all_of(messages@, done),
            accumulator.wf(),
            message_frames(d) == prepend_all(done, walk(d, reader.pos(), accumulator.model())),
        decreases d.len() - reader.pos(),
    {
        let offset: usize = reader.position();
        let ghost before = accumulator.model();
        let header = MessageHeader::read(&mut reader)?;
        let logical_size: usize = header.message_size_bytes();
        if !header.segmented() {
            let payload_bytes = take_payload_bytes(&mut reader, &header, offset, bytes.len())?;
            let target: usize = offset + (TCM_PREFIX_SIZE + logical_size);
            reader.try_skip_to(target)?;
            let ghost frame = Frame {
                header,
                offset: offset as int,
                size: target - offset,
                body: payload_bytes@,
                reassembled: false,
            };
            messages.push(
                Message {
                    header,
                    payload: borrowed_payload(header.message_type, payload_bytes),
                    offset,
                    size: target - offset,
                },
            );
            proof {
                lemma_prepend_all_step(done, frame, walk(d, reader.pos(), before));
                done = done.push(frame);
            }
            continue ;
        }
        if logical_size < LOGICAL_HEADER_SIZE {
            skip_frame(&mut reader, offset)?;
            continue ;
        }
        let payload_bytes = reader.take_bytes(logical_size - LOGICAL_HEADER_SIZE)?;
        skip_frame(&mut reader, offset)?;
        if header.segment_count <= 1 {
            let ghost frame = Frame {
                header,
                offset: offset as int,
                size: SEGMENT_FRAME_SIZE as int,
                body: payload_bytes@,
                reassembled: false,
            };
            messages.push(
                Message {
                    header,
                    payload: borrowed_payload(header.message_type, payload_bytes),
                    offset,
                    size: SEGMENT_FRAME_SIZE,
                },
            );
            proof {
                lemma_prepend_all_step(done, frame, walk(d, reader.pos(), before));
                done = done.push(frame);
            }
            continue ;
        }
        if let Some(joined) = accumulator.feed(header, payload_bytes) {
            let ghost frame = Frame {
                header,
                offset: offset as int,
                size: SEGMENT_FRAME_SIZE as int,
                body: joined@,
                reassembled: true,
            };
            messages.push(
                Message {
                    header,
                    payload: joined_payload(header.message_type, joined),
                    offset,
                    size: SEGMENT_FRAME_SIZE,
                },
            );
            proof {
                lemma_prepend_all_step(done, frame, walk(d, reader.pos(), accumulator.model()));
                done = done.push(frame);
            }
        }
    }
    assert(walk(d, reader.pos(), accumulator.model()) == Ok::<Seq<Frame>, NexradDecodeError>(
        Seq::empty(),
    ));
    assert(done + Seq::<Frame>::empty() =~= done);
    Ok(messages)
}

/// Move behind the fixed frame that starts at `offset`, if the cursor is not
/// there or further yet.
fn skip_frame(reader: &mut SliceReader<'_>, offset: usize) -> (r: Result<(), NexradDecodeError>)
    requires
        old(reader).wf(),
        offset <= old(reader).pos(),
    ensures
        final(reader).wf(),
        final(reader).data() == old(reader).data(),
        match r {
            Ok(_) => {
                &&& offset + SEGMENT_FRAME_SIZE <= old(reader).data().len()
                &&& final(reader).pos() == (if offset + SEGMENT_FRAME_SIZE > old(reader).pos() {
                    offset + SEGMENT_FRAME_SIZE
                } else {
                    old(reader).pos()
                })
            },
            Err(e) => {
                &&& offset + SEGMENT_FRAME_SIZE > old(reader).data().len()
                &&& e == eof(
                    old(reader).pos(),
                    offset + SEGMENT_FRAME_SIZE - old(reader).pos(),
                    old(reader).data().len() as int,
                )
            },
        },
{
    let used: usize = reader.position() - offset;
    if used < SEGMENT_FRAME_SIZE {
        reader.advance(SEGMENT_FRAME_SIZE - used)?;
    }
    Ok(())
}

/// Take the payload of a variable-length message whose header, at `offset`,
/// has just been read: the declared size without the logical header.
pub fn take_payload_bytes<'a>(
    reader: &mut SliceReader<'a>,
    header: &MessageHeader,
    offset: usize,
    buf_len: usize,
) -> (r: Result<&'a [u8], NexradDecodeError>)
    requires
        old(reader).wf(),
        old(reader).data().len() == buf_len,
        old(reader).pos() == offset + SIZE,
    ensures
        final(reader).wf(),
        final(reader).data() == old(reader).data(),
        match r {
            Ok(s) => {
                let end = offset + TCM_PREFIX_SIZE + header.size_bytes();
                &&& header.size_bytes() >= LOGICAL_HEADER_SIZE
                &&& end <= buf_len
                &&& s@ == old(reader).data().subrange(offset + SIZE, end)
                &&& final(reader).pos() == end
            },
            Err(e) => {
                &&& final(reader).pos() == old(reader).pos()
                &&& if header.size_bytes() < LOGICAL_HEADER_SIZE {
                    e == (NexradDecodeError::MalformedHeader {
                        offset,
                        reason: "declared message_size smaller than the 16-byte Table II header",
                    })
                } else {
                    &&& offset + TCM_PREFIX_SIZE + header.size_bytes() > buf_len
                    &&& e == eof(
                        offset as int,
                        TCM_PREFIX_SIZE + header.size_bytes(),
                        buf_len as int,
                    )
                }
            },
        },
{
    let logical_size: usize = header.message_size_bytes();
    if logical_size < LOGICAL_HEADER_SIZE {
        return Err(
            NexradDecodeError::MalformedHeader {
                offset,
                reason: "declared message_size smaller than the 16-byte Table II header",
            },
        );
    }
    if logical_size > buf_len - offset - TCM_PREFIX_SIZE {
        return Err(
            NexradDecodeError::UnexpectedEof {
                offset,
                needed: TCM_PREFIX_SIZE.saturating_add(logical_size),
                available: buf_len - offset,
            },
        );
    }
    reader.take_bytes(logical_size - LOGICAL_HEADER_SIZE)
}

/// Joins the segments of multi-segment messages. Idle until a first segment
/// comes; done when the last one has.
pub struct SegmentAccumulator {
    expected_count: u16,
    next_segment: u16,
    sequence_number: u16,
    payloads: Vec<u8>,
}

impl SegmentAccumulator {
    /// The assembly that `self` stands for.
    pub closed spec fn model(&self) -> Assembly {
        Assembly {
            count: self.expected_count as int,
            next: self.next_segment as int,
            sequence_number: self.sequence_number as int,
            bytes: self.payloads@,
        }
    }

    /// Nothing is kept while idle, and a segment is awaited that the message
    /// in progress has.
    pub closed spec fn wf(&self) -> bool {
        if self.expected_count == 0 {
            self.model() == idle()
        } else {
            1 <= self.next_segment <= self.expected_count
        }
    }

    /// An idle accumulator.
    pub fn new() -> (a: Self)
        ensures
            a.wf(),
            a.model() == idle(),
    {
        let a = Self {
            expected_count: 0,
            next_segment: 0,
            sequence_number: 0,
            payloads: Vec::new(),
        };
        assert(a.payloads@ =~= Seq::empty());
        a
    }

    /// Whether a message is in progress.
    pub fn is_active(&self) -> (b: bool)
        ensures
            b == (self.model().count > 0),
    {
        self.expected_count > 0
    }

    /// Feed one segment. Returns the joined payload when it was the last one of
    /// its message.
    pub fn feed(&mut self, header: MessageHeader, payload: &[u8]) -> (r: Option<Vec<u8>>)
        requires
            old(self).wf(),
        ensures
            final(self).wf(),
            final(self).model() == feed_segment(old(self).model(), header, payload@).0,
            match r {
                Some(bytes) => feed_segment(old(self).model(), header, payload@).1 == Some(bytes@),
                None => feed_segment(old(self).model(), header, payload@).1 is None,
            },
    {
        if !self.is_active() {
            if header.segment_number != 1 || header.segment_count == 0 {
                return None;
            }
            self.expected_count = header.segment_count;
            self.next_segment = 1;
            self.sequence_number = header.sequence_number;
            self.payloads.clear();
            assert(self.payloads@ =~= Seq::empty());
        }
        if header.sequence_number != self.sequence_number || header.segment_count
            != self.expected_count || header.segment_number != self.next_segment {
            self.reset();
            return None;
        }
        let ghost kept = self.payloads@;
        self.payloads.extend_from_slice(payload);
        assert(self.payloads@ =~= kept + payload@);
        if header.segment_number == header.segment_count {
            let mut out: Vec<u8> = Vec::new();
            core::mem::swap(&mut out, &mut self.payloads);
            self.reset();
            return Some(out);
        }
        self.next_segment = self.next_segment + 1;
        None
    }

    /// Abandon the message in progress.
    pub fn reset(&mut self)
        ensures
            final(self).wf(),
            final(self).model() == idle(),
    {
        self.expected_count = 0;
        self.next_segment = 0;
        self.sequence_number = 0;
        self.payloads.clear();
        assert(self.payloads@ =~= Seq::empty());
    }
}

/// The bytes that a message takes by its header: the fixed frame if it is
/// carried in one, else the TCM prefix and the declared size.
pub open spec fn declared_span(h: MessageHeader) -> int {
    if h.is_segmented() {
        SEGMENT_FRAME_SIZE as int
    } else {
        TCM_PREFIX_SIZE + h.size_bytes()
    }
}

/// The frames lie between `pos` and the end of the stream, one behind the
/// other, each with the header at its offset and of the size that this header
/// declares. The body of a message in one piece is what follows its header, as
/// far as the declared size goes.
pub open spec fn frames_in_order(d: Seq<u8>, pos: int, frames: Seq<Frame>) -> bool {
    &&& forall|i: int|
        0 <= i < frames.len() ==> {
            &&& pos <= (#[trigger] frames[i]).offset
            &&& SIZE <= frames[i].size
            &&& frames[i].offset + frames[i].size <= d.len()
            &&& frames[i].header == header_at(d, frames[i].offset)
            &&& frames[i].size == declared_span(frames[i].header)
            &&& !frames[i].reassembled ==> frames[i].body == d.subrange(
                frames[i].offset + SIZE,
                frames[i].offset + TCM_PREFIX_SIZE + frames[i].header.size_bytes(),
            )
        }
    &&& forall|i: int, j: int|
        0 <= i < j < frames.len() ==> (#[trigger] frames[i]).offset + frames[i].size <= (
        #[trigger] frames[j]).offset
}

proof fn lemma_walk_in_order(d: Seq<u8>, pos: int, a: Assembly)
    requires
        pos >= 0,
        walk(d, pos, a) is Ok,
    ensures
        frames_in_order(d, pos, walk(d, pos, a)->Ok_0),
    decreases d.len() - pos,
{
    let len = d.len() as int;
    if len - pos >= SIZE {
        let h = header_at(d, pos);
        let size = h.size_bytes();
        let body_end = pos + TCM_PREFIX_SIZE + size;
        let frame_end = pos + SEGMENT_FRAME_SIZE;
        let all = walk(d, pos, a)->Ok_0;
        if !h.is_segmented() {
            lemma_walk_in_order(d, body_end, a);
            let rest = walk(d, body_end, a)->Ok_0;
            assert(forall|i: int| 0 < i < all.len() ==> #[trigger] all[i] == rest[i - 1]);
        } else if size < LOGICAL_HEADER_SIZE {
            lemma_walk_in_order(d, frame_end, a);
        } else {
            let next = if frame_end > body_end {
                frame_end
            } else {
                body_end
            };
            let body = d.subrange(pos + SIZE, body_end);
            let a2 = if h.segment_count <= 1 {
                a
            } else {
                feed_segment(a, h, body).0
            };
            lemma_walk_in_order(d, next, a2);
            let rest = walk(d, next, a2)->Ok_0;
            if all.len() > rest.len() {
                assert(forall|i: int| 0 < i < all.len() ==> #[trigger] all[i] == rest[i - 1]);
            }
        }
    }
}

/// The messages of a stream lie inside it, in stream order, no two of them
/// overlap, and each is as long as its header declares.
pub proof fn messages_do_not_overlap(d: Seq<u8>)
    requires
        message_frames(d) is Ok,
    ensures
        frames_in_order(d, 0, message_frames(d)->Ok_0),
{
    reveal(message_frames);
    lemma_walk_in_order(d, 0, idle());
}

/// Frames of a stream that has been moved `n` bytes up.
pub open spec fn moved_up(frames: Seq<Frame>, n: int) -> Seq<Frame> {
    frames.map_values(|f: Frame| Frame { offset: f.offset + n, ..f })
}

proof fn lemma_walk_moves_up(m: Seq<u8>, d: Seq<u8>, pos: int, a: Assembly)
    requires
        pos >= 0,
    ensures
        walk(m + d, m.len() + pos, a) is Ok <==> walk(d, pos, a) is Ok,
        walk(d, pos, a) is Ok ==> walk(m + d, m.len() + pos, a)->Ok_0 == moved_up(
            walk(d, pos, a)->Ok_0,
            m.len() as int,
        ),
    decreases d.len() - pos,
{
    let n = m.len() as int;
    let whole = m + d;
    if d.len() - pos >= SIZE {
        let h = header_at(d, pos);
        assert(header_at(whole, n + pos) == h) by {
            assert(whole[n + pos + 12] == d[pos + 12] && whole[n + pos + 13] == d[pos + 13]);
            assert(whole[n + pos + 14] == d[pos + 14] && whole[n + pos + 15] == d[pos + 15]);
            assert(whole[n + pos + 16] == d[pos + 16] && whole[n + pos + 17] == d[pos + 17]);
            assert(whole[n + pos + 18] == d[pos + 18] && whole[n + pos + 19] == d[pos + 19]);
            assert(whole[n + pos + 20] == d[pos + 20] && whole[n + pos + 21] == d[pos + 21]);
            assert(whole[n + pos + 22] == d[pos + 22] && whole[n + pos + 23] == d[pos + 23]);
            assert(whole[n + pos + 24] == d[pos + 24] && whole[n + pos + 25] == d[pos + 25]);
            assert(whole[n + pos + 26] == d[pos + 26] && whole[n + pos + 27] == d[pos + 27]);
        }
        let size = h.size_bytes();
        let body_start = pos + SIZE;
        let body_end = pos + TCM_PREFIX_SIZE + size;
        let frame_end = pos + SEGMENT_FRAME_SIZE;
        if size >= LOGICAL_HEADER_SIZE && body_end <= d.len() {
            assert(whole.subrange(n + body_start, n + body_end) =~= d.subrange(
                body_start,
                body_end,
            ));
        }
        let body = d.subrange(body_start, body_end);
        if !h.is_segmented() {
            if size >= LOGICAL_HEADER_SIZE && body_end <= d.len() {
                lemma_walk_moves_up(m, d, body_end, a);
                if walk(d, pos, a) is Ok {
                    assert(walk(whole, n + pos, a)->Ok_0 =~= moved_up(walk(d, pos, a)->Ok_0, n));
                }
            }
        } else if size < LOGICAL_HEADER_SIZE {
            if frame_end <= d.len() {
                lemma_walk_moves_up(m, d, frame_end, a);
            }
        } else if body_end <= d.len() && frame_end <= d.len() {
            let next = if frame_end > body_end {
                frame_end
            } else {
                body_end
            };
            let a2 = if h.segment_count <= 1 {
                a
            } else {
                feed_segment(a, h, body).0
            };
            lemma_walk_moves_up(m, d, next, a2);
            if walk(d, pos, a) is Ok {
                assert(walk(whole, n + pos, a)->Ok_0 =~= moved_up(walk(d, pos, a)->Ok_0, n));
            }
        }
    } else {
        assert(moved_up(Seq::empty(), n) =~= Seq::empty());
    }
}

/// `m` is exactly one variable-length message.
pub open spec fn is_variable_length_message(m: Seq<u8>) -> bool {
    &&& m.len() >= SIZE
    &&& !header_at(m, 0).is_segmented()
    &&& m.len() == TCM_PREFIX_SIZE + header_at(m, 0).size_bytes()
}

/// The walk resyncs to the declared boundary of every message: put in front of
/// a stream, a variable-length message is found as it is declared, whatever its
/// parser makes of its payload, and the messages behind it are those of the
/// stream, as many bytes further on.
pub proof fn walk_resyncs_to_the_declared_boundary(m: Seq<u8>, d: Seq<u8>)
    requires
        is_variable_length_message(m),
    ensures
        message_frames(m + d) is Ok <==> message_frames(d) is Ok,
        message_frames(d) is Ok ==> message_frames(m + d)->Ok_0 == seq![
            Frame {
                header: header_at(m, 0),
                offset: 0,
                size: m.len() as int,
                body: m.skip(SIZE as int),
                reassembled: false,
            },
        ] + moved_up(message_frames(d)->Ok_0, m.len() as int),
{
    reveal(message_frames);
    let whole = m + d;
    let n = m.len() as int;
    assert(header_at(whole, 0) == header_at(m, 0));
    assert(whole.subrange(SIZE as int, n) =~= m.skip(SIZE as int));
    lemma_walk_moves_up(m, d, 0, idle());
}

/// What feeding the first `k` segments to an idle assembly leaves, and what the
/// last of them completes.
pub open spec fn fed(headers: Seq<MessageHeader>, payloads: Seq<Seq<u8>>, k: int) -> (
    Assembly,
    Option<Seq<u8>>,
)
    decreases k,
{
    if k <= 0 {
        (idle(), None)
    } else {
        feed_segment(fed(headers, payloads, k - 1).0, headers[k - 1], payloads[k - 1])
    }
}

/// The headers are those of the segments of one message, in order.
pub open spec fn are_segments(headers: Seq<MessageHeader>) -> bool {
    &&& headers.len() >= 1
    &&& forall|i: int|
        0 <= i < headers.len() ==> {
            &&& (#[trigger] headers[i]).segment_count == headers.len()
            &&& headers[i].segment_number == i + 1
            &&& headers[i].sequence_number == headers[0].sequence_number
        }
}

/// Byte strings one behind the other.
pub open spec fn joined(payloads: Seq<Seq<u8>>) -> Seq<u8>
    decreases payloads.len(),
{
    if payloads.len() == 0 {
        Seq::empty()
    } else {
        joined(payloads.drop_last()) + payloads.last()
    }
}

/// The segments of a message, fed in order, give their payloads one behind the
/// other with the last of them and nothing before; nothing stays in progress.
pub proof fn segments_join_in_order(headers: Seq<MessageHeader>, payloads: Seq<Seq<u8>>, k: int)
    requires
        are_segments(headers),
        payloads.len() == headers.len(),
        0 < k <= headers.len(),
    ensures
        k < headers.len() ==> fed(headers, payloads, k) == (
            Assembly {
                count: headers.len() as int,
                next: k + 1,
                sequence_number: headers[0].sequence_number as int,
                bytes: joined(payloads.take(k)),
            },
            None::<Seq<u8>>,
        ),
        k == headers.len() ==> fed(headers, payloads, k) == (idle(), Some(joined(payloads))),
    decreases k,
{
    let h = headers[k - 1];
    assert(payloads.take(k).drop_last() =~= payloads.take(k - 1));
    assert(payloads.take(k).last() == payloads[k - 1]);
    assert(payloads.take(payloads.len() as int) =~= payloads);
    if k == 1 {
        assert(payloads.take(0) =~= Seq::empty());
        assert(joined(payloads.take(0)) =~= Seq::empty());
        reveal_with_fuel(fed, 2);
        assert(headers[0].segment_count == headers.len());
    } else {
        segments_join_in_order(headers, payloads, k - 1);
    }
}

/// A frame of 2432 bytes in front of a stream is walked whole. With one segment
/// it is a message whose body takes as many bytes behind the header as are
/// declared; without so much as a header's 16 bytes declared it is padding.
/// Either way the messages behind it are those of the stream.
#[verifier::rlimit(50)]
pub proof fn fixed_frames_are_walked_whole(m: Seq<u8>, d: Seq<u8>)
    requires
        m.len() == 2432,
        header_at(m, 0).is_segmented(),
        header_at(m, 0).segment_count <= 1,
        header_at(m, 0).size_bytes() <= 2420,
    ensures
        message_frames(m + d) is Ok <==> message_frames(d) is Ok,
        message_frames(d) is Ok ==> {
            let size = header_at(m, 0).size_bytes();
            let behind = moved_up(message_frames(d)->Ok_0, 2432);
            let frame = Frame {
                header: header_at(m, 0),
                offset: 0,
                size: 2432,
                body: m.subrange(28, 12 + size),
                reassembled: false,
            };
            message_frames(m + d)->Ok_0 == (if size < 16 {
                behind
            } else {
                seq![frame] + behind
            })
        },
{
    reveal(message_frames);
    let whole = m + d;
    let size = header_at(m, 0).size_bytes();
    assert(header_at(whole, 0) == header_at(m, 0));
    if size >= 16 {
        assert(whole.subrange(28, 12 + size) =~= m.subrange(28, 12 + size));
    }
    lemma_walk_moves_up(m, d, 0, idle());
}

/// A segment joins only the message that is in progress, and only in its turn:
/// one of another message, or out of turn, abandons it. With nothing in progress
/// a segment behind the first is dropped.
pub proof fn segments_out_of_turn_join_nothing(a: Assembly, h: MessageHeader, payload: Seq<u8>)
    requires
        h.segment_count > 1,
        a.count == 0 ==> a == idle(),
    ensures
        a.count == 0 && h.segment_number != 1 ==> feed_segment(a, h, payload) == (
            idle(),
            None::<Seq<u8>>,
        ),
        a.count > 0 && (h.sequence_number != a.sequence_number || h.segment_count != a.count
            || h.segment_number != a.next) ==> feed_segment(a, h, payload) == (
            idle(),
            None::<Seq<u8>>,
        ),
{
}

/// A stream that breaks off in its first message is refused with what it lacks: a
/// variable-length message as a whole, of a fixed one the body or the rest of the
/// frame. One that declares less than its own header is malformed.
#[verifier::rlimit(50)]
pub proof fn streams_that_break_off_are_refused(d: Seq<u8>)
    requires
        28 <= d.len() <= usize::MAX,
    ensures
        ({
            let h = header_at(d, 0);
            let size = h.size_bytes();
            let len = d.len() as int;
            let r = message_frames(d);
            &&& !h.is_segmented() && size < 16 ==> r == Err::<Seq<Frame>, NexradDecodeError>(
                NexradDecodeError::MalformedHeader {
                    offset: 0,
                    reason: "declared message_size smaller than the 16-byte Table II header",
                },
            )
            &&& !h.is_segmented() && size >= 16 && 12 + size > len ==> r == Err::<
                Seq<Frame>,
                NexradDecodeError,
            >(eof(0, 12 + size, len))
            &&& h.is_segmented() && size >= 16 && 12 + size > len ==> r == Err::<
                Seq<Frame>,
                NexradDecodeError,
            >(eof(28, size - 16, len))
            &&& h.is_segmented() && 16 <= size && 12 + size <= len < 2432 ==> r == Err::<
                Seq<Frame>,
                NexradDecodeError,
            >(eof(12 + size, 2420 - size, len))
        }),
{
    reveal(message_frames);
}

/// Fewer bytes than a header are no message.
pub proof fn short_rests_are_ignored(d: Seq<u8>)
    requires
        d.len() < 28,
    ensures
        message_frames(d) == Ok::<Seq<Frame>, NexradDecodeError>(Seq::empty()),
{
    reveal(message_frames);
}

/// Two frames that hold the two segments of a message give one message in front of
/// a stream: their bodies one behind the other, under the second one's header and
/// at its place.
#[verifier::rlimit(50)]
pub proof fn two_segments_give_one_message(a: Seq<u8>, b: Seq<u8>, d: Seq<u8>)
    requires
        a.len() == 2432,
        b.len() == 2432,
        header_at(a, 0).is_segmented(),
        header_at(b, 0).is_segmented(),
        16 <= header_at(a, 0).size_bytes() <= 2420,
        16 <= header_at(b, 0).size_bytes() <= 2420,
        header_at(a, 0).segment_count == 2,
        header_at(b, 0).segment_count == 2,
        header_at(a, 0).segment_number == 1,
        header_at(b, 0).segment_number == 2,
        header_at(a, 0).sequence_number == header_at(b, 0).sequence_number,
        message_frames(d) is Ok,
    ensures
        message_frames(a + (b + d)) is Ok,
        message_frames(a + (b + d))->Ok_0 == seq![
            Frame {
                header: header_at(b, 0),
                offset: 2432,
                size: 2432,
                body: a.subrange(28, 12 + header_at(a, 0).size_bytes()) + b.subrange(
                    28,
                    12 + header_at(b, 0).size_bytes(),
                ),
                reassembled: true,
            },
        ] + moved_up(message_frames(d)->Ok_0, 4864),
{
    reveal(message_frames);
    let (ha, hb) = (header_at(a, 0), header_at(b, 0));
    let (sa, sb) = (ha.size_bytes(), hb.size_bytes());
    let rest = b + d;
    let whole = a + rest;
    assert(header_at(whole, 0) == ha);
    assert(header_at(rest, 0) == hb);
    let body_a = a.subrange(28, 12 + sa);
    let body_b = b.subrange(28, 12 + sb);
    assert(whole.subrange(28, 12 + sa) =~= body_a);
    assert(rest.subrange(28, 12 + sb) =~= body_b);
    let (open, none) = feed_segment(idle(), ha, body_a);
    assert(none is None && open.count == 2 && open.next == 2);
    assert(Seq::<u8>::empty() + body_a =~= body_a);
    assert(feed_segment(open, hb, body_b) == (idle(), Some(body_a + body_b)));
    lemma_walk_moves_up(b, d, 0, idle());
    lemma_walk_moves_up(a, rest, 0, open);
    let inner = walk(rest, 0, open)->Ok_0;
    let behind = message_frames(d)->Ok_0;
    let frame = Frame {
        header: hb,
        offset: 0,
        size: 2432,
        body: body_a + body_b,
        reassembled: true,
    };
    assert(inner == seq![frame] + moved_up(behind, 2432));
    assert(walk(whole, 0, idle()) == walk(whole, 2432, open));
    assert(moved_up(inner, 2432) =~= seq![Frame { offset: 2432, ..frame }] + moved_up(behind, 4864));
}

/// A body is parsed if it is long enough for its type: a status of 120 bytes, a
/// pattern with all of its cuts, a legacy radial of 100 bytes with the gates that
/// it announces, a generic radial of 68 bytes with the blocks that it points to.
pub proof fn bodies_that_parse_are_long_enough(t: MessageType, body: Seq<u8>)
    requires
        parses(t, body),
    ensures
        t == MessageType::RdaStatusData ==> body.len() >= 120,
        t == MessageType::VolumeCoveragePattern ==> body.len() >= 22 + 46 * be16(body, 6),
        t == MessageType::DigitalRadarDataLegacy ==> body.len() >= 100,
        t == MessageType::DigitalRadarDataGenericFormat ==> body.len() >= 68,
        !(t is Skip) && t != MessageType::ClutterFilterMap && t != MessageType::RdaAdaptationData,
{
    patterns_have_1_to_32_cuts(body);
}

/// Every status of 120 bytes or more is parsed.
pub proof fn long_enough_statuses_parse(body: Seq<u8>)
    ensures
        body.len() >= 120 <==> parses(MessageType::RdaStatusData, body),
{
}

} // verus!
