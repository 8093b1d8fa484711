//! The frames of the tunnel and their encoding.
//!
//! On the wire a frame is a four-byte big-endian length, then that many bytes
//! of body: one byte for the kind, eight bytes for the session identifier,
//! and the payload. The length lets a reader cut the stream into frames
//! without looking at any payload, which is what allows frames of many
//! sessions to follow one another on one stream.

use vstd::prelude::*;
use crate::wire::{append, be32, be64, copy_range, from_be32, from_be64, get_be32, get_be64, put_be32, put_be64};
use crate::wire::{lemma_be32_roundtrip, lemma_be64_roundtrip};

verus! {

/// Bytes of length prefix before a frame's body.
pub const PREFIX_LEN: usize = 4;

/// Bytes of a frame's body before its payload: the kind and the session.
pub const HEADER_LEN: usize = 9;

/// The largest payload that a `Data` frame may carry.
pub const MAX_DATA_LEN: usize = 16384;

/// The largest body that a reader accepts unless it is told otherwise.
pub const DEFAULT_MAX_FRAME_LEN: u32 = 16393;

/// What a frame asks of the session it names.
#[derive(Clone, Copy, Debug, PartialEq, Eq, Structural)]
pub enum FrameKind {
    /// Start a session to the target in the payload.
    Open,
    /// The target was reached; the payload is the address bound for it.
    OpenAck,
    /// The target was not reached; the payload is one byte of reason.
    OpenFail,
    /// A chunk of the proxied stream.
    Data,
    /// More credit for the receiver of this frame; the payload is a count.
    WindowUpdate,
    /// The sender's endpoint reached the end of its stream.
    Close,
    /// The session is abandoned.
    Reset,
}

impl FrameKind {
    /// The byte that stands for this kind on the wire.
    pub open spec fn tag(self) -> u8 {
        match self {
            FrameKind::Open => 1,
            FrameKind::OpenAck => 2,
            FrameKind::OpenFail => 3,
            FrameKind::Data => 4,
            FrameKind::WindowUpdate => 5,
            FrameKind::Close => 6,
            FrameKind::Reset => 7,
        }
    }

    /// The kind that a wire byte stands for, if any.
    pub open spec fn of_tag(t: u8) -> Option<FrameKind> {
        if t == 1 {
            Some(FrameKind::Open)
        } else if t == 2 {
            Some(FrameKind::OpenAck)
        } else if t == 3 {
            Some(FrameKind::OpenFail)
        } else if t == 4 {
            Some(FrameKind::Data)
        } else if t == 5 {
            Some(FrameKind::WindowUpdate)
        } else if t == 6 {
            Some(FrameKind::Close)
        } else if t == 7 {
            Some(FrameKind::Reset)
        } else {
            None
        }
    }

    /// The byte that stands for this kind on the wire.
    pub fn to_tag(self) -> (t: u8)
        ensures
            t == self.tag(),
    {
        match self {
            FrameKind::Open => 1,
            FrameKind::OpenAck => 2,
            FrameKind::OpenFail => 3,
            FrameKind::Data => 4,
            FrameKind::WindowUpdate => 5,
            FrameKind::Close => 6,
            FrameKind::Reset => 7,
        }
    }

    /// The kind that a wire byte stands for, or `None` for an unknown byte.
    pub fn from_tag(t: u8) -> (k: Option<FrameKind>)
        ensures
            k == Self::of_tag(t),
    {
        match t {
            1 => Some(FrameKind::Open),
            2 => Some(FrameKind::OpenAck),
            3 => Some(FrameKind::OpenFail),
            4 => Some(FrameKind::Data),
            5 => Some(FrameKind::WindowUpdate),
            6 => Some(FrameKind::Close),
            7 => Some(FrameKind::Reset),
            _ => None,
        }
    }
}

/// Every kind is found again from its tag.
pub proof fn lemma_tag_roundtrip(k: FrameKind)
    ensures
        FrameKind::of_tag(k.tag()) == Some(k),
{
}

/// Why a byte string is not a frame.
#[derive(Clone, Copy, Debug, PartialEq, Eq, Structural)]
pub enum MalformedFrame {
    /// The kind byte stands for no kind.
    UnknownKind,
    /// The declared length is above the reader's limit.
    Oversized,
    /// The input ends before the frame does, or the declared length leaves
    /// no room for the kind and the session identifier.
    Truncated,
}

/// One unit of the tunnel protocol.
#[derive(Clone, Debug, PartialEq, Eq)]
pub struct Frame {
    /// The session that the frame belongs to.
    pub session_id: u64,
    /// What the frame asks of that session.
    pub kind: FrameKind,
    /// What the frame carries; its meaning depends on the kind.
    pub payload: Vec<u8>,
}

/// A frame as a mathematical value.
pub struct FrameView {
    pub session_id: u64,
    pub kind: FrameKind,
    pub payload: Seq<u8>,
}

impl View for Frame {
    type V = FrameView;

    open spec fn view(&self) -> FrameView {
        FrameView { session_id: self.session_id, kind: self.kind, payload: self.payload@ }
    }
}

impl FrameView {
    /// The length of the body: header and payload.
    pub open spec fn body_len(self) -> nat {
        HEADER_LEN as nat + self.payload.len()
    }

    /// The body of the frame on the wire.
    pub open spec fn body(self) -> Seq<u8> {
        seq![self.kind.tag()] + be64(self.session_id) + self.payload
    }

    /// The whole frame on the wire; meaningful when the body length fits
    /// the prefix.
    pub open spec fn encoding(self) -> Seq<u8>
        recommends
            self.body_len() <= u32::MAX,
    {
        be32(self.body_len() as u32) + self.body()
    }
}

/// The length that a prefix declares, or why no frame can follow it.
pub open spec fn parse_prefix(prefix: Seq<u8>, max_frame_len: u32) -> Result<nat, MalformedFrame> {
    if prefix.len() < PREFIX_LEN {
        Err(MalformedFrame::Truncated)
    } else {
        let n = from_be32(prefix.subrange(0, PREFIX_LEN as int));
        if n > max_frame_len {
            Err(MalformedFrame::Oversized)
        } else if n < HEADER_LEN {
            Err(MalformedFrame::Truncated)
        } else {
            Ok(n as nat)
        }
    }
}

/// The frame that a body holds, or why it holds none.
pub open spec fn parse_body(body: Seq<u8>) -> Result<FrameView, MalformedFrame> {
    if body.len() < HEADER_LEN {
        Err(MalformedFrame::Truncated)
    } else {
        match FrameKind::of_tag(body[0]) {
            None => Err(MalformedFrame::UnknownKind),
            Some(kind) => Ok(
                FrameView {
                    session_id: from_be64(body.subrange(1, HEADER_LEN as int)),
                    kind,
                    payload: body.subrange(HEADER_LEN as int, body.len() as int),
                },
            ),
        }
    }
}

/// The first frame of `bytes` and the number of bytes it takes, or why
/// `bytes` does not start with a frame.
pub open spec fn parse_frame(bytes: Seq<u8>, max_frame_len: u32) -> Result<
    (FrameView, nat),
    MalformedFrame,
> {
    match parse_prefix(bytes, max_frame_len) {
        Err(e) => Err(e),
        Ok(n) => if bytes.len() < PREFIX_LEN + n {
            Err(MalformedFrame::Truncated)
        } else {
            match parse_body(bytes.subrange(PREFIX_LEN as int, PREFIX_LEN + n)) {
                Err(e) => Err(e),
                Ok(f) => Ok((f, PREFIX_LEN as nat + n)),
            }
        },
    }
}

/// Reads the length that a prefix declares.
///
/// A reader takes four bytes from the stream, learns here how many bytes of
/// body follow, and hands those to `decode_body`.
pub fn decode_prefix(prefix: &[u8], max_frame_len: u32) -> (r: Result<usize, MalformedFrame>)
    ensures
        match r {
            Ok(n) => parse_prefix(prefix@, max_frame_len) == Ok::<nat, MalformedFrame>(n as nat),
            Err(e) => parse_prefix(prefix@, max_frame_len) == Err::<nat, MalformedFrame>(e),
        },
{
    if prefix.len() < PREFIX_LEN {
        return Err(MalformedFrame::Truncated);
    }
    let n: u32 = get_be32(prefix, 0);
    if n > max_frame_len {
        Err(MalformedFrame::Oversized)
    } else if n < HEADER_LEN as u32 {
        Err(MalformedFrame::Truncated)
    } else {
        Ok(n as usize)
    }
}

/// Reads a frame from its body.
pub fn decode_body(body: &[u8]) -> (r: Result<Frame, MalformedFrame>)
    ensures
        match r {
            Ok(f) => parse_body(body@) == Ok::<FrameView, MalformedFrame>(f@),
            Err(e) => parse_body(body@) == Err::<FrameView, MalformedFrame>(e),
        },
{
    if body.len() < HEADER_LEN {
        return Err(MalformedFrame::Truncated);
    }
    match FrameKind::from_tag(body[0]) {
        None => Err(MalformedFrame::UnknownKind),
        Some(kind) => {
            let session_id: u64 = get_be64(body, 1);
            let payload = copy_range(body, HEADER_LEN, body.len());
            Ok(Frame { session_id, kind, payload })
        },
    }
}

/// Reads the first frame of `bytes` and says how many bytes it took.
pub fn decode(bytes: &[u8], max_frame_len: u32) -> (r: Result<(Frame, usize), MalformedFrame>)
    ensures
        match r {
            Ok((f, used)) => parse_frame(bytes@, max_frame_len) == Ok::<
                (FrameView, nat),
                MalformedFrame,
            >((f@, used as nat)),
            Err(e) => parse_frame(bytes@, max_frame_len) == Err::<(FrameView, nat), MalformedFrame>(
                e,
            ),
        },
{
    let n: usize = match decode_prefix(bytes, max_frame_len) {
        Err(e) => {
            return Err(e);
        },
        Ok(n) => n,
    };
    if bytes.len() - PREFIX_LEN < n {
        return Err(MalformedFrame::Truncated);
    }
    let body = copy_range(bytes, PREFIX_LEN, PREFIX_LEN + n);
    match decode_body(body.as_slice()) {
        Err(e) => Err(e),
        Ok(f) => Ok((f, PREFIX_LEN + n)),
    }
}

impl Frame {
    /// A frame without payload.
    pub fn control(session_id: u64, kind: FrameKind) -> (f: Frame)
        ensures
            f@ == (FrameView { session_id, kind, payload: Seq::<u8>::empty() }),
    {
        Frame { session_id, kind, payload: Vec::new() }
    }

    /// Writes the frame for a reader that accepts bodies up to
    /// `max_frame_len` bytes, or refuses a frame that such a reader would
    /// refuse.
    pub fn encode(&self, max_frame_len: u32) -> (r: Result<Vec<u8>, MalformedFrame>)
        ensures
            match r {
                Ok(bytes) => self@.body_len() <= max_frame_len && bytes@ == self@.encoding(),
                Err(e) => self@.body_len() > max_frame_len && e == MalformedFrame::Oversized,
            },
    {
        let len: usize = self.payload.len();
        if len > u32::MAX as usize - HEADER_LEN || (len + HEADER_LEN) as u32 > max_frame_len {
            return Err(MalformedFrame::Oversized);
        }
        let mut out: Vec<u8> = Vec::new();
        put_be32(&mut out, (len + HEADER_LEN) as u32);
        out.push(self.kind.to_tag());
        put_be64(&mut out, self.session_id);
        append(&mut out, self.payload.as_slice());
        Ok(out)
    }
}

/// What `encode` writes, `decode` reads back, whatever follows it on the
/// stream: the same frame, and exactly the bytes of its encoding consumed.
pub proof fn lemma_decode_encode(f: FrameView, rest: Seq<u8>, max_frame_len: u32)
    requires
        f.body_len() <= max_frame_len,
    ensures
        parse_frame(f.encoding() + rest, max_frame_len) == Ok::<(FrameView, nat), MalformedFrame>(
            (f, f.encoding().len()),
        ),
        f.encoding().len() == PREFIX_LEN + f.body_len(),
{
    let n = f.body_len() as u32;
    let bytes = f.encoding() + rest;
    lemma_be32_roundtrip(n);
    lemma_be64_roundtrip(f.session_id);
    lemma_tag_roundtrip(f.kind);
    let body = bytes.subrange(PREFIX_LEN as int, PREFIX_LEN + n);
    assert(body.subrange(HEADER_LEN as int, body.len() as int) =~= f.payload);
}

/// The frames that a stream holds, in order: every frame that can be cut
/// from the front until the bytes run out. `None` where the stream is
/// malformed anywhere.
pub open spec fn parse_stream(bytes: Seq<u8>, max_frame_len: u32) -> Option<Seq<FrameView>>
    decreases bytes.len(),
{
    if bytes.len() == 0 {
        Some(Seq::<FrameView>::empty())
    } else {
        match parse_frame(bytes, max_frame_len) {
            Err(_) => None,
            Ok((f, used)) => match parse_stream(
                bytes.subrange(used as int, bytes.len() as int),
                max_frame_len,
            ) {
                None => None,
                Some(tail) => Some(seq![f] + tail),
            },
        }
    }
}

/// The encodings of `frames`, one after the other.
pub open spec fn stream_of(frames: Seq<FrameView>) -> Seq<u8>
    decreases frames.len(),
{
    if frames.len() == 0 {
        Seq::<u8>::empty()
    } else {
        frames[0].encoding() + stream_of(frames.subrange(1, frames.len() as int))
    }
}

/// A stream written frame by frame is read back frame by frame: the same
/// frames in the same order, however the sessions interleave.
pub proof fn lemma_stream_roundtrip(frames: Seq<FrameView>, max_frame_len: u32)
    requires
        forall|i: int| 0 <= i < frames.len() ==> (#[trigger] frames[i]).body_len() <= max_frame_len,
    ensures
        parse_stream(stream_of(frames), max_frame_len) == Some(frames),
    decreases frames.len(),
{
    if frames.len() > 0 {
        let f = frames[0];
        let tail = frames.subrange(1, frames.len() as int);
        let rest = stream_of(tail);
        lemma_decode_encode(f, rest, max_frame_len);
        lemma_stream_roundtrip(tail, max_frame_len);
        let bytes = stream_of(frames);
        let used = f.encoding().len();
        assert(bytes.subrange(used as int, bytes.len() as int) =~= rest);
    }
}

} // verus!
