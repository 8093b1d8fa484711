//! What a frame says: its payload read according to its kind.
//!
//! `Open` carries the target and `OpenAck` the address bound to reach it,
//! both in the wire form of an address. `OpenFail` carries one status byte,
//! `WindowUpdate` a count in four bytes, `Data` up to 16 KiB of the stream,
//! and `Close` and `Reset` nothing.

use vstd::prelude::*;
use crate::address::{Address, AddressView, parse_address, lemma_address_roundtrip};
use crate::frame::{Frame, FrameKind, FrameView, MAX_DATA_LEN};
use crate::socks5::{OpenFailure, lemma_failure_status_roundtrip};
use crate::wire::{be32, from_be32, get_be32, put_be32, lemma_be32_roundtrip};

verus! {

/// The content of a frame.
#[derive(Clone, Debug, PartialEq, Eq)]
pub enum Message {
    /// Start a session to this target.
    Open(Address),
    /// The target was reached through this bound address.
    OpenAck(Address),
    /// The target was not reached.
    OpenFail(OpenFailure),
    /// A chunk of the proxied stream.
    Data(Vec<u8>),
    /// This much credit is returned to the receiver of the frame.
    WindowUpdate(u32),
    /// The sender's endpoint reached the end of its stream.
    Close,
    /// The session is abandoned.
    Reset,
}

/// The content of a frame as a mathematical value.
pub enum MessageView {
    Open(AddressView),
    OpenAck(AddressView),
    OpenFail(OpenFailure),
    Data(Seq<u8>),
    WindowUpdate(u32),
    Close,
    Reset,
}

impl View for Message {
    type V = MessageView;

    open spec fn view(&self) -> MessageView {
        match self {
            Message::Open(a) => MessageView::Open(a@),
            Message::OpenAck(a) => MessageView::OpenAck(a@),
            Message::OpenFail(r) => MessageView::OpenFail(*r),
            Message::Data(b) => MessageView::Data(b@),
            Message::WindowUpdate(n) => MessageView::WindowUpdate(*n),
            Message::Close => MessageView::Close,
            Message::Reset => MessageView::Reset,
        }
    }
}

impl MessageView {
    /// The message fits a frame: its address is well formed, its chunk is
    /// no longer than a `Data` frame allows.
    pub open spec fn wf(self) -> bool {
        match self {
            MessageView::Open(a) => a.wf(),
            MessageView::OpenAck(a) => a.wf(),
            MessageView::Data(b) => b.len() <= MAX_DATA_LEN,
            _ => true,
        }
    }

    /// The kind of frame that carries the message.
    pub open spec fn kind(self) -> FrameKind {
        match self {
            MessageView::Open(_) => FrameKind::Open,
            MessageView::OpenAck(_) => FrameKind::OpenAck,
            MessageView::OpenFail(_) => FrameKind::OpenFail,
            MessageView::Data(_) => FrameKind::Data,
            MessageView::WindowUpdate(_) => FrameKind::WindowUpdate,
            MessageView::Close => FrameKind::Close,
            MessageView::Reset => FrameKind::Reset,
        }
    }

    /// The payload that carries the message.
    pub open spec fn payload(self) -> Seq<u8> {
        match self {
            MessageView::Open(a) => a.encoding(),
            MessageView::OpenAck(a) => a.encoding(),
            MessageView::OpenFail(r) => seq![r.status()],
            MessageView::Data(b) => b,
            MessageView::WindowUpdate(n) => be32(n),
            MessageView::Close => Seq::<u8>::empty(),
            MessageView::Reset => Seq::<u8>::empty(),
        }
    }

    /// The frame that carries the message for session `id`.
    pub open spec fn frame(self, id: u64) -> FrameView {
        FrameView { session_id: id, kind: self.kind(), payload: self.payload() }
    }
}

/// The address that fills `payload` exactly, if there is one.
pub open spec fn whole_address(payload: Seq<u8>) -> Option<AddressView> {
    match parse_address(payload) {
        Ok((a, n)) => if n == payload.len() {
            Some(a)
        } else {
            None
        },
        Err(_) => None,
    }
}

/// What a frame says; `None` where its payload does not have the form that
/// its kind calls for.
pub open spec fn interpret(f: FrameView) -> Option<MessageView> {
    match f.kind {
        FrameKind::Open => match whole_address(f.payload) {
            Some(a) => Some(MessageView::Open(a)),
            None => None,
        },
        FrameKind::OpenAck => match whole_address(f.payload) {
            Some(a) => Some(MessageView::OpenAck(a)),
            None => None,
        },
        FrameKind::OpenFail => if f.payload.len() == 1 {
            Some(MessageView::OpenFail(OpenFailure::of_status(f.payload[0])))
        } else {
            None
        },
        FrameKind::Data => if f.payload.len() <= MAX_DATA_LEN {
            Some(MessageView::Data(f.payload))
        } else {
            None
        },
        FrameKind::WindowUpdate => if f.payload.len() == 4 {
            Some(MessageView::WindowUpdate(from_be32(f.payload)))
        } else {
            None
        },
        FrameKind::Close => if f.payload.len() == 0 {
            Some(MessageView::Close)
        } else {
            None
        },
        FrameKind::Reset => if f.payload.len() == 0 {
            Some(MessageView::Reset)
        } else {
            None
        },
    }
}

/// Reads the address that fills `payload` exactly.
fn read_whole_address(payload: &[u8]) -> (r: Option<Address>)
    ensures
        r is Some <==> whole_address(payload@) is Some,
        r matches Some(a) ==> whole_address(payload@) == Some(a@) && a@.wf(),
{
    match Address::decode(payload) {
        Ok((a, n)) => if n == payload.len() {
            Some(a)
        } else {
            None
        },
        Err(_) => None,
    }
}

impl Message {
    /// Reads what `frame` says; `None` where its payload does not have the
    /// form that its kind calls for.
    pub fn read(frame: Frame) -> (r: Option<Message>)
        ensures
            r is Some <==> interpret(frame@) is Some,
            r matches Some(m) ==> interpret(frame@) == Some(m@) && m@.wf(),
    {
        let Frame { session_id: _, kind, payload } = frame;
        match kind {
            FrameKind::Open => match read_whole_address(payload.as_slice()) {
                Some(a) => Some(Message::Open(a)),
                None => None,
            },
            FrameKind::OpenAck => match read_whole_address(payload.as_slice()) {
                Some(a) => Some(Message::OpenAck(a)),
                None => None,
            },
            FrameKind::OpenFail => if payload.len() == 1 {
                Some(Message::OpenFail(OpenFailure::from_status(payload[0])))
            } else {
                None
            },
            FrameKind::Data => if payload.len() <= MAX_DATA_LEN {
                Some(Message::Data(payload))
            } else {
                None
            },
            FrameKind::WindowUpdate => if payload.len() == 4 {
                let n: u32 = get_be32(payload.as_slice(), 0);
                Some(Message::WindowUpdate(n))
            } else {
                None
            },
            FrameKind::Close => if payload.len() == 0 {
                Some(Message::Close)
            } else {
                None
            },
            FrameKind::Reset => if payload.len() == 0 {
                Some(Message::Reset)
            } else {
                None
            },
        }
    }

    /// The frame that carries the message for session `id`.
    pub fn into_frame(self, id: u64) -> (f: Frame)
        requires
            self@.wf(),
        ensures
            f@ == self@.frame(id),
    {
        match self {
            Message::Open(a) => Frame { session_id: id, kind: FrameKind::Open, payload: a.encode() },
            Message::OpenAck(a) => Frame {
                session_id: id,
                kind: FrameKind::OpenAck,
                payload: a.encode(),
            },
            Message::OpenFail(r) => {
                let mut payload: Vec<u8> = Vec::new();
                payload.push(r.to_status());
                Frame { session_id: id, kind: FrameKind::OpenFail, payload }
            },
            Message::Data(b) => Frame { session_id: id, kind: FrameKind::Data, payload: b },
            Message::WindowUpdate(n) => {
                let mut payload: Vec<u8> = Vec::new();
                put_be32(&mut payload, n);
                Frame { session_id: id, kind: FrameKind::WindowUpdate, payload }
            },
            Message::Close => Frame::control(id, FrameKind::Close),
            Message::Reset => Frame::control(id, FrameKind::Reset),
        }
    }
}

/// A message that was put into a frame is read from it again.
pub proof fn lemma_message_roundtrip(m: MessageView, id: u64)
    requires
        m.wf(),
    ensures
        interpret(m.frame(id)) == Some(m),
        m.frame(id).session_id == id,
{
    match m {
        MessageView::Open(a) => {
            lemma_address_roundtrip(a, Seq::<u8>::empty());
        },
        MessageView::OpenAck(a) => {
            lemma_address_roundtrip(a, Seq::<u8>::empty());
        },
        MessageView::OpenFail(r) => {
            lemma_failure_status_roundtrip(r);
        },
        MessageView::Data(_) => {},
        MessageView::WindowUpdate(n) => {
            lemma_be32_roundtrip(n);
        },
        MessageView::Close => {},
        MessageView::Reset => {},
    }
}

/// What is read from a frame is well formed.
pub proof fn lemma_interpreted_wf(f: FrameView)
    requires
        interpret(f) is Some,
    ensures
        interpret(f)->0.wf(),
        interpret(f)->0.kind() == f.kind,
{
    if f.kind == FrameKind::Open || f.kind == FrameKind::OpenAck {
        crate::address::lemma_parsed_address(f.payload);
    }
}

} // verus!
