//! One direction of a session from end to end.
//!
//! A pipe is the sending side of a session, the receiving side of the same
//! session at the peer, and what is under way between them on the tunnel:
//! frames towards the receiver, credit back towards the sender. Each step
//! of a pipe is a step that the engine takes with this session, by the
//! same functions on `SessionView`. This module proves that two sides that
//! keep to the protocol lose nothing: every byte that the sending endpoint
//! produced is with the receiving endpoint, under way or waiting for
//! credit, in the order in which it was produced; once the receiver has
//! seen the end of the stream it has all of it; and the sender is never
//! left without credit when the receiver has consumed what it got.

use vstd::prelude::*;
use crate::address::AddressView;
use crate::flow::{Config, lemma_sum_drop_first, lemma_sum_push, sum};
use crate::message::MessageView;
use crate::mux::{EffectView, MuxView, lemma_first_ready, lemma_replace, lemma_same_sessions};
use crate::session::{SessionEvent, SessionState, SessionView};
use crate::table::lemma_position;

verus! {

/// What travels towards the receiver.
pub enum Carried {
    /// The payload of a `Data` frame.
    Data(Seq<u8>),
    /// A `Close` frame.
    Close,
}

impl Carried {
    /// The bytes of the stream that the frame carries.
    pub open spec fn bytes(self) -> Seq<u8> {
        match self {
            Carried::Data(b) => b,
            Carried::Close => Seq::<u8>::empty(),
        }
    }
}

/// The bytes of the stream that are under way, in order.
pub open spec fn carried(channel: Seq<Carried>) -> Seq<u8>
    decreases channel.len(),
{
    if channel.len() == 0 {
        Seq::<u8>::empty()
    } else {
        carried(channel.drop_last()) + channel.last().bytes()
    }
}

/// One direction of a session, from the sending endpoint to the receiving
/// one.
pub struct Pipe {
    /// The settings of flow control, the same on both sides.
    pub config: Config,
    /// Every byte that the sending endpoint has produced.
    pub offered: Seq<u8>,
    /// The session at the sending side.
    pub sender: SessionView,
    /// The frames under way to the receiver, oldest first.
    pub channel: Seq<Carried>,
    /// The credit under way back to the sender, oldest first.
    pub grants: Seq<u32>,
    /// The session at the receiving side.
    pub receiver: SessionView,
    /// Every byte that was handed to the receiving endpoint.
    pub delivered: Seq<u8>,
}

/// What can happen to a pipe.
pub enum PipeStep {
    /// The sending endpoint produces bytes.
    Offer(Seq<u8>),
    /// The sending endpoint reaches the end of its stream.
    Finish,
    /// The tunnel takes the next frame of the session from the sender.
    Send,
    /// The oldest frame under way arrives at the receiver.
    Arrive,
    /// The receiving endpoint consumes this many bytes.
    Consume(u32),
    /// The oldest credit under way arrives at the sender.
    Grant,
}

impl Pipe {
    /// A pipe as it is when the session has been acknowledged on both
    /// sides: open, with a full window, and nothing produced yet.
    pub open spec fn fresh(config: Config, id: u64, target: AddressView) -> Pipe {
        Pipe {
            config,
            offered: Seq::<u8>::empty(),
            sender: SessionView::opening(id, target).acknowledged(config),
            channel: Seq::<Carried>::empty(),
            grants: Seq::<u32>::empty(),
            receiver: SessionView::opening(id, target).acknowledged(config),
            delivered: Seq::<u8>::empty(),
        }
    }

    /// Whether the sender's `Close` is under way or has arrived.
    pub open spec fn close_sent(self) -> bool {
        (self.channel.len() > 0 && self.channel.last() is Close) || self.receiver.state
            == SessionState::RemoteHalfClosed
    }

    /// What holds of every pipe between two sides that keep to the
    /// protocol. Nothing is lost: what was delivered, what is under way and
    /// what waits make up what was produced, in that order. The credit that
    /// the receiver has granted is held by the sender, under way as bytes,
    /// or under way back. And `Close` is the last frame that the sender
    /// sends.
    pub open spec fn inv(self) -> bool {
        &&& self.config.wf()
        &&& self.sender.wf(self.config)
        &&& self.receiver.wf(self.config)
        &&& self.sender.state == SessionState::Open || self.sender.state
            == SessionState::LocalHalfClosed
        &&& self.receiver.state == SessionState::Open || self.receiver.state
            == SessionState::RemoteHalfClosed
        &&& self.delivered + carried(self.channel) + self.sender.pending == self.offered
        &&& self.sender.send.credit + carried(self.channel).len() + sum(self.grants)
            == self.receiver.recv.credit
        &&& self.receiver.recv.drained < self.config.replenish_at
        &&& forall|k: int|
            0 <= k < self.channel.len() && (#[trigger] self.channel[k]) is Close ==> k
                == self.channel.len() - 1
        &&& self.close_sent() <==> self.sender.state == SessionState::LocalHalfClosed
        &&& self.receiver.state == SessionState::RemoteHalfClosed ==> self.channel.len() == 0
    }

    /// The pipe after `step`; `None` where the receiver finds its grant
    /// broken. A step that does not apply leaves the pipe as it is.
    pub open spec fn after(self, step: PipeStep) -> Option<Pipe> {
        match step {
            PipeStep::Offer(bytes) => if self.sender.takes_input() {
                Some(
                    Pipe {
                        sender: self.sender.queued(bytes),
                        offered: self.offered + bytes,
                        ..self
                    },
                )
            } else {
                Some(self)
            },
            PipeStep::Finish => if self.sender.takes_input() {
                Some(Pipe { sender: self.sender.finished_input(), ..self })
            } else {
                Some(self)
            },
            PipeStep::Send => if !self.sender.ready() {
                Some(self)
            } else if self.sender.pending.len() > 0 {
                Some(
                    Pipe {
                        sender: self.sender.after_chunk(self.config),
                        channel: self.channel.push(Carried::Data(self.sender.chunk(self.config))),
                        ..self
                    },
                )
            } else {
                Some(
                    Pipe {
                        sender: self.sender.moved(SessionEvent::LocalClosed),
                        channel: self.channel.push(Carried::Close),
                        ..self
                    },
                )
            },
            PipeStep::Arrive => if self.channel.len() == 0 {
                Some(self)
            } else {
                match self.channel[0] {
                    Carried::Data(bytes) => if !self.receiver.state.can_receive() {
                        Some(Pipe { channel: self.channel.drop_first(), ..self })
                    } else if self.receiver.recv.violates(bytes.len()) {
                        None
                    } else {
                        Some(
                            Pipe {
                                receiver: self.receiver.received(bytes.len()),
                                delivered: self.delivered + bytes,
                                channel: self.channel.drop_first(),
                                ..self
                            },
                        )
                    },
                    Carried::Close => Some(
                        Pipe {
                            receiver: self.receiver.moved(SessionEvent::RemoteClosed),
                            channel: self.channel.drop_first(),
                            ..self
                        },
                    ),
                }
            },
            PipeStep::Consume(n) => {
                let receiver = self.receiver.released(n, self.config);
                match self.receiver.recv.returned(n, self.config.replenish_at) {
                    Some(back) => Some(Pipe { receiver, grants: self.grants.push(back), ..self }),
                    None => Some(Pipe { receiver, ..self }),
                }
            },
            PipeStep::Grant => if self.grants.len() == 0 {
                Some(self)
            } else {
                Some(
                    Pipe {
                        sender: self.sender.granted(self.grants[0]),
                        grants: self.grants.drop_first(),
                        ..self
                    },
                )
            },
        }
    }

    /// The pipe after `steps`, in order; `None` where the receiver finds
    /// its grant broken on the way.
    pub open spec fn after_all(self, steps: Seq<PipeStep>) -> Option<Pipe>
        decreases steps.len(),
    {
        if steps.len() == 0 {
            Some(self)
        } else {
            match self.after_all(steps.drop_last()) {
                None => None,
                Some(before) => before.after(steps.last()),
            }
        }
    }
}

/// The bytes under way with one more frame behind them.
pub proof fn lemma_carried_push(channel: Seq<Carried>, c: Carried)
    ensures
        carried(channel.push(c)) == carried(channel) + c.bytes(),
{
    assert(channel.push(c).drop_last() =~= channel);
}

/// The bytes under way without the first frame.
pub proof fn lemma_carried_drop_first(channel: Seq<Carried>)
    requires
        channel.len() > 0,
    ensures
        channel[0].bytes() + carried(channel.drop_first()) == carried(channel),
    decreases channel.len(),
{
    if channel.len() == 1 {
        assert(carried(channel.drop_last()) =~= Seq::<u8>::empty());
    } else {
        lemma_carried_drop_first(channel.drop_last());
        assert(channel.drop_first().drop_last() =~= channel.drop_last().drop_first());
    }
}

/// Producing bytes, and the end of the stream, keep the pipe in order.
pub proof fn lemma_pipe_input(p: Pipe, bytes: Seq<u8>)
    requires
        p.inv(),
    ensures
        p.after(PipeStep::Offer(bytes)) matches Some(q) && q.inv(),
        p.after(PipeStep::Finish) matches Some(q) && q.inv(),
{
    if p.sender.takes_input() {
        let q = p.after(PipeStep::Offer(bytes)).unwrap();
        assert(q.delivered + carried(q.channel) + q.sender.pending =~= q.offered);
    }
}

/// Sending the next frame keeps the pipe in order: the chunk is cut from
/// the front of what waits and goes to the back of what is under way.
pub proof fn lemma_pipe_send(p: Pipe)
    requires
        p.inv(),
    ensures
        p.after(PipeStep::Send) matches Some(q) && q.inv(),
{
    if p.sender.ready() {
        let q = p.after(PipeStep::Send).unwrap();
        if p.sender.pending.len() > 0 {
            lemma_carried_push(p.channel, Carried::Data(p.sender.chunk(p.config)));
            assert(q.delivered + carried(q.channel) + q.sender.pending =~= q.offered);
        } else {
            lemma_carried_push(p.channel, Carried::Close);
        }
        assert forall|k: int|
            0 <= k < q.channel.len() && (#[trigger] q.channel[k]) is Close implies k
                == q.channel.len() - 1 by {}
    }
}

/// The arrival of a frame keeps the pipe in order, and is never a breach:
/// the credit for every byte under way is with the receiver.
pub proof fn lemma_pipe_arrive(p: Pipe)
    requires
        p.inv(),
    ensures
        p.after(PipeStep::Arrive) matches Some(q) && q.inv(),
{
    if p.channel.len() > 0 {
        lemma_carried_drop_first(p.channel);
        let rest = p.channel.drop_first();
        assert forall|k: int| 0 <= k < rest.len() && (#[trigger] rest[k]) is Close implies k
            == rest.len() - 1 by {}
        if p.channel[0] is Data {
            let q = p.after(PipeStep::Arrive).unwrap();
            assert(q.delivered + carried(q.channel) + q.sender.pending =~= p.delivered + (
            p.channel[0].bytes() + carried(rest)) + p.sender.pending);
        }
    }
}

/// Consuming bytes and the arrival of credit keep the pipe in order.
pub proof fn lemma_pipe_credit(p: Pipe, n: u32)
    requires
        p.inv(),
    ensures
        p.after(PipeStep::Consume(n)) matches Some(q) && q.inv(),
        p.after(PipeStep::Grant) matches Some(q) && q.inv(),
{
    match p.receiver.recv.returned(n, p.config.replenish_at) {
        Some(back) => {
            lemma_sum_push(p.grants, back);
        },
        None => {},
    }
    if p.grants.len() > 0 {
        lemma_sum_drop_first(p.grants);
    }
}

/// Every step keeps the pipe in order and none is a breach.
pub proof fn lemma_pipe_step(p: Pipe, step: PipeStep)
    requires
        p.inv(),
    ensures
        p.after(step) matches Some(q) && q.inv(),
{
    match step {
        PipeStep::Offer(bytes) => {
            lemma_pipe_input(p, bytes);
        },
        PipeStep::Finish => {
            lemma_pipe_input(p, Seq::<u8>::empty());
        },
        PipeStep::Send => {
            lemma_pipe_send(p);
        },
        PipeStep::Arrive => {
            lemma_pipe_arrive(p);
        },
        PipeStep::Consume(n) => {
            lemma_pipe_credit(p, n);
        },
        PipeStep::Grant => {
            lemma_pipe_credit(p, 0);
        },
    }
}

/// Delivery from end to end. Whatever the sending endpoint produces, and
/// in whatever order frames are sent, arrive and are consumed and credit
/// comes back, no step is a breach, and what the receiving endpoint got is
/// the beginning of what was produced: the same bytes in the same order,
/// none lost, none twice, none put in. Once the receiver has seen the end
/// of the stream, it has got all of it.
pub proof fn lemma_delivered_end_to_end(
    config: Config,
    id: u64,
    target: AddressView,
    steps: Seq<PipeStep>,
)
    requires
        config.wf(),
        target.wf(),
    ensures
        Pipe::fresh(config, id, target).after_all(steps) matches Some(p) && {
            &&& p.inv()
            &&& p.delivered.len() <= p.offered.len()
            &&& p.delivered == p.offered.take(p.delivered.len() as int)
            &&& p.receiver.state == SessionState::RemoteHalfClosed ==> p.delivered == p.offered
        },
    decreases steps.len(),
{
    if steps.len() > 0 {
        let start = Pipe::fresh(config, id, target);
        lemma_delivered_end_to_end(config, id, target, steps.drop_last());
        lemma_pipe_step(start.after_all(steps.drop_last()).unwrap(), steps.last());
    }
}

/// The pipe does not get stuck. When everything that was sent has arrived
/// and was consumed, and all credit has come back, the sender has credit:
/// if bytes wait, or the end of the stream does, the session is ready to
/// send. So all that the endpoint produced reaches the receiver once
/// credit is returned.
pub proof fn lemma_pipe_goes_on(p: Pipe)
    requires
        p.inv(),
        p.channel.len() == 0,
        p.grants.len() == 0,
        p.receiver.recv.held == 0,
        p.sender.state == SessionState::Open,
    ensures
        p.sender.send.credit > 0,
        p.sender.pending.len() > 0 || p.sender.eof ==> p.sender.ready(),
        p.sender.ready() ==> ({
            let q = p.after(PipeStep::Send).unwrap();
            &&& q.channel.len() == 1
            &&& q.channel[0] matches Carried::Data(bytes) ==> bytes.len() > 0
        }),
{
}

/// The steps of a pipe are the steps of the engine. For a live session of
/// an engine, producing bytes, finishing, the arrival of `Data`, `Close`
/// and `WindowUpdate`, and consuming change the session by the functions
/// by which a pipe changes its sender and its receiver; `Data` hands the
/// endpoint its whole payload; and consuming posts a `WindowUpdate` exactly
/// when a pipe sends credit back, with the same credit.
pub proof fn lemma_pipe_steps_are_engine_steps(m: MuxView, id: u64, bytes: Seq<u8>, n: u32)
    requires
        m.wf(),
        m.has(id),
    ensures
        ({
            let s = m.session(id);
            &&& s.takes_input() ==> m.offered(id, bytes).session(id) == s.queued(bytes)
                && m.input_finished(id).session(id) == s.finished_input()
            &&& s.state.can_receive() && !s.recv.violates(bytes.len()) ==> m.on_data(id, bytes)
                is Ok && m.on_data(id, bytes).unwrap().next.session(id) == s.received(
                bytes.len(),
            ) && m.on_data(id, bytes).unwrap().effect == (EffectView::Deliver {
                session: id,
                bytes,
            })
            &&& s.state == SessionState::Open ==> m.on_close(id).next.session(id) == s.moved(
                SessionEvent::RemoteClosed,
            )
            &&& s.state != SessionState::Opening ==> m.on_window_update(id, n).session(id)
                == s.granted(n)
            &&& m.consumed(id, n).session(id) == s.released(n, m.config)
            &&& m.consumed(id, n).outbox == (match s.recv.returned(n, m.config.replenish_at) {
                Some(back) => m.outbox.push(MessageView::WindowUpdate(back).frame(id)),
                None => m.outbox,
            })
        }),
{
    let s = m.session(id);
    if s.takes_input() {
        lemma_replace(m, id, s.queued(bytes));
        lemma_replace(m, id, s.finished_input());
    }
    if s.state.can_receive() && !s.recv.violates(bytes.len()) {
        lemma_replace(m, id, s.received(bytes.len()));
    }
    if s.state == SessionState::Open {
        lemma_replace(m, id, s.moved(SessionEvent::RemoteClosed));
    }
    if s.state != SessionState::Opening {
        lemma_replace(m, id, s.granted(n));
    }
    lemma_replace(m, id, s.released(n, m.config));
    lemma_same_sessions(m.consumed(id, n), m.replace(id, s.released(n, m.config)));
}

/// Sending is a step of the engine too. When the tunnel takes a frame from
/// a session, the session changes as the sender of a pipe does: a `Data`
/// frame carries the chunk that a pipe sends, and a `Close` goes out
/// exactly when nothing waits and the endpoint has finished.
pub proof fn lemma_pipe_send_is_engine_step(m: MuxView)
    requires
        m.wf(),
        m.outbox.len() == 0,
        m.scheduled() is Some,
    ensures
        ({
            let (next, f, _) = m.scheduled().unwrap();
            let s = m.session(f.session_id);
            &&& m.has(f.session_id)
            &&& s.ready()
            &&& s.pending.len() > 0 ==> f == MessageView::Data(s.chunk(m.config)).frame(s.id)
                && next.has(s.id) && next.session(s.id) == s.after_chunk(m.config)
            &&& s.pending.len() == 0 ==> f == MessageView::Close.frame(s.id) && (s.state
                == SessionState::Open ==> next.has(s.id) && next.session(s.id) == s.moved(
                SessionEvent::LocalClosed,
            ))
        }),
{
    lemma_first_ready(m.sessions, m.start(), 0);
    let i = m.next_ready().unwrap();
    let s = m.sessions[i];
    lemma_position(m.sessions, i);
    assert(m.has(s.id));
    let next = m.scheduled().unwrap().0;
    if s.pending.len() > 0 {
        lemma_replace(m, s.id, s.after_chunk(m.config));
        lemma_same_sessions(next, m.replace(s.id, s.after_chunk(m.config)));
    } else if s.state == SessionState::Open {
        lemma_replace(m, s.id, s.moved(SessionEvent::LocalClosed));
        lemma_same_sessions(next, m.replace(s.id, s.moved(SessionEvent::LocalClosed)));
    }
}

} // verus!
