//! The multiplexing engine in executable form.
//!
//! `Multiplexer` holds the state that `MuxView` describes and moves it as
//! the functions of `MuxView` say.

use vstd::prelude::*;
use std::collections::VecDeque;
use crate::address::Address;
use crate::flow::Config;
use crate::frame::{Frame, FrameView};
use crate::message::{Message, MessageView, lemma_message_roundtrip};
use crate::mux::{Effect, MuxView, Outgoing, ProtocolError, Step, first_ready, is_control};
use crate::mux::{lemma_opened, lemma_replace, lemma_without};
use crate::session::{Session, SessionEvent, SessionState};
use crate::table::{SessionTable, ids_of, lemma_position};

verus! {

/// The multiplexing engine of one side of a tunnel.
pub struct Multiplexer {
    config: Config,
    table: SessionTable,
    outbox: VecDeque<Frame>,
    cursor: usize,
}

impl Multiplexer {
    /// The state of the engine.
    pub closed spec fn view(&self) -> MuxView {
        MuxView {
            config: self.config,
            sessions: self.table@,
            outbox: Seq::new(self.outbox@.len(), |j: int| self.outbox@[j]@),
            cursor: self.cursor as nat,
        }
    }

    /// The engine is in order: its table is, and its state is well formed.
    pub closed spec fn wf(&self) -> bool {
        self.table.wf() && self@.wf()
    }

    /// The state of an engine that is in order is well formed.
    pub proof fn lemma_wf(&self)
        requires
            self.wf(),
        ensures
            self@.wf(),
    {
    }

    /// An engine without sessions, or `None` where the settings make no
    /// sense.
    pub fn new(config: Config) -> (r: Option<Multiplexer>)
        ensures
            r is Some <==> config.wf(),
            r matches Some(m) ==> m.wf() && m@ == MuxView::initial(config),
    {
        if !config.is_valid() {
            return None;
        }
        let m = Multiplexer { config, table: SessionTable::new(), outbox: VecDeque::new(), cursor: 0 };
        assert(m@.outbox =~= Seq::<FrameView>::empty());
        Some(m)
    }

    /// An engine without sessions, with the standard settings.
    pub fn standard() -> (m: Multiplexer)
        ensures
            m.wf(),
            m@ == MuxView::initial(Config::standard()),
    {
        let m = Multiplexer {
            config: Config::default(),
            table: SessionTable::new(),
            outbox: VecDeque::new(),
            cursor: 0,
        };
        assert(m@.outbox =~= Seq::<FrameView>::empty());
        m
    }

    /// The settings of flow control.
    pub fn config(&self) -> (c: Config)
        ensures
            c == self@.config,
    {
        self.config
    }

    /// The number of live sessions.
    pub fn len(&self) -> (n: usize)
        ensures
            n == self@.sessions.len(),
    {
        self.table.len()
    }

    /// The number of control frames that wait for the tunnel.
    pub fn queued_frames(&self) -> (n: usize)
        ensures
            n == self@.outbox.len(),
    {
        self.outbox.len()
    }

    /// The live session with this identifier, if there is one.
    pub fn session(&self, id: u64) -> (r: Option<&Session>)
        requires
            self.wf(),
        ensures
            r is Some <==> self@.has(id),
            r matches Some(s) ==> s@ == self@.session(id) && s@.id == id,
    {
        match self.table.find(id) {
            Some(i) => Some(self.table.get(i)),
            None => None,
        }
    }

    /// Starts a session to `target` under `id`, waiting for its target.
    /// Returns `false`, and changes nothing, where the identifier is taken.
    pub fn open(&mut self, id: u64, target: Address) -> (ok: bool)
        requires
            old(self).wf(),
            target@.wf(),
        ensures
            final(self).wf(),
            ok == old(self)@.can_open(id),
            final(self)@ == old(self)@.opened(id, target@),
    {
        if self.table.find(id).is_some() {
            return false;
        }
        proof {
            lemma_opened(self@, id, target@);
        }
        self.table.insert(Session::opening(id, target));
        true
    }

    /// Opens the session `id` once its target is reached, with a full
    /// window in each direction. Returns `false`, and changes nothing,
    /// where no such session waits for its target.
    pub fn establish(&mut self, id: u64) -> (ok: bool)
        requires
            old(self).wf(),
        ensures
            final(self).wf(),
            ok == old(self)@.is_opening(id),
            final(self)@ == old(self)@.established(id),
    {
        let config = self.config;
        match self.table.find(id) {
            None => false,
            Some(i) => {
                if self.table.get(i).state == SessionState::Opening {
                    proof {
                        lemma_replace(self@, id, self@.session(id).acknowledged(config));
                    }
                    let s = self.table.slot_mut(i);
                    s.acknowledge(&config);
                    true
                } else {
                    false
                }
            },
        }
    }

    /// Gives the session `id` up because its target was not reached.
    /// Returns `false`, and changes nothing, where no such session waits
    /// for its target.
    pub fn refuse(&mut self, id: u64) -> (ok: bool)
        requires
            old(self).wf(),
        ensures
            final(self).wf(),
            ok == old(self)@.is_opening(id),
            final(self)@ == old(self)@.refused(id),
    {
        match self.table.find(id) {
            None => false,
            Some(i) => {
                if self.table.get(i).state == SessionState::Opening {
                    proof {
                        lemma_without(self@, id);
                    }
                    let _gone = self.table.remove_at(i);
                    true
                } else {
                    false
                }
            },
        }
    }

    /// Puts a control frame into the outbox.
    pub fn post(&mut self, frame: Frame)
        requires
            old(self).wf(),
            is_control(frame@),
        ensures
            final(self).wf(),
            final(self)@ == old(self)@.post(frame@),
    {
        self.outbox.push_back(frame);
        assert(self@.outbox =~= old(self)@.outbox.push(frame@));
    }

    /// Takes in what a frame for session `id` says and tells what is owed
    /// to the endpoint. An error is a breach of the protocol by the peer
    /// and leaves the engine as it was.
    pub fn receive(&mut self, id: u64, message: Message) -> (r: Result<Effect, ProtocolError>)
        requires
            old(self).wf(),
        ensures
            final(self).wf(),
            match r {
                Ok(effect) => old(self)@.received(id, message@) == Ok::<Step, ProtocolError>(
                    Step { next: final(self)@, effect: effect@ },
                ),
                Err(e) => old(self)@.received(id, message@) == Err::<Step, ProtocolError>(e)
                    && final(self)@ == old(self)@,
            },
    {
        match message {
            Message::Data(bytes) => {
                match self.table.find(id) {
                    None => Ok(Effect::Nothing),
                    Some(i) => {
                        let state = self.table.get(i).state;
                        if state == SessionState::RemoteHalfClosed {
                            return Ok(Effect::Nothing);
                        }
                        proof {
                            let s = self@.session(id);
                            if !s.recv.violates(bytes@.len()) && state != SessionState::Opening {
                                lemma_replace(self@, id, s.received(bytes@.len()));
                            }
                        }
                        let s = self.table.slot_mut(i);
                        if !s.receive(bytes.len()) {
                            assert(self@.sessions =~= old(self)@.sessions);
                            return Err(ProtocolError::CreditViolation);
                        }
                        if state == SessionState::Opening {
                            assert(self@.sessions =~= old(self)@.sessions);
                            return Ok(Effect::Nothing);
                        }
                        Ok(Effect::Deliver { session: id, bytes })
                    },
                }
            },
            Message::WindowUpdate(n) => {
                match self.table.find(id) {
                    None => Ok(Effect::Nothing),
                    Some(i) => {
                        if self.table.get(i).state == SessionState::Opening {
                            return Ok(Effect::Nothing);
                        }
                        proof {
                            lemma_replace(self@, id, self@.session(id).granted(n));
                        }
                        let s = self.table.slot_mut(i);
                        s.grant(n);
                        Ok(Effect::Nothing)
                    },
                }
            },
            Message::Close => {
                match self.table.find(id) {
                    None => Ok(Effect::Nothing),
                    Some(i) => {
                        let state = self.table.get(i).state;
                        if state == SessionState::Open {
                            proof {
                                lemma_replace(
                                    self@,
                                    id,
                                    self@.session(id).moved(SessionEvent::RemoteClosed),
                                );
                            }
                            let s = self.table.slot_mut(i);
                            s.apply(SessionEvent::RemoteClosed);
                            Ok(Effect::Shutdown { session: id })
                        } else if state == SessionState::LocalHalfClosed {
                            proof {
                                lemma_without(self@, id);
                            }
                            let _gone = self.table.remove_at(i);
                            Ok(Effect::Finished { session: id })
                        } else {
                            Ok(Effect::Nothing)
                        }
                    },
                }
            },
            Message::Reset => {
                match self.table.find(id) {
                    None => Ok(Effect::Nothing),
                    Some(i) => {
                        proof {
                            lemma_without(self@, id);
                        }
                        let _gone = self.table.remove_at(i);
                        Ok(Effect::Abort { session: id })
                    },
                }
            },
            _ => Err(ProtocolError::UnexpectedFrame),
        }
    }

    /// Whether bytes from the endpoint of session `id` are taken.
    pub fn takes_input(&self, id: u64) -> (b: bool)
        requires
            self.wf(),
        ensures
            b == self@.takes_input(id),
    {
        match self.table.find(id) {
            None => false,
            Some(i) => self.table.get(i).takes_input(),
        }
    }

    /// Whether the endpoint of session `id` should go on reading: its
    /// input is taken and less than a window of bytes waits for credit.
    pub fn has_room(&self, id: u64) -> (b: bool)
        requires
            self.wf(),
        ensures
            b == self@.has_room(id),
    {
        match self.table.find(id) {
            None => false,
            Some(i) => {
                let s = self.table.get(i);
                s.takes_input() && s.pending.len() < self.config.window as usize
            },
        }
    }

    /// Queues bytes that the endpoint of session `id` produced. Returns
    /// `false`, and drops them, where the session is not live or takes no
    /// input any more.
    pub fn local_data(&mut self, id: u64, bytes: &[u8]) -> (ok: bool)
        requires
            old(self).wf(),
        ensures
            final(self).wf(),
            ok == old(self)@.takes_input(id),
            final(self)@ == old(self)@.offered(id, bytes@),
    {
        match self.table.find(id) {
            None => false,
            Some(i) => {
                if !self.table.get(i).takes_input() {
                    return false;
                }
                proof {
                    lemma_replace(self@, id, self@.session(id).queued(bytes@));
                }
                let s = self.table.slot_mut(i);
                s.queue(bytes);
                true
            },
        }
    }

    /// Notes that the endpoint of session `id` reached the end of its
    /// stream; the `Close` goes out once what waits is sent. Returns
    /// `false` where the session is not live or takes no input any more.
    pub fn local_eof(&mut self, id: u64) -> (ok: bool)
        requires
            old(self).wf(),
        ensures
            final(self).wf(),
            ok == old(self)@.takes_input(id),
            final(self)@ == old(self)@.input_finished(id),
    {
        match self.table.find(id) {
            None => false,
            Some(i) => {
                if !self.table.get(i).takes_input() {
                    return false;
                }
                proof {
                    lemma_replace(self@, id, self@.session(id).finished_input());
                }
                let s = self.table.slot_mut(i);
                s.finish_input();
                true
            },
        }
    }

    /// Gives the session `id` up because its endpoint failed, and tells
    /// the peer with a `Reset`. Returns `false` where the session is not
    /// live.
    pub fn local_error(&mut self, id: u64) -> (ok: bool)
        requires
            old(self).wf(),
        ensures
            final(self).wf(),
            ok == old(self)@.has(id),
            final(self)@ == old(self)@.local_failed(id),
    {
        match self.table.find(id) {
            None => false,
            Some(i) => {
                proof {
                    lemma_without(self@, id);
                    lemma_message_roundtrip(MessageView::Reset, id);
                }
                let _gone = self.table.remove_at(i);
                self.post(Message::Reset.into_frame(id));
                true
            },
        }
    }

    /// Accounts for `n` bytes that the endpoint of session `id` consumed,
    /// and returns their credit to the peer when it is time. Returns
    /// `false` where the session is not live.
    pub fn local_consumed(&mut self, id: u64, n: u32) -> (ok: bool)
        requires
            old(self).wf(),
        ensures
            final(self).wf(),
            ok == old(self)@.has(id),
            final(self)@ == old(self)@.consumed(id, n),
    {
        let config = self.config;
        match self.table.find(id) {
            None => false,
            Some(i) => {
                proof {
                    lemma_replace(self@, id, self@.session(id).released(n, config));
                }
                let s = self.table.slot_mut(i);
                let back = s.release(n, &config);
                match back {
                    Some(credit) => {
                        proof {
                            lemma_message_roundtrip(MessageView::WindowUpdate(credit), id);
                        }
                        self.post(Message::WindowUpdate(credit).into_frame(id));
                    },
                    None => {},
                }
                true
            },
        }
    }

    /// Gives every session up because the tunnel is lost. Returns the
    /// identifiers of the sessions that were live, slot by slot: the
    /// endpoint of each is to be reset. Nothing is left in the table and
    /// nothing in the outbox.
    pub fn transport_lost(&mut self) -> (ids: Vec<u64>)
        requires
            old(self).wf(),
        ensures
            final(self).wf(),
            final(self)@ == old(self)@.lost(),
            ids@ == ids_of(old(self)@.sessions),
    {
        let ids = self.table.take_all();
        self.outbox.clear();
        self.cursor = 0;
        assert(self@.outbox =~= Seq::<FrameView>::empty());
        ids
    }

    /// The slot of the session whose turn it is to send, if any is ready.
    fn find_ready(&self) -> (r: Option<usize>)
        requires
            self.wf(),
        ensures
            match r {
                Some(i) => self@.next_ready() == Some(i as int) && i < self@.sessions.len()
                    && i < usize::MAX && self@.sessions[i as int].ready(),
                None => self@.next_ready() is None,
            },
    {
        let n: usize = self.table.len();
        let start: usize = if self.cursor < n {
            self.cursor
        } else {
            0
        };
        let mut t: usize = 0;
        while t < n
            invariant
                t <= n,
                n == self@.sessions.len(),
                start == self@.start(),
                0 <= start,
                n > 0 ==> start < n,
                self@.next_ready() == first_ready(self@.sessions, start as int, t as int),
            decreases n - t,
        {
            let i: usize = if t < n - start {
                start + t
            } else {
                t - (n - start)
            };
            if self.table.get(i).ready() {
                return Some(i);
            }
            t += 1;
        }
        None
    }

    /// Hands out the next frame for the tunnel, if one is ready: control
    /// frames first, then the sessions in turn. Call it whenever the tunnel
    /// can take a frame.
    pub fn next_frame(&mut self) -> (r: Option<Outgoing>)
        requires
            old(self).wf(),
        ensures
            final(self).wf(),
            match r {
                Some(out) => old(self)@.scheduled() == Some(
                    (final(self)@, out.frame@, out.finished),
                ),
                None => old(self)@.scheduled() is None && final(self)@ == old(self)@,
            },
    {
        if self.outbox.len() > 0 {
            let first = self.outbox.pop_front();
            assert(self@.outbox =~= old(self)@.outbox.drop_first());
            return match first {
                Some(frame) => Some(Outgoing { frame, finished: false }),
                None => None,
            };
        }
        let config = self.config;
        let i: usize = match self.find_ready() {
            None => {
                return None;
            },
            Some(i) => i,
        };
        let ghost before = self@.sessions[i as int];
        proof {
            lemma_position(self@.sessions, i as int);
        }
        let s = self.table.slot_mut(i);
        let id: u64 = s.id;
        if s.pending.len() > 0 {
            proof {
                lemma_replace(old(self)@, id, before.after_chunk(config));
            }
            let chunk = s.cut_chunk(&config);
            self.cursor = i + 1;
            Some(Outgoing { frame: Message::Data(chunk).into_frame(id), finished: false })
        } else if s.state == SessionState::Open {
            proof {
                lemma_replace(old(self)@, id, before.moved(SessionEvent::LocalClosed));
            }
            s.apply(SessionEvent::LocalClosed);
            self.cursor = i + 1;
            Some(Outgoing { frame: Message::Close.into_frame(id), finished: false })
        } else {
            proof {
                lemma_without(old(self)@, id);
            }
            assert(self@.sessions =~= old(self)@.sessions);
            let _gone = self.table.remove_at(i);
            self.cursor = i;
            Some(Outgoing { frame: Message::Close.into_frame(id), finished: true })
        }
    }
}

} // verus!
