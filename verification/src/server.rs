//! The server side of a tunnel: the dispatcher that dials the targets.
//!
//! The server learns of a session from an `Open` frame, has the target
//! dialed, and answers with `OpenAck` or `OpenFail`. An identifier is
//! whatever the agent chose: an `Open` starts a session exactly when no
//! `Open` on this tunnel has used its identifier before, in whatever order
//! the identifiers come. An `Open` for an identifier that was used names a
//! session that is live or gone, and is dropped, so that no identifier ever
//! stands for two sessions.

use vstd::prelude::*;
use std::collections::HashSet;
use crate::address::{Address, AddressView};
use crate::engine::Multiplexer;
use crate::flow::Config;
use crate::frame::{Frame, FrameKind, FrameView};
use crate::message::{Message, MessageView, interpret, lemma_message_roundtrip};
use crate::mux::{Breach, Effect, EffectView, MuxView, Outgoing, ProtocolError};
use crate::mux::{lemma_dialed, lemma_local, lemma_lost, lemma_opened, lemma_received};
use crate::mux::{lemma_same_sessions, lemma_scheduled};
use crate::socks5::OpenFailure;
use crate::table::ids_of;
use crate::trace::{Event, delivered_to, fresh, hands, run, used_after};
use crate::trace::{lemma_run_one, lemma_run_two};

verus! {

broadcast use vstd::std_specs::hash::group_hash_axioms;

/// The state of a server as a mathematical value.
pub struct ServerView {
    /// The state of the engine.
    pub mux: MuxView,
    /// The identifiers that an `Open` has used on this tunnel.
    pub used: Set<u64>,
}

impl ServerView {
    /// The engine is well formed and the identifier of every live session
    /// counts as used.
    pub open spec fn wf(self) -> bool {
        &&& self.mux.wf()
        &&& forall|x: u64| self.mux.has(x) ==> self.used.contains(x)
    }

    /// A server without sessions.
    pub open spec fn initial(config: Config) -> ServerView {
        ServerView { mux: MuxView::initial(config), used: Set::<u64>::empty() }
    }

    /// The same server with another state of the engine.
    pub open spec fn with_mux(self, mux: MuxView) -> ServerView {
        ServerView { mux, ..self }
    }

    /// Whether an `Open` for `id` starts a session: no `Open` has used the
    /// identifier before. Its value does not matter, nor which identifiers
    /// came before it.
    pub open spec fn admits(self, id: u64) -> bool {
        !self.used.contains(id)
    }

    /// What a frame from the agent leads to.
    ///
    /// An `Open` with an identifier that was not used starts a session and
    /// has its target dialed; an `Open` with one that was used is dropped. `OpenAck` and `OpenFail`
    /// never travel towards the server. Every other kind is the engine's
    /// business.
    pub open spec fn on_frame(self, f: FrameView) -> Result<
        (ServerView, EffectView),
        ProtocolError,
    > {
        let id = f.session_id;
        match interpret(f) {
            None => Err(ProtocolError::MalformedPayload),
            Some(MessageView::Open(target)) => if self.admits(id) {
                Ok(
                    (
                        ServerView { mux: self.mux.opened(id, target), used: self.used.insert(id) },
                        EffectView::Dial { session: id, target },
                    ),
                )
            } else {
                Ok((self, EffectView::Nothing))
            },
            Some(MessageView::OpenAck(_)) => Err(ProtocolError::UnexpectedFrame),
            Some(MessageView::OpenFail(_)) => Err(ProtocolError::UnexpectedFrame),
            Some(m) => match self.mux.received(id, m) {
                Ok(step) => Ok((self.with_mux(step.next), step.effect)),
                Err(e) => Err(e),
            },
        }
    }

    /// The state after the target of session `id` was reached through
    /// `bound`: the session is open and `OpenAck` waits for the tunnel.
    /// Nothing changes where no such session waits for its target.
    pub open spec fn dialed(self, id: u64, bound: AddressView) -> ServerView {
        if self.mux.is_opening(id) {
            self.with_mux(self.mux.established(id).post(MessageView::OpenAck(bound).frame(id)))
        } else {
            self
        }
    }

    /// The state after the target of session `id` was not reached: the
    /// session is gone and `OpenFail` waits for the tunnel. Nothing changes
    /// where no such session waits for its target.
    pub open spec fn dial_failed(self, id: u64, reason: OpenFailure) -> ServerView {
        if self.mux.is_opening(id) {
            self.with_mux(self.mux.refused(id).post(MessageView::OpenFail(reason).frame(id)))
        } else {
            self
        }
    }
}

/// A frame leaves the server well formed; it starts no session but the one
/// that an `Open` names, forgets no identifier that was used, and touches
/// no session but its own.
pub proof fn lemma_server_frame(s: ServerView, f: FrameView)
    requires
        s.wf(),
    ensures
        s.on_frame(f) matches Ok((next, effect)) ==> next.wf() && s.used.subset_of(next.used)
            && next.mux.same_but(s.mux, f.session_id) && next.mux.config == s.mux.config,
{
    let id = f.session_id;
    match interpret(f) {
        Some(MessageView::Open(target)) => {
            if s.admits(id) {
                crate::message::lemma_interpreted_wf(f);
                lemma_opened(s.mux, id, target);
                let next = s.mux.opened(id, target);
                assert forall|x: u64| next.has(x) implies s.used.insert(id).contains(x) by {
                    if x != id {
                        assert(s.mux.has(x));
                    }
                }
            }
        },
        Some(m) => {
            lemma_received(s.mux, id, m);
        },
        None => {},
    }
}

/// The result of a dial leaves the server well formed and starts no
/// session.
pub proof fn lemma_server_dial(s: ServerView, id: u64, bound: AddressView, reason: OpenFailure)
    requires
        s.wf(),
        bound.wf(),
    ensures
        s.dialed(id, bound).wf(),
        s.dialed(id, bound).mux.keeps_to(s.mux),
        s.dial_failed(id, reason).wf(),
        s.dial_failed(id, reason).mux.keeps_to(s.mux),
        s.mux.is_opening(id) ==> !s.dial_failed(id, reason).mux.has(id),
{
    lemma_dialed(s.mux, id);
    lemma_message_roundtrip(MessageView::OpenAck(bound), id);
    lemma_message_roundtrip(MessageView::OpenFail(reason), id);
    if s.mux.is_opening(id) {
        lemma_same_sessions(s.dialed(id, bound).mux, s.mux.established(id));
        lemma_same_sessions(s.dial_failed(id, reason).mux, s.mux.refused(id));
    }
}

/// Teardown is idempotent at the server: a `Close` or a `Reset` for a
/// session that is gone leaves the server exactly as it is and owes
/// nothing to any target, and so does everything else that arrives for it
/// and is no breach of the protocol, a second `Open` too.
pub proof fn lemma_server_drops_late_frames(s: ServerView, f: FrameView)
    requires
        s.wf(),
        !s.mux.has(f.session_id),
        s.used.contains(f.session_id),
    ensures
        s.on_frame(f) matches Ok((next, effect)) ==> next == s && effect == EffectView::Nothing,
        f.kind == FrameKind::Close || f.kind == FrameKind::Reset ==> (s.on_frame(f) is Ok
            <==> f.payload.len() == 0),
{
}

/// An identifier stands for one session only: an `Open` for an identifier
/// that was not used starts a session and has its target dialed; from then
/// on the identifier counts as used, and every later `Open` for it is
/// dropped without any effect, whatever happened to the session.
pub proof fn lemma_open_once(s: ServerView, id: u64, target: AddressView, again: AddressView)
    requires
        s.wf(),
        target.wf(),
        again.wf(),
        s.admits(id),
    ensures
        ({
            let first = s.on_frame(MessageView::Open(target).frame(id));
            &&& first matches Ok((next, effect)) && effect == (EffectView::Dial {
                session: id,
                target,
            }) && next.mux.is_opening(id) && next.used == s.used.insert(id) && !next.admits(id)
        }),
        forall|later: ServerView|
            later.used.contains(id) ==> #[trigger] later.on_frame(
                MessageView::Open(again).frame(id),
            ) == Ok::<(ServerView, EffectView), ProtocolError>((later, EffectView::Nothing)),
{
    lemma_message_roundtrip(MessageView::Open(target), id);
    lemma_message_roundtrip(MessageView::Open(again), id);
    lemma_opened(s.mux, id, target);
}

/// Sessions are independent in how they start: whether an `Open` starts a
/// session depends on its own identifier alone. Whatever other sessions
/// were started, held or ended before it, under whatever identifiers, an
/// `Open` for an identifier that no `Open` has used asks for the same dial
/// and leaves every other session as it was.
pub proof fn lemma_open_is_independent(s: ServerView, t: ServerView, id: u64, target: AddressView)
    requires
        s.wf(),
        t.wf(),
        target.wf(),
        s.admits(id),
        t.admits(id),
    ensures
        ({
            let f = MessageView::Open(target).frame(id);
            &&& s.on_frame(f) matches Ok((after_s, effect_s))
            &&& t.on_frame(f) matches Ok((after_t, effect_t))
            &&& effect_s == effect_t
            &&& effect_s == (EffectView::Dial { session: id, target })
            &&& after_s.mux.session(id) == after_t.mux.session(id)
            &&& after_s.mux.same_but(s.mux, id)
            &&& after_t.mux.same_but(t.mux, id)
        }),
{
    lemma_message_roundtrip(MessageView::Open(target), id);
    lemma_opened(s.mux, id, target);
    lemma_opened(t.mux, id, target);
}

/// A dial that fails leaves nothing behind: the session is gone, `OpenFail`
/// with the reason is the one frame that is added for the agent, and the
/// session never had credit, so that no `Data` was sent for it.
pub proof fn lemma_failed_dial(s: ServerView, id: u64, reason: OpenFailure)
    requires
        s.wf(),
        s.mux.is_opening(id),
    ensures
        !s.dial_failed(id, reason).mux.has(id),
        s.dial_failed(id, reason).mux.outbox == s.mux.outbox.push(
            MessageView::OpenFail(reason).frame(id),
        ),
        interpret(MessageView::OpenFail(reason).frame(id)) == Some(MessageView::OpenFail(reason)),
        s.mux.session(id).send.credit == 0,
        !s.mux.session(id).ready(),
{
    lemma_server_dial(s, id, AddressView::unspecified(), reason);
    lemma_message_roundtrip(MessageView::OpenFail(reason), id);
}

impl ServerView {
    /// What a frame does to the engine, as an event of the engine: the
    /// start of a session for an `Open` that is taken, the arrival of the
    /// message for every kind that travels both ways, and nothing for a
    /// frame that is dropped.
    pub open spec fn frame_events(self, f: FrameView) -> Seq<Event> {
        let id = f.session_id;
        match interpret(f) {
            Some(MessageView::Open(target)) => if self.admits(id) {
                seq![Event::Opened { id, target }]
            } else {
                Seq::<Event>::empty()
            },
            Some(MessageView::OpenAck(_)) => Seq::<Event>::empty(),
            Some(MessageView::OpenFail(_)) => Seq::<Event>::empty(),
            Some(message) => seq![Event::Received { id, message }],
            None => Seq::<Event>::empty(),
        }
    }

    /// What the result of a dial does to the engine: the target is reached
    /// or missed, and the answer is posted.
    pub open spec fn dial_events(self, id: u64, outcome: Result<AddressView, OpenFailure>) -> Seq<
        Event,
    > {
        if self.mux.is_opening(id) {
            match outcome {
                Ok(bound) => seq![
                    Event::Established { id },
                    Event::Posted { frame: MessageView::OpenAck(bound).frame(id) },
                ],
                Err(reason) => seq![
                    Event::Refused { id },
                    Event::Posted { frame: MessageView::OpenFail(reason).frame(id) },
                ],
            }
        } else {
            Seq::<Event>::empty()
        }
    }
}

/// The server moves its engine by the engine's events and never takes an
/// identifier twice, so that what is proved of every run of an engine
/// holds of the server: a frame amounts to at most one event, which starts
/// a session only under an identifier that was not used and marks it used.
pub proof fn lemma_server_refines(s: ServerView, f: FrameView, id: u64)
    requires
        s.wf(),
    ensures
        s.on_frame(f) matches Ok((next, effect)) ==> {
            let events = s.frame_events(f);
            &&& run(s.mux, events) matches Some((m, effects)) && m == next.mux && delivered_to(
                effects,
                id,
            ) == hands(effect, id)
            &&& fresh(s.used, events)
            &&& used_after(s.used, events) == next.used
            &&& forall|k: int| 0 <= k < events.len() ==> (#[trigger] events[k]).admissible()
        },
{
    if s.on_frame(f) is Ok {
        let events = s.frame_events(f);
        if events.len() > 0 {
            lemma_run_one(s.mux, s.used, events[0], id);
            crate::message::lemma_interpreted_wf(f);
        }
    }
}

/// The result of a dial amounts to reaching or missing the target and
/// posting the answer: two events of the engine that start no session and
/// hand nothing to any endpoint.
pub proof fn lemma_server_dial_refines(
    s: ServerView,
    dialed: u64,
    outcome: Result<AddressView, OpenFailure>,
    id: u64,
)
    requires
        s.wf(),
        outcome matches Ok(bound) ==> bound.wf(),
    ensures
        ({
            let events = s.dial_events(dialed, outcome);
            let after = match outcome {
                Ok(bound) => s.dialed(dialed, bound),
                Err(reason) => s.dial_failed(dialed, reason),
            };
            &&& run(s.mux, events) matches Some((m, effects)) && m == after.mux && delivered_to(
                effects,
                id,
            ).len() == 0
            &&& fresh(s.used, events)
            &&& used_after(s.used, events) == s.used
            &&& forall|k: int| 0 <= k < events.len() ==> (#[trigger] events[k]).admissible()
        }),
{
    if s.mux.is_opening(dialed) {
        let (first, second) = match outcome {
            Ok(bound) => (
                Event::Established { id: dialed },
                Event::Posted { frame: MessageView::OpenAck(bound).frame(dialed) },
            ),
            Err(reason) => (
                Event::Refused { id: dialed },
                Event::Posted { frame: MessageView::OpenFail(reason).frame(dialed) },
            ),
        };
        match outcome {
            Ok(bound) => {
                lemma_message_roundtrip(MessageView::OpenAck(bound), dialed);
            },
            Err(reason) => {
                lemma_message_roundtrip(MessageView::OpenFail(reason), dialed);
            },
        }
        lemma_run_two(s.mux, s.used, first, second, id);
        lemma_run_one(s.mux, s.used, first, id);
    }
}

/// The server side of a tunnel.
pub struct CoreTunnelServer {
    mux: Multiplexer,
    used: HashSet<u64>,
}

impl CoreTunnelServer {
    /// The state of the server.
    pub closed spec fn view(&self) -> ServerView {
        ServerView { mux: self.mux@, used: self.used@ }
    }

    /// The server is in order: its engine is, and its state is well formed.
    pub closed spec fn wf(&self) -> bool {
        self.mux.wf() && self@.wf()
    }

    /// The state of a server that is in order is well formed.
    pub proof fn lemma_wf(&self)
        requires
            self.wf(),
        ensures
            self@.wf(),
    {
    }

    /// A server without sessions, or `None` where the settings make no
    /// sense.
    pub fn new(config: Config) -> (r: Option<CoreTunnelServer>)
        ensures
            r is Some <==> config.wf(),
            r matches Some(s) ==> s.wf() && s@ == ServerView::initial(config),
    {
        match Multiplexer::new(config) {
            None => None,
            Some(mux) => Some(CoreTunnelServer { mux, used: HashSet::new() }),
        }
    }

    /// The engine, for looking at sessions.
    pub fn engine(&self) -> (m: &Multiplexer)
        requires
            self.wf(),
        ensures
            m.wf(),
            m@ == self@.mux,
    {
        &self.mux
    }

    /// Takes in a frame that the tunnel delivered and tells what is owed:
    /// a dial, or something to the target of the frame's session. An error
    /// is a breach of the protocol by the agent and leaves the server as it
    /// was; it is fatal to the tunnel, and `transport_lost` is owed next.
    /// `take_frame` does both.
    pub fn on_frame(&mut self, frame: Frame) -> (r: Result<Effect, ProtocolError>)
        requires
            old(self).wf(),
        ensures
            final(self).wf(),
            match r {
                Ok(effect) => old(self)@.on_frame(frame@) == Ok::<
                    (ServerView, EffectView),
                    ProtocolError,
                >((final(self)@, effect@)),
                Err(e) => old(self)@.on_frame(frame@) == Err::<
                    (ServerView, EffectView),
                    ProtocolError,
                >(e) && final(self)@ == old(self)@,
            },
    {
        let id: u64 = frame.session_id;
        proof {
            lemma_server_frame(self@, frame@);
        }
        match Message::read(frame) {
            None => Err(ProtocolError::MalformedPayload),
            Some(Message::Open(target)) => {
                if self.used.contains(&id) {
                    return Ok(Effect::Nothing);
                }
                let copy = target.duplicate();
                self.mux.open(id, target);
                self.used.insert(id);
                Ok(Effect::Dial { session: id, target: copy })
            },
            Some(Message::OpenAck(_)) => Err(ProtocolError::UnexpectedFrame),
            Some(Message::OpenFail(_)) => Err(ProtocolError::UnexpectedFrame),
            Some(m) => self.mux.receive(id, m),
        }
    }

    /// Takes in a frame that the tunnel delivered, as `on_frame` does, and
    /// gives the tunnel up where the frame is a breach of the protocol:
    /// every session fails, none is left in the table and no frame in the
    /// outbox, and the sessions that were live come back with the error,
    /// for their targets to be reset.
    pub fn take_frame(&mut self, frame: Frame) -> (r: Result<Effect, Breach>)
        requires
            old(self).wf(),
        ensures
            final(self).wf(),
            match r {
                Ok(effect) => old(self)@.on_frame(frame@) == Ok::<
                    (ServerView, EffectView),
                    ProtocolError,
                >((final(self)@, effect@)),
                Err(breach) => old(self)@.on_frame(frame@) == Err::<
                    (ServerView, EffectView),
                    ProtocolError,
                >(breach.error) && final(self)@ == old(self)@.with_mux(old(self)@.mux.lost())
                    && breach.sessions@ == ids_of(old(self)@.mux.sessions),
            },
    {
        match self.on_frame(frame) {
            Ok(effect) => Ok(effect),
            Err(error) => {
                let sessions = self.transport_lost();
                Err(Breach { error, sessions })
            },
        }
    }

    /// Reports that the target of session `id` was reached through
    /// `bound`. Returns `false`, and changes nothing, where no such session
    /// waits for its target: the connection that was made is to be closed
    /// again.
    pub fn dial_succeeded(&mut self, id: u64, bound: Address) -> (ok: bool)
        requires
            old(self).wf(),
            bound@.wf(),
        ensures
            final(self).wf(),
            ok == old(self)@.mux.is_opening(id),
            final(self)@ == old(self)@.dialed(id, bound@),
    {
        proof {
            lemma_server_dial(self@, id, bound@, OpenFailure::Other);
            lemma_dialed(self.mux@, id);
            lemma_message_roundtrip(MessageView::OpenAck(bound@), id);
        }
        if self.mux.establish(id) {
            self.mux.post(Message::OpenAck(bound).into_frame(id));
            true
        } else {
            false
        }
    }

    /// Reports that the target of session `id` was not reached. The
    /// session is gone and the agent is told why. Returns `false`, and
    /// changes nothing, where no such session waits for its target.
    pub fn dial_failed(&mut self, id: u64, reason: OpenFailure) -> (ok: bool)
        requires
            old(self).wf(),
        ensures
            final(self).wf(),
            ok == old(self)@.mux.is_opening(id),
            final(self)@ == old(self)@.dial_failed(id, reason),
    {
        proof {
            lemma_server_dial(self@, id, AddressView::unspecified(), reason);
            lemma_dialed(self.mux@, id);
            lemma_message_roundtrip(MessageView::OpenFail(reason), id);
        }
        if self.mux.refuse(id) {
            self.mux.post(Message::OpenFail(reason).into_frame(id));
            true
        } else {
            false
        }
    }

    /// Queues bytes that the target of session `id` sent. Returns `false`,
    /// and drops them, where the session is not live or takes no input any
    /// more.
    pub fn local_data(&mut self, id: u64, bytes: &[u8]) -> (ok: bool)
        requires
            old(self).wf(),
        ensures
            final(self).wf(),
            ok == old(self)@.mux.takes_input(id),
            final(self)@ == old(self)@.with_mux(old(self)@.mux.offered(id, bytes@)),
    {
        proof {
            lemma_local(self.mux@, id, bytes@, 0);
        }
        self.mux.local_data(id, bytes)
    }

    /// Notes that the target of session `id` finished sending. Returns
    /// `false` where the session is not live or takes no input any more.
    pub fn local_eof(&mut self, id: u64) -> (ok: bool)
        requires
            old(self).wf(),
        ensures
            final(self).wf(),
            ok == old(self)@.mux.takes_input(id),
            final(self)@ == old(self)@.with_mux(old(self)@.mux.input_finished(id)),
    {
        proof {
            lemma_local(self.mux@, id, Seq::<u8>::empty(), 0);
        }
        self.mux.local_eof(id)
    }

    /// Gives the session `id` up because the connection to its target
    /// failed, and tells the agent with a `Reset`. Returns `false` where
    /// the session is not live.
    pub fn local_error(&mut self, id: u64) -> (ok: bool)
        requires
            old(self).wf(),
        ensures
            final(self).wf(),
            ok == old(self)@.mux.has(id),
            final(self)@ == old(self)@.with_mux(old(self)@.mux.local_failed(id)),
    {
        proof {
            lemma_local(self.mux@, id, Seq::<u8>::empty(), 0);
        }
        self.mux.local_error(id)
    }

    /// Accounts for `n` bytes that were written to the target of session
    /// `id`, and returns their credit to the agent when it is time.
    /// Returns `false` where the session is not live.
    pub fn local_consumed(&mut self, id: u64, n: u32) -> (ok: bool)
        requires
            old(self).wf(),
        ensures
            final(self).wf(),
            ok == old(self)@.mux.has(id),
            final(self)@ == old(self)@.with_mux(old(self)@.mux.consumed(id, n)),
    {
        proof {
            lemma_local(self.mux@, id, Seq::<u8>::empty(), n);
        }
        self.mux.local_consumed(id, n)
    }

    /// Gives every session up because the tunnel is lost, and returns the
    /// identifiers of the sessions that were live: the connection to the
    /// target of each is to be reset. No session is left.
    pub fn transport_lost(&mut self) -> (ids: Vec<u64>)
        requires
            old(self).wf(),
        ensures
            final(self).wf(),
            final(self)@ == old(self)@.with_mux(old(self)@.mux.lost()),
            ids@ == ids_of(old(self)@.mux.sessions),
    {
        proof {
            lemma_lost(self.mux@);
        }
        self.mux.transport_lost()
    }

    /// Hands out the next frame for the tunnel, if one is ready.
    pub fn next_frame(&mut self) -> (r: Option<Outgoing>)
        requires
            old(self).wf(),
        ensures
            final(self).wf(),
            match r {
                Some(out) => old(self)@.mux.scheduled() == Some(
                    (final(self)@.mux, out.frame@, out.finished),
                ) && final(self)@.used == old(self)@.used,
                None => old(self)@.mux.scheduled() is None && final(self)@ == old(self)@,
            },
    {
        proof {
            lemma_scheduled(self.mux@);
        }
        self.mux.next_frame()
    }
}

impl Default for CoreTunnelServer {
    /// A server without sessions, with the standard settings.
    fn default() -> (s: CoreTunnelServer)
        ensures
            s.wf(),
            s@ == ServerView::initial(Config::standard()),
    {
        CoreTunnelServer { mux: Multiplexer::standard(), used: HashSet::new() }
    }
}

} // verus!
