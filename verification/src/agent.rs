//! The agent side of a tunnel: the multiplexer beside the SOCKS5 clients.
//!
//! The agent starts sessions. It gives each a fresh identifier, announces
//! it to the server with `Open`, and learns with `OpenAck` or `OpenFail`
//! whether the target was reached. Until then nothing is delivered to the
//! client, so that the SOCKS5 reply is the first thing it reads.

use vstd::prelude::*;
use crate::address::{Address, AddressView};
use crate::engine::Multiplexer;
use crate::flow::Config;
use crate::frame::{Frame, FrameKind, FrameView};
use crate::message::{Message, MessageView, interpret, lemma_message_roundtrip};
use crate::mux::{Breach, Effect, EffectView, MuxView, Outgoing, ProtocolError};
use crate::mux::{lemma_dialed, lemma_local, lemma_lost, lemma_opened, lemma_posted, lemma_received};
use crate::mux::{lemma_same_sessions, lemma_scheduled};
use crate::socks5::{STATUS_SUCCESS, failure_reply, success_reply};
use crate::socks5::{lemma_reply_is_valid, parse_reply, reply_bytes};
use crate::table::ids_of;
use crate::trace::{Event, delivered_to, fresh, hands, run, used_after};
use crate::trace::{lemma_run_one, lemma_run_two};

verus! {

/// Why no session was started.
#[derive(Clone, Copy, Debug, PartialEq, Eq, Structural)]
pub enum OpenError {
    /// The target is a domain name that is too long or not UTF-8.
    InvalidTarget,
    /// Every identifier of this tunnel has been used.
    Exhausted,
}

/// The state of an agent as a mathematical value.
pub struct AgentView {
    /// The state of the engine.
    pub mux: MuxView,
    /// The identifier that the next session gets.
    pub next_id: u64,
}

impl AgentView {
    /// The engine is well formed and every live session has an identifier
    /// that was handed out.
    pub open spec fn wf(self) -> bool {
        &&& self.mux.wf()
        &&& forall|x: u64| self.mux.has(x) ==> x < self.next_id
    }

    /// The identifiers that were handed out: all below the next one.
    pub open spec fn used(self) -> Set<u64> {
        Set::new(|x: u64| x < self.next_id)
    }

    /// An agent without sessions.
    pub open spec fn initial(config: Config) -> AgentView {
        AgentView { mux: MuxView::initial(config), next_id: 0 }
    }

    /// The identifier that a new session to `target` gets, or why none is
    /// started.
    pub open spec fn can_start(self, target: AddressView) -> Result<u64, OpenError> {
        if !target.wf() {
            Err(OpenError::InvalidTarget)
        } else if self.next_id == u64::MAX {
            Err(OpenError::Exhausted)
        } else {
            Ok(self.next_id)
        }
    }

    /// The state after a session to `target` was started: the session
    /// waits for its target, and `Open` waits for the tunnel.
    pub open spec fn started(self, target: AddressView) -> AgentView {
        AgentView {
            mux: self.mux.opened(self.next_id, target).post(
                MessageView::Open(target).frame(self.next_id),
            ),
            next_id: (self.next_id + 1) as u64,
        }
    }

    /// The same agent with another state of the engine.
    pub open spec fn with_mux(self, mux: MuxView) -> AgentView {
        AgentView { mux, ..self }
    }

    /// What a frame from the server leads to.
    ///
    /// `OpenAck` opens a session that waits for its target and has the
    /// client told of the bound address; `OpenFail` gives such a session up
    /// and has the client told why. Either is dropped for any other
    /// session. `Open` never travels towards the agent. Every other kind is
    /// the engine's business.
    pub open spec fn on_frame(self, f: FrameView) -> Result<(AgentView, EffectView), ProtocolError> {
        let id = f.session_id;
        match interpret(f) {
            None => Err(ProtocolError::MalformedPayload),
            Some(MessageView::Open(_)) => Err(ProtocolError::UnexpectedFrame),
            Some(MessageView::OpenAck(bound)) => if self.mux.is_opening(id) {
                Ok(
                    (
                        self.with_mux(self.mux.established(id)),
                        EffectView::Established { session: id, bound },
                    ),
                )
            } else {
                Ok((self, EffectView::Nothing))
            },
            Some(MessageView::OpenFail(reason)) => if self.mux.is_opening(id) {
                Ok(
                    (
                        self.with_mux(self.mux.refused(id)),
                        EffectView::Refused { session: id, reason },
                    ),
                )
            } else {
                Ok((self, EffectView::Nothing))
            },
            Some(m) => match self.mux.received(id, m) {
                Ok(step) => Ok((self.with_mux(step.next), step.effect)),
                Err(e) => Err(e),
            },
        }
    }
}

/// A frame leaves the agent well formed and starts no session.
pub proof fn lemma_agent_frame(a: AgentView, f: FrameView)
    requires
        a.wf(),
    ensures
        a.on_frame(f) matches Ok((next, effect)) ==> next.wf() && next.mux.keeps_to(a.mux)
            && next.mux.same_but(a.mux, f.session_id) && next.next_id == a.next_id,
{
    let id = f.session_id;
    lemma_dialed(a.mux, id);
    match interpret(f) {
        Some(m) => {
            lemma_received(a.mux, id, m);
        },
        None => {},
    }
}

/// The SOCKS5 reply that an effect owes the client: success with the bound
/// address once the target is reached, the status of the failure once it
/// is missed, and none for every other effect.
pub open spec fn client_reply(effect: EffectView) -> Option<Seq<u8>> {
    match effect {
        EffectView::Established { session, bound } => Some(reply_bytes(STATUS_SUCCESS, bound)),
        EffectView::Refused { session, reason } => Some(
            reply_bytes(reason.status(), AddressView::unspecified()),
        ),
        _ => None,
    }
}

/// The SOCKS5 reply to write to the client for `effect`, if it owes one.
pub fn reply_for(effect: &Effect) -> (r: Option<Vec<u8>>)
    requires
        effect@ matches EffectView::Established { session, bound } ==> bound.wf(),
    ensures
        match r {
            Some(bytes) => client_reply(effect@) == Some(bytes@),
            None => client_reply(effect@) is None,
        },
{
    match effect {
        Effect::Established { session: _, bound } => Some(success_reply(bound)),
        Effect::Refused { session: _, reason } => Some(failure_reply(*reason)),
        _ => None,
    }
}

/// The reply comes before the bytes. A frame hands bytes to a client only
/// if its session is past waiting for its target; and a session gets past
/// waiting only by an `OpenAck`, which owes the client the success reply
/// with a bound address that is well formed, so that the reply reads back
/// as a valid one.
pub proof fn lemma_reply_before_bytes(a: AgentView, f: FrameView)
    requires
        a.wf(),
    ensures
        a.on_frame(f) matches Ok((next, effect)) ==> {
            let id = f.session_id;
            &&& effect matches EffectView::Deliver { session, bytes } ==> session == id
                && a.mux.has(id) && a.mux.session(id).state.can_receive()
            &&& a.mux.is_opening(id) && next.mux.has(id) && !next.mux.is_opening(id)
                ==> effect is Established
            &&& effect matches EffectView::Established { session, bound } ==> {
                &&& session == id
                &&& a.mux.is_opening(id)
                &&& next.mux == a.mux.established(id)
                &&& bound.wf()
                &&& parse_reply(reply_bytes(STATUS_SUCCESS, bound)) == Some(
                    (STATUS_SUCCESS, bound, reply_bytes(STATUS_SUCCESS, bound).len()),
                )
            }
            &&& effect matches EffectView::Refused { session, reason } ==> {
                &&& session == id
                &&& a.mux.is_opening(id)
                &&& !next.mux.has(id)
                &&& reply_bytes(reason.status(), AddressView::unspecified())[1] == reason.status()
            }
        },
{
    let id = f.session_id;
    lemma_dialed(a.mux, id);
    match interpret(f) {
        Some(m) => {
            crate::message::lemma_interpreted_wf(f);
            lemma_received(a.mux, id, m);
            match m {
                MessageView::OpenAck(bound) => {
                    lemma_reply_is_valid(STATUS_SUCCESS, bound);
                },
                MessageView::Data(bytes) => {
                    if a.mux.has(id) {
                        crate::mux::lemma_credit_is_enforced(a.mux, id, bytes);
                    }
                },
                MessageView::WindowUpdate(n) => {
                    if a.mux.is_opening(id) {
                    } else if a.mux.has(id) {
                        crate::mux::lemma_replace(a.mux, id, a.mux.session(id).granted(n));
                    }
                },
                MessageView::Close => {
                    if a.mux.has(id) {
                        crate::mux::lemma_without(a.mux, id);
                    }
                },
                MessageView::Reset => {
                    if a.mux.has(id) {
                        crate::mux::lemma_without(a.mux, id);
                    }
                },
                _ => {},
            }
        },
        None => {},
    }
}

/// Teardown is idempotent at the agent: a `Close` or a `Reset` for a
/// session that is gone leaves the agent exactly as it is and owes nothing
/// to any client, and so does every other frame but a breach of the
/// protocol.
pub proof fn lemma_agent_drops_late_frames(a: AgentView, f: FrameView)
    requires
        a.wf(),
        !a.mux.has(f.session_id),
    ensures
        a.on_frame(f) matches Ok((next, effect)) ==> next == a && effect == EffectView::Nothing,
        f.kind == FrameKind::Close || f.kind == FrameKind::Reset ==> (a.on_frame(f) is Ok
            <==> f.payload.len() == 0),
{
}

/// Identifiers are never reused: a session that is started gets an
/// identifier that no live session has and that is above every identifier
/// handed out before, and the next one will be above it.
pub proof fn lemma_fresh_identifier(a: AgentView, target: AddressView)
    requires
        a.wf(),
        a.can_start(target) is Ok,
    ensures
        a.can_start(target) == Ok::<u64, OpenError>(a.next_id),
        !a.mux.has(a.next_id),
        a.started(target).wf(),
        a.started(target).next_id == a.next_id + 1,
        a.started(target).mux.is_opening(a.next_id),
        a.started(target).mux.session(a.next_id) == crate::session::SessionView::opening(
            a.next_id,
            target,
        ),
        a.started(target).mux.outbox == a.mux.outbox.push(
            MessageView::Open(target).frame(a.next_id),
        ),
{
    let id = a.next_id;
    lemma_opened(a.mux, id, target);
    lemma_message_roundtrip(MessageView::Open(target), id);
    let opened = a.mux.opened(id, target);
    lemma_same_sessions(a.started(target).mux, opened);
    assert forall|x: u64| a.started(target).mux.has(x) implies x < id + 1 by {
        if x != id {
            assert(a.mux.has(x));
        }
    }
}

impl AgentView {
    /// What a frame does to the engine, as an event of the engine: reaching
    /// or missing a target for the frames that answer an `Open`, the
    /// arrival of the message for every other frame, and nothing for a
    /// frame that is dropped.
    pub open spec fn frame_events(self, f: FrameView) -> Seq<Event> {
        let id = f.session_id;
        match interpret(f) {
            Some(MessageView::OpenAck(_)) => if self.mux.is_opening(id) {
                seq![Event::Established { id }]
            } else {
                Seq::<Event>::empty()
            },
            Some(MessageView::OpenFail(_)) => if self.mux.is_opening(id) {
                seq![Event::Refused { id }]
            } else {
                Seq::<Event>::empty()
            },
            Some(MessageView::Open(_)) => Seq::<Event>::empty(),
            Some(message) => seq![Event::Received { id, message }],
            None => Seq::<Event>::empty(),
        }
    }

    /// What starting a session does to the engine: the session is started
    /// under the next identifier and its `Open` is posted.
    pub open spec fn start_events(self, target: AddressView) -> Seq<Event> {
        seq![
            Event::Opened { id: self.next_id, target },
            Event::Posted { frame: MessageView::Open(target).frame(self.next_id) },
        ]
    }
}

/// The agent moves its engine by the engine's events, so that what is
/// proved of every run of an engine holds of the agent: a frame amounts to
/// at most one event, which starts no session and hands over the bytes
/// that the agent hands over.
pub proof fn lemma_agent_refines(a: AgentView, f: FrameView, id: u64)
    requires
        a.wf(),
    ensures
        a.on_frame(f) matches Ok((next, effect)) ==> {
            let events = a.frame_events(f);
            &&& run(a.mux, events) matches Some((m, effects)) && m == next.mux && delivered_to(
                effects,
                id,
            ) == hands(effect, id)
            &&& fresh(a.used(), events)
            &&& used_after(a.used(), events) == next.used()
            &&& forall|k: int| 0 <= k < events.len() ==> (#[trigger] events[k]).admissible()
        },
{
    if a.on_frame(f) is Ok {
        let events = a.frame_events(f);
        if events.len() > 0 {
            lemma_run_one(a.mux, a.used(), events[0], id);
        }
    }
}

/// The agent never reuses an identifier: starting a session amounts to
/// starting it in the engine under an identifier that was not handed out
/// before, and posting its `Open`; the identifier then counts as used.
pub proof fn lemma_agent_start_refines(a: AgentView, target: AddressView, id: u64)
    requires
        a.wf(),
        a.can_start(target) is Ok,
    ensures
        ({
            let events = a.start_events(target);
            &&& run(a.mux, events) matches Some((m, effects)) && m == a.started(target).mux
                && delivered_to(effects, id).len() == 0
            &&& fresh(a.used(), events)
            &&& used_after(a.used(), events) == a.started(target).used()
            &&& forall|k: int| 0 <= k < events.len() ==> (#[trigger] events[k]).admissible()
        }),
{
    let first = Event::Opened { id: a.next_id, target };
    let second = Event::Posted { frame: MessageView::Open(target).frame(a.next_id) };
    lemma_message_roundtrip(MessageView::Open(target), a.next_id);
    lemma_run_two(a.mux, a.used(), first, second, id);
    lemma_run_one(a.mux, a.used(), first, id);
    assert(a.used().insert(a.next_id) =~= a.started(target).used());
}

/// The agent side of a tunnel.
pub struct AgentMux {
    mux: Multiplexer,
    next_id: u64,
}

impl AgentMux {
    /// The state of the agent.
    pub closed spec fn view(&self) -> AgentView {
        AgentView { mux: self.mux@, next_id: self.next_id }
    }

    /// The agent is in order: its engine is, and its state is well formed.
    pub closed spec fn wf(&self) -> bool {
        self.mux.wf() && self@.wf()
    }

    /// The state of an agent that is in order is well formed.
    pub proof fn lemma_wf(&self)
        requires
            self.wf(),
        ensures
            self@.wf(),
    {
    }

    /// An agent without sessions, or `None` where the settings make no
    /// sense.
    pub fn new(config: Config) -> (r: Option<AgentMux>)
        ensures
            r is Some <==> config.wf(),
            r matches Some(a) ==> a.wf() && a@ == AgentView::initial(config),
    {
        match Multiplexer::new(config) {
            None => None,
            Some(mux) => Some(AgentMux { mux, next_id: 0 }),
        }
    }

    /// An agent without sessions, with the standard settings.
    pub fn standard() -> (a: AgentMux)
        ensures
            a.wf(),
            a@ == AgentView::initial(Config::standard()),
    {
        AgentMux { mux: Multiplexer::standard(), next_id: 0 }
    }

    /// The engine, for looking at sessions.
    pub fn engine(&self) -> (m: &Multiplexer)
        requires
            self.wf(),
        ensures
            m.wf(),
            m@ == self@.mux,
    {
        &self.mux
    }

    /// Starts a session to `target` for a client that was accepted, and
    /// returns its identifier. The `Open` frame waits for the tunnel; what
    /// the client sends meanwhile is held back until the target is
    /// reached.
    pub fn open_session(&mut self, target: Address) -> (r: Result<u64, OpenError>)
        requires
            old(self).wf(),
        ensures
            final(self).wf(),
            match r {
                Ok(id) => old(self)@.can_start(target@) == Ok::<u64, OpenError>(id) && final(self)@
                    == old(self)@.started(target@),
                Err(e) => old(self)@.can_start(target@) == Err::<u64, OpenError>(e) && final(self)@
                    == old(self)@,
            },
    {
        if !target.is_valid() {
            return Err(OpenError::InvalidTarget);
        }
        if self.next_id == u64::MAX {
            return Err(OpenError::Exhausted);
        }
        let id: u64 = self.next_id;
        let frame = Message::Open(target.duplicate()).into_frame(id);
        proof {
            lemma_opened(self.mux@, id, target@);
            lemma_message_roundtrip(MessageView::Open(target@), id);
            lemma_posted(self.mux@.opened(id, target@), frame@);
        }
        self.mux.open(id, target);
        self.mux.post(frame);
        self.next_id = id + 1;
        proof {
            let opened = old(self).mux@.opened(id, target@);
            lemma_same_sessions(self.mux@, opened);
            assert forall|x: u64| self.mux@.has(x) implies x < self.next_id by {
                if x != id {
                    assert(old(self).mux@.has(x));
                }
            }
        }
        Ok(id)
    }

    /// Takes in a frame that the tunnel delivered and tells what is owed to
    /// the client of its session. An error is a breach of the protocol by
    /// the server and leaves the agent as it was; it is fatal to the tunnel,
    /// and `transport_lost` is owed next. `take_frame` does both.
    pub fn on_frame(&mut self, frame: Frame) -> (r: Result<Effect, ProtocolError>)
        requires
            old(self).wf(),
        ensures
            final(self).wf(),
            r matches Ok(Effect::Established { session, bound }) ==> bound@.wf(),
            match r {
                Ok(effect) => old(self)@.on_frame(frame@) == Ok::<
                    (AgentView, EffectView),
                    ProtocolError,
                >((final(self)@, effect@)),
                Err(e) => old(self)@.on_frame(frame@) == Err::<
                    (AgentView, EffectView),
                    ProtocolError,
                >(e) && final(self)@ == old(self)@,
            },
    {
        let id: u64 = frame.session_id;
        proof {
            lemma_agent_frame(self@, frame@);
            lemma_reply_before_bytes(self@, frame@);
        }
        match Message::read(frame) {
            None => Err(ProtocolError::MalformedPayload),
            Some(Message::Open(_)) => Err(ProtocolError::UnexpectedFrame),
            Some(Message::OpenAck(bound)) => {
                if self.mux.establish(id) {
                    Ok(Effect::Established { session: id, bound })
                } else {
                    Ok(Effect::Nothing)
                }
            },
            Some(Message::OpenFail(reason)) => {
                if self.mux.refuse(id) {
                    Ok(Effect::Refused { session: id, reason })
                } else {
                    Ok(Effect::Nothing)
                }
            },
            Some(m) => self.mux.receive(id, m),
        }
    }

    /// Takes in a frame that the tunnel delivered, as `on_frame` does, and
    /// gives the tunnel up where the frame is a breach of the protocol:
    /// every session fails, none is left in the table and no frame in the
    /// outbox, and the sessions that were live come back with the error,
    /// for their clients to be reset.
    pub fn take_frame(&mut self, frame: Frame) -> (r: Result<Effect, Breach>)
        requires
            old(self).wf(),
        ensures
            final(self).wf(),
            r matches Ok(Effect::Established { session, bound }) ==> bound@.wf(),
            match r {
                Ok(effect) => old(self)@.on_frame(frame@) == Ok::<
                    (AgentView, EffectView),
                    ProtocolError,
                >((final(self)@, effect@)),
                Err(breach) => old(self)@.on_frame(frame@) == Err::<
                    (AgentView, EffectView),
                    ProtocolError,
                >(breach.error) && final(self)@ == old(self)@.with_mux(old(self)@.mux.lost())
                    && breach.sessions@ == ids_of(old(self)@.mux.sessions),
            },
    {
        match self.on_frame(frame) {
            Ok(effect) => Ok(effect),
            Err(error) => {
                let sessions = self.transport_lost();
                Err(Breach { error, sessions })
            },
        }
    }

    /// Queues bytes that the client of session `id` sent. Returns `false`,
    /// and drops them, where the session is not live or takes no input any
    /// more.
    pub fn local_data(&mut self, id: u64, bytes: &[u8]) -> (ok: bool)
        requires
            old(self).wf(),
        ensures
            final(self).wf(),
            ok == old(self)@.mux.takes_input(id),
            final(self)@ == old(self)@.with_mux(old(self)@.mux.offered(id, bytes@)),
    {
        proof {
            lemma_local(self.mux@, id, bytes@, 0);
        }
        self.mux.local_data(id, bytes)
    }

    /// Notes that the client of session `id` finished sending. Returns
    /// `false` where the session is not live or takes no input any more.
    pub fn local_eof(&mut self, id: u64) -> (ok: bool)
        requires
            old(self).wf(),
        ensures
            final(self).wf(),
            ok == old(self)@.mux.takes_input(id),
            final(self)@ == old(self)@.with_mux(old(self)@.mux.input_finished(id)),
    {
        proof {
            lemma_local(self.mux@, id, Seq::<u8>::empty(), 0);
        }
        self.mux.local_eof(id)
    }

    /// Gives the session `id` up because the connection to its client
    /// failed, and tells the server with a `Reset`. Returns `false` where
    /// the session is not live.
    pub fn local_error(&mut self, id: u64) -> (ok: bool)
        requires
            old(self).wf(),
        ensures
            final(self).wf(),
            ok == old(self)@.mux.has(id),
            final(self)@ == old(self)@.with_mux(old(self)@.mux.local_failed(id)),
    {
        proof {
            lemma_local(self.mux@, id, Seq::<u8>::empty(), 0);
        }
        self.mux.local_error(id)
    }

    /// Accounts for `n` bytes that were written to the client of session
    /// `id`, and returns their credit to the server when it is time.
    /// Returns `false` where the session is not live.
    pub fn local_consumed(&mut self, id: u64, n: u32) -> (ok: bool)
        requires
            old(self).wf(),
        ensures
            final(self).wf(),
            ok == old(self)@.mux.has(id),
            final(self)@ == old(self)@.with_mux(old(self)@.mux.consumed(id, n)),
    {
        proof {
            lemma_local(self.mux@, id, Seq::<u8>::empty(), n);
        }
        self.mux.local_consumed(id, n)
    }

    /// Gives every session up because the tunnel is lost, and returns the
    /// identifiers of the sessions that were live: the connection to the
    /// client of each is to be reset. No session is left.
    pub fn transport_lost(&mut self) -> (ids: Vec<u64>)
        requires
            old(self).wf(),
        ensures
            final(self).wf(),
            final(self)@ == old(self)@.with_mux(old(self)@.mux.lost()),
            ids@ == ids_of(old(self)@.mux.sessions),
    {
        proof {
            lemma_lost(self.mux@);
        }
        self.mux.transport_lost()
    }

    /// Hands out the next frame for the tunnel, if one is ready.
    pub fn next_frame(&mut self) -> (r: Option<Outgoing>)
        requires
            old(self).wf(),
        ensures
            final(self).wf(),
            match r {
                Some(out) => old(self)@.mux.scheduled() == Some(
                    (final(self)@.mux, out.frame@, out.finished),
                ) && final(self)@.next_id == old(self)@.next_id,
                None => old(self)@.mux.scheduled() is None && final(self)@ == old(self)@,
            },
    {
        proof {
            lemma_scheduled(self.mux@);
        }
        self.mux.next_frame()
    }
}

} // verus!
