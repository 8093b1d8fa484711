//! The multiplexing engine that both sides of a tunnel share.
//!
//! The engine owns the session table and an outbox of control frames. It
//! is driven from three directions. Frames that arrive from the tunnel go
//! through `receive`, which says what to do to the local endpoint. What the
//! local endpoints do comes in through `local_data`, `local_eof`,
//! `local_error` and `local_consumed`. And whenever the tunnel can take a
//! frame, `next_frame` hands out the next one: control frames first, then
//! the sessions that have something to send, in turn, so that none of them
//! waits behind another for ever.
//!
//! Every function has its counterpart on `MuxView`, the state as a
//! mathematical value, and promises that the state moves as the counterpart
//! says.

use vstd::prelude::*;
use crate::address::{Address, AddressView};
use crate::flow::Config;
use crate::frame::{Frame, FrameKind, FrameView};
use crate::message::{MessageView, interpret, lemma_message_roundtrip};
use crate::session::{SessionEvent, SessionState, SessionView};
use crate::socks5::OpenFailure;
use crate::table::{distinct_ids, has_id, ids_of, position, swap_removed};
use crate::table::{lemma_position, lemma_swap_removed};

verus! {

/// A breach of the tunnel protocol by the peer. It is fatal to the tunnel:
/// every session on it fails. `take_frame` of the agent and of the server
/// gives the tunnel up by itself; who calls `on_frame` or `receive` owes
/// the call of `transport_lost`.
#[derive(Clone, Copy, Debug, PartialEq, Eq, Structural)]
pub enum ProtocolError {
    /// A payload does not have the form that the frame's kind calls for.
    MalformedPayload,
    /// The peer sent more `Data` than it was granted.
    CreditViolation,
    /// A frame of a kind that never travels in this direction.
    UnexpectedFrame,
}

/// What the caller owes a local endpoint after a frame arrived.
#[derive(Clone, Debug, PartialEq, Eq)]
pub enum Effect {
    /// Nothing: the frame changed no endpoint, or was dropped.
    Nothing,
    /// Connect to the target and report with `dial_succeeded` or
    /// `dial_failed`.
    Dial { session: u64, target: Address },
    /// The target is reached: tell the client so with the bound address,
    /// then relay.
    Established { session: u64, bound: Address },
    /// The target was not reached: tell the client so and close.
    Refused { session: u64, reason: OpenFailure },
    /// Write the bytes to the endpoint.
    Deliver { session: u64, bytes: Vec<u8> },
    /// The peer will send no more: shut down writing to the endpoint.
    Shutdown { session: u64 },
    /// Both directions are closed: release the endpoint.
    Finished { session: u64 },
    /// The session is abandoned: reset the endpoint.
    Abort { session: u64 },
}

/// An effect as a mathematical value.
pub enum EffectView {
    Nothing,
    Dial { session: u64, target: AddressView },
    Established { session: u64, bound: AddressView },
    Refused { session: u64, reason: OpenFailure },
    Deliver { session: u64, bytes: Seq<u8> },
    Shutdown { session: u64 },
    Finished { session: u64 },
    Abort { session: u64 },
}

impl View for Effect {
    type V = EffectView;

    open spec fn view(&self) -> EffectView {
        match self {
            Effect::Nothing => EffectView::Nothing,
            Effect::Dial { session, target } => EffectView::Dial {
                session: *session,
                target: target@,
            },
            Effect::Established { session, bound } => EffectView::Established {
                session: *session,
                bound: bound@,
            },
            Effect::Refused { session, reason } => EffectView::Refused {
                session: *session,
                reason: *reason,
            },
            Effect::Deliver { session, bytes } => EffectView::Deliver {
                session: *session,
                bytes: bytes@,
            },
            Effect::Shutdown { session } => EffectView::Shutdown { session: *session },
            Effect::Finished { session } => EffectView::Finished { session: *session },
            Effect::Abort { session } => EffectView::Abort { session: *session },
        }
    }
}

/// The end of a tunnel by a breach of the protocol.
#[derive(Clone, Debug, PartialEq, Eq)]
pub struct Breach {
    /// What the peer did.
    pub error: ProtocolError,
    /// The sessions that were live and ended with the tunnel: the endpoint
    /// of each is to be reset.
    pub sessions: Vec<u64>,
}

/// A frame for the tunnel.
#[derive(Clone, Debug, PartialEq, Eq)]
pub struct Outgoing {
    /// The frame to write.
    pub frame: Frame,
    /// With this frame its session is closed in both directions and has
    /// left the table: release the endpoint.
    pub finished: bool,
}

/// The slot that is `t` steps after `start` in a row of `len` slots, going
/// round.
pub open spec fn slot_at(start: int, t: int, len: int) -> int {
    if t < len - start {
        start + t
    } else {
        t - (len - start)
    }
}

/// The first slot with a session that is ready to send, looking from `t`
/// steps after `start` once round the row.
pub open spec fn first_ready(sessions: Seq<SessionView>, start: int, t: int) -> Option<int>
    decreases sessions.len() - t,
{
    if t < 0 || t >= sessions.len() {
        None
    } else if sessions[slot_at(start, t, sessions.len() as int)].ready() {
        Some(slot_at(start, t, sessions.len() as int))
    } else {
        first_ready(sessions, start, t + 1)
    }
}

/// A frame that the peer can read and that is not `Data`: only such frames
/// go through the outbox, so that `Data` leaves a session only by its turn
/// and within its credit.
pub open spec fn is_control(f: FrameView) -> bool {
    interpret(f) is Some && f.kind != FrameKind::Data
}

/// The state of an engine as a mathematical value.
pub struct MuxView {
    /// The settings of flow control.
    pub config: Config,
    /// The live sessions, slot by slot.
    pub sessions: Seq<SessionView>,
    /// Control frames that wait for the tunnel, oldest first.
    pub outbox: Seq<FrameView>,
    /// The slot where the next round of scheduling starts.
    pub cursor: nat,
}

/// A state together with the effect of the frame that led to it.
pub struct Step {
    pub next: MuxView,
    pub effect: EffectView,
}

impl MuxView {
    /// What holds of every engine: sensible settings, no identifier in two
    /// slots, every session well formed, and every frame in the outbox a
    /// control frame that the peer can read.
    pub open spec fn wf(self) -> bool {
        &&& self.config.wf()
        &&& distinct_ids(self.sessions)
        &&& forall|i: int|
            0 <= i < self.sessions.len() ==> (#[trigger] self.sessions[i]).wf(self.config)
        &&& forall|j: int| 0 <= j < self.outbox.len() ==> is_control(#[trigger] self.outbox[j])
    }

    /// An engine without sessions.
    pub open spec fn initial(config: Config) -> MuxView {
        MuxView {
            config,
            sessions: Seq::<SessionView>::empty(),
            outbox: Seq::<FrameView>::empty(),
            cursor: 0,
        }
    }

    /// Whether a session with this identifier is live.
    pub open spec fn has(self, id: u64) -> bool {
        has_id(self.sessions, id)
    }

    /// The live session with this identifier.
    pub open spec fn session(self, id: u64) -> SessionView
        recommends
            self.has(id),
    {
        self.sessions[position(self.sessions, id)]
    }

    /// The state with the session in slot `i` replaced.
    pub open spec fn put(self, i: int, s: SessionView) -> MuxView {
        MuxView { sessions: self.sessions.update(i, s), ..self }
    }

    /// The state with the session `id` replaced.
    pub open spec fn replace(self, id: u64, s: SessionView) -> MuxView {
        self.put(position(self.sessions, id), s)
    }

    /// The state without the session `id`.
    pub open spec fn without(self, id: u64) -> MuxView {
        MuxView { sessions: swap_removed(self.sessions, position(self.sessions, id)), ..self }
    }

    /// The state with `f` added to the outbox.
    pub open spec fn post(self, f: FrameView) -> MuxView {
        MuxView { outbox: self.outbox.push(f), ..self }
    }

    /// Whether a session `id` can be started: the identifier is free.
    pub open spec fn can_open(self, id: u64) -> bool {
        !self.has(id)
    }

    /// The state after a session to `target` was started under `id`.
    pub open spec fn opened(self, id: u64, target: AddressView) -> MuxView {
        if self.can_open(id) {
            MuxView { sessions: self.sessions.push(SessionView::opening(id, target)), ..self }
        } else {
            self
        }
    }

    /// Whether the session `id` waits for its target.
    pub open spec fn is_opening(self, id: u64) -> bool {
        self.has(id) && self.session(id).state == SessionState::Opening
    }

    /// The state after the target of session `id` was reached.
    pub open spec fn established(self, id: u64) -> MuxView {
        if self.is_opening(id) {
            self.replace(id, self.session(id).acknowledged(self.config))
        } else {
            self
        }
    }

    /// The state after the target of session `id` was not reached.
    pub open spec fn refused(self, id: u64) -> MuxView {
        if self.is_opening(id) {
            self.without(id)
        } else {
            self
        }
    }

    /// What a `Data` frame for session `id` leads to. For a session that is
    /// not live the frame is dropped. For one that may receive, the bytes
    /// go to the endpoint if the peer's credit covers them, and break the
    /// protocol if not; before the session is acknowledged the peer has no
    /// credit. After the peer closed, the frame is dropped.
    pub open spec fn on_data(self, id: u64, bytes: Seq<u8>) -> Result<Step, ProtocolError> {
        if !self.has(id) {
            Ok(Step { next: self, effect: EffectView::Nothing })
        } else {
            let s = self.session(id);
            if s.state == SessionState::RemoteHalfClosed {
                Ok(Step { next: self, effect: EffectView::Nothing })
            } else if s.recv.violates(bytes.len()) {
                Err(ProtocolError::CreditViolation)
            } else if s.state == SessionState::Opening {
                Ok(Step { next: self, effect: EffectView::Nothing })
            } else {
                Ok(
                    Step {
                        next: self.replace(id, s.received(bytes.len())),
                        effect: EffectView::Deliver { session: id, bytes },
                    },
                )
            }
        }
    }

    /// What a `WindowUpdate` for session `id` leads to: more credit for a
    /// session that was acknowledged, nothing else.
    pub open spec fn on_window_update(self, id: u64, n: u32) -> MuxView {
        if !self.has(id) || self.session(id).state == SessionState::Opening {
            self
        } else {
            self.replace(id, self.session(id).granted(n))
        }
    }

    /// What a `Close` for session `id` leads to: an open session is half
    /// closed, one that this side had closed is finished and leaves the
    /// table, and for every other the frame is dropped.
    pub open spec fn on_close(self, id: u64) -> Step {
        if !self.has(id) {
            Step { next: self, effect: EffectView::Nothing }
        } else {
            let s = self.session(id);
            if s.state == SessionState::Open {
                Step {
                    next: self.replace(id, s.moved(SessionEvent::RemoteClosed)),
                    effect: EffectView::Shutdown { session: id },
                }
            } else if s.state == SessionState::LocalHalfClosed {
                Step { next: self.without(id), effect: EffectView::Finished { session: id } }
            } else {
                Step { next: self, effect: EffectView::Nothing }
            }
        }
    }

    /// What a `Reset` for session `id` leads to: a live session leaves the
    /// table and its endpoint is reset; for every other the frame is
    /// dropped.
    pub open spec fn on_reset(self, id: u64) -> Step {
        if !self.has(id) {
            Step { next: self, effect: EffectView::Nothing }
        } else {
            Step { next: self.without(id), effect: EffectView::Abort { session: id } }
        }
    }

    /// What a message for session `id` leads to, for the kinds that travel
    /// in both directions. The kinds that open a session travel in one
    /// direction only and are the business of the two sides.
    pub open spec fn received(self, id: u64, m: MessageView) -> Result<Step, ProtocolError> {
        match m {
            MessageView::Data(bytes) => self.on_data(id, bytes),
            MessageView::WindowUpdate(n) => Ok(
                Step { next: self.on_window_update(id, n), effect: EffectView::Nothing },
            ),
            MessageView::Close => Ok(self.on_close(id)),
            MessageView::Reset => Ok(self.on_reset(id)),
            _ => Err(ProtocolError::UnexpectedFrame),
        }
    }

    /// Whether bytes from the endpoint of session `id` are taken.
    pub open spec fn takes_input(self, id: u64) -> bool {
        self.has(id) && self.session(id).takes_input()
    }

    /// Whether the endpoint of session `id` should go on reading: its
    /// input is taken and less than a window of bytes waits for credit.
    /// An endpoint that stops reading here is what holds a fast producer
    /// back when the peer is slow.
    pub open spec fn has_room(self, id: u64) -> bool {
        self.takes_input(id) && self.session(id).pending.len() < self.config.window
    }

    /// The state after the endpoint of session `id` produced `bytes`: they
    /// wait in the session, or are dropped where no input is taken.
    pub open spec fn offered(self, id: u64, bytes: Seq<u8>) -> MuxView {
        if self.takes_input(id) {
            self.replace(id, self.session(id).queued(bytes))
        } else {
            self
        }
    }

    /// The state after the endpoint of session `id` reached the end of its
    /// stream.
    pub open spec fn input_finished(self, id: u64) -> MuxView {
        if self.takes_input(id) {
            self.replace(id, self.session(id).finished_input())
        } else {
            self
        }
    }

    /// The state after the endpoint of session `id` failed: the session
    /// leaves the table with what waited in it, and a `Reset` goes to the
    /// peer.
    pub open spec fn local_failed(self, id: u64) -> MuxView {
        if self.has(id) {
            self.without(id).post(MessageView::Reset.frame(id))
        } else {
            self
        }
    }

    /// The state after the endpoint of session `id` consumed `n` bytes:
    /// they are accounted for, and once enough are, their credit goes back
    /// to the peer in a `WindowUpdate`.
    pub open spec fn consumed(self, id: u64, n: u32) -> MuxView {
        if self.has(id) {
            let s = self.session(id);
            let next = self.replace(id, s.released(n, self.config));
            match s.recv.returned(n, self.config.replenish_at) {
                Some(back) => next.post(MessageView::WindowUpdate(back).frame(id)),
                None => next,
            }
        } else {
            self
        }
    }

    /// The state after the tunnel was lost: no session, no frame.
    pub open spec fn lost(self) -> MuxView {
        MuxView::initial(self.config)
    }

    /// The slot where the next round of scheduling starts.
    pub open spec fn start(self) -> int {
        if self.cursor < self.sessions.len() {
            self.cursor as int
        } else {
            0
        }
    }

    /// The slot of the session whose turn it is: the first one ready to
    /// send, looking from the cursor once round the row.
    pub open spec fn next_ready(self) -> Option<int> {
        first_ready(self.sessions, self.start(), 0)
    }

    /// The next frame for the tunnel and the state after it was handed
    /// out; `None` where nothing is ready.
    ///
    /// Control frames go first, oldest first. Then the session whose turn
    /// it is sends: a chunk of what waits, as far as its credit goes, or,
    /// when nothing waits and its endpoint has finished, the `Close` that
    /// it owes. The cursor moves behind that session. A session that
    /// closes after its peer did is finished and leaves the table.
    pub open spec fn scheduled(self) -> Option<(MuxView, FrameView, bool)> {
        if self.outbox.len() > 0 {
            Some((MuxView { outbox: self.outbox.drop_first(), ..self }, self.outbox[0], false))
        } else {
            match self.next_ready() {
                None => None,
                Some(i) => {
                    let s = self.sessions[i];
                    if s.pending.len() > 0 {
                        Some(
                            (
                                MuxView {
                                    sessions: self.sessions.update(i, s.after_chunk(self.config)),
                                    cursor: (i + 1) as nat,
                                    ..self
                                },
                                MessageView::Data(s.chunk(self.config)).frame(s.id),
                                false,
                            ),
                        )
                    } else if s.state == SessionState::Open {
                        Some(
                            (
                                MuxView {
                                    sessions: self.sessions.update(
                                        i,
                                        s.moved(SessionEvent::LocalClosed),
                                    ),
                                    cursor: (i + 1) as nat,
                                    ..self
                                },
                                MessageView::Close.frame(s.id),
                                false,
                            ),
                        )
                    } else {
                        Some(
                            (
                                MuxView {
                                    sessions: swap_removed(self.sessions, i),
                                    cursor: i as nat,
                                    ..self
                                },
                                MessageView::Close.frame(s.id),
                                true,
                            ),
                        )
                    }
                },
            }
        }
    }
}

/// Replacing a session by a well-formed one with the same identifier keeps
/// the state well formed and the same identifiers live.
pub proof fn lemma_replace(m: MuxView, id: u64, s: SessionView)
    requires
        m.wf(),
        m.has(id),
        s.id == id,
        s.wf(m.config),
    ensures
        m.replace(id, s).wf(),
        m.replace(id, s).session(id) == s,
        forall|other: u64| m.replace(id, s).has(other) <==> m.has(other),
        forall|other: u64|
            other != id && m.has(other) ==> m.replace(id, s).session(other) == m.session(other),
{
    let after = m.replace(id, s);
    assert forall|other: u64| after.has(other) <==> m.has(other) by {
        if m.has(other) {
            assert(after.sessions[position(m.sessions, other)].id == other);
        }
    }
    lemma_position(after.sessions, position(m.sessions, id));
    assert forall|other: u64| other != id && m.has(other) implies after.session(other)
        == m.session(other) by {
        lemma_position(after.sessions, position(m.sessions, other));
    }
}

/// Taking a session out keeps the state well formed; the session is live
/// no more and every other stays as it was.
pub proof fn lemma_without(m: MuxView, id: u64)
    requires
        m.wf(),
        m.has(id),
    ensures
        m.without(id).wf(),
        !m.without(id).has(id),
        forall|other: u64| other != id ==> (m.without(id).has(other) <==> m.has(other)),
        forall|other: u64|
            other != id && m.has(other) ==> m.without(id).session(other) == m.session(other),
{
    let i = position(m.sessions, id);
    let after = m.without(id);
    let last = m.sessions.len() - 1;
    lemma_swap_removed(m.sessions, i);
    assert forall|other: u64| other != id && m.has(other) implies after.session(other)
        == m.session(other) by {
        let k = position(m.sessions, other);
        lemma_position(
            after.sessions,
            if k == last {
                i
            } else {
                k
            },
        );
    }
}

/// Starting a session under a free identifier keeps the state well formed
/// and every other session as it was.
pub proof fn lemma_opened(m: MuxView, id: u64, target: AddressView)
    requires
        m.wf(),
        target.wf(),
        m.can_open(id),
    ensures
        m.opened(id, target).wf(),
        m.opened(id, target).has(id),
        m.opened(id, target).session(id) == SessionView::opening(id, target),
        forall|other: u64| other != id ==> (m.opened(id, target).has(other) <==> m.has(other)),
        forall|other: u64|
            other != id && m.has(other) ==> m.opened(id, target).session(other) == m.session(
                other,
            ),
{
    let after = m.opened(id, target);
    let n = m.sessions.len() as int;
    lemma_position(after.sessions, n);
    assert forall|other: u64| other != id implies (after.has(other) <==> m.has(other)) by {
        if m.has(other) {
            assert(after.sessions[position(m.sessions, other)].id == other);
        }
    }
    assert forall|other: u64| other != id && m.has(other) implies after.session(other)
        == m.session(other) by {
        lemma_position(after.sessions, position(m.sessions, other));
    }
}

impl MuxView {
    /// Every session that is live here was live in `before`.
    pub open spec fn keeps_to(self, before: MuxView) -> bool {
        forall|x: u64| self.has(x) ==> before.has(x)
    }

    /// Every session but `id` is here what it was in `before`.
    pub open spec fn same_but(self, before: MuxView, id: u64) -> bool {
        forall|x: u64|
            x != id ==> (self.has(x) <==> before.has(x)) && (before.has(x) ==> self.session(x)
                == before.session(x))
    }
}

/// A frame leaves the engine well formed, starts no session, and touches
/// no session but its own.
pub proof fn lemma_received(m: MuxView, id: u64, msg: MessageView)
    requires
        m.wf(),
    ensures
        m.received(id, msg) matches Ok(step) ==> step.next.wf() && step.next.keeps_to(m)
            && step.next.same_but(m, id) && step.next.config == m.config && step.next.outbox
            == m.outbox,
{
    if m.has(id) {
        let s = m.session(id);
        match msg {
            MessageView::Data(bytes) => {
                if s.state.can_receive() && !s.recv.violates(bytes.len()) {
                    lemma_replace(m, id, s.received(bytes.len()));
                }
            },
            MessageView::WindowUpdate(n) => {
                if s.state != SessionState::Opening {
                    lemma_replace(m, id, s.granted(n));
                }
            },
            MessageView::Close => {
                if s.state == SessionState::Open {
                    lemma_replace(m, id, s.moved(SessionEvent::RemoteClosed));
                } else if s.state == SessionState::LocalHalfClosed {
                    lemma_without(m, id);
                }
            },
            MessageView::Reset => {
                lemma_without(m, id);
            },
            _ => {},
        }
    }
}

/// Reaching or missing a target leaves the engine well formed, starts no
/// session, and touches no session but the one concerned.
pub proof fn lemma_dialed(m: MuxView, id: u64)
    requires
        m.wf(),
    ensures
        m.established(id).wf(),
        m.established(id).keeps_to(m),
        m.established(id).same_but(m, id),
        m.refused(id).wf(),
        m.refused(id).keeps_to(m),
        m.refused(id).same_but(m, id),
        m.is_opening(id) ==> !m.refused(id).has(id),
        m.is_opening(id) ==> m.established(id).has(id) && m.established(id).session(id)
            == m.session(id).acknowledged(m.config),
{
    if m.is_opening(id) {
        lemma_replace(m, id, m.session(id).acknowledged(m.config));
        lemma_without(m, id);
    }
}

/// A frame added to the outbox changes no session.
pub proof fn lemma_posted(m: MuxView, f: FrameView)
    requires
        m.wf(),
        is_control(f),
    ensures
        m.post(f).wf(),
        m.post(f).sessions == m.sessions,
{
}

/// Whatever the endpoints do leaves the engine well formed, starts no
/// session, and touches no session but the one concerned.
pub proof fn lemma_local(m: MuxView, id: u64, bytes: Seq<u8>, n: u32)
    requires
        m.wf(),
    ensures
        m.offered(id, bytes).wf(),
        m.offered(id, bytes).keeps_to(m),
        m.offered(id, bytes).same_but(m, id),
        m.input_finished(id).wf(),
        m.input_finished(id).keeps_to(m),
        m.input_finished(id).same_but(m, id),
        m.local_failed(id).wf(),
        m.local_failed(id).keeps_to(m),
        m.local_failed(id).same_but(m, id),
        !m.local_failed(id).has(id),
        m.consumed(id, n).wf(),
        m.consumed(id, n).keeps_to(m),
        m.consumed(id, n).same_but(m, id),
{
    if m.has(id) {
        let s = m.session(id);
        if s.takes_input() {
            lemma_replace(m, id, s.queued(bytes));
            lemma_replace(m, id, s.finished_input());
        }
        lemma_without(m, id);
        lemma_message_roundtrip(MessageView::Reset, id);
        lemma_replace(m, id, s.released(n, m.config));
        match s.recv.returned(n, m.config.replenish_at) {
            Some(back) => {
                lemma_message_roundtrip(MessageView::WindowUpdate(back), id);
                assert(m.consumed(id, n).sessions == m.replace(
                    id,
                    s.released(n, m.config),
                ).sessions);
            },
            None => {},
        }
    }
}

/// The slot that scheduling picks holds a session that is ready, and no
/// slot between the start and it does.
pub proof fn lemma_first_ready(sessions: Seq<SessionView>, start: int, t: int)
    requires
        0 <= t,
        0 <= start < sessions.len() || (start == 0 && sessions.len() == 0),
    ensures
        first_ready(sessions, start, t) matches Some(i) ==> 0 <= i < sessions.len()
            && sessions[i].ready(),
        first_ready(sessions, start, t) is None ==> forall|u: int|
            t <= u < sessions.len() ==> !(#[trigger] sessions[slot_at(
                start,
                u,
                sessions.len() as int,
            )]).ready(),
    decreases sessions.len() - t,
{
    if t < sessions.len() {
        lemma_first_ready(sessions, start, t + 1);
    }
}

/// Handing out a frame leaves the engine well formed and starts no
/// session, and the frame is one that the peer can read.
pub proof fn lemma_scheduled(m: MuxView)
    requires
        m.wf(),
    ensures
        m.scheduled() matches Some((next, f, finished)) ==> next.wf() && next.keeps_to(m)
            && next.same_but(m, f.session_id) && interpret(f) is Some && (finished ==> !next.has(
            f.session_id,
        )),
{
    if m.outbox.len() > 0 {
        let next = MuxView { outbox: m.outbox.drop_first(), ..m };
        assert forall|j: int| 0 <= j < next.outbox.len() implies is_control(
            #[trigger] next.outbox[j],
        ) by {}
    } else if m.next_ready() is Some {
        lemma_first_ready(m.sessions, m.start(), 0);
        let i = m.next_ready().unwrap();
        let s = m.sessions[i];
        lemma_position(m.sessions, i);
        let next = m.scheduled().unwrap().0;
        if s.pending.len() > 0 {
            let after = s.after_chunk(m.config);
            lemma_replace(m, s.id, after);
            lemma_message_roundtrip(MessageView::Data(s.chunk(m.config)), s.id);
            lemma_same_sessions(next, m.replace(s.id, after));
        } else if s.state == SessionState::Open {
            let after = s.moved(SessionEvent::LocalClosed);
            lemma_replace(m, s.id, after);
            lemma_message_roundtrip(MessageView::Close, s.id);
            lemma_same_sessions(next, m.replace(s.id, after));
        } else {
            lemma_without(m, s.id);
            lemma_message_roundtrip(MessageView::Close, s.id);
            lemma_same_sessions(next, m.without(s.id));
        }
    }
}

/// Two states with the same row of sessions have the same sessions live.
pub proof fn lemma_same_sessions(a: MuxView, b: MuxView)
    requires
        a.sessions == b.sessions,
    ensures
        forall|x: u64| a.has(x) <==> b.has(x),
        forall|x: u64| a.session(x) == b.session(x),
{
}

/// The scheduler keeps every sender within its credit: a `Data` frame
/// comes from a session that is live and may send, so never from one that
/// waits for its target; it carries the first bytes that wait in the
/// session, no more than the session's credit covers and a chunk holds; and
/// it leaves the session with that much less credit.
pub proof fn lemma_data_within_credit(m: MuxView)
    requires
        m.wf(),
        m.scheduled() is Some,
    ensures
        ({
            let (next, f, _) = m.scheduled().unwrap();
            let id = f.session_id;
            f.kind == FrameKind::Data ==> {
                &&& m.has(id)
                &&& m.session(id).state.can_send()
                &&& f.payload.len() <= m.session(id).send.credit
                &&& f.payload.len() <= m.config.max_chunk
                &&& f.payload == m.session(id).pending.take(f.payload.len() as int)
                &&& next.has(id)
                &&& next.session(id).send.credit + f.payload.len() == m.session(id).send.credit
                &&& next.session(id).pending == m.session(id).pending.skip(f.payload.len() as int)
            }
        }),
{
    if m.outbox.len() == 0 {
        lemma_first_ready(m.sessions, m.start(), 0);
        let i = m.next_ready().unwrap();
        let s = m.sessions[i];
        lemma_position(m.sessions, i);
        assert(m.has(s.id));
        if s.pending.len() > 0 {
            let after = s.after_chunk(m.config);
            lemma_replace(m, s.id, after);
            lemma_same_sessions(m.scheduled().unwrap().0, m.replace(s.id, after));
        }
    }
}

/// Teardown is idempotent. For a session that is gone, whether closed or
/// failed, every frame is dropped: the engine stays exactly as it is and
/// nothing is owed to any endpoint. So a second `Close` or `Reset` has no
/// effect, and neither has `Data` that was under way when the session
/// ended.
pub proof fn lemma_teardown_is_idempotent(m: MuxView, id: u64, bytes: Seq<u8>, n: u32)
    requires
        m.wf(),
    ensures
        !m.has(id) ==> {
            &&& m.on_close(id) == (Step { next: m, effect: EffectView::Nothing })
            &&& m.on_reset(id) == (Step { next: m, effect: EffectView::Nothing })
            &&& m.on_data(id, bytes) == Ok::<Step, ProtocolError>(
                Step { next: m, effect: EffectView::Nothing },
            )
            &&& m.on_window_update(id, n) == m
        },
        !m.on_reset(id).next.has(id),
        m.on_reset(id).next.on_reset(id) == (Step {
            next: m.on_reset(id).next,
            effect: EffectView::Nothing,
        }),
        m.on_reset(id).next.on_close(id) == (Step {
            next: m.on_reset(id).next,
            effect: EffectView::Nothing,
        }),
        m.on_close(id).effect == (EffectView::Finished { session: id }) ==> m.on_close(
            id,
        ).next.on_close(id) == (Step { next: m.on_close(id).next, effect: EffectView::Nothing }),
        !m.local_failed(id).has(id),
        m.local_failed(id).on_reset(id) == (Step {
            next: m.local_failed(id),
            effect: EffectView::Nothing,
        }),
{
    if m.has(id) {
        lemma_without(m, id);
        lemma_same_sessions(m.local_failed(id), m.without(id));
    }
}

/// Losing the tunnel ends every session: the identifier of each session
/// that was live is among those returned for a reset of its endpoint, and
/// nothing is left in the table or in the outbox.
pub proof fn lemma_lost(m: MuxView)
    requires
        m.wf(),
    ensures
        m.lost().wf(),
        m.lost().sessions.len() == 0,
        m.lost().outbox.len() == 0,
        forall|x: u64| !m.lost().has(x),
        forall|x: u64| m.has(x) <==> ids_of(m.sessions).contains(x),
        ids_of(m.sessions).len() == m.sessions.len(),
        ids_of(m.sessions).no_duplicates(),
{
    let ids = ids_of(m.sessions);
    assert forall|x: u64| m.has(x) <==> ids.contains(x) by {
        if m.has(x) {
            assert(ids[position(m.sessions, x)] == x);
        }
    }
}

/// The receiver enforces the grant. For a session that receives, `Data`
/// is a breach of the protocol exactly when it is longer than the credit
/// that is left; otherwise all of it goes to the endpoint and the credit
/// shrinks by its length. Before the target is reached there is no credit,
/// so any byte is a breach.
pub proof fn lemma_credit_is_enforced(m: MuxView, id: u64, bytes: Seq<u8>)
    requires
        m.wf(),
        m.has(id),
    ensures
        m.session(id).state.can_receive() ==> (m.on_data(id, bytes) is Err <==> bytes.len()
            > m.session(id).recv.credit),
        m.session(id).state.can_receive() && bytes.len() <= m.session(id).recv.credit ==> {
            let step = m.on_data(id, bytes).unwrap();
            &&& step.effect == (EffectView::Deliver { session: id, bytes })
            &&& step.next.has(id)
            &&& step.next.session(id).recv.credit + bytes.len() == m.session(id).recv.credit
        },
        m.is_opening(id) ==> (m.on_data(id, bytes) is Err <==> bytes.len() > 0),
        m.on_data(id, bytes) matches Err(e) ==> e == ProtocolError::CreditViolation,
{
    let s = m.session(id);
    if s.state.can_receive() && !s.recv.violates(bytes.len()) {
        lemma_replace(m, id, s.received(bytes.len()));
    }
}

/// The slot that scheduling picks is the first ready one on the way round
/// from the start: it is some number of steps from the start, and no slot
/// that is fewer steps from the start is ready.
pub proof fn lemma_first_ready_is_nearest(sessions: Seq<SessionView>, start: int, t: int)
    requires
        0 <= t,
        0 <= start < sessions.len(),
    ensures
        first_ready(sessions, start, t) matches Some(k) ==> exists|u: int|
            t <= u < sessions.len() && k == #[trigger] slot_at(start, u, sessions.len() as int)
                && sessions[k].ready() && forall|v: int|
                t <= v < u ==> !(#[trigger] sessions[slot_at(
                    start,
                    v,
                    sessions.len() as int,
                )]).ready(),
    decreases sessions.len() - t,
{
    let len = sessions.len() as int;
    if t < len {
        if !sessions[slot_at(start, t, len)].ready() {
            lemma_first_ready_is_nearest(sessions, start, t + 1);
            if first_ready(sessions, start, t + 1) is Some {
                let k = first_ready(sessions, start, t + 1).unwrap();
                let u = choose|u: int|
                    t + 1 <= u < len && k == #[trigger] slot_at(start, u, len)
                        && sessions[k].ready() && forall|v: int|
                        t + 1 <= v < u ==> !(#[trigger] sessions[slot_at(start, v, len)]).ready();
                assert forall|v: int| t <= v < u implies !(#[trigger] sessions[slot_at(
                    start,
                    v,
                    len,
                )]).ready() by {}
            }
        }
    }
}

/// Sessions send in turn. A session that has just sent a frame gets its
/// next turn only when no other session is ready: as long as others have
/// something to send and the credit for it, each of them is served before
/// the same session is served again, so that none waits behind another for
/// ever.
pub proof fn lemma_sessions_take_turns(m: MuxView)
    requires
        m.wf(),
        m.outbox.len() == 0,
        m.scheduled() is Some,
        !m.scheduled().unwrap().2,
    ensures
        ({
            let next = m.scheduled().unwrap().0;
            let i = m.next_ready().unwrap();
            &&& next.sessions.len() == m.sessions.len()
            &&& next.cursor == i + 1
            &&& next.next_ready() == Some(i) ==> forall|j: int|
                0 <= j < next.sessions.len() && j != i ==> !(#[trigger] next.sessions[j]).ready()
        }),
{
    lemma_first_ready(m.sessions, m.start(), 0);
    let i = m.next_ready().unwrap();
    let next = m.scheduled().unwrap().0;
    let len = next.sessions.len() as int;
    let start = next.start();
    lemma_first_ready_is_nearest(next.sessions, start, 0);
    if next.next_ready() == Some(i) {
        let u = choose|u: int|
            0 <= u < len && i == #[trigger] slot_at(start, u, len) && next.sessions[i].ready()
                && forall|v: int|
                0 <= v < u ==> !(#[trigger] next.sessions[slot_at(start, v, len)]).ready();
        assert forall|j: int| 0 <= j < len && j != i implies !(#[trigger] next.sessions[j]).ready() by {
            let v = if j >= start {
                j - start
            } else {
                j + len - start
            };
            assert(slot_at(start, v, len) == j);
        }
    }
}

} // verus!
