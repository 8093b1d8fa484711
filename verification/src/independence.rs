//! Sessions do not depend on one another.
//!
//! What the endpoint of a session gets is decided by that session's own
//! frames and events alone. This module follows the receiving side of one
//! session through the events of an engine, of a server and of an agent,
//! and proves that taking every frame and event of the other sessions away
//! changes nothing that is handed to its endpoint.

use vstd::prelude::*;
use crate::flow::{Config, RecvWindow};
use crate::frame::FrameView;
use crate::message::{MessageView, interpret};
use crate::mux::{EffectView, MuxView};
use crate::mux::{lemma_dialed, lemma_first_ready, lemma_local, lemma_lost, lemma_opened};
use crate::mux::{lemma_received, lemma_replace, lemma_same_sessions, lemma_scheduled};
use crate::mux::lemma_without;
use crate::agent::{AgentView, lemma_agent_frame, lemma_fresh_identifier};
use crate::runs::{AgentEvent, ServerEvent, agent_after, agent_run, server_after, server_run};
use crate::server::{ServerView, lemma_server_dial, lemma_server_frame};
use crate::session::{SessionEvent, SessionState};
use crate::table::lemma_position;
use crate::trace::{Event, hands, receiving, step};

verus! {

/// The receiving side of a session, as far as it decides what the endpoint
/// gets.
pub enum Rx {
    /// The session is not live, or its peer has closed: nothing is
    /// delivered.
    Silent,
    /// The session waits for its target.
    Waiting,
    /// The peer may send, within this window.
    Receiving(RecvWindow),
}

/// The receiving side of session `id` in an engine.
pub open spec fn rx(m: MuxView, id: u64) -> Rx {
    if m.is_opening(id) {
        Rx::Waiting
    } else if receiving(m, id) {
        Rx::Receiving(m.session(id).recv)
    } else {
        Rx::Silent
    }
}

/// The receiving side after a message for the session arrived; `None`
/// where the message is a breach of the protocol.
pub open spec fn rx_after_message(r: Rx, message: MessageView) -> Option<Rx> {
    match message {
        MessageView::Data(bytes) => match r {
            Rx::Silent => Some(r),
            Rx::Waiting => if bytes.len() > 0 {
                None
            } else {
                Some(r)
            },
            Rx::Receiving(w) => if w.violates(bytes.len()) {
                None
            } else {
                Some(Rx::Receiving(w.after_accept(bytes.len())))
            },
        },
        MessageView::WindowUpdate(_) => Some(r),
        MessageView::Close => match r {
            Rx::Receiving(_) => Some(Rx::Silent),
            _ => Some(r),
        },
        MessageView::Reset => Some(Rx::Silent),
        _ => None,
    }
}

/// The receiving side of session `id` after an event of the engine that
/// does not start the session; `None` where the event is a breach of the
/// protocol in a frame of the session.
pub open spec fn rx_after(r: Rx, event: Event, id: u64, config: Config) -> Option<Rx> {
    match event {
        Event::Received { id: x, message } => if x == id {
            rx_after_message(r, message)
        } else {
            Some(r)
        },
        Event::Established { id: x } => if x == id && r is Waiting {
            Some(Rx::Receiving(RecvWindow { credit: config.window, held: 0, drained: 0 }))
        } else {
            Some(r)
        },
        Event::Refused { id: x } => if x == id && r is Waiting {
            Some(Rx::Silent)
        } else {
            Some(r)
        },
        Event::LocalError { id: x } => if x == id {
            Some(Rx::Silent)
        } else {
            Some(r)
        },
        Event::Consumed { id: x, n } => match r {
            Rx::Receiving(w) => if x == id {
                Some(Rx::Receiving(w.after_release(n, config.replenish_at)))
            } else {
                Some(r)
            },
            _ => Some(r),
        },
        Event::Lost => Some(Rx::Silent),
        _ => Some(r),
    }
}

/// The bytes that an event hands to the endpoint of session `id`: those of
/// a `Data` frame for it that arrives while it receives, within its
/// window.
pub open spec fn rx_hands(r: Rx, event: Event, id: u64) -> Seq<u8> {
    match (event, r) {
        (Event::Received { id: x, message: MessageView::Data(bytes) }, Rx::Receiving(w)) => if x
            == id && !w.violates(bytes.len()) {
            bytes
        } else {
            Seq::<u8>::empty()
        },
        _ => Seq::<u8>::empty(),
    }
}

/// What is to be shown of one event: the receiving side of the session
/// moves as `rx_after` says, by what it was alone, and the endpoint gets
/// what `rx_hands` says.
pub open spec fn rx_follows(m: MuxView, event: Event, id: u64) -> bool {
    step(m, event) matches Some(s) ==> {
        &&& s.next.wf()
        &&& s.next.config == m.config
        &&& rx_after(rx(m, id), event, id, m.config) == Some(rx(s.next, id))
        &&& hands(s.effect, id) == rx_hands(rx(m, id), event, id)
    }
}

/// A frame moves the receiving side of a session by what it was alone; and
/// a frame of the session is a breach exactly where `rx_after` says so.
pub proof fn lemma_rx_received(m: MuxView, x: u64, message: MessageView, id: u64)
    requires
        m.wf(),
    ensures
        rx_follows(m, Event::Received { id: x, message }, id),
        x == id ==> (step(m, Event::Received { id: x, message }) is None <==> rx_after_message(
            rx(m, id),
            message,
        ) is None),
{
    lemma_received(m, x, message);
    if x == id && m.has(id) {
        let sess = m.session(id);
        match message {
            MessageView::Data(bytes) => {
                if sess.state.can_receive() && !sess.recv.violates(bytes.len()) {
                    lemma_replace(m, id, sess.received(bytes.len()));
                }
            },
            MessageView::WindowUpdate(n) => {
                if sess.state != SessionState::Opening {
                    lemma_replace(m, id, sess.granted(n));
                }
            },
            MessageView::Close => {
                if sess.state == SessionState::Open {
                    lemma_replace(m, id, sess.moved(SessionEvent::RemoteClosed));
                } else if sess.state == SessionState::LocalHalfClosed {
                    lemma_without(m, id);
                }
            },
            MessageView::Reset => {
                lemma_without(m, id);
            },
            _ => {},
        }
    }
}

/// Reaching or missing a target moves the receiving side of a session by
/// what it was alone.
pub proof fn lemma_rx_dialed(m: MuxView, x: u64, id: u64)
    requires
        m.wf(),
    ensures
        rx_follows(m, Event::Established { id: x }, id),
        rx_follows(m, Event::Refused { id: x }, id),
{
    lemma_dialed(m, x);
}

/// Bytes from an endpoint leave the receiving side of every session as it
/// is.
pub proof fn lemma_rx_input(m: MuxView, x: u64, bytes: Seq<u8>, id: u64)
    requires
        m.wf(),
    ensures
        rx_follows(m, Event::LocalData { id: x, bytes }, id),
{
    lemma_local(m, x, bytes, 0);
    if x == id && m.takes_input(id) {
        lemma_replace(m, id, m.session(id).queued(bytes));
    }
}

/// The end of an endpoint's stream leaves the receiving side of every
/// session as it is.
pub proof fn lemma_rx_finished(m: MuxView, x: u64, id: u64)
    requires
        m.wf(),
    ensures
        rx_follows(m, Event::LocalEof { id: x }, id),
{
    lemma_local(m, x, Seq::<u8>::empty(), 0);
    if x == id && m.takes_input(id) {
        lemma_replace(m, id, m.session(id).finished_input());
    }
}

/// The failure of an endpoint silences its session and no other.
pub proof fn lemma_rx_failed(m: MuxView, x: u64, id: u64)
    requires
        m.wf(),
    ensures
        rx_follows(m, Event::LocalError { id: x }, id),
{
    lemma_local(m, x, Seq::<u8>::empty(), 0);
}

/// Bytes that an endpoint consumed move the window of its session and of
/// no other.
pub proof fn lemma_rx_consumed(m: MuxView, x: u64, n: u32, id: u64)
    requires
        m.wf(),
    ensures
        rx_follows(m, Event::Consumed { id: x, n }, id),
{
    lemma_local(m, x, Seq::<u8>::empty(), n);
    if x == id && m.has(id) {
        let sess = m.session(id);
        lemma_replace(m, id, sess.released(n, m.config));
        lemma_same_sessions(m.consumed(id, n), m.replace(id, sess.released(n, m.config)));
    }
}

/// Handing out a frame leaves the receiving side of every session as it
/// is.
pub proof fn lemma_rx_scheduled(m: MuxView, id: u64)
    requires
        m.wf(),
    ensures
        rx_follows(m, Event::Scheduled, id),
{
    lemma_scheduled(m);
    if m.scheduled() is Some {
        let next = m.scheduled().unwrap().0;
        if m.outbox.len() > 0 {
            lemma_same_sessions(next, m);
        } else {
            lemma_first_ready(m.sessions, m.start(), 0);
            let i = m.next_ready().unwrap();
            let s = m.sessions[i];
            lemma_position(m.sessions, i);
            if s.id == id {
                if s.pending.len() > 0 {
                    lemma_replace(m, id, s.after_chunk(m.config));
                    lemma_same_sessions(next, m.replace(id, s.after_chunk(m.config)));
                } else if s.state == SessionState::Open {
                    lemma_replace(m, id, s.moved(SessionEvent::LocalClosed));
                    lemma_same_sessions(next, m.replace(id, s.moved(SessionEvent::LocalClosed)));
                } else {
                    lemma_without(m, id);
                    lemma_same_sessions(next, m.without(id));
                }
            }
        }
    }
}

/// Every event of the engine that does not start the session moves its
/// receiving side by what it was alone.
pub proof fn lemma_rx(m: MuxView, event: Event, id: u64)
    requires
        m.wf(),
        event.admissible(),
        !event.opens(id),
    ensures
        rx_follows(m, event, id),
{
    match event {
        Event::Received { id: x, message } => {
            lemma_rx_received(m, x, message, id);
        },
        Event::Opened { id: x, target } => {
            if m.can_open(x) {
                lemma_opened(m, x, target);
            }
        },
        Event::Established { id: x } => {
            lemma_rx_dialed(m, x, id);
        },
        Event::Refused { id: x } => {
            lemma_rx_dialed(m, x, id);
        },
        Event::Posted { frame } => {
            lemma_same_sessions(m.post(frame), m);
        },
        Event::LocalData { id: x, bytes } => {
            lemma_rx_input(m, x, bytes, id);
        },
        Event::LocalEof { id: x } => {
            lemma_rx_finished(m, x, id);
        },
        Event::LocalError { id: x } => {
            lemma_rx_failed(m, x, id);
        },
        Event::Consumed { id: x, n } => {
            lemma_rx_consumed(m, x, n, id);
        },
        Event::Scheduled => {
            lemma_rx_scheduled(m, id);
        },
        Event::Lost => {
            lemma_lost(m);
        },
    }
}

/// Whether an event of a server is one of session `id`: a frame that
/// names it, the end of its dial, what its target does, or the loss of the
/// tunnel, which is an event of every session. The tunnel taking a frame is
/// an event of no session.
pub open spec fn about(event: ServerEvent, id: u64) -> bool {
    match event {
        ServerEvent::Frame(f) => f.session_id == id,
        ServerEvent::Dialed { id: x, .. } => x == id,
        ServerEvent::Engine(Event::LocalData { id: x, .. }) => x == id,
        ServerEvent::Engine(Event::LocalEof { id: x }) => x == id,
        ServerEvent::Engine(Event::LocalError { id: x }) => x == id,
        ServerEvent::Engine(Event::Consumed { id: x, .. }) => x == id,
        ServerEvent::Engine(Event::Lost) => true,
        ServerEvent::Engine(_) => false,
    }
}

/// The events of session `id` among `events`, in order: what is left when
/// every frame and event of the other sessions is taken away.
pub open spec fn only(events: Seq<ServerEvent>, id: u64) -> Seq<ServerEvent>
    decreases events.len(),
{
    if events.len() == 0 {
        Seq::<ServerEvent>::empty()
    } else if about(events.last(), id) {
        only(events.drop_last(), id).push(events.last())
    } else {
        only(events.drop_last(), id)
    }
}

/// What an effect means to the endpoint of session `id`: the dial for it,
/// the reply to its client and the bytes for it, and nothing else.
pub open spec fn owes(effect: EffectView, id: u64) -> Option<EffectView> {
    match effect {
        EffectView::Dial { session, .. } => if session == id {
            Some(effect)
        } else {
            None
        },
        EffectView::Established { session, .. } => if session == id {
            Some(effect)
        } else {
            None
        },
        EffectView::Refused { session, .. } => if session == id {
            Some(effect)
        } else {
            None
        },
        EffectView::Deliver { session, .. } => if session == id {
            Some(effect)
        } else {
            None
        },
        _ => None,
    }
}

/// What the endpoint of session `id` sees of `effects`: the dial, the
/// reply and the bytes, in order.
pub open spec fn seen_by(effects: Seq<EffectView>, id: u64) -> Seq<EffectView>
    decreases effects.len(),
{
    if effects.len() == 0 {
        Seq::<EffectView>::empty()
    } else {
        match owes(effects.last(), id) {
            Some(e) => seen_by(effects.drop_last(), id).push(e),
            None => seen_by(effects.drop_last(), id),
        }
    }
}

/// The part of a server that decides what the target of session `id`
/// sees: the receiving side of the session, whether its identifier was
/// used, and the settings.
pub struct Standing {
    pub rx: Rx,
    pub used: bool,
    pub config: Config,
}

/// The standing of session `id` at a server.
pub open spec fn standing_of(s: ServerView, id: u64) -> Standing {
    Standing { rx: rx(s.mux, id), used: s.used.contains(id), config: s.mux.config }
}

/// The standing of session `id` after an event of the server, by what it
/// was alone; `None` where the event is a breach of the protocol in a
/// frame of the session.
pub open spec fn standing_after(st: Standing, event: ServerEvent, id: u64) -> Option<Standing> {
    match event {
        ServerEvent::Frame(f) => if f.session_id != id {
            Some(st)
        } else {
            match interpret(f) {
                None => None,
                Some(MessageView::Open(_)) => if st.used {
                    Some(st)
                } else {
                    Some(Standing { rx: Rx::Waiting, used: true, ..st })
                },
                Some(message) => match rx_after_message(st.rx, message) {
                    Some(r) => Some(Standing { rx: r, ..st }),
                    None => None,
                },
            }
        },
        ServerEvent::Dialed { id: x, outcome } => if x == id && st.rx is Waiting {
            match outcome {
                Ok(_) => Some(
                    Standing {
                        rx: Rx::Receiving(
                            RecvWindow { credit: st.config.window, held: 0, drained: 0 },
                        ),
                        ..st
                    },
                ),
                Err(_) => Some(Standing { rx: Rx::Silent, ..st }),
            }
        } else {
            Some(st)
        },
        ServerEvent::Engine(e) => match rx_after(st.rx, e, id, st.config) {
            Some(r) => Some(Standing { rx: r, ..st }),
            None => None,
        },
    }
}

/// What an event of the server owes the target of session `id`, by the
/// standing of the session alone.
pub open spec fn standing_owes(st: Standing, event: ServerEvent, id: u64) -> Option<EffectView> {
    match event {
        ServerEvent::Frame(f) => if f.session_id != id {
            None
        } else {
            match (interpret(f), st.rx) {
                (Some(MessageView::Open(target)), _) => if st.used {
                    None
                } else {
                    Some(EffectView::Dial { session: id, target })
                },
                (Some(MessageView::Data(bytes)), Rx::Receiving(w)) => if w.violates(bytes.len()) {
                    None
                } else {
                    Some(EffectView::Deliver { session: id, bytes })
                },
                _ => None,
            }
        },
        _ => None,
    }
}

/// One event of a server moves the standing of a session by what it was
/// alone and owes its target what that standing says. An event of the
/// session is a breach exactly where the standing says so; an event of
/// another session leaves the standing as it is and owes the target
/// nothing.
pub proof fn lemma_standing_step(s: ServerView, event: ServerEvent, id: u64)
    requires
        s.wf(),
        event.admissible(),
    ensures
        server_after(s, event) matches Some((next, effect)) ==> {
            &&& next.wf()
            &&& standing_after(standing_of(s, id), event, id) == Some(standing_of(next, id))
            &&& owes(effect, id) == standing_owes(standing_of(s, id), event, id)
        },
        about(event, id) ==> (server_after(s, event) is None <==> standing_after(
            standing_of(s, id),
            event,
            id,
        ) is None),
        !about(event, id) ==> standing_after(standing_of(s, id), event, id) == Some(
            standing_of(s, id),
        ) && standing_owes(standing_of(s, id), event, id) is None,
{
    match event {
        ServerEvent::Frame(f) => {
            lemma_standing_frame(s, f, id);
        },
        ServerEvent::Dialed { id: x, outcome } => {
            lemma_standing_dial(s, x, outcome, id);
        },
        ServerEvent::Engine(e) => {
            lemma_rx(s.mux, e, id);
            crate::trace::lemma_step_keeps(s.mux, e);
        },
    }
}

/// A frame moves the standing of a session by what it was alone.
pub proof fn lemma_standing_frame(s: ServerView, f: FrameView, id: u64)
    requires
        s.wf(),
    ensures
        server_after(s, ServerEvent::Frame(f)) matches Some((next, effect)) ==> {
            &&& next.wf()
            &&& standing_after(standing_of(s, id), ServerEvent::Frame(f), id) == Some(
                standing_of(next, id),
            )
            &&& owes(effect, id) == standing_owes(standing_of(s, id), ServerEvent::Frame(f), id)
        },
        f.session_id == id ==> (server_after(s, ServerEvent::Frame(f)) is None
            <==> standing_after(standing_of(s, id), ServerEvent::Frame(f), id) is None),
{
    let x = f.session_id;
    lemma_server_frame(s, f);
    match interpret(f) {
        Some(MessageView::Open(target)) => {
            if s.admits(x) {
                crate::message::lemma_interpreted_wf(f);
                lemma_opened(s.mux, x, target);
            }
        },
        Some(message) => {
            lemma_rx_received(s.mux, x, message, id);
        },
        None => {},
    }
}

/// The end of a dial moves the standing of a session by what it was
/// alone.
pub proof fn lemma_standing_dial(
    s: ServerView,
    x: u64,
    outcome: Result<crate::address::AddressView, crate::socks5::OpenFailure>,
    id: u64,
)
    requires
        s.wf(),
        outcome matches Ok(bound) ==> bound.wf(),
    ensures
        server_after(s, ServerEvent::Dialed { id: x, outcome }) matches Some((next, effect)) && {
            &&& next.wf()
            &&& standing_after(standing_of(s, id), ServerEvent::Dialed { id: x, outcome }, id)
                == Some(standing_of(next, id))
            &&& owes(effect, id) is None
        },
{
    lemma_rx_dialed(s.mux, x, id);
    match outcome {
        Ok(bound) => {
            lemma_server_dial(s, x, bound, crate::socks5::OpenFailure::Other);
            lemma_same_sessions(s.dialed(x, bound).mux, s.mux.established(x));
        },
        Err(reason) => {
            lemma_server_dial(s, x, crate::address::AddressView::unspecified(), reason);
            lemma_same_sessions(s.dial_failed(x, reason).mux, s.mux.refused(x));
        },
    }
}

/// Sessions are independent. Take any run of a server that is no breach
/// of the protocol, and take away every frame and every event of the
/// sessions other than `id`: what is left is a run without breach too, and
/// the target of `id` sees the same in both, the same dial and the same
/// bytes in the same order. So a dial that fails, a reset, a stall or a
/// close of another session changes nothing of what is delivered to this
/// one.
pub proof fn lemma_sessions_are_independent(s: ServerView, events: Seq<ServerEvent>, id: u64)
    requires
        s.wf(),
        forall|k: int| 0 <= k < events.len() ==> (#[trigger] events[k]).admissible(),
        server_run(s, events) is Some,
    ensures
        ({
            let (after, effects) = server_run(s, events).unwrap();
            &&& after.wf()
            &&& forall|k: int|
                0 <= k < only(events, id).len() ==> (#[trigger] only(events, id)[k]).admissible()
            &&& server_run(s, only(events, id)) matches Some((alone, effects_alone))
                && alone.wf() && standing_of(alone, id) == standing_of(after, id) && seen_by(
                effects_alone,
                id,
            ) == seen_by(effects, id)
        }),
    decreases events.len(),
{
    if events.len() > 0 {
        let prefix = events.drop_last();
        let last = events.last();
        assert forall|k: int| 0 <= k < prefix.len() implies (#[trigger] prefix[k]).admissible() by {}
        lemma_sessions_are_independent(s, prefix, id);
        let (before, effects0) = server_run(s, prefix).unwrap();
        let (alone0, alone_effects0) = server_run(s, only(prefix, id)).unwrap();
        let effect = server_after(before, last).unwrap().1;
        lemma_standing_step(before, last, id);
        if about(last, id) {
            let kept = only(events, id);
            assert(kept.drop_last() =~= only(prefix, id));
            assert(kept.last() == last);
            lemma_standing_step(alone0, last, id);
            let effect_alone = server_after(alone0, last).unwrap().1;
            assert(effects0.push(effect).drop_last() =~= effects0);
            assert(alone_effects0.push(effect_alone).drop_last() =~= alone_effects0);
            assert forall|k: int| 0 <= k < kept.len() implies (#[trigger] kept[k]).admissible() by {
                if k < kept.len() - 1 {
                    assert(kept[k] == only(prefix, id)[k]);
                }
            }
        } else {
            assert(effects0.push(effect).drop_last() =~= effects0);
        }
    }
}

/// Whether an event of an agent is one of session `id`: a frame that
/// names it, what its client does, or the loss of the tunnel. The start of
/// a session counts for every session, since it moves the identifier that
/// the next one gets.
pub open spec fn about_client(event: AgentEvent, id: u64) -> bool {
    match event {
        AgentEvent::Frame(f) => f.session_id == id,
        AgentEvent::Start(_) => true,
        AgentEvent::Engine(Event::LocalData { id: x, .. }) => x == id,
        AgentEvent::Engine(Event::LocalEof { id: x }) => x == id,
        AgentEvent::Engine(Event::LocalError { id: x }) => x == id,
        AgentEvent::Engine(Event::Consumed { id: x, .. }) => x == id,
        AgentEvent::Engine(Event::Lost) => true,
        AgentEvent::Engine(_) => false,
    }
}

/// The events of session `id` among `events`, in order: what is left when
/// every frame of the other sessions, and what their clients do, is taken
/// away.
pub open spec fn only_client(events: Seq<AgentEvent>, id: u64) -> Seq<AgentEvent>
    decreases events.len(),
{
    if events.len() == 0 {
        Seq::<AgentEvent>::empty()
    } else if about_client(events.last(), id) {
        only_client(events.drop_last(), id).push(events.last())
    } else {
        only_client(events.drop_last(), id)
    }
}

/// The part of an agent that decides what the client of session `id`
/// sees: the receiving side of the session, the identifier that the next
/// session gets, and the settings.
pub struct ClientStanding {
    pub rx: Rx,
    pub next_id: u64,
    pub config: Config,
}

/// The standing of session `id` at an agent.
pub open spec fn client_standing_of(a: AgentView, id: u64) -> ClientStanding {
    ClientStanding { rx: rx(a.mux, id), next_id: a.next_id, config: a.mux.config }
}

/// The standing of session `id` after an event of the agent, by what it
/// was alone; `None` where the event is a breach of the protocol in a
/// frame of the session.
pub open spec fn client_standing_after(st: ClientStanding, event: AgentEvent, id: u64) -> Option<
    ClientStanding,
> {
    match event {
        AgentEvent::Frame(f) => if f.session_id != id {
            Some(st)
        } else {
            match interpret(f) {
                None => None,
                Some(MessageView::Open(_)) => None,
                Some(MessageView::OpenAck(_)) => if st.rx is Waiting {
                    Some(
                        ClientStanding {
                            rx: Rx::Receiving(
                                RecvWindow { credit: st.config.window, held: 0, drained: 0 },
                            ),
                            ..st
                        },
                    )
                } else {
                    Some(st)
                },
                Some(MessageView::OpenFail(_)) => if st.rx is Waiting {
                    Some(ClientStanding { rx: Rx::Silent, ..st })
                } else {
                    Some(st)
                },
                Some(message) => match rx_after_message(st.rx, message) {
                    Some(r) => Some(ClientStanding { rx: r, ..st }),
                    None => None,
                },
            }
        },
        AgentEvent::Start(target) => if target.wf() && st.next_id < u64::MAX {
            Some(
                ClientStanding {
                    rx: if st.next_id == id {
                        Rx::Waiting
                    } else {
                        st.rx
                    },
                    next_id: (st.next_id + 1) as u64,
                    ..st
                },
            )
        } else {
            Some(st)
        },
        AgentEvent::Engine(e) => match rx_after(st.rx, e, id, st.config) {
            Some(r) => Some(ClientStanding { rx: r, ..st }),
            None => None,
        },
    }
}

/// What an event of the agent owes the client of session `id`, by the
/// standing of the session alone.
pub open spec fn client_standing_owes(st: ClientStanding, event: AgentEvent, id: u64) -> Option<
    EffectView,
> {
    match event {
        AgentEvent::Frame(f) => if f.session_id != id {
            None
        } else {
            match (interpret(f), st.rx) {
                (Some(MessageView::OpenAck(bound)), Rx::Waiting) => Some(
                    EffectView::Established { session: id, bound },
                ),
                (Some(MessageView::OpenFail(reason)), Rx::Waiting) => Some(
                    EffectView::Refused { session: id, reason },
                ),
                (Some(MessageView::Data(bytes)), Rx::Receiving(w)) => if w.violates(bytes.len()) {
                    None
                } else {
                    Some(EffectView::Deliver { session: id, bytes })
                },
                _ => None,
            }
        },
        _ => None,
    }
}

/// A frame moves the standing of a session at the agent by what it was
/// alone.
pub proof fn lemma_client_standing_frame(a: AgentView, f: FrameView, id: u64)
    requires
        a.wf(),
    ensures
        agent_after(a, AgentEvent::Frame(f)) matches Some((next, effect)) ==> {
            &&& next.wf()
            &&& client_standing_after(client_standing_of(a, id), AgentEvent::Frame(f), id) == Some(
                client_standing_of(next, id),
            )
            &&& owes(effect, id) == client_standing_owes(
                client_standing_of(a, id),
                AgentEvent::Frame(f),
                id,
            )
        },
        f.session_id == id ==> (agent_after(a, AgentEvent::Frame(f)) is None
            <==> client_standing_after(client_standing_of(a, id), AgentEvent::Frame(f), id)
            is None),
{
    let x = f.session_id;
    lemma_agent_frame(a, f);
    match interpret(f) {
        Some(MessageView::Open(_)) => {},
        Some(MessageView::OpenAck(_)) => {
            lemma_rx_dialed(a.mux, x, id);
        },
        Some(MessageView::OpenFail(_)) => {
            lemma_rx_dialed(a.mux, x, id);
        },
        Some(message) => {
            lemma_rx_received(a.mux, x, message, id);
        },
        None => {},
    }
}

/// The start of a session moves the standing of every session at the
/// agent by what it was alone.
pub proof fn lemma_client_standing_start(a: AgentView, target: crate::address::AddressView, id: u64)
    requires
        a.wf(),
    ensures
        agent_after(a, AgentEvent::Start(target)) matches Some((next, effect)) && {
            &&& next.wf()
            &&& client_standing_after(client_standing_of(a, id), AgentEvent::Start(target), id)
                == Some(client_standing_of(next, id))
            &&& owes(effect, id) is None
        },
{
    if a.can_start(target) is Ok {
        lemma_fresh_identifier(a, target);
        lemma_opened(a.mux, a.next_id, target);
        lemma_same_sessions(a.started(target).mux, a.mux.opened(a.next_id, target));
    }
}

/// One event of an agent moves the standing of a session by what it was
/// alone and owes its client what that standing says.
pub proof fn lemma_client_standing_step(a: AgentView, event: AgentEvent, id: u64)
    requires
        a.wf(),
        event.admissible(),
    ensures
        agent_after(a, event) matches Some((next, effect)) ==> {
            &&& next.wf()
            &&& client_standing_after(client_standing_of(a, id), event, id) == Some(
                client_standing_of(next, id),
            )
            &&& owes(effect, id) == client_standing_owes(client_standing_of(a, id), event, id)
        },
        about_client(event, id) ==> (agent_after(a, event) is None <==> client_standing_after(
            client_standing_of(a, id),
            event,
            id,
        ) is None),
        !about_client(event, id) ==> client_standing_after(client_standing_of(a, id), event, id)
            == Some(client_standing_of(a, id)) && client_standing_owes(
            client_standing_of(a, id),
            event,
            id,
        ) is None,
{
    match event {
        AgentEvent::Frame(f) => {
            lemma_client_standing_frame(a, f, id);
        },
        AgentEvent::Start(target) => {
            lemma_client_standing_start(a, target, id);
        },
        AgentEvent::Engine(e) => {
            lemma_rx(a.mux, e, id);
            crate::trace::lemma_step_keeps(a.mux, e);
        },
    }
}

/// Sessions are independent at the agent too. Take any run of an agent
/// that is no breach of the protocol, and take away every frame of the
/// sessions other than `id` and everything that their clients do: what is
/// left is a run without breach too, and the client of `id` sees the same
/// in both, the same reply and the same bytes in the same order.
pub proof fn lemma_clients_are_independent(a: AgentView, events: Seq<AgentEvent>, id: u64)
    requires
        a.wf(),
        forall|k: int| 0 <= k < events.len() ==> (#[trigger] events[k]).admissible(),
        agent_run(a, events) is Some,
    ensures
        ({
            let (after, effects) = agent_run(a, events).unwrap();
            &&& after.wf()
            &&& forall|k: int|
                0 <= k < only_client(events, id).len() ==> (#[trigger] only_client(
                    events,
                    id,
                )[k]).admissible()
            &&& agent_run(a, only_client(events, id)) matches Some((alone, effects_alone))
                && alone.wf() && client_standing_of(alone, id) == client_standing_of(after, id)
                && seen_by(effects_alone, id) == seen_by(effects, id)
        }),
    decreases events.len(),
{
    if events.len() > 0 {
        let prefix = events.drop_last();
        let last = events.last();
        assert forall|k: int| 0 <= k < prefix.len() implies (#[trigger] prefix[k]).admissible() by {}
        lemma_clients_are_independent(a, prefix, id);
        let (before, effects0) = agent_run(a, prefix).unwrap();
        let (alone0, alone_effects0) = agent_run(a, only_client(prefix, id)).unwrap();
        let effect = agent_after(before, last).unwrap().1;
        lemma_client_standing_step(before, last, id);
        if about_client(last, id) {
            let kept = only_client(events, id);
            assert(kept.drop_last() =~= only_client(prefix, id));
            assert(kept.last() == last);
            lemma_client_standing_step(alone0, last, id);
            let effect_alone = agent_after(alone0, last).unwrap().1;
            assert(effects0.push(effect).drop_last() =~= effects0);
            assert(alone_effects0.push(effect_alone).drop_last() =~= alone_effects0);
            assert forall|k: int| 0 <= k < kept.len() implies (#[trigger] kept[k]).admissible() by {
                if k < kept.len() - 1 {
                    assert(kept[k] == only_client(prefix, id)[k]);
                }
            }
        } else {
            assert(effects0.push(effect).drop_last() =~= effects0);
        }
    }
}

} // verus!
