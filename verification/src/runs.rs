//! What holds of an agent and of a server over time.
//!
//! Each side moves its engine by the engine's events and takes no
//! identifier twice. So what `trace` proves of every run of an engine holds
//! of every run of an agent and of a server, with nothing left to assume:
//! the bytes that reach the endpoint of a session are a run of consecutive
//! bytes of those that the peer sent for it.

use vstd::prelude::*;
use crate::address::AddressView;
use crate::agent::{AgentView, lemma_agent_frame, lemma_agent_refines};
use crate::agent::{lemma_agent_start_refines, lemma_fresh_identifier, lemma_reply_before_bytes};
use crate::frame::FrameView;
use crate::message::{MessageView, interpret};
use crate::mux::{EffectView, MuxView, lemma_opened, lemma_same_sessions};
use crate::server::{ServerView, lemma_server_dial, lemma_server_dial_refines, lemma_server_frame};
use crate::server::lemma_server_refines;
use crate::socks5::OpenFailure;
use crate::trace::{Event, all_admissible, contiguous_in, delivered_to, fresh, used_after, within};
use crate::trace::{hands, receiving, run, sent_to, step};
use crate::trace::{lemma_delivered_append, lemma_delivery_in_order, lemma_run_append};
use crate::trace::{lemma_only_reaching_opens, lemma_run_one, lemma_run_two, lemma_step};
use crate::trace::lemma_step_keeps;

verus! {

/// The events of the engine that both sides pass on as they are: what the
/// endpoints do, the tunnel taking a frame, and the loss of the tunnel.
pub open spec fn is_common(event: Event) -> bool {
    event is LocalData || event is LocalEof || event is LocalError || event is Consumed
        || event is Scheduled || event is Lost
}

/// The bytes that a frame brings from the peer for session `id`.
pub open spec fn frame_brings(f: FrameView, id: u64) -> Seq<u8> {
    match interpret(f) {
        Some(MessageView::Data(bytes)) => if f.session_id == id {
            bytes
        } else {
            Seq::<u8>::empty()
        },
        _ => Seq::<u8>::empty(),
    }
}

/// What can happen to an agent.
pub enum AgentEvent {
    /// The tunnel delivered a frame.
    Frame(FrameView),
    /// A client was accepted and asks for this target.
    Start(AddressView),
    /// One of the events that are passed on to the engine.
    Engine(Event),
}

/// What can happen to a server.
pub enum ServerEvent {
    /// The tunnel delivered a frame.
    Frame(FrameView),
    /// The dial for session `id` ended.
    Dialed { id: u64, outcome: Result<AddressView, OpenFailure> },
    /// One of the events that are passed on to the engine.
    Engine(Event),
}

impl AgentEvent {
    /// The event is one that the agent's functions admit.
    pub open spec fn admissible(self) -> bool {
        self matches AgentEvent::Engine(e) ==> is_common(e)
    }

    /// The bytes that the event brings from the server for session `id`.
    pub open spec fn brings(self, id: u64) -> Seq<u8> {
        match self {
            AgentEvent::Frame(f) => frame_brings(f, id),
            _ => Seq::<u8>::empty(),
        }
    }
}

impl ServerEvent {
    /// The event is one that the server's functions admit.
    pub open spec fn admissible(self) -> bool {
        match self {
            ServerEvent::Frame(_) => true,
            ServerEvent::Dialed { id, outcome } => outcome matches Ok(bound) ==> bound.wf(),
            ServerEvent::Engine(e) => is_common(e),
        }
    }

    /// The bytes that the event brings from the agent for session `id`.
    pub open spec fn brings(self, id: u64) -> Seq<u8> {
        match self {
            ServerEvent::Frame(f) => frame_brings(f, id),
            _ => Seq::<u8>::empty(),
        }
    }
}

/// The agent after `event` and what is owed to a client; `None` where the
/// event is a breach of the protocol.
pub open spec fn agent_after(a: AgentView, event: AgentEvent) -> Option<(AgentView, EffectView)> {
    match event {
        AgentEvent::Frame(f) => match a.on_frame(f) {
            Ok(r) => Some(r),
            Err(_) => None,
        },
        AgentEvent::Start(target) => if a.can_start(target) is Ok {
            Some((a.started(target), EffectView::Nothing))
        } else {
            Some((a, EffectView::Nothing))
        },
        AgentEvent::Engine(e) => Some((a.with_mux(step(a.mux, e).unwrap().next), EffectView::Nothing)),
    }
}

/// What `event` does to the engine of the agent, as events of the engine.
pub open spec fn agent_moves(a: AgentView, event: AgentEvent) -> Seq<Event> {
    match event {
        AgentEvent::Frame(f) => a.frame_events(f),
        AgentEvent::Start(target) => if a.can_start(target) is Ok {
            a.start_events(target)
        } else {
            Seq::<Event>::empty()
        },
        AgentEvent::Engine(e) => seq![e],
    }
}

/// The server after `event` and what is owed; `None` where the event is a
/// breach of the protocol.
pub open spec fn server_after(s: ServerView, event: ServerEvent) -> Option<
    (ServerView, EffectView),
> {
    match event {
        ServerEvent::Frame(f) => match s.on_frame(f) {
            Ok(r) => Some(r),
            Err(_) => None,
        },
        ServerEvent::Dialed { id, outcome } => match outcome {
            Ok(bound) => Some((s.dialed(id, bound), EffectView::Nothing)),
            Err(reason) => Some((s.dial_failed(id, reason), EffectView::Nothing)),
        },
        ServerEvent::Engine(e) => Some(
            (s.with_mux(step(s.mux, e).unwrap().next), EffectView::Nothing),
        ),
    }
}

/// What `event` does to the engine of the server, as events of the engine.
pub open spec fn server_moves(s: ServerView, event: ServerEvent) -> Seq<Event> {
    match event {
        ServerEvent::Frame(f) => s.frame_events(f),
        ServerEvent::Dialed { id, outcome } => s.dial_events(id, outcome),
        ServerEvent::Engine(e) => seq![e],
    }
}

/// The agent after `events`, in order, and the effects that they had;
/// `None` where one of them is a breach of the protocol.
pub open spec fn agent_run(a: AgentView, events: Seq<AgentEvent>) -> Option<
    (AgentView, Seq<EffectView>),
>
    decreases events.len(),
{
    if events.len() == 0 {
        Some((a, Seq::<EffectView>::empty()))
    } else {
        match agent_run(a, events.drop_last()) {
            None => None,
            Some((before, effects)) => match agent_after(before, events.last()) {
                None => None,
                Some((after, effect)) => Some((after, effects.push(effect))),
            },
        }
    }
}

/// The server after `events`, in order, and the effects that they had;
/// `None` where one of them is a breach of the protocol.
pub open spec fn server_run(s: ServerView, events: Seq<ServerEvent>) -> Option<
    (ServerView, Seq<EffectView>),
>
    decreases events.len(),
{
    if events.len() == 0 {
        Some((s, Seq::<EffectView>::empty()))
    } else {
        match server_run(s, events.drop_last()) {
            None => None,
            Some((before, effects)) => match server_after(before, events.last()) {
                None => None,
                Some((after, effect)) => Some((after, effects.push(effect))),
            },
        }
    }
}

/// What `events` do to the engine of the agent, as events of the engine.
pub open spec fn agent_trace(a: AgentView, events: Seq<AgentEvent>) -> Seq<Event>
    decreases events.len(),
{
    if events.len() == 0 {
        Seq::<Event>::empty()
    } else {
        match agent_run(a, events.drop_last()) {
            None => agent_trace(a, events.drop_last()),
            Some((before, _)) => agent_trace(a, events.drop_last()) + agent_moves(
                before,
                events.last(),
            ),
        }
    }
}

/// What `events` do to the engine of the server, as events of the engine.
pub open spec fn server_trace(s: ServerView, events: Seq<ServerEvent>) -> Seq<Event>
    decreases events.len(),
{
    if events.len() == 0 {
        Seq::<Event>::empty()
    } else {
        match server_run(s, events.drop_last()) {
            None => server_trace(s, events.drop_last()),
            Some((before, _)) => server_trace(s, events.drop_last()) + server_moves(
                before,
                events.last(),
            ),
        }
    }
}

/// All the bytes that `events` bring from the server for session `id`.
pub open spec fn agent_sent(events: Seq<AgentEvent>, id: u64) -> Seq<u8>
    decreases events.len(),
{
    if events.len() == 0 {
        Seq::<u8>::empty()
    } else {
        agent_sent(events.drop_last(), id) + events.last().brings(id)
    }
}

/// All the bytes that `events` bring from the agent for session `id`.
pub open spec fn server_sent(events: Seq<ServerEvent>, id: u64) -> Seq<u8>
    decreases events.len(),
{
    if events.len() == 0 {
        Seq::<u8>::empty()
    } else {
        server_sent(events.drop_last(), id) + events.last().brings(id)
    }
}

/// What is to be shown of one event of a side: the engine ends where the
/// side's engine ends, hands over what the side hands over and is brought
/// what the side is brought, and the identifiers stay fresh.
pub open spec fn refines(
    mux: MuxView,
    used: Set<u64>,
    moves: Seq<Event>,
    next_mux: MuxView,
    next_used: Set<u64>,
    effect: EffectView,
    brought: Seq<u8>,
    id: u64,
) -> bool {
    &&& run(mux, moves) matches Some((m, effects)) && m == next_mux && delivered_to(effects, id)
        == hands(effect, id)
    &&& sent_to(moves, id) == brought
    &&& fresh(used, moves)
    &&& used_after(used, moves) == next_used
    &&& all_admissible(moves)
}

/// No event at all refines a side that stays as it is.
pub proof fn lemma_refines_nothing(mux: MuxView, used: Set<u64>, id: u64)
    ensures
        refines(
            mux,
            used,
            Seq::<Event>::empty(),
            mux,
            used,
            EffectView::Nothing,
            Seq::<u8>::empty(),
            id,
        ),
{
}

/// An event that is passed on to the engine refines itself.
pub proof fn lemma_refines_common(mux: MuxView, used: Set<u64>, event: Event, id: u64)
    requires
        mux.wf(),
        within(mux, used),
        is_common(event),
    ensures
        step(mux, event) is Some,
        step(mux, event).unwrap().next.wf(),
        within(step(mux, event).unwrap().next, used),
        refines(
            mux,
            used,
            seq![event],
            step(mux, event).unwrap().next,
            used,
            EffectView::Nothing,
            Seq::<u8>::empty(),
            id,
        ),
{
    lemma_run_one(mux, used, event, id);
    lemma_step(mux, event, id);
    lemma_step_keeps(mux, event);
}

/// A frame refines the agent.
pub proof fn lemma_agent_after_frame(a: AgentView, f: FrameView, id: u64)
    requires
        a.wf(),
        a.on_frame(f) is Ok,
    ensures
        ({
            let (next, effect) = a.on_frame(f).unwrap();
            &&& next.wf()
            &&& refines(
                a.mux,
                a.used(),
                a.frame_events(f),
                next.mux,
                next.used(),
                effect,
                frame_brings(f, id),
                id,
            )
        }),
{
    let moves = a.frame_events(f);
    lemma_agent_frame(a, f);
    lemma_agent_refines(a, f, id);
    if moves.len() > 0 {
        lemma_run_one(a.mux, a.used(), moves[0], id);
    } else {
        lemma_refines_nothing(a.mux, a.used(), id);
    }
}

/// The start of a session refines the agent.
pub proof fn lemma_agent_after_start(a: AgentView, target: AddressView, id: u64)
    requires
        a.wf(),
        a.can_start(target) is Ok,
    ensures
        a.started(target).wf(),
        refines(
            a.mux,
            a.used(),
            a.start_events(target),
            a.started(target).mux,
            a.started(target).used(),
            EffectView::Nothing,
            Seq::<u8>::empty(),
            id,
        ),
{
    let moves = a.start_events(target);
    lemma_agent_start_refines(a, target, id);
    lemma_fresh_identifier(a, target);
    lemma_run_one(a.mux, a.used(), moves[0], id);
    lemma_run_two(a.mux, a.used(), moves[0], moves[1], id);
}

/// One event of the agent is a run of its engine.
pub proof fn lemma_agent_after(a: AgentView, event: AgentEvent, id: u64)
    requires
        a.wf(),
        event.admissible(),
        agent_after(a, event) is Some,
    ensures
        ({
            let (next, effect) = agent_after(a, event).unwrap();
            &&& next.wf()
            &&& refines(
                a.mux,
                a.used(),
                agent_moves(a, event),
                next.mux,
                next.used(),
                effect,
                event.brings(id),
                id,
            )
        }),
{
    match event {
        AgentEvent::Frame(f) => {
            lemma_agent_after_frame(a, f, id);
        },
        AgentEvent::Start(target) => {
            if a.can_start(target) is Ok {
                lemma_agent_after_start(a, target, id);
            } else {
                lemma_refines_nothing(a.mux, a.used(), id);
            }
        },
        AgentEvent::Engine(e) => {
            lemma_refines_common(a.mux, a.used(), e, id);
        },
    }
}

/// A frame refines the server.
pub proof fn lemma_server_after_frame(s: ServerView, f: FrameView, id: u64)
    requires
        s.wf(),
        s.on_frame(f) is Ok,
    ensures
        ({
            let (next, effect) = s.on_frame(f).unwrap();
            &&& next.wf()
            &&& refines(
                s.mux,
                s.used,
                s.frame_events(f),
                next.mux,
                next.used,
                effect,
                frame_brings(f, id),
                id,
            )
        }),
{
    let moves = s.frame_events(f);
    lemma_server_frame(s, f);
    lemma_server_refines(s, f, id);
    if moves.len() > 0 {
        lemma_run_one(s.mux, s.used, moves[0], id);
    } else {
        lemma_refines_nothing(s.mux, s.used, id);
    }
}

/// The result of a dial refines the server.
pub proof fn lemma_server_after_dial(
    s: ServerView,
    dialed: u64,
    outcome: Result<AddressView, OpenFailure>,
    id: u64,
)
    requires
        s.wf(),
        outcome matches Ok(bound) ==> bound.wf(),
    ensures
        ({
            let next = match outcome {
                Ok(bound) => s.dialed(dialed, bound),
                Err(reason) => s.dial_failed(dialed, reason),
            };
            &&& next.wf()
            &&& refines(
                s.mux,
                s.used,
                s.dial_events(dialed, outcome),
                next.mux,
                next.used,
                EffectView::Nothing,
                Seq::<u8>::empty(),
                id,
            )
        }),
{
    let moves = s.dial_events(dialed, outcome);
    lemma_server_dial_refines(s, dialed, outcome, id);
    match outcome {
        Ok(address) => {
            lemma_server_dial(s, dialed, address, OpenFailure::Other);
        },
        Err(reason) => {
            lemma_server_dial(s, dialed, AddressView::unspecified(), reason);
        },
    }
    if moves.len() > 0 {
        lemma_run_one(s.mux, s.used, moves[0], id);
        lemma_run_two(s.mux, s.used, moves[0], moves[1], id);
    } else {
        lemma_refines_nothing(s.mux, s.used, id);
    }
}

/// One event of the server is a run of its engine.
pub proof fn lemma_server_after(s: ServerView, event: ServerEvent, id: u64)
    requires
        s.wf(),
        event.admissible(),
        server_after(s, event) is Some,
    ensures
        ({
            let (next, effect) = server_after(s, event).unwrap();
            &&& next.wf()
            &&& refines(
                s.mux,
                s.used,
                server_moves(s, event),
                next.mux,
                next.used,
                effect,
                event.brings(id),
                id,
            )
        }),
{
    match event {
        ServerEvent::Frame(f) => {
            lemma_server_after_frame(s, f, id);
        },
        ServerEvent::Dialed { id: dialed, outcome } => {
            lemma_server_after_dial(s, dialed, outcome, id);
        },
        ServerEvent::Engine(e) => {
            lemma_refines_common(s.mux, s.used, e, id);
        },
    }
}

/// A run of the agent is a run of its engine.
pub proof fn lemma_agent_simulates(a: AgentView, events: Seq<AgentEvent>, id: u64)
    requires
        a.wf(),
        forall|k: int| 0 <= k < events.len() ==> (#[trigger] events[k]).admissible(),
    ensures
        agent_run(a, events) matches Some((after, effects)) ==> {
            let trace = agent_trace(a, events);
            &&& after.wf()
            &&& run(a.mux, trace) matches Some((m, engine_effects)) && m == after.mux
                && delivered_to(engine_effects, id) == delivered_to(effects, id)
            &&& sent_to(trace, id) == agent_sent(events, id)
            &&& fresh(a.used(), trace)
            &&& used_after(a.used(), trace) == after.used()
            &&& all_admissible(trace)
        },
    decreases events.len(),
{
    if events.len() > 0 && agent_run(a, events) is Some {
        let prefix = events.drop_last();
        let last = events.last();
        assert forall|k: int| 0 <= k < prefix.len() implies (#[trigger] prefix[k]).admissible() by {}
        lemma_agent_simulates(a, prefix, id);
        let (before, effects0) = agent_run(a, prefix).unwrap();
        let effect = agent_after(before, last).unwrap().1;
        let trace0 = agent_trace(a, prefix);
        let moves = agent_moves(before, last);
        lemma_agent_after(before, last, id);
        lemma_run_append(a.mux, a.used(), trace0, moves, id);
        let engine0 = run(a.mux, trace0).unwrap().1;
        let more = run(before.mux, moves).unwrap().1;
        lemma_delivered_append(engine0, more, id);
        assert(effects0.push(effect).drop_last() =~= effects0);
    }
}

/// A run of the server is a run of its engine.
pub proof fn lemma_server_simulates(s: ServerView, events: Seq<ServerEvent>, id: u64)
    requires
        s.wf(),
        forall|k: int| 0 <= k < events.len() ==> (#[trigger] events[k]).admissible(),
    ensures
        server_run(s, events) matches Some((after, effects)) ==> {
            let trace = server_trace(s, events);
            &&& after.wf()
            &&& run(s.mux, trace) matches Some((m, engine_effects)) && m == after.mux
                && delivered_to(engine_effects, id) == delivered_to(effects, id)
            &&& sent_to(trace, id) == server_sent(events, id)
            &&& fresh(s.used, trace)
            &&& used_after(s.used, trace) == after.used
            &&& all_admissible(trace)
        },
    decreases events.len(),
{
    if events.len() > 0 && server_run(s, events) is Some {
        let prefix = events.drop_last();
        let last = events.last();
        assert forall|k: int| 0 <= k < prefix.len() implies (#[trigger] prefix[k]).admissible() by {}
        lemma_server_simulates(s, prefix, id);
        let (before, effects0) = server_run(s, prefix).unwrap();
        let effect = server_after(before, last).unwrap().1;
        let trace0 = server_trace(s, prefix);
        let moves = server_moves(before, last);
        lemma_server_after(before, last, id);
        lemma_run_append(s.mux, s.used, trace0, moves, id);
        let engine0 = run(s.mux, trace0).unwrap().1;
        let more = run(before.mux, moves).unwrap().1;
        lemma_delivered_append(engine0, more, id);
        assert(effects0.push(effect).drop_last() =~= effects0);
    }
}

/// Ordered delivery at the agent. Whatever the server sends, the clients
/// do and the tunnel takes, in whatever order, the bytes written to the
/// client of a session are a run of consecutive bytes of those that the
/// server sent for it, in the order in which they were sent.
pub proof fn lemma_agent_delivers_in_order(a: AgentView, events: Seq<AgentEvent>, id: u64)
    requires
        a.wf(),
        forall|k: int| 0 <= k < events.len() ==> (#[trigger] events[k]).admissible(),
    ensures
        agent_run(a, events) matches Some((after, effects)) ==> after.wf() && contiguous_in(
            delivered_to(effects, id),
            agent_sent(events, id),
        ),
{
    lemma_agent_simulates(a, events, id);
    if agent_run(a, events) is Some {
        lemma_delivery_in_order(a.mux, a.used(), agent_trace(a, events), id);
    }
}

/// Ordered delivery at the server. Whatever the agent sends, the targets
/// do and the tunnel takes, in whatever order, the bytes written to the
/// target of a session are a run of consecutive bytes of those that the
/// agent sent for it, in the order in which they were sent.
pub proof fn lemma_server_delivers_in_order(s: ServerView, events: Seq<ServerEvent>, id: u64)
    requires
        s.wf(),
        forall|k: int| 0 <= k < events.len() ==> (#[trigger] events[k]).admissible(),
    ensures
        server_run(s, events) matches Some((after, effects)) ==> after.wf() && contiguous_in(
            delivered_to(effects, id),
            server_sent(events, id),
        ),
{
    lemma_server_simulates(s, events, id);
    if server_run(s, events) is Some {
        lemma_delivery_in_order(s.mux, s.used, server_trace(s, events), id);
    }
}

/// The effect owes the client of session `id` the success reply, with a
/// bound address that is well formed.
pub open spec fn is_reply(effect: EffectView, id: u64) -> bool {
    effect matches EffectView::Established { session, bound } && session == id && bound.wf()
}

/// Whether one of the first `n` effects owes the client of session `id`
/// the success reply.
pub open spec fn replied_before(effects: Seq<EffectView>, id: u64, n: int) -> bool {
    exists|j: int| 0 <= j < n && j < effects.len() && is_reply(#[trigger] effects[j], id)
}

/// One event of the agent hands bytes to a client only while its session
/// receives, and makes a session receive only by owing its client the
/// success reply.
pub proof fn lemma_agent_reply_step(a: AgentView, event: AgentEvent, id: u64)
    requires
        a.wf(),
        event.admissible(),
        agent_after(a, event) is Some,
    ensures
        ({
            let (next, effect) = agent_after(a, event).unwrap();
            &&& hands(effect, id).len() > 0 ==> receiving(a.mux, id)
            &&& receiving(next.mux, id) && !receiving(a.mux, id) ==> is_reply(effect, id)
        }),
{
    match event {
        AgentEvent::Frame(f) => {
            let moves = a.frame_events(f);
            lemma_reply_before_bytes(a, f);
            if moves.len() > 0 {
                lemma_step(a.mux, moves[0], id);
                if a.mux.is_opening(id) && moves[0] != (Event::Established { id }) {
                    lemma_only_reaching_opens(a.mux, moves[0], id);
                }
            }
        },
        AgentEvent::Start(target) => {
            if a.can_start(target) is Ok {
                lemma_fresh_identifier(a, target);
                lemma_opened(a.mux, a.next_id, target);
                lemma_same_sessions(a.started(target).mux, a.mux.opened(a.next_id, target));
            }
        },
        AgentEvent::Engine(e) => {
            lemma_step(a.mux, e, id);
            if a.mux.is_opening(id) {
                lemma_only_reaching_opens(a.mux, e, id);
            }
        },
    }
}

/// The reply comes first. For a session whose client has not been
/// answered yet, whatever the server sends, the clients do and the tunnel
/// takes, every byte that is written to the client comes after the effect
/// that owes it the success reply, and that reply carries a bound address
/// that is well formed.
pub proof fn lemma_agent_replies_first(a: AgentView, events: Seq<AgentEvent>, id: u64)
    requires
        a.wf(),
        !receiving(a.mux, id),
        forall|k: int| 0 <= k < events.len() ==> (#[trigger] events[k]).admissible(),
    ensures
        agent_run(a, events) matches Some((after, effects)) ==> {
            &&& after.wf()
            &&& effects.len() == events.len()
            &&& forall|k: int|
                0 <= k < effects.len() && hands(#[trigger] effects[k], id).len() > 0
                    ==> replied_before(effects, id, k)
            &&& receiving(after.mux, id) ==> replied_before(effects, id, effects.len() as int)
        },
    decreases events.len(),
{
    if events.len() > 0 && agent_run(a, events) is Some {
        let prefix = events.drop_last();
        let last = events.last();
        assert forall|k: int| 0 <= k < prefix.len() implies (#[trigger] prefix[k]).admissible() by {}
        lemma_agent_replies_first(a, prefix, id);
        let (before, effects0) = agent_run(a, prefix).unwrap();
        let effect = agent_after(before, last).unwrap().1;
        let effects = effects0.push(effect);
        let n = effects0.len() as int;
        lemma_agent_after(before, last, id);
        lemma_agent_reply_step(before, last, id);
        if replied_before(effects0, id, n) {
            let j = choose|j: int| 0 <= j < n && j < effects0.len() && is_reply(
                #[trigger] effects0[j],
                id,
            );
            assert(effects[j] == effects0[j]);
        }
        if is_reply(effect, id) {
            assert(is_reply(effects[n], id));
        }
        assert forall|k: int|
            0 <= k < effects.len() && hands(
                #[trigger] effects[k],
                id,
            ).len() > 0 implies replied_before(effects, id, k) by {
            let j = if k < n {
                choose|j: int| 0 <= j < k && j < effects0.len() && is_reply(
                    #[trigger] effects0[j],
                    id,
                )
            } else {
                choose|j: int| 0 <= j < n && j < effects0.len() && is_reply(
                    #[trigger] effects0[j],
                    id,
                )
            };
            assert(effects[j] == effects0[j]);
        }
    }
}

} // verus!
