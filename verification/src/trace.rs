//! What holds of an engine over time.
//!
//! An engine moves by events: frames that arrive, what the endpoints do,
//! and frames that are handed out. This module follows an engine through
//! any sequence of events and proves what each session's endpoint gets of
//! the bytes that the peer sent for it.

use vstd::prelude::*;
use crate::address::AddressView;
use crate::frame::FrameView;
use crate::message::MessageView;
use crate::mux::{EffectView, MuxView, Step, is_control};
use crate::mux::{lemma_dialed, lemma_local, lemma_lost, lemma_opened, lemma_posted};
use crate::mux::lemma_received;
use crate::mux::{lemma_replace, lemma_scheduled, lemma_without};
use crate::session::{SessionEvent, SessionState};

verus! {

/// What can happen to an engine.
pub enum Event {
    /// A frame for session `id` arrived.
    Received { id: u64, message: MessageView },
    /// A session was started under `id`.
    Opened { id: u64, target: AddressView },
    /// The target of session `id` was reached.
    Established { id: u64 },
    /// The target of session `id` was not reached.
    Refused { id: u64 },
    /// A control frame was put into the outbox.
    Posted { frame: FrameView },
    /// The endpoint of session `id` produced bytes.
    LocalData { id: u64, bytes: Seq<u8> },
    /// The endpoint of session `id` reached the end of its stream.
    LocalEof { id: u64 },
    /// The endpoint of session `id` failed.
    LocalError { id: u64 },
    /// The endpoint of session `id` consumed bytes.
    Consumed { id: u64, n: u32 },
    /// The tunnel took the next frame.
    Scheduled,
    /// The tunnel was lost.
    Lost,
}

impl Event {
    /// The event is one that the engine's functions admit: a session is
    /// started to a well-formed target only, and only control frames that
    /// the peer can read are posted.
    pub open spec fn admissible(self) -> bool {
        match self {
            Event::Opened { id, target } => target.wf(),
            Event::Posted { frame } => is_control(frame),
            _ => true,
        }
    }

    /// The event starts a session under `id`.
    pub open spec fn opens(self, id: u64) -> bool {
        self matches Event::Opened { id: x, .. } && x == id
    }

    /// The bytes that the event brings from the peer for session `id`.
    pub open spec fn brings(self, id: u64) -> Seq<u8> {
        match self {
            Event::Received { id: x, message: MessageView::Data(bytes) } => if x == id {
                bytes
            } else {
                Seq::<u8>::empty()
            },
            _ => Seq::<u8>::empty(),
        }
    }
}

/// The bytes that an effect hands to the endpoint of session `id`.
pub open spec fn hands(effect: EffectView, id: u64) -> Seq<u8> {
    match effect {
        EffectView::Deliver { session, bytes } => if session == id {
            bytes
        } else {
            Seq::<u8>::empty()
        },
        _ => Seq::<u8>::empty(),
    }
}

/// The state after `event` and what is owed to an endpoint; `None` where
/// the event is a breach of the protocol, after which the tunnel is given
/// up.
pub open spec fn step(m: MuxView, event: Event) -> Option<Step> {
    match event {
        Event::Received { id, message } => match m.received(id, message) {
            Ok(s) => Some(s),
            Err(_) => None,
        },
        Event::Opened { id, target } => Some(
            Step { next: m.opened(id, target), effect: EffectView::Nothing },
        ),
        Event::Established { id } => Some(
            Step { next: m.established(id), effect: EffectView::Nothing },
        ),
        Event::Refused { id } => Some(Step { next: m.refused(id), effect: EffectView::Nothing }),
        Event::Posted { frame } => Some(Step { next: m.post(frame), effect: EffectView::Nothing }),
        Event::LocalData { id, bytes } => Some(
            Step { next: m.offered(id, bytes), effect: EffectView::Nothing },
        ),
        Event::LocalEof { id } => Some(
            Step { next: m.input_finished(id), effect: EffectView::Nothing },
        ),
        Event::LocalError { id } => Some(
            Step { next: m.local_failed(id), effect: EffectView::Nothing },
        ),
        Event::Consumed { id, n } => Some(
            Step { next: m.consumed(id, n), effect: EffectView::Nothing },
        ),
        Event::Scheduled => match m.scheduled() {
            Some((next, _, _)) => Some(Step { next, effect: EffectView::Nothing }),
            None => Some(Step { next: m, effect: EffectView::Nothing }),
        },
        Event::Lost => Some(Step { next: m.lost(), effect: EffectView::Nothing }),
    }
}

/// The state after `events`, in order, and the effects that they had, one
/// for each event; `None` where one of them is a breach of the protocol.
pub open spec fn run(m: MuxView, events: Seq<Event>) -> Option<(MuxView, Seq<EffectView>)>
    decreases events.len(),
{
    if events.len() == 0 {
        Some((m, Seq::<EffectView>::empty()))
    } else {
        match run(m, events.drop_last()) {
            None => None,
            Some((before, effects)) => match step(before, events.last()) {
                None => None,
                Some(s) => Some((s.next, effects.push(s.effect))),
            },
        }
    }
}

/// All the bytes that `events` bring from the peer for session `id`, in
/// order.
pub open spec fn sent_to(events: Seq<Event>, id: u64) -> Seq<u8>
    decreases events.len(),
{
    if events.len() == 0 {
        Seq::<u8>::empty()
    } else {
        sent_to(events.drop_last(), id) + events.last().brings(id)
    }
}

/// All the bytes that `effects` hand to the endpoint of session `id`, in
/// order.
pub open spec fn delivered_to(effects: Seq<EffectView>, id: u64) -> Seq<u8>
    decreases effects.len(),
{
    if effects.len() == 0 {
        Seq::<u8>::empty()
    } else {
        delivered_to(effects.drop_last(), id) + hands(effects.last(), id)
    }
}

/// `part` is a run of consecutive bytes of `whole`.
pub open spec fn contiguous_in(part: Seq<u8>, whole: Seq<u8>) -> bool {
    exists|a: int|
        0 <= a && a + part.len() <= whole.len() && part == #[trigger] whole.subrange(
            a,
            a + part.len(),
        )
}

/// `part` is the end of `whole`.
pub open spec fn tail_of(part: Seq<u8>, whole: Seq<u8>) -> bool {
    part.len() <= whole.len() && part == whole.subrange(
        whole.len() - part.len(),
        whole.len() as int,
    )
}

/// The peer of session `id` may send `Data` now.
pub open spec fn receiving(m: MuxView, id: u64) -> bool {
    m.has(id) && m.session(id).state.can_receive()
}

/// What one event can do to the standing of session `id`, as long as it
/// does not start the session anew. The engine stays well formed. The
/// session does not come to wait for its target again, and it comes to
/// receive only from waiting for its target. Bytes are handed to its
/// endpoint only by a `Data` frame for it that arrives while it receives,
/// and then in full. While it waits for its target, no byte arrives for it
/// without a breach of the protocol.
pub proof fn lemma_step(m: MuxView, event: Event, id: u64)
    requires
        m.wf(),
        event.admissible(),
        !event.opens(id),
        step(m, event) is Some,
    ensures
        ({
            let s = step(m, event).unwrap();
            &&& s.next.wf()
            &&& s.next.is_opening(id) ==> m.is_opening(id)
            &&& receiving(s.next, id) ==> receiving(m, id) || m.is_opening(id)
            &&& hands(s.effect, id).len() > 0 ==> receiving(m, id) && receiving(s.next, id)
            &&& receiving(m, id) ==> hands(s.effect, id) == event.brings(id)
            &&& !receiving(m, id) ==> hands(s.effect, id).len() == 0
            &&& m.is_opening(id) ==> event.brings(id).len() == 0
        }),
{
    match event {
        Event::Received { id: x, message } => {
            lemma_received(m, x, message);
            if x == id && m.has(id) {
                let sess = m.session(id);
                match message {
                    MessageView::Data(bytes) => {
                        if sess.state.can_receive() && !sess.recv.violates(bytes.len()) {
                            lemma_replace(m, id, sess.received(bytes.len()));
                        }
                    },
                    MessageView::WindowUpdate(n) => {
                        if sess.state != SessionState::Opening {
                            lemma_replace(m, id, sess.granted(n));
                        }
                    },
                    MessageView::Close => {
                        if sess.state == SessionState::Open {
                            lemma_replace(m, id, sess.moved(SessionEvent::RemoteClosed));
                        } else if sess.state == SessionState::LocalHalfClosed {
                            lemma_without(m, id);
                        }
                    },
                    MessageView::Reset => {
                        lemma_without(m, id);
                    },
                    _ => {},
                }
            }
        },
        Event::Opened { id: x, target } => {
            if m.can_open(x) {
                lemma_opened(m, x, target);
            }
        },
        Event::Established { id: x } => {
            lemma_dialed(m, x);
        },
        Event::Refused { id: x } => {
            lemma_dialed(m, x);
        },
        Event::Posted { frame } => {
            lemma_posted(m, frame);
            crate::mux::lemma_same_sessions(m.post(frame), m);
        },
        Event::LocalData { id: x, bytes } => {
            lemma_local(m, x, bytes, 0);
            if x == id && m.takes_input(id) {
                lemma_replace(m, id, m.session(id).queued(bytes));
            }
        },
        Event::LocalEof { id: x } => {
            lemma_local(m, x, Seq::<u8>::empty(), 0);
            if x == id && m.takes_input(id) {
                lemma_replace(m, id, m.session(id).finished_input());
            }
        },
        Event::LocalError { id: x } => {
            lemma_local(m, x, Seq::<u8>::empty(), 0);
        },
        Event::Consumed { id: x, n } => {
            lemma_local(m, x, Seq::<u8>::empty(), n);
            if x == id && m.has(id) {
                let sess = m.session(id);
                lemma_replace(m, id, sess.released(n, m.config));
                crate::mux::lemma_same_sessions(
                    m.consumed(id, n),
                    m.replace(id, sess.released(n, m.config)),
                );
            }
        },
        Event::Scheduled => {
            lemma_scheduled(m);
            lemma_scheduled_standing(m, id);
        },
        Event::Lost => {
            lemma_lost(m);
        },
    }
}

/// Handing out a frame does not make a session wait for its target, nor
/// receive if it did not.
pub proof fn lemma_scheduled_standing(m: MuxView, id: u64)
    requires
        m.wf(),
    ensures
        m.scheduled() matches Some((next, f, finished)) ==> (next.is_opening(id) ==> m.is_opening(
            id,
        )) && (receiving(next, id) ==> receiving(m, id)),
{
    lemma_scheduled(m);
    if m.scheduled() is Some && m.outbox.len() == 0 {
        let next = m.scheduled().unwrap().0;
        crate::mux::lemma_first_ready(m.sessions, m.start(), 0);
        let i = m.next_ready().unwrap();
        let s = m.sessions[i];
        crate::table::lemma_position(m.sessions, i);
        if s.id == id {
            if s.pending.len() > 0 {
                lemma_replace(m, id, s.after_chunk(m.config));
                crate::mux::lemma_same_sessions(next, m.replace(id, s.after_chunk(m.config)));
            } else if s.state == SessionState::Open {
                lemma_replace(m, id, s.moved(SessionEvent::LocalClosed));
                crate::mux::lemma_same_sessions(
                    next,
                    m.replace(id, s.moved(SessionEvent::LocalClosed)),
                );
            } else {
                lemma_without(m, id);
                crate::mux::lemma_same_sessions(next, m.without(id));
            }
        }
    } else if m.scheduled() is Some {
        crate::mux::lemma_same_sessions(m.scheduled().unwrap().0, m);
    }
}

/// Only reaching its target makes a session receive that waits for it.
pub proof fn lemma_only_reaching_opens(m: MuxView, event: Event, id: u64)
    requires
        m.wf(),
        event.admissible(),
        !event.opens(id),
        m.is_opening(id),
        step(m, event) is Some,
        event != (Event::Established { id }),
    ensures
        !receiving(step(m, event).unwrap().next, id),
{
    let sess = m.session(id);
    match event {
        Event::Received { id: x, message } => {
            lemma_received(m, x, message);
            if x == id {
                match message {
                    MessageView::Reset => {
                        lemma_without(m, id);
                    },
                    _ => {},
                }
            }
        },
        Event::Opened { id: x, target } => {
            if m.can_open(x) {
                lemma_opened(m, x, target);
            }
        },
        Event::Established { id: x } => {
            lemma_dialed(m, x);
        },
        Event::Refused { id: x } => {
            lemma_dialed(m, x);
        },
        Event::Posted { frame } => {
            crate::mux::lemma_same_sessions(m.post(frame), m);
        },
        Event::LocalData { id: x, bytes } => {
            lemma_local(m, x, bytes, 0);
            if x == id && m.takes_input(id) {
                lemma_replace(m, id, sess.queued(bytes));
            }
        },
        Event::LocalEof { id: x } => {
            lemma_local(m, x, Seq::<u8>::empty(), 0);
            if x == id && m.takes_input(id) {
                lemma_replace(m, id, sess.finished_input());
            }
        },
        Event::LocalError { id: x } => {
            lemma_local(m, x, Seq::<u8>::empty(), 0);
        },
        Event::Consumed { id: x, n } => {
            lemma_local(m, x, Seq::<u8>::empty(), n);
            if x == id {
                lemma_replace(m, id, sess.released(n, m.config));
                crate::mux::lemma_same_sessions(
                    m.consumed(id, n),
                    m.replace(id, sess.released(n, m.config)),
                );
            }
        },
        Event::Scheduled => {
            lemma_scheduled_standing(m, id);
        },
        Event::Lost => {
            lemma_lost(m);
        },
    }
}

/// An event that starts no session starts none: every session that is
/// live after it was live before.
pub proof fn lemma_step_keeps(m: MuxView, event: Event)
    requires
        m.wf(),
        event.admissible(),
        !(event is Opened),
        step(m, event) is Some,
    ensures
        step(m, event).unwrap().next.keeps_to(m),
{
    match event {
        Event::Received { id, message } => {
            lemma_received(m, id, message);
        },
        Event::Opened { id, target } => {},
        Event::Established { id } => {
            lemma_dialed(m, id);
        },
        Event::Refused { id } => {
            lemma_dialed(m, id);
        },
        Event::Posted { frame } => {
            crate::mux::lemma_same_sessions(m.post(frame), m);
        },
        Event::LocalData { id, bytes } => {
            lemma_local(m, id, bytes, 0);
        },
        Event::LocalEof { id } => {
            lemma_local(m, id, Seq::<u8>::empty(), 0);
        },
        Event::LocalError { id } => {
            lemma_local(m, id, Seq::<u8>::empty(), 0);
        },
        Event::Consumed { id, n } => {
            lemma_local(m, id, Seq::<u8>::empty(), n);
        },
        Event::Scheduled => {
            lemma_scheduled(m);
        },
        Event::Lost => {
            lemma_lost(m);
        },
    }
}

/// Every live session has an identifier that counts as used.
pub open spec fn within(m: MuxView, used: Set<u64>) -> bool {
    forall|x: u64| m.has(x) ==> used.contains(x)
}

/// The identifiers that are used after `events`: those that were, and
/// every one under which a session was started.
pub open spec fn used_after(used: Set<u64>, events: Seq<Event>) -> Set<u64>
    decreases events.len(),
{
    if events.len() == 0 {
        used
    } else {
        let before = used_after(used, events.drop_last());
        match events.last() {
            Event::Opened { id, .. } => before.insert(id),
            _ => before,
        }
    }
}

/// Identifiers are not reused: every session is started under an
/// identifier that was not used at that time. The order of the
/// identifiers does not matter. The agent keeps to this by counting, the
/// server by remembering every identifier that an `Open` has used.
pub open spec fn fresh(used: Set<u64>, events: Seq<Event>) -> bool
    decreases events.len(),
{
    events.len() == 0 || (fresh(used, events.drop_last()) && (events.last() matches Event::Opened {
        id,
        ..
    } ==> !used_after(used, events.drop_last()).contains(id)))
}

/// Where the engine stands after `events`, for session `id`: what its
/// endpoint got is a run of consecutive bytes of what the peer sent; while
/// the session receives, it is the end of what the peer sent; and as long
/// as the session was not started or waits for its target, its endpoint
/// got nothing.
pub open spec fn standing(m: MuxView, used: Set<u64>, events: Seq<Event>, id: u64) -> bool {
    run(m, events) matches Some((after, effects)) ==> {
        let got = delivered_to(effects, id);
        let sent = sent_to(events, id);
        &&& after.wf()
        &&& within(after, used_after(used, events))
        &&& effects.len() == events.len()
        &&& contiguous_in(got, sent)
        &&& receiving(after, id) ==> tail_of(got, sent)
        &&& after.is_opening(id) || !used_after(used, events).contains(id) ==> got.len() == 0
    }
}

/// The end of a sequence is a run of consecutive bytes of it.
pub proof fn lemma_tail_is_contiguous(part: Seq<u8>, whole: Seq<u8>)
    requires
        tail_of(part, whole),
    ensures
        contiguous_in(part, whole),
{
    let a = whole.len() - part.len();
    assert(part == whole.subrange(a, a + part.len()));
}

/// Ordered delivery. Whatever happens to an engine, and however the frames
/// of its sessions interleave, the bytes handed to the endpoint of a
/// session are a run of consecutive bytes of those that the peer sent for
/// it, in the order in which they were sent: nothing is repeated, nothing
/// is left out in between, nothing changes places. This holds of every
/// session, and rests on nothing but that identifiers are not reused.
pub proof fn lemma_delivery_in_order(m: MuxView, used: Set<u64>, events: Seq<Event>, id: u64)
    requires
        m.wf(),
        within(m, used),
        fresh(used, events),
        forall|k: int| 0 <= k < events.len() ==> (#[trigger] events[k]).admissible(),
    ensures
        run(m, events) matches Some((after, effects)) ==> after.wf() && effects.len()
            == events.len() && contiguous_in(delivered_to(effects, id), sent_to(events, id)),
        standing(m, used, events, id),
    decreases events.len(),
{
    if events.len() == 0 {
        let empty = Seq::<u8>::empty();
        assert(empty.subrange(0, 0) =~= empty);
        lemma_tail_is_contiguous(empty, empty);
    } else {
        let prefix = events.drop_last();
        let last = events.last();
        assert forall|k: int| 0 <= k < prefix.len() implies (#[trigger] prefix[k]).admissible() by {}
        lemma_delivery_in_order(m, used, prefix, id);
        if run(m, events) is Some {
            let (before, effects0) = run(m, prefix).unwrap();
            let (after, effects) = run(m, events).unwrap();
            assert(effects.drop_last() =~= effects0);
            let got0 = delivered_to(effects0, id);
            let sent0 = sent_to(prefix, id);
            let got = delivered_to(effects, id);
            let sent = sent_to(events, id);
            match last {
                Event::Opened { id: x, target } => {
                    lemma_opened(before, x, target);
                    assert forall|y: u64| after.has(y) implies used_after(used, events).contains(
                        y,
                    ) by {
                        if y != x {
                            assert(before.has(y));
                        }
                    }
                },
                _ => {
                    lemma_step(before, last, id);
                    lemma_step_keeps(before, last);
                    if receiving(before, id) {
                        let c = sent0.len() - got0.len();
                        assert(got =~= sent.subrange(c, sent.len() as int));
                        lemma_tail_is_contiguous(got, sent);
                    } else {
                        let a = choose|a: int|
                            0 <= a && a + got0.len() <= sent0.len() && got0
                                == #[trigger] sent0.subrange(a, a + got0.len());
                        assert(sent.subrange(a, a + got.len()) =~= sent0.subrange(
                            a,
                            a + got0.len(),
                        ));
                        if receiving(after, id) {
                            assert(got =~= sent.subrange(sent.len() as int, sent.len() as int));
                        }
                    }
                },
            }
        }
    }
}

/// Whether one of the first `n` events is the reaching of the target of
/// session `id`.
pub open spec fn established_before(events: Seq<Event>, id: u64, n: int) -> bool {
    exists|j: int| 0 <= j < n && j < events.len() && #[trigger] events[j] == (Event::Established { id })
}

/// Nothing is handed over before the target is reached. For a session that
/// waits for its target or is yet to be started, whatever happens to the
/// engine, every byte that is handed to its endpoint comes after the
/// target was reached: the side that started the session has told its
/// client of the outcome by then.
pub proof fn lemma_nothing_before_established(
    m: MuxView,
    used: Set<u64>,
    events: Seq<Event>,
    id: u64,
)
    requires
        m.wf(),
        within(m, used),
        fresh(used, events),
        m.is_opening(id) || !used.contains(id),
        forall|k: int| 0 <= k < events.len() ==> (#[trigger] events[k]).admissible(),
    ensures
        run(m, events) matches Some((after, effects)) ==> {
            &&& effects.len() == events.len()
            &&& forall|k: int|
                0 <= k < effects.len() && hands(#[trigger] effects[k], id).len() > 0
                    ==> established_before(events, id, k)
            &&& receiving(after, id) ==> established_before(events, id, events.len() as int)
        },
    decreases events.len(),
{
    if events.len() > 0 {
        let prefix = events.drop_last();
        let last = events.last();
        assert forall|k: int| 0 <= k < prefix.len() implies (#[trigger] prefix[k]).admissible() by {}
        lemma_nothing_before_established(m, used, prefix, id);
        lemma_delivery_in_order(m, used, prefix, id);
        if run(m, events) is Some {
            let before = run(m, prefix).unwrap().0;
            let effects = run(m, events).unwrap().1;
            let n = prefix.len() as int;
            match last {
                Event::Opened { id: x, target } => {
                    lemma_opened(before, x, target);
                },
                _ => {
                    lemma_step(before, last, id);
                    if before.is_opening(id) && last != (Event::Established { id }) {
                        lemma_only_reaching_opens(before, last, id);
                    }
                },
            }
            if established_before(prefix, id, n) {
                let j = choose|j: int|
                    0 <= j < n && j < prefix.len() && #[trigger] prefix[j] == (Event::Established {
                        id,
                    });
                assert(events[j] == prefix[j]);
            }
            assert forall|k: int|
                0 <= k < effects.len() && hands(
                    #[trigger] effects[k],
                    id,
                ).len() > 0 implies established_before(events, id, k) by {
                if k < n {
                    let j = choose|j: int|
                        0 <= j < k && j < prefix.len() && #[trigger] prefix[j] == (
                        Event::Established { id });
                    assert(events[j] == prefix[j]);
                }
            }
        }
    }
}

/// What a single event amounts to.
pub proof fn lemma_run_one(m: MuxView, used: Set<u64>, event: Event, id: u64)
    ensures
        run(m, seq![event]) == (match step(m, event) {
            Some(s) => Some((s.next, seq![s.effect])),
            None => None,
        }),
        sent_to(seq![event], id) == event.brings(id),
        fresh(used, seq![event]) == (event matches Event::Opened { id: x, .. } ==> !used.contains(
            x,
        )),
        used_after(used, seq![event]) == (match event {
            Event::Opened { id: x, .. } => used.insert(x),
            _ => used,
        }),
        forall|effect: EffectView| #[trigger] delivered_to(seq![effect], id) == hands(effect, id),
{
    let events = seq![event];
    let none = Seq::<Event>::empty();
    assert(events.drop_last() =~= none);
    assert(run(m, none) == Some((m, Seq::<EffectView>::empty())));
    assert(sent_to(none, id) =~= Seq::<u8>::empty());
    assert(fresh(used, none));
    assert(used_after(used, none) == used);
    assert forall|effect: EffectView| #[trigger]
        delivered_to(seq![effect], id) == hands(effect, id) by {
        let effects = seq![effect];
        assert(delivered_to(effects.drop_last(), id) =~= Seq::<u8>::empty());
    }
}

/// What two events amount to, the second of which starts no session and
/// always applies.
pub proof fn lemma_run_two(m: MuxView, used: Set<u64>, first: Event, second: Event, id: u64)
    requires
        step(m, first) is Some,
        !(second is Opened),
        !(second is Received),
    ensures
        run(m, seq![first, second]) == Some(
            (
                step(step(m, first).unwrap().next, second).unwrap().next,
                seq![step(m, first).unwrap().effect, EffectView::Nothing],
            ),
        ),
        sent_to(seq![first, second], id) == first.brings(id),
        fresh(used, seq![first, second]) == fresh(used, seq![first]),
        used_after(used, seq![first, second]) == used_after(used, seq![first]),
        delivered_to(seq![step(m, first).unwrap().effect, EffectView::Nothing], id) == hands(
            step(m, first).unwrap().effect,
            id,
        ),
{
    lemma_run_one(m, used, first, id);
    let events = seq![first, second];
    assert(events.drop_last() =~= seq![first]);
    let s1 = step(m, first).unwrap();
    let effects = seq![s1.effect, EffectView::Nothing];
    assert(effects.drop_last() == seq![s1.effect]);
    assert(delivered_to(seq![s1.effect], id) == hands(s1.effect, id));
}

/// Whether every one of `events` is admissible.
pub open spec fn all_admissible(events: Seq<Event>) -> bool {
    forall|k: int| 0 <= k < events.len() ==> (#[trigger] events[k]).admissible()
}

/// Running one sequence of events after another is running them as one:
/// states, effects, bytes and used identifiers follow on.
pub proof fn lemma_run_append(
    m: MuxView,
    used: Set<u64>,
    first: Seq<Event>,
    second: Seq<Event>,
    id: u64,
)
    ensures
        run(m, first + second) == (match run(m, first) {
            None => None,
            Some((mid, effects)) => match run(mid, second) {
                None => None,
                Some((after, more)) => Some((after, effects + more)),
            },
        }),
        sent_to(first + second, id) == sent_to(first, id) + sent_to(second, id),
        used_after(used, first + second) == used_after(used_after(used, first), second),
        fresh(used, first + second) == (fresh(used, first) && fresh(
            used_after(used, first),
            second,
        )),
        all_admissible(first + second) == (all_admissible(first) && all_admissible(second)),
    decreases second.len(),
{
    let whole = first + second;
    if second.len() > 0 {
        let shorter = second.drop_last();
        lemma_run_append(m, used, first, shorter, id);
        assert(whole.drop_last() =~= first + shorter);
        if run(m, first) is Some && run(run(m, first).unwrap().0, shorter) is Some {
            let (mid, effects) = run(m, first).unwrap();
            let (before, more) = run(mid, shorter).unwrap();
            if step(before, second.last()) is Some {
                let s = step(before, second.last()).unwrap();
                assert((effects + more).push(s.effect) =~= effects + more.push(s.effect));
            }
        }
    }
    if all_admissible(whole) {
        assert forall|k: int| 0 <= k < first.len() implies (#[trigger] first[k]).admissible() by {
            assert(first[k] == whole[k]);
        }
        assert forall|k: int| 0 <= k < second.len() implies (#[trigger] second[k]).admissible() by {
            assert(second[k] == whole[k + first.len()]);
        }
    }
}

/// The bytes that two sequences of effects hand over are those of the one
/// followed by those of the other.
pub proof fn lemma_delivered_append(first: Seq<EffectView>, second: Seq<EffectView>, id: u64)
    ensures
        delivered_to(first + second, id) == delivered_to(first, id) + delivered_to(second, id),
    decreases second.len(),
{
    if second.len() > 0 {
        lemma_delivered_append(first, second.drop_last(), id);
        assert((first + second).drop_last() =~= first + second.drop_last());
    }
}

} // verus!
