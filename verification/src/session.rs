//! One proxied connection: its state machine and what it holds.

use vstd::prelude::*;
use crate::address::{Address, AddressView};
use crate::flow::{Config, RecvWindow, SendWindow};
use crate::wire::append;

verus! {

/// Where a session stands in its life.
#[derive(Clone, Copy, Debug, PartialEq, Eq, Structural)]
pub enum SessionState {
    /// `Open` was sent or received and the target is not reached yet.
    Opening,
    /// Bytes flow in both directions.
    Open,
    /// This side sent `Close`; the peer may still send.
    LocalHalfClosed,
    /// The peer sent `Close`; this side may still send.
    RemoteHalfClosed,
    /// Both directions are closed.
    Closed,
    /// The session was abandoned.
    Failed,
}

/// What can happen to a session.
#[derive(Clone, Copy, Debug, PartialEq, Eq, Structural)]
pub enum SessionEvent {
    /// The target was reached.
    Acknowledged,
    /// The target was not reached.
    Refused,
    /// This side sent `Close`.
    LocalClosed,
    /// The peer sent `Close`.
    RemoteClosed,
    /// A `Reset` arrived, an endpoint failed, or the tunnel was lost.
    Aborted,
}

impl SessionState {
    /// `Closed` and `Failed` are final.
    pub open spec fn is_terminal(self) -> bool {
        self == SessionState::Closed || self == SessionState::Failed
    }

    /// This side may send `Data`.
    pub open spec fn can_send(self) -> bool {
        self == SessionState::Open || self == SessionState::RemoteHalfClosed
    }

    /// The peer may send `Data`.
    pub open spec fn can_receive(self) -> bool {
        self == SessionState::Open || self == SessionState::LocalHalfClosed
    }

    /// The state after `event`. An event that does not apply to a state
    /// leaves it as it is.
    pub open spec fn next(self, event: SessionEvent) -> SessionState {
        match (self, event) {
            (SessionState::Closed, _) => SessionState::Closed,
            (SessionState::Failed, _) => SessionState::Failed,
            (_, SessionEvent::Aborted) => SessionState::Failed,
            (SessionState::Opening, SessionEvent::Acknowledged) => SessionState::Open,
            (SessionState::Opening, SessionEvent::Refused) => SessionState::Failed,
            (SessionState::Open, SessionEvent::LocalClosed) => SessionState::LocalHalfClosed,
            (SessionState::Open, SessionEvent::RemoteClosed) => SessionState::RemoteHalfClosed,
            (SessionState::LocalHalfClosed, SessionEvent::RemoteClosed) => SessionState::Closed,
            (SessionState::RemoteHalfClosed, SessionEvent::LocalClosed) => SessionState::Closed,
            (s, _) => s,
        }
    }

    /// Whether the state is final.
    pub fn terminal(self) -> (b: bool)
        ensures
            b == self.is_terminal(),
    {
        match self {
            SessionState::Closed => true,
            SessionState::Failed => true,
            _ => false,
        }
    }

    /// Whether this side may send `Data`.
    pub fn sending(self) -> (b: bool)
        ensures
            b == self.can_send(),
    {
        match self {
            SessionState::Open => true,
            SessionState::RemoteHalfClosed => true,
            _ => false,
        }
    }

    /// Whether the peer may send `Data`.
    pub fn receiving(self) -> (b: bool)
        ensures
            b == self.can_receive(),
    {
        match self {
            SessionState::Open => true,
            SessionState::LocalHalfClosed => true,
            _ => false,
        }
    }

    /// The state after `event`.
    pub fn on_event(self, event: SessionEvent) -> (s: SessionState)
        ensures
            s == self.next(event),
    {
        match self {
            SessionState::Closed => SessionState::Closed,
            SessionState::Failed => SessionState::Failed,
            SessionState::Opening => match event {
                SessionEvent::Aborted => SessionState::Failed,
                SessionEvent::Acknowledged => SessionState::Open,
                SessionEvent::Refused => SessionState::Failed,
                _ => SessionState::Opening,
            },
            SessionState::Open => match event {
                SessionEvent::Aborted => SessionState::Failed,
                SessionEvent::LocalClosed => SessionState::LocalHalfClosed,
                SessionEvent::RemoteClosed => SessionState::RemoteHalfClosed,
                _ => SessionState::Open,
            },
            SessionState::LocalHalfClosed => match event {
                SessionEvent::Aborted => SessionState::Failed,
                SessionEvent::RemoteClosed => SessionState::Closed,
                _ => SessionState::LocalHalfClosed,
            },
            SessionState::RemoteHalfClosed => match event {
                SessionEvent::Aborted => SessionState::Failed,
                SessionEvent::LocalClosed => SessionState::Closed,
                _ => SessionState::RemoteHalfClosed,
            },
        }
    }
}

/// The state after a sequence of events, in order.
pub open spec fn state_after(s: SessionState, events: Seq<SessionEvent>) -> SessionState
    decreases events.len(),
{
    if events.len() == 0 {
        s
    } else {
        state_after(s, events.drop_last()).next(events.last())
    }
}

/// Teardown is idempotent: nothing that happens to a session in a final
/// state changes it.
pub proof fn lemma_terminal_absorbs(s: SessionState, event: SessionEvent)
    requires
        s.is_terminal(),
    ensures
        s.next(event) == s,
{
}

/// A session in a final state stays there whatever follows.
pub proof fn lemma_terminal_forever(s: SessionState, events: Seq<SessionEvent>)
    requires
        s.is_terminal(),
    ensures
        state_after(s, events) == s,
    decreases events.len(),
{
    if events.len() > 0 {
        lemma_terminal_forever(s, events.drop_last());
    }
}

/// An abort ends every session, and a second one changes nothing.
pub proof fn lemma_abort_is_final(s: SessionState)
    ensures
        s.next(SessionEvent::Aborted).is_terminal(),
        s.next(SessionEvent::Aborted).next(SessionEvent::Aborted) == s.next(SessionEvent::Aborted),
        !s.is_terminal() ==> s.next(SessionEvent::Aborted) == SessionState::Failed,
{
}

/// A session is closed when both sides have closed, in either order, and
/// not before.
pub proof fn lemma_closed_needs_both(s: SessionState, event: SessionEvent)
    requires
        !s.is_terminal(),
    ensures
        s.next(event) == SessionState::Closed <==> (s == SessionState::LocalHalfClosed && event
            == SessionEvent::RemoteClosed) || (s == SessionState::RemoteHalfClosed && event
            == SessionEvent::LocalClosed),
        SessionState::Open.next(SessionEvent::LocalClosed).next(SessionEvent::RemoteClosed)
            == SessionState::Closed,
        SessionState::Open.next(SessionEvent::RemoteClosed).next(SessionEvent::LocalClosed)
            == SessionState::Closed,
{
}

/// A session as one side of the tunnel holds it.
#[derive(Clone, Debug, PartialEq, Eq)]
pub struct Session {
    /// The identifier that frames of this session carry.
    pub id: u64,
    /// Where the session stands.
    pub state: SessionState,
    /// The destination that the client asked for.
    pub target: Address,
    /// Credit for sending to the peer.
    pub send: SendWindow,
    /// Credit that the peer has for sending here.
    pub recv: RecvWindow,
    /// Bytes from the local endpoint that wait for credit.
    pub pending: Vec<u8>,
    /// The local endpoint reached the end of its stream; `Close` is owed
    /// once `pending` is sent.
    pub eof: bool,
}

/// A session as a mathematical value.
pub struct SessionView {
    pub id: u64,
    pub state: SessionState,
    pub target: AddressView,
    pub send: SendWindow,
    pub recv: RecvWindow,
    pub pending: Seq<u8>,
    pub eof: bool,
}

impl View for Session {
    type V = SessionView;

    open spec fn view(&self) -> SessionView {
        SessionView {
            id: self.id,
            state: self.state,
            target: self.target@,
            send: self.send,
            recv: self.recv,
            pending: self.pending@,
            eof: self.eof,
        }
    }
}

impl SessionView {
    /// What holds of every session in a table: it is not in a final state;
    /// before it is acknowledged no credit exists in either direction;
    /// afterwards the bytes of the receive window add up to the configured
    /// window; and once this side has closed nothing waits to be sent.
    pub open spec fn wf(self, config: Config) -> bool {
        &&& !self.state.is_terminal()
        &&& self.target.wf()
        &&& self.state == SessionState::Opening ==> self.send.credit == 0 && self.recv
            == (RecvWindow { credit: 0, held: 0, drained: 0 })
        &&& self.state != SessionState::Opening ==> self.recv.total() == config.window
        &&& self.state == SessionState::LocalHalfClosed ==> self.pending.len() == 0 && self.eof
    }

    /// A new session to `target`, not yet acknowledged.
    pub open spec fn opening(id: u64, target: AddressView) -> SessionView {
        SessionView {
            id,
            state: SessionState::Opening,
            target,
            send: SendWindow { credit: 0 },
            recv: RecvWindow { credit: 0, held: 0, drained: 0 },
            pending: Seq::<u8>::empty(),
            eof: false,
        }
    }

    /// The session once the target is reached: open, with a full window in
    /// each direction.
    pub open spec fn acknowledged(self, config: Config) -> SessionView {
        SessionView {
            state: self.state.next(SessionEvent::Acknowledged),
            send: SendWindow { credit: config.window },
            recv: RecvWindow { credit: config.window, held: 0, drained: 0 },
            ..self
        }
    }

    /// The session after `n` bytes arrived from the peer.
    pub open spec fn received(self, n: nat) -> SessionView {
        SessionView { recv: self.recv.after_accept(n), ..self }
    }

    /// The session after the peer returned `n` bytes of credit.
    pub open spec fn granted(self, n: u32) -> SessionView {
        SessionView { send: self.send.after_grant(n), ..self }
    }

    /// The session after `event` changed its state.
    pub open spec fn moved(self, event: SessionEvent) -> SessionView {
        SessionView { state: self.state.next(event), ..self }
    }

    /// Whether bytes from the local endpoint are taken: not after its end
    /// of stream, and not once this side has closed.
    pub open spec fn takes_input(self) -> bool {
        !self.eof && (self.state == SessionState::Opening || self.state.can_send())
    }

    /// The session after `bytes` from the local endpoint were queued.
    pub open spec fn queued(self, bytes: Seq<u8>) -> SessionView {
        SessionView { pending: self.pending + bytes, ..self }
    }

    /// The session after its local endpoint reached the end of its stream.
    pub open spec fn finished_input(self) -> SessionView {
        SessionView { eof: true, ..self }
    }

    /// Whether the session has a frame to send now: bytes that credit
    /// covers, or the `Close` that is owed once nothing waits.
    pub open spec fn ready(self) -> bool {
        self.state.can_send() && (if self.pending.len() > 0 {
            self.send.credit > 0
        } else {
            self.eof
        })
    }

    /// The size of the next `Data` frame.
    pub open spec fn chunk_len(self, config: Config) -> nat {
        self.send.allowance(self.pending.len(), config.max_chunk)
    }

    /// The payload of the next `Data` frame: the first waiting bytes.
    pub open spec fn chunk(self, config: Config) -> Seq<u8> {
        self.pending.take(self.chunk_len(config) as int)
    }

    /// The session after the next `Data` frame was cut from what waits.
    pub open spec fn after_chunk(self, config: Config) -> SessionView {
        SessionView {
            pending: self.pending.skip(self.chunk_len(config) as int),
            send: self.send.after_send(self.chunk_len(config)),
            ..self
        }
    }

    /// The session after the local endpoint consumed `n` bytes.
    pub open spec fn released(self, n: u32, config: Config) -> SessionView {
        SessionView { recv: self.recv.after_release(n, config.replenish_at), ..self }
    }
}

impl Session {
    /// A new session to `target`, not yet acknowledged.
    pub fn opening(id: u64, target: Address) -> (s: Session)
        ensures
            s@ == SessionView::opening(id, target@),
    {
        Session {
            id,
            state: SessionState::Opening,
            target,
            send: SendWindow::closed(),
            recv: RecvWindow::closed(),
            pending: Vec::new(),
            eof: false,
        }
    }

    /// Opens the session with a full window in each direction.
    pub fn acknowledge(&mut self, config: &Config)
        ensures
            final(self)@ == old(self)@.acknowledged(*config),
    {
        self.state = self.state.on_event(SessionEvent::Acknowledged);
        self.send = SendWindow::with_credit(config.window);
        self.recv = RecvWindow::with_credit(config.window);
    }

    /// Accounts for `n` bytes from the peer; `false`, and nothing changed,
    /// where the peer was not granted that many.
    pub fn receive(&mut self, n: usize) -> (ok: bool)
        requires
            old(self)@.recv.total() <= u32::MAX,
        ensures
            ok == !old(self)@.recv.violates(n as nat),
            ok ==> final(self)@ == old(self)@.received(n as nat),
            !ok ==> final(self)@ == old(self)@,
    {
        self.recv.accept(n)
    }

    /// Adds credit that the peer returned.
    pub fn grant(&mut self, n: u32)
        ensures
            final(self)@ == old(self)@.granted(n),
    {
        self.send.grant(n);
    }

    /// Moves the session to the state after `event`.
    pub fn apply(&mut self, event: SessionEvent)
        ensures
            final(self)@ == old(self)@.moved(event),
    {
        self.state = self.state.on_event(event);
    }

    /// Whether bytes from the local endpoint are taken.
    pub fn takes_input(&self) -> (b: bool)
        ensures
            b == self@.takes_input(),
    {
        !self.eof && (self.state == SessionState::Opening || self.state.sending())
    }

    /// Queues bytes from the local endpoint.
    pub fn queue(&mut self, bytes: &[u8])
        ensures
            final(self)@ == old(self)@.queued(bytes@),
    {
        append(&mut self.pending, bytes);
    }

    /// Notes that the local endpoint reached the end of its stream.
    pub fn finish_input(&mut self)
        ensures
            final(self)@ == old(self)@.finished_input(),
    {
        self.eof = true;
    }

    /// Whether the session has a frame to send now.
    pub fn ready(&self) -> (b: bool)
        ensures
            b == self@.ready(),
    {
        self.state.sending() && (if self.pending.len() > 0 {
            self.send.credit > 0
        } else {
            self.eof
        })
    }

    /// Cuts the payload of the next `Data` frame from what waits and spends
    /// the credit for it.
    pub fn cut_chunk(&mut self, config: &Config) -> (chunk: Vec<u8>)
        ensures
            chunk@ == old(self)@.chunk(*config),
            final(self)@ == old(self)@.after_chunk(*config),
    {
        let n: usize = self.send.take(self.pending.len(), config.max_chunk);
        let mut rest: Vec<u8> = self.pending.split_off(n);
        core::mem::swap(&mut self.pending, &mut rest);
        rest
    }

    /// Accounts for `n` bytes that the local endpoint consumed, and returns
    /// the credit to send back to the peer, if it is time.
    pub fn release(&mut self, n: u32, config: &Config) -> (back: Option<u32>)
        requires
            old(self)@.recv.total() <= u32::MAX,
        ensures
            back == old(self)@.recv.returned(n, config.replenish_at),
            final(self)@ == old(self)@.released(n, *config),
    {
        self.recv.release(n, config.replenish_at)
    }
}

/// Every step of a session keeps it well formed, as long as the step
/// applies: acknowledging while opening, receiving within the credit,
/// returning credit once open, queueing while input is taken, cutting a
/// chunk, and accounting for consumed bytes.
pub proof fn lemma_steps_keep_wf(s: SessionView, config: Config, n: nat, k: u32, bytes: Seq<u8>)
    requires
        s.wf(config),
        config.wf(),
    ensures
        s.state == SessionState::Opening ==> s.acknowledged(config).wf(config),
        s.state.can_receive() && !s.recv.violates(n) ==> s.received(n).wf(config),
        s.state != SessionState::Opening ==> s.granted(k).wf(config),
        s.takes_input() ==> s.queued(bytes).wf(config) && s.finished_input().wf(config),
        s.state.can_send() ==> s.after_chunk(config).wf(config),
        s.released(k, config).wf(config),
{
}

} // verus!
