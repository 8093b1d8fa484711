//! Credit based flow control for one direction of one session.
//!
//! The receiver of a direction grants the sender a window of bytes. The
//! sender spends credit with every `Data` frame and holds back what it has
//! no credit for. The receiver hands the bytes to its endpoint, and once
//! the endpoint has taken enough of them it returns the credit with a
//! `WindowUpdate`. A peer that sends more than it was granted has broken the
//! protocol.

use vstd::prelude::*;
use crate::frame::MAX_DATA_LEN;

verus! {

/// The window that each direction starts with unless told otherwise.
pub const DEFAULT_WINDOW: u32 = 65536;

/// The number of consumed bytes after which credit is returned, unless told
/// otherwise: half the default window.
pub const DEFAULT_REPLENISH_AT: u32 = 32768;

/// The settings of flow control, the same on both sides of a tunnel.
#[derive(Clone, Copy, Debug, PartialEq, Eq, Structural)]
pub struct Config {
    /// The credit that each direction of a session starts with.
    pub window: u32,
    /// Credit is returned once the endpoint has consumed this many bytes
    /// that were not yet returned.
    pub replenish_at: u32,
    /// The largest payload put into one `Data` frame.
    pub max_chunk: u32,
}

impl Config {
    /// The settings make sense: credit is returned before the window runs
    /// dry, and a chunk is not empty and fits a `Data` frame.
    pub open spec fn wf(self) -> bool {
        &&& 1 <= self.replenish_at <= self.window
        &&& 1 <= self.max_chunk <= MAX_DATA_LEN
    }

    /// A window of 64 KiB, credit returned at half of it, chunks of 16 KiB.
    pub open spec fn standard() -> Config {
        Config {
            window: DEFAULT_WINDOW,
            replenish_at: DEFAULT_REPLENISH_AT,
            max_chunk: MAX_DATA_LEN as u32,
        }
    }

    /// Whether the settings make sense.
    pub fn is_valid(&self) -> (ok: bool)
        ensures
            ok == self.wf(),
    {
        1 <= self.replenish_at && self.replenish_at <= self.window && 1 <= self.max_chunk
            && self.max_chunk <= MAX_DATA_LEN as u32
    }
}

impl Default for Config {
    fn default() -> (c: Config)
        ensures
            c == Config::standard(),
            c.wf(),
    {
        Config {
            window: DEFAULT_WINDOW,
            replenish_at: DEFAULT_REPLENISH_AT,
            max_chunk: MAX_DATA_LEN as u32,
        }
    }
}

/// The smaller of two numbers.
pub open spec fn min_nat(a: nat, b: nat) -> nat {
    if a <= b {
        a
    } else {
        b
    }
}

/// The sending side of a direction: the credit that is left.
#[derive(Clone, Copy, Debug, PartialEq, Eq, Structural)]
pub struct SendWindow {
    /// Bytes that may still be sent before more credit arrives.
    pub credit: u32,
}

impl SendWindow {
    /// How many of `wanted` bytes may go into the next `Data` frame: as many
    /// as there are, as the credit covers, and as a chunk holds.
    pub open spec fn allowance(self, wanted: nat, max_chunk: u32) -> nat {
        min_nat(min_nat(wanted, self.credit as nat), max_chunk as nat)
    }

    /// The window after `n` bytes were sent.
    pub open spec fn after_send(self, n: nat) -> SendWindow
        recommends
            n <= self.credit,
    {
        SendWindow { credit: (self.credit - n) as u32 }
    }

    /// The window after the peer returned `n` bytes of credit. The credit
    /// stops at the largest number it can hold.
    pub open spec fn after_grant(self, n: u32) -> SendWindow {
        SendWindow {
            credit: if self.credit + n > u32::MAX {
                u32::MAX
            } else {
                (self.credit + n) as u32
            },
        }
    }

    /// A window without credit, as before the session is acknowledged.
    pub fn closed() -> (w: SendWindow)
        ensures
            w.credit == 0,
    {
        SendWindow { credit: 0 }
    }

    /// A window with `credit` bytes of credit.
    pub fn with_credit(credit: u32) -> (w: SendWindow)
        ensures
            w.credit == credit,
    {
        SendWindow { credit }
    }

    /// Spends credit for the next `Data` frame and returns its size; zero
    /// where nothing is wanted or no credit is left.
    pub fn take(&mut self, wanted: usize, max_chunk: u32) -> (n: usize)
        ensures
            n == old(self).allowance(wanted as nat, max_chunk),
            *final(self) == old(self).after_send(n as nat),
            n <= old(self).credit,
            n <= wanted,
            n <= max_chunk,
    {
        let mut n: usize = wanted;
        if n > self.credit as usize {
            n = self.credit as usize;
        }
        if n > max_chunk as usize {
            n = max_chunk as usize;
        }
        self.credit = self.credit - n as u32;
        n
    }

    /// Adds the credit that a `WindowUpdate` returned.
    pub fn grant(&mut self, n: u32)
        ensures
            *final(self) == old(self).after_grant(n),
    {
        self.credit = self.credit.saturating_add(n);
    }
}

/// The receiving side of a direction.
///
/// Every byte of the window is in one of three places: still granted to the
/// peer (`credit`), handed to the endpoint and not yet consumed (`held`), or
/// consumed and not yet returned to the peer (`drained`).
#[derive(Clone, Copy, Debug, PartialEq, Eq, Structural)]
pub struct RecvWindow {
    /// Bytes that the peer may still send.
    pub credit: u32,
    /// Bytes handed to the endpoint that it has not consumed yet.
    pub held: u32,
    /// Bytes that the endpoint consumed and whose credit was not returned
    /// yet.
    pub drained: u32,
}

impl RecvWindow {
    /// The bytes of the window, wherever they are.
    pub open spec fn total(self) -> int {
        self.credit + self.held + self.drained
    }

    /// Whether `n` more bytes from the peer break its grant.
    pub open spec fn violates(self, n: nat) -> bool {
        n > self.credit
    }

    /// The window after `n` bytes arrived and went to the endpoint.
    pub open spec fn after_accept(self, n: nat) -> RecvWindow
        recommends
            n <= self.credit,
            self.total() <= u32::MAX,
    {
        RecvWindow { credit: (self.credit - n) as u32, held: (self.held + n) as u32, ..self }
    }

    /// How many of `n` bytes the endpoint can have consumed: no more than
    /// it holds.
    pub open spec fn consumed(self, n: u32) -> u32 {
        if n <= self.held {
            n
        } else {
            self.held
        }
    }

    /// The credit returned to the peer when the endpoint has consumed `n`
    /// bytes: everything consumed and not yet returned, once that reaches
    /// `replenish_at`; else nothing yet.
    pub open spec fn returned(self, n: u32, replenish_at: u32) -> Option<u32>
        recommends
            self.total() <= u32::MAX,
    {
        let drained = self.drained + self.consumed(n);
        if drained >= replenish_at {
            Some(drained as u32)
        } else {
            None
        }
    }

    /// The window after the endpoint consumed `n` bytes.
    pub open spec fn after_release(self, n: u32, replenish_at: u32) -> RecvWindow
        recommends
            self.total() <= u32::MAX,
    {
        let k = self.consumed(n);
        match self.returned(n, replenish_at) {
            Some(back) => RecvWindow {
                credit: (self.credit + back) as u32,
                held: (self.held - k) as u32,
                drained: 0,
            },
            None => RecvWindow {
                credit: self.credit,
                held: (self.held - k) as u32,
                drained: (self.drained + k) as u32,
            },
        }
    }

    /// A window that grants nothing, as before the session is acknowledged.
    pub fn closed() -> (w: RecvWindow)
        ensures
            w == (RecvWindow { credit: 0, held: 0, drained: 0 }),
            w.total() == 0,
    {
        RecvWindow { credit: 0, held: 0, drained: 0 }
    }

    /// A window that grants `credit` bytes.
    pub fn with_credit(credit: u32) -> (w: RecvWindow)
        ensures
            w == (RecvWindow { credit, held: 0, drained: 0 }),
            w.total() == credit,
    {
        RecvWindow { credit, held: 0, drained: 0 }
    }

    /// Accounts for `n` bytes from the peer. Returns `false`, and changes
    /// nothing, where the peer was not granted that many.
    pub fn accept(&mut self, n: usize) -> (ok: bool)
        requires
            old(self).total() <= u32::MAX,
        ensures
            ok == !old(self).violates(n as nat),
            ok ==> *final(self) == old(self).after_accept(n as nat),
            !ok ==> *final(self) == *old(self),
            final(self).total() == old(self).total(),
    {
        if n > self.credit as usize {
            return false;
        }
        self.credit = self.credit - n as u32;
        self.held = self.held + n as u32;
        true
    }

    /// Accounts for `n` bytes that the endpoint consumed, and returns the
    /// credit to send back to the peer in a `WindowUpdate`, if it is time
    /// for one.
    pub fn release(&mut self, n: u32, replenish_at: u32) -> (back: Option<u32>)
        requires
            old(self).total() <= u32::MAX,
        ensures
            back == old(self).returned(n, replenish_at),
            *final(self) == old(self).after_release(n, replenish_at),
            final(self).total() == old(self).total(),
    {
        let k: u32 = if n <= self.held {
            n
        } else {
            self.held
        };
        self.held = self.held - k;
        self.drained = self.drained + k;
        if self.drained >= replenish_at {
            let back: u32 = self.drained;
            self.credit = self.credit + back;
            self.drained = 0;
            Some(back)
        } else {
            None
        }
    }
}

/// What happens at the sending side of a direction.
pub enum SenderStep {
    /// The endpoint has this many bytes waiting and a frame is cut from
    /// them.
    Send(nat),
    /// The peer returned this much credit.
    Grant(u32),
}

/// The window after `steps`, in order.
pub open spec fn window_after(w: SendWindow, steps: Seq<SenderStep>, max_chunk: u32) -> SendWindow
    decreases steps.len(),
{
    if steps.len() == 0 {
        w
    } else {
        let before = window_after(w, steps.drop_last(), max_chunk);
        match steps.last() {
            SenderStep::Send(wanted) => before.after_send(before.allowance(wanted, max_chunk)),
            SenderStep::Grant(n) => before.after_grant(n),
        }
    }
}

/// The bytes sent during `steps`.
pub open spec fn bytes_sent(w: SendWindow, steps: Seq<SenderStep>, max_chunk: u32) -> nat
    decreases steps.len(),
{
    if steps.len() == 0 {
        0
    } else {
        let before = window_after(w, steps.drop_last(), max_chunk);
        bytes_sent(w, steps.drop_last(), max_chunk) + match steps.last() {
            SenderStep::Send(wanted) => before.allowance(wanted, max_chunk),
            SenderStep::Grant(_) => 0nat,
        }
    }
}

/// The credit returned during `steps`.
pub open spec fn bytes_granted(steps: Seq<SenderStep>) -> nat
    decreases steps.len(),
{
    if steps.len() == 0 {
        0
    } else {
        bytes_granted(steps.drop_last()) + match steps.last() {
            SenderStep::Send(_) => 0nat,
            SenderStep::Grant(n) => n as nat,
        }
    }
}

/// A sender never has more bytes outstanding than it was granted: whatever
/// the endpoint offers and whenever credit arrives, the bytes sent plus the
/// credit still unspent stay within the starting credit plus the credit
/// returned since.
pub proof fn lemma_sender_within_credit(w: SendWindow, steps: Seq<SenderStep>, max_chunk: u32)
    ensures
        bytes_sent(w, steps, max_chunk) + window_after(w, steps, max_chunk).credit <= w.credit
            + bytes_granted(steps),
    decreases steps.len(),
{
    if steps.len() > 0 {
        lemma_sender_within_credit(w, steps.drop_last(), max_chunk);
    }
}

/// A receiver accepts exactly what it granted: bytes within the credit are
/// taken and leave the window's total unchanged, and one byte more is a
/// violation.
pub proof fn lemma_receiver_enforces_credit(w: RecvWindow, n: nat)
    requires
        w.total() <= u32::MAX,
    ensures
        w.violates(n) <==> n > w.credit,
        !w.violates(n) ==> w.after_accept(n).total() == w.total(),
        !w.violates(n) ==> w.after_accept(n).credit + n == w.credit,
{
}

/// Credit is conserved: consuming bytes moves them within the window and
/// never adds to it, so the peer is never granted more than the window.
pub proof fn lemma_release_conserves(w: RecvWindow, n: u32, replenish_at: u32)
    requires
        w.total() <= u32::MAX,
    ensures
        w.after_release(n, replenish_at).total() == w.total(),
        w.returned(n, replenish_at) matches Some(back) ==> w.after_release(n, replenish_at).credit
            == w.credit + back && back >= replenish_at,
{
}

/// One direction of a session between two sides that keep to the
/// protocol: the sender's window, the receiver's window, and what is under
/// way between them.
pub struct Link {
    /// The sending side.
    pub sender: SendWindow,
    /// The receiving side.
    pub receiver: RecvWindow,
    /// The sizes of the `Data` frames that were sent and have not arrived.
    pub data: Seq<u32>,
    /// The credit of the `WindowUpdate` frames that were sent and have not
    /// arrived.
    pub grants: Seq<u32>,
}

/// What can happen on a link.
pub enum LinkStep {
    /// The sender cuts a frame from this many waiting bytes and sends it.
    Send(nat),
    /// The oldest `Data` frame under way arrives.
    DataArrives,
    /// The receiver's endpoint consumes this many bytes.
    Consume(u32),
    /// The oldest `WindowUpdate` under way arrives.
    GrantArrives,
}

/// The sum of the numbers in `q`.
pub open spec fn sum(q: Seq<u32>) -> nat
    decreases q.len(),
{
    if q.len() == 0 {
        0
    } else {
        sum(q.drop_last()) + q.last() as nat
    }
}

impl Link {
    /// A link as it is when the session is acknowledged: a full window on
    /// both sides and nothing under way.
    pub open spec fn fresh(config: Config) -> Link {
        Link {
            sender: SendWindow { credit: config.window },
            receiver: RecvWindow { credit: config.window, held: 0, drained: 0 },
            data: Seq::<u32>::empty(),
            grants: Seq::<u32>::empty(),
        }
    }

    /// The books balance: the receiver's window is whole, and the credit
    /// that the receiver has granted is the credit that the sender holds,
    /// plus the bytes under way, plus the credit under way back.
    pub open spec fn balanced(self, config: Config) -> bool {
        &&& self.receiver.total() == config.window
        &&& self.sender.credit + sum(self.data) + sum(self.grants) == self.receiver.credit
    }

    /// The link after `step`; `None` where the receiver finds its grant
    /// broken.
    pub open spec fn after(self, step: LinkStep, config: Config) -> Option<Link> {
        match step {
            LinkStep::Send(wanted) => {
                let n = self.sender.allowance(wanted, config.max_chunk);
                Some(
                    Link {
                        sender: self.sender.after_send(n),
                        data: self.data.push(n as u32),
                        ..self
                    },
                )
            },
            LinkStep::DataArrives => if self.data.len() == 0 {
                Some(self)
            } else if self.receiver.violates(self.data[0] as nat) {
                None
            } else {
                Some(
                    Link {
                        receiver: self.receiver.after_accept(self.data[0] as nat),
                        data: self.data.drop_first(),
                        ..self
                    },
                )
            },
            LinkStep::Consume(n) => {
                let receiver = self.receiver.after_release(n, config.replenish_at);
                match self.receiver.returned(n, config.replenish_at) {
                    Some(back) => Some(Link { receiver, grants: self.grants.push(back), ..self }),
                    None => Some(Link { receiver, ..self }),
                }
            },
            LinkStep::GrantArrives => if self.grants.len() == 0 {
                Some(self)
            } else {
                Some(
                    Link {
                        sender: self.sender.after_grant(self.grants[0]),
                        grants: self.grants.drop_first(),
                        ..self
                    },
                )
            },
        }
    }

    /// The link after `steps`, in order; `None` where the receiver finds
    /// its grant broken on the way.
    pub open spec fn after_all(self, steps: Seq<LinkStep>, config: Config) -> Option<Link>
        decreases steps.len(),
    {
        if steps.len() == 0 {
            Some(self)
        } else {
            match self.after_all(steps.drop_last(), config) {
                None => None,
                Some(before) => before.after(steps.last(), config),
            }
        }
    }
}

/// The sum of a sequence with one more number at its end.
pub proof fn lemma_sum_push(q: Seq<u32>, x: u32)
    ensures
        sum(q.push(x)) == sum(q) + x,
{
    assert(q.push(x).drop_last() =~= q);
}

/// The sum of a sequence without its first number.
pub proof fn lemma_sum_drop_first(q: Seq<u32>)
    requires
        q.len() > 0,
    ensures
        sum(q.drop_first()) + q[0] == sum(q),
    decreases q.len(),
{
    if q.len() == 1 {
        assert(q.drop_first() =~= Seq::<u32>::empty());
        assert(q.drop_last() =~= Seq::<u32>::empty());
    } else {
        lemma_sum_drop_first(q.drop_last());
        assert(q.drop_first().drop_last() =~= q.drop_last().drop_first());
    }
}

/// One step keeps the books balanced, and the receiver never finds its
/// grant broken on a balanced link.
pub proof fn lemma_link_step(l: Link, step: LinkStep, config: Config)
    requires
        config.wf(),
        l.balanced(config),
    ensures
        l.after(step, config) is Some,
        l.after(step, config).unwrap().balanced(config),
{
    match step {
        LinkStep::Send(wanted) => {
            let n = l.sender.allowance(wanted, config.max_chunk);
            lemma_sum_push(l.data, n as u32);
        },
        LinkStep::DataArrives => {
            if l.data.len() > 0 {
                lemma_sum_drop_first(l.data);
            }
        },
        LinkStep::Consume(n) => {
            match l.receiver.returned(n, config.replenish_at) {
                Some(back) => {
                    lemma_sum_push(l.grants, back);
                },
                None => {},
            }
        },
        LinkStep::GrantArrives => {
            if l.grants.len() > 0 {
                lemma_sum_drop_first(l.grants);
            }
        },
    }
}

/// Two sides that keep to the protocol never see a credit violation.
/// Whatever the sender is offered, in whatever order frames arrive and
/// bytes are consumed, every `Data` frame finds the credit that it needs at
/// the receiver; and the bytes that the sender has under way never exceed
/// the credit that the receiver has granted, which never exceeds the
/// window. So a violation shows a peer that does not keep to the protocol.
pub proof fn lemma_conforming_peers_never_violate(steps: Seq<LinkStep>, config: Config)
    requires
        config.wf(),
    ensures
        Link::fresh(config).after_all(steps, config) matches Some(l) && l.balanced(config) && sum(
            l.data,
        ) <= l.receiver.credit <= config.window,
    decreases steps.len(),
{
    if steps.len() > 0 {
        lemma_conforming_peers_never_violate(steps.drop_last(), config);
        let before = Link::fresh(config).after_all(steps.drop_last(), config).unwrap();
        lemma_link_step(before, steps.last(), config);
    }
}

} // verus!
