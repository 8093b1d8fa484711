use runnel::address::{Address, Host};
use runnel::flow::{Config, RecvWindow, SendWindow};
use runnel::session::{Session, SessionEvent, SessionState};

use SessionEvent::{Aborted, Acknowledged, LocalClosed, Refused, RemoteClosed};
use SessionState::{Closed, Failed, LocalHalfClosed, Open, Opening, RemoteHalfClosed};

fn target() -> Address {
    Address { host: Host::V4([127, 0, 0, 1]), port: 80 }
}

#[test]
fn opening_moves_on_ack_refusal_and_abort() {
    assert_eq!(Opening.on_event(Acknowledged), Open);
    assert_eq!(Opening.on_event(Refused), Failed);
    assert_eq!(Opening.on_event(Aborted), Failed);
    assert_eq!(Opening.on_event(LocalClosed), Opening);
    assert_eq!(Opening.on_event(RemoteClosed), Opening);
}

#[test]
fn open_half_closes_either_way() {
    assert_eq!(Open.on_event(LocalClosed), LocalHalfClosed);
    assert_eq!(Open.on_event(RemoteClosed), RemoteHalfClosed);
    assert_eq!(Open.on_event(Aborted), Failed);
    assert_eq!(Open.on_event(Acknowledged), Open);
    assert_eq!(Open.on_event(Refused), Open);
}

#[test]
fn both_half_closes_make_closed() {
    assert_eq!(LocalHalfClosed.on_event(RemoteClosed), Closed);
    assert_eq!(RemoteHalfClosed.on_event(LocalClosed), Closed);
    assert_eq!(LocalHalfClosed.on_event(LocalClosed), LocalHalfClosed);
    assert_eq!(RemoteHalfClosed.on_event(RemoteClosed), RemoteHalfClosed);
    assert_eq!(LocalHalfClosed.on_event(Aborted), Failed);
    assert_eq!(RemoteHalfClosed.on_event(Aborted), Failed);
}

#[test]
fn terminal_states_absorb_every_event() {
    for state in [Closed, Failed] {
        for event in [Acknowledged, Refused, LocalClosed, RemoteClosed, Aborted] {
            assert_eq!(state.on_event(event), state);
        }
        assert!(state.terminal());
        assert!(!state.sending());
        assert!(!state.receiving());
    }
}

#[test]
fn who_may_send_and_receive() {
    assert!(!Opening.sending() && !Opening.receiving() && !Opening.terminal());
    assert!(Open.sending() && Open.receiving() && !Open.terminal());
    assert!(!LocalHalfClosed.sending() && LocalHalfClosed.receiving());
    assert!(RemoteHalfClosed.sending() && !RemoteHalfClosed.receiving());
}

#[test]
fn new_session_waits_without_credit() {
    let s = Session::opening(9, target());
    assert_eq!(s.id, 9);
    assert_eq!(s.state, Opening);
    assert_eq!(s.target, target());
    assert_eq!(s.send, SendWindow { credit: 0 });
    assert_eq!(s.recv, RecvWindow { credit: 0, held: 0, drained: 0 });
    assert!(s.pending.is_empty());
    assert!(!s.eof);
    assert!(s.takes_input());
    assert!(!s.ready());
}

#[test]
fn acknowledge_opens_both_windows() {
    let mut s = Session::opening(1, target());
    s.acknowledge(&Config::default());
    assert_eq!(s.state, Open);
    assert_eq!(s.send.credit, 65536);
    assert_eq!(s.recv, RecvWindow { credit: 65536, held: 0, drained: 0 });
}

#[test]
fn chunks_are_cut_within_credit_and_chunk_size() {
    let cfg = Config { window: 10, replenish_at: 5, max_chunk: 4 };
    let mut s = Session::opening(1, target());
    s.queue(b"0123456789abcdef");
    assert!(!s.ready());
    s.acknowledge(&cfg);
    assert!(s.ready());
    assert_eq!(s.cut_chunk(&cfg), b"0123".to_vec());
    assert_eq!(s.cut_chunk(&cfg), b"4567".to_vec());
    assert_eq!(s.send.credit, 2);
    assert_eq!(s.cut_chunk(&cfg), b"89".to_vec());
    assert_eq!(s.send.credit, 0);
    assert_eq!(s.pending, b"abcdef".to_vec());
    assert!(!s.ready());
    assert_eq!(s.cut_chunk(&cfg), Vec::<u8>::new());
    s.grant(3);
    assert!(s.ready());
    assert_eq!(s.cut_chunk(&cfg), b"abc".to_vec());
    assert_eq!(s.pending, b"def".to_vec());
}

#[test]
fn close_is_owed_only_after_everything_is_sent() {
    let cfg = Config { window: 4, replenish_at: 2, max_chunk: 4 };
    let mut s = Session::opening(1, target());
    s.acknowledge(&cfg);
    s.queue(b"abcdef");
    s.finish_input();
    assert!(!s.takes_input());
    assert!(s.ready());
    assert_eq!(s.cut_chunk(&cfg), b"abcd".to_vec());
    assert!(!s.ready());
    s.grant(10);
    assert_eq!(s.cut_chunk(&cfg), b"ef".to_vec());
    assert!(s.ready());
    assert!(s.pending.is_empty());
    s.apply(LocalClosed);
    assert_eq!(s.state, LocalHalfClosed);
    assert!(!s.ready());
}

#[test]
fn receive_and_release_account_for_bytes() {
    let cfg = Config { window: 100, replenish_at: 50, max_chunk: 16 };
    let mut s = Session::opening(1, target());
    assert!(!s.receive(1));
    s.acknowledge(&cfg);
    assert!(s.receive(70));
    assert!(!s.receive(31));
    assert_eq!(s.recv, RecvWindow { credit: 30, held: 70, drained: 0 });
    assert_eq!(s.release(49, &cfg), None);
    assert_eq!(s.release(21, &cfg), Some(70));
    assert_eq!(s.recv, RecvWindow { credit: 100, held: 0, drained: 0 });
}
