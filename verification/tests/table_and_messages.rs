use runnel::address::{Address, Host};
use runnel::frame::{Frame, FrameKind};
use runnel::message::Message;
use runnel::session::{Session, SessionState};
use runnel::socks5::OpenFailure;
use runnel::table::SessionTable;

fn target(last: u8) -> Address {
    Address { host: Host::V4([10, 0, 0, last]), port: 80 }
}

fn ids(t: &SessionTable) -> Vec<u64> {
    (0..t.len()).map(|i| t.get(i).id).collect()
}

#[test]
fn table_finds_what_was_inserted() {
    let mut t = SessionTable::new();
    assert_eq!(t.len(), 0);
    assert_eq!(t.find(1), None);
    t.insert(Session::opening(5, target(5)));
    t.insert(Session::opening(1, target(1)));
    t.insert(Session::opening(9, target(9)));
    assert_eq!(t.len(), 3);
    assert_eq!(t.find(5), Some(0));
    assert_eq!(t.find(1), Some(1));
    assert_eq!(t.find(9), Some(2));
    assert_eq!(t.find(2), None);
    assert_eq!(t.get(1).target, target(1));
}

#[test]
fn table_removal_moves_the_last_session_into_the_gap() {
    let mut t = SessionTable::new();
    for id in [10u64, 20, 30, 40] {
        t.insert(Session::opening(id, target(id as u8)));
    }
    let gone = t.remove_at(1);
    assert_eq!(gone.id, 20);
    assert_eq!(ids(&t), vec![10, 40, 30]);
    assert_eq!(t.find(20), None);
    assert_eq!(t.find(40), Some(1));
    assert_eq!(t.find(30), Some(2));
    let gone = t.remove_at(2);
    assert_eq!(gone.id, 30);
    assert_eq!(ids(&t), vec![10, 40]);
    let gone = t.remove_at(0);
    assert_eq!(gone.id, 10);
    assert_eq!(ids(&t), vec![40]);
    assert_eq!(t.find(40), Some(0));
    t.remove_at(0);
    assert_eq!(t.len(), 0);
    assert_eq!(t.find(40), None);
}

#[test]
fn table_slot_can_be_changed_in_place() {
    let mut t = SessionTable::new();
    t.insert(Session::opening(1, target(1)));
    t.insert(Session::opening(2, target(2)));
    t.slot_mut(1).queue(b"abc");
    assert_eq!(t.get(1).pending, b"abc".to_vec());
    assert!(t.get(0).pending.is_empty());
    assert_eq!(t.find(2), Some(1));
}

#[test]
fn table_take_all_returns_ids_in_slot_order_and_empties() {
    let mut t = SessionTable::new();
    for id in [3u64, 1, 2] {
        t.insert(Session::opening(id, target(id as u8)));
    }
    assert_eq!(t.take_all(), vec![3, 1, 2]);
    assert_eq!(t.len(), 0);
    assert_eq!(t.find(3), None);
    assert_eq!(t.take_all(), Vec::<u64>::new());
    t.insert(Session::opening(3, target(3)));
    assert_eq!(t.find(3), Some(0));
    assert_eq!(t.get(0).state, SessionState::Opening);
}

#[test]
fn messages_have_their_payloads() {
    assert_eq!(
        Message::Open(target(1)).into_frame(7),
        Frame { session_id: 7, kind: FrameKind::Open, payload: vec![1, 10, 0, 0, 1, 0, 80] }
    );
    assert_eq!(
        Message::OpenAck(target(2)).into_frame(7),
        Frame { session_id: 7, kind: FrameKind::OpenAck, payload: vec![1, 10, 0, 0, 2, 0, 80] }
    );
    assert_eq!(
        Message::OpenFail(OpenFailure::ConnectFailed).into_frame(7),
        Frame { session_id: 7, kind: FrameKind::OpenFail, payload: vec![5] }
    );
    assert_eq!(
        Message::OpenFail(OpenFailure::Other).into_frame(7),
        Frame { session_id: 7, kind: FrameKind::OpenFail, payload: vec![1] }
    );
    assert_eq!(
        Message::Data(vec![1, 2, 3]).into_frame(7),
        Frame { session_id: 7, kind: FrameKind::Data, payload: vec![1, 2, 3] }
    );
    assert_eq!(
        Message::WindowUpdate(0x00010002).into_frame(7),
        Frame { session_id: 7, kind: FrameKind::WindowUpdate, payload: vec![0, 1, 0, 2] }
    );
    assert_eq!(Message::Close.into_frame(7), Frame::control(7, FrameKind::Close));
    assert_eq!(Message::Reset.into_frame(7), Frame::control(7, FrameKind::Reset));
}

#[test]
fn messages_read_back_from_their_frames() {
    let all = vec![
        Message::Open(Address { host: Host::Domain(b"a.b".to_vec()), port: 1 }),
        Message::OpenAck(Address { host: Host::V6([3; 16]), port: 2 }),
        Message::OpenFail(OpenFailure::ConnectFailed),
        Message::OpenFail(OpenFailure::Other),
        Message::Data(vec![]),
        Message::Data(vec![0; 16384]),
        Message::WindowUpdate(0),
        Message::WindowUpdate(u32::MAX),
        Message::Close,
        Message::Reset,
    ];
    for m in all {
        assert_eq!(Message::read(m.clone().into_frame(3)), Some(m));
    }
}

#[test]
fn payloads_of_the_wrong_form_are_not_read() {
    let f = |kind, payload: &[u8]| Frame { session_id: 1, kind, payload: payload.to_vec() };
    assert_eq!(Message::read(f(FrameKind::Open, &[])), None);
    assert_eq!(Message::read(f(FrameKind::Open, &[1, 1, 2, 3, 4, 0])), None);
    assert_eq!(Message::read(f(FrameKind::Open, &[1, 1, 2, 3, 4, 0, 80, 0])), None);
    assert_eq!(Message::read(f(FrameKind::Open, &[9, 1, 2, 3, 4, 0, 80])), None);
    assert_eq!(Message::read(f(FrameKind::Open, &[3, 1, 0xFF, 0, 80])), None);
    assert_eq!(Message::read(f(FrameKind::OpenAck, &[4, 0, 0])), None);
    assert_eq!(Message::read(f(FrameKind::OpenFail, &[])), None);
    assert_eq!(Message::read(f(FrameKind::OpenFail, &[5, 5])), None);
    assert_eq!(Message::read(f(FrameKind::Data, &vec![0; 16385])), None);
    assert_eq!(Message::read(f(FrameKind::WindowUpdate, &[0, 0, 1])), None);
    assert_eq!(Message::read(f(FrameKind::WindowUpdate, &[0, 0, 0, 0, 1])), None);
    assert_eq!(Message::read(f(FrameKind::Close, &[0])), None);
    assert_eq!(Message::read(f(FrameKind::Reset, &[0])), None);
    assert_eq!(
        Message::read(f(FrameKind::OpenFail, &[0x63])),
        Some(Message::OpenFail(OpenFailure::Other))
    );
}
