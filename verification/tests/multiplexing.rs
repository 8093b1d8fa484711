use runnel::address::{Address, Host};
use runnel::agent::{reply_for, AgentMux, OpenError};
use runnel::engine::Multiplexer;
use runnel::flow::{Config, RecvWindow};
use runnel::frame::{decode, Frame, FrameKind, DEFAULT_MAX_FRAME_LEN};
use runnel::message::Message;
use runnel::mux::{Effect, Outgoing, ProtocolError};
use runnel::server::CoreTunnelServer;
use runnel::session::SessionState;
use runnel::socks5::{
    failure_reply, method_reply_bytes, read_greeting, read_request, success_reply, OpenFailure,
};

fn target(last: u8) -> Address {
    Address { host: Host::V4([10, 0, 0, last]), port: 80 }
}

fn bound() -> Address {
    Address { host: Host::V4([192, 168, 0, 2]), port: 50000 }
}

fn small() -> Config {
    Config { window: 10, replenish_at: 5, max_chunk: 4 }
}

fn out(frame: Frame) -> Option<Outgoing> {
    Some(Outgoing { frame, finished: false })
}

fn data(id: u64, bytes: &[u8]) -> Frame {
    Message::Data(bytes.to_vec()).into_frame(id)
}

/// Carries a frame over the wire as the tunnel would.
fn over_the_wire(frame: Frame) -> Frame {
    let bytes = frame.encode(DEFAULT_MAX_FRAME_LEN).unwrap();
    let (back, used) = decode(&bytes, DEFAULT_MAX_FRAME_LEN).unwrap();
    assert_eq!(used, bytes.len());
    back
}

/// An agent and a server with one open session between them.
fn open_pair(cfg: Config) -> (AgentMux, CoreTunnelServer, u64) {
    let mut agent = AgentMux::new(cfg).unwrap();
    let mut server = CoreTunnelServer::new(cfg).unwrap();
    let id = agent.open_session(target(1)).unwrap();
    let open = agent.next_frame().unwrap().frame;
    assert_eq!(server.on_frame(over_the_wire(open)), Ok(Effect::Dial { session: id, target: target(1) }));
    assert!(server.dial_succeeded(id, bound()));
    let ack = server.next_frame().unwrap().frame;
    assert_eq!(
        agent.on_frame(over_the_wire(ack)),
        Ok(Effect::Established { session: id, bound: bound() })
    );
    (agent, server, id)
}

#[test]
fn engines_start_empty() {
    assert!(Multiplexer::new(Config { window: 0, replenish_at: 0, max_chunk: 0 }).is_none());
    assert!(AgentMux::new(Config { window: 4, replenish_at: 5, max_chunk: 1 }).is_none());
    assert!(CoreTunnelServer::new(Config { window: 4, replenish_at: 4, max_chunk: 0 }).is_none());
    let mut m = Multiplexer::new(small()).unwrap();
    assert_eq!(m.config(), small());
    assert_eq!(m.len(), 0);
    assert_eq!(m.queued_frames(), 0);
    assert_eq!(m.next_frame(), None);
    assert_eq!(Multiplexer::standard().config(), Config::default());
    let mut server = CoreTunnelServer::default();
    assert_eq!(server.engine().config(), Config::default());
    assert_eq!(server.engine().len(), 0);
    assert_eq!(server.next_frame(), None);
    assert_eq!(AgentMux::standard().engine().config(), Config::default());
}

#[test]
fn connect_to_loopback_end_to_end() {
    // The client greets and is answered.
    assert_eq!(read_greeting(&[0x05, 0x01, 0x00]), Ok(3));
    assert_eq!(method_reply_bytes(), vec![0x05, 0x00]);
    // The client asks for 127.0.0.1:80.
    let request = [0x05, 0x01, 0x00, 0x01, 0x7F, 0x00, 0x00, 0x01, 0x00, 0x50];
    let (wanted, used) = read_request(&request).unwrap();
    assert_eq!(used, 10);
    assert_eq!(wanted, Address { host: Host::V4([127, 0, 0, 1]), port: 80 });

    let mut agent = AgentMux::standard();
    let mut server = CoreTunnelServer::default();
    let id = agent.open_session(wanted.duplicate()).unwrap();
    assert_eq!(id, 0);
    assert_eq!(agent.engine().session(id).unwrap().state, SessionState::Opening);

    // What the client sends before the reply is held back.
    assert!(agent.local_data(id, b"GET "));
    let open = agent.next_frame().unwrap().frame;
    assert_eq!(
        open,
        Frame { session_id: 0, kind: FrameKind::Open, payload: vec![1, 127, 0, 0, 1, 0, 80] }
    );
    assert_eq!(agent.next_frame(), None);

    // The server dials and succeeds.
    assert_eq!(
        server.on_frame(over_the_wire(open)),
        Ok(Effect::Dial { session: 0, target: wanted.duplicate() })
    );
    assert_eq!(server.engine().session(0).unwrap().target, wanted);
    let local = Address { host: Host::V4([10, 1, 2, 3]), port: 0xC001 };
    assert!(server.dial_succeeded(0, local.duplicate()));
    assert_eq!(server.engine().session(0).unwrap().state, SessionState::Open);
    let ack = server.next_frame().unwrap().frame;
    assert_eq!(ack.kind, FrameKind::OpenAck);

    // The agent replies to the client with the bound address.
    let effect = agent.on_frame(over_the_wire(ack)).unwrap();
    assert_eq!(effect, Effect::Established { session: 0, bound: local.duplicate() });
    assert_eq!(success_reply(&local), vec![0x05, 0x00, 0x00, 0x01, 10, 1, 2, 3, 0xC0, 0x01]);

    // What the client writes appears, in order, at the target.
    assert!(agent.local_data(id, b"/ HTTP/1.1\r\n"));
    assert!(agent.local_data(id, b"\r\n"));
    let mut at_target = Vec::new();
    while let Some(o) = agent.next_frame() {
        match server.on_frame(over_the_wire(o.frame)).unwrap() {
            Effect::Deliver { session, bytes } => {
                assert_eq!(session, 0);
                at_target.extend_from_slice(&bytes);
            },
            other => panic!("unexpected effect {:?}", other),
        }
    }
    assert_eq!(at_target, b"GET / HTTP/1.1\r\n\r\n".to_vec());

    // And what the target answers appears at the client.
    assert!(server.local_data(0, b"HTTP/1.1 200 OK\r\n"));
    let back = server.next_frame().unwrap().frame;
    assert_eq!(
        agent.on_frame(over_the_wire(back)),
        Ok(Effect::Deliver { session: 0, bytes: b"HTTP/1.1 200 OK\r\n".to_vec() })
    );
}

#[test]
fn refused_dial_gives_status_5_and_leaves_no_session() {
    let mut agent = AgentMux::standard();
    let mut server = CoreTunnelServer::default();
    let id = agent.open_session(target(9)).unwrap();
    assert!(agent.local_data(id, b"early bytes"));
    let open = agent.next_frame().unwrap().frame;
    assert_eq!(server.on_frame(open), Ok(Effect::Dial { session: id, target: target(9) }));

    assert!(server.dial_failed(id, OpenFailure::ConnectFailed));
    assert_eq!(server.engine().len(), 0);
    assert!(server.engine().session(id).is_none());
    let fail = server.next_frame().unwrap().frame;
    assert_eq!(fail, Frame { session_id: id, kind: FrameKind::OpenFail, payload: vec![5] });
    assert_eq!(server.next_frame(), None);

    let effect = agent.on_frame(over_the_wire(fail)).unwrap();
    assert_eq!(effect, Effect::Refused { session: id, reason: OpenFailure::ConnectFailed });
    let reply = failure_reply(OpenFailure::ConnectFailed);
    assert_eq!(reply[1], 0x05);
    assert_eq!(reply, vec![0x05, 0x05, 0x00, 0x01, 0, 0, 0, 0, 0, 0]);
    assert_eq!(agent.engine().len(), 0);
    assert!(agent.engine().session(id).is_none());
    // Nothing of the session was or will be sent.
    assert_eq!(agent.next_frame(), None);
    assert!(!agent.local_data(id, b"more"));
    assert_eq!(agent.next_frame(), None);
    // A second report of the dial changes nothing.
    assert!(!server.dial_failed(id, OpenFailure::Other));
    assert!(!server.dial_succeeded(id, bound()));
    assert_eq!(server.next_frame(), None);
}

#[test]
fn other_dial_failure_gives_status_1() {
    let mut agent = AgentMux::standard();
    let mut server = CoreTunnelServer::default();
    let id = agent.open_session(target(9)).unwrap();
    server.on_frame(agent.next_frame().unwrap().frame).unwrap();
    assert!(server.dial_failed(id, OpenFailure::Other));
    let fail = server.next_frame().unwrap().frame;
    assert_eq!(fail.payload, vec![1]);
    assert_eq!(agent.on_frame(fail), Ok(Effect::Refused { session: id, reason: OpenFailure::Other }));
    assert_eq!(failure_reply(OpenFailure::Other)[1], 0x01);
}

#[test]
fn open_session_hands_out_growing_identifiers() {
    let mut agent = AgentMux::standard();
    assert_eq!(agent.open_session(target(1)), Ok(0));
    assert_eq!(agent.open_session(target(2)), Ok(1));
    assert!(agent.local_error(0));
    assert_eq!(agent.open_session(target(3)), Ok(2));
    assert_eq!(agent.engine().len(), 2);
    let too_long = Address { host: Host::Domain(vec![b'a'; 300]), port: 1 };
    assert_eq!(agent.open_session(too_long), Err(OpenError::InvalidTarget));
    let not_utf8 = Address { host: Host::Domain(vec![0xFF, 0xFE]), port: 1 };
    assert_eq!(agent.open_session(not_utf8), Err(OpenError::InvalidTarget));
    assert_eq!(agent.open_session(target(4)), Ok(3));
}

#[test]
fn nothing_is_delivered_or_sent_before_the_target_is_reached() {
    let mut agent = AgentMux::new(small()).unwrap();
    let id = agent.open_session(target(1)).unwrap();
    agent.next_frame().unwrap();
    assert!(agent.local_data(id, b"abc"));
    assert_eq!(agent.next_frame(), None);
    assert_eq!(agent.on_frame(data(id, b"")), Ok(Effect::Nothing));
    assert_eq!(agent.on_frame(data(id, b"x")), Err(ProtocolError::CreditViolation));
    assert_eq!(agent.on_frame(Message::WindowUpdate(100).into_frame(id)), Ok(Effect::Nothing));
    assert_eq!(agent.engine().session(id).unwrap().send.credit, 0);
    assert_eq!(agent.next_frame(), None);
    assert_eq!(agent.on_frame(Message::Close.into_frame(id)), Ok(Effect::Nothing));
    assert_eq!(agent.engine().session(id).unwrap().state, SessionState::Opening);
    assert_eq!(
        agent.on_frame(Message::OpenAck(bound()).into_frame(id)),
        Ok(Effect::Established { session: id, bound: bound() })
    );
    assert_eq!(agent.next_frame(), out(data(id, b"abc")));
}

#[test]
fn sender_stops_at_its_credit_and_goes_on_after_a_window_update() {
    let (mut agent, mut server, id) = open_pair(small());
    assert!(agent.local_data(id, b"0123456789ABCDEF"));
    assert_eq!(agent.next_frame(), out(data(id, b"0123")));
    assert_eq!(agent.next_frame(), out(data(id, b"4567")));
    assert_eq!(agent.next_frame(), out(data(id, b"89")));
    assert_eq!(agent.next_frame(), None);
    assert_eq!(agent.engine().session(id).unwrap().send.credit, 0);
    assert_eq!(agent.engine().session(id).unwrap().pending, b"ABCDEF".to_vec());

    for chunk in [&b"0123"[..], b"4567", b"89"] {
        assert_eq!(
            server.on_frame(data(id, chunk)),
            Ok(Effect::Deliver { session: id, bytes: chunk.to_vec() })
        );
    }
    assert_eq!(
        server.engine().session(id).unwrap().recv,
        RecvWindow { credit: 0, held: 10, drained: 0 }
    );
    // The target takes four bytes: below the threshold, no update yet.
    assert!(server.local_consumed(id, 4));
    assert_eq!(server.next_frame(), None);
    // Two more reach the threshold of five.
    assert!(server.local_consumed(id, 2));
    let update = server.next_frame().unwrap().frame;
    assert_eq!(update, Message::WindowUpdate(6).into_frame(id));
    assert_eq!(
        server.engine().session(id).unwrap().recv,
        RecvWindow { credit: 6, held: 4, drained: 0 }
    );
    assert_eq!(agent.on_frame(update), Ok(Effect::Nothing));
    assert_eq!(agent.engine().session(id).unwrap().send.credit, 6);
    assert_eq!(agent.next_frame(), out(data(id, b"ABCD")));
    assert_eq!(agent.next_frame(), out(data(id, b"EF")));
    assert_eq!(agent.next_frame(), None);
    assert_eq!(agent.engine().session(id).unwrap().send.credit, 0);
}

#[test]
fn data_beyond_the_grant_is_a_credit_violation() {
    let (_agent, mut server, id) = open_pair(small());
    assert_eq!(
        server.on_frame(data(id, b"0123456")),
        Ok(Effect::Deliver { session: id, bytes: b"0123456".to_vec() })
    );
    let before = server.engine().session(id).unwrap().clone();
    assert_eq!(server.on_frame(data(id, b"0123")), Err(ProtocolError::CreditViolation));
    assert_eq!(server.engine().session(id).unwrap(), &before);
    assert_eq!(
        server.on_frame(data(id, b"012")),
        Ok(Effect::Deliver { session: id, bytes: b"012".to_vec() })
    );
    assert_eq!(server.on_frame(data(id, b"0")), Err(ProtocolError::CreditViolation));
    assert_eq!(server.on_frame(data(id, b"")), Ok(Effect::Deliver { session: id, bytes: vec![] }));
}

#[test]
fn ready_sessions_send_in_turn() {
    let cfg = Config { window: 100, replenish_at: 50, max_chunk: 2 };
    let mut agent = AgentMux::new(cfg).unwrap();
    for last in 0..3u8 {
        let id = agent.open_session(target(last)).unwrap();
        agent.next_frame().unwrap();
        agent.on_frame(Message::OpenAck(bound()).into_frame(id)).unwrap();
    }
    assert!(agent.local_data(0, b"aaaaaa"));
    assert!(agent.local_data(1, b"bb"));
    assert!(agent.local_data(2, b"cccc"));
    let mut order = Vec::new();
    while let Some(o) = agent.next_frame() {
        order.push((o.frame.session_id, o.frame.payload));
    }
    assert_eq!(
        order,
        vec![
            (0, b"aa".to_vec()),
            (1, b"bb".to_vec()),
            (2, b"cc".to_vec()),
            (0, b"aa".to_vec()),
            (2, b"cc".to_vec()),
            (0, b"aa".to_vec()),
        ]
    );
}

#[test]
fn a_stalled_session_does_not_hold_up_the_others() {
    let cfg = Config { window: 4, replenish_at: 2, max_chunk: 4 };
    let mut agent = AgentMux::new(cfg).unwrap();
    for last in 0..2u8 {
        let id = agent.open_session(target(last)).unwrap();
        agent.next_frame().unwrap();
        agent.on_frame(Message::OpenAck(bound()).into_frame(id)).unwrap();
    }
    assert!(agent.local_data(0, b"0123456789"));
    assert_eq!(agent.next_frame(), out(data(0, b"0123")));
    assert_eq!(agent.next_frame(), None);
    // Session 0 has no credit; session 1 still sends.
    assert!(agent.local_data(1, b"xy"));
    assert_eq!(agent.next_frame(), out(data(1, b"xy")));
    assert_eq!(agent.next_frame(), None);
    assert_eq!(agent.engine().session(0).unwrap().pending, b"456789".to_vec());
}

#[test]
fn control_frames_go_before_data() {
    let (mut agent, _server, id) = open_pair(small());
    assert!(agent.local_data(id, b"abcd"));
    let second = agent.open_session(target(2)).unwrap();
    assert_eq!(agent.engine().queued_frames(), 1);
    assert_eq!(agent.next_frame().unwrap().frame, Message::Open(target(2)).into_frame(second));
    assert_eq!(agent.next_frame(), out(data(id, b"abcd")));
}

#[test]
fn half_close_from_the_client_then_from_the_target() {
    let (mut agent, mut server, id) = open_pair(small());
    assert!(agent.local_data(id, b"bye"));
    assert!(agent.local_eof(id));
    assert!(!agent.local_eof(id));
    assert!(!agent.local_data(id, b"late"));
    assert_eq!(agent.next_frame(), out(data(id, b"bye")));
    assert_eq!(agent.next_frame(), out(Frame::control(id, FrameKind::Close)));
    assert_eq!(agent.engine().session(id).unwrap().state, SessionState::LocalHalfClosed);
    assert_eq!(agent.next_frame(), None);

    assert_eq!(server.on_frame(data(id, b"bye")), Ok(Effect::Deliver { session: id, bytes: b"bye".to_vec() }));
    assert_eq!(server.on_frame(Frame::control(id, FrameKind::Close)), Ok(Effect::Shutdown { session: id }));
    assert_eq!(server.engine().session(id).unwrap().state, SessionState::RemoteHalfClosed);

    // The target still answers, then finishes.
    assert!(server.local_data(id, b"ok"));
    assert!(server.local_eof(id));
    assert_eq!(server.next_frame(), out(data(id, b"ok")));
    assert_eq!(
        server.next_frame(),
        Some(Outgoing { frame: Frame::control(id, FrameKind::Close), finished: true })
    );
    assert!(server.engine().session(id).is_none());
    assert_eq!(server.engine().len(), 0);

    assert_eq!(agent.on_frame(data(id, b"ok")), Ok(Effect::Deliver { session: id, bytes: b"ok".to_vec() }));
    assert_eq!(agent.on_frame(Frame::control(id, FrameKind::Close)), Ok(Effect::Finished { session: id }));
    assert_eq!(agent.engine().len(), 0);
}

#[test]
fn close_waits_for_credit_when_bytes_are_pending() {
    let cfg = Config { window: 2, replenish_at: 1, max_chunk: 8 };
    let (mut agent, _server, id) = open_pair(cfg);
    assert!(agent.local_data(id, b"abcd"));
    assert!(agent.local_eof(id));
    assert_eq!(agent.next_frame(), out(data(id, b"ab")));
    assert_eq!(agent.next_frame(), None);
    assert_eq!(agent.engine().session(id).unwrap().state, SessionState::Open);
    agent.on_frame(Message::WindowUpdate(2).into_frame(id)).unwrap();
    assert_eq!(agent.next_frame(), out(data(id, b"cd")));
    assert_eq!(agent.next_frame(), out(Frame::control(id, FrameKind::Close)));
    assert_eq!(agent.next_frame(), None);
}

#[test]
fn data_after_the_peer_closed_is_dropped() {
    let (mut agent, _server, id) = open_pair(small());
    assert_eq!(agent.on_frame(Frame::control(id, FrameKind::Close)), Ok(Effect::Shutdown { session: id }));
    assert_eq!(agent.on_frame(data(id, b"zz")), Ok(Effect::Nothing));
    assert_eq!(agent.on_frame(Frame::control(id, FrameKind::Close)), Ok(Effect::Nothing));
    assert_eq!(agent.engine().session(id).unwrap().state, SessionState::RemoteHalfClosed);
}

#[test]
fn teardown_is_idempotent() {
    let (mut agent, mut server, id) = open_pair(small());
    assert_eq!(server.on_frame(Frame::control(id, FrameKind::Reset)), Ok(Effect::Abort { session: id }));
    assert_eq!(server.engine().len(), 0);
    // Everything that still arrives for the session is dropped.
    for late in [
        Frame::control(id, FrameKind::Reset),
        Frame::control(id, FrameKind::Close),
        data(id, b"late"),
        data(id, &[0u8; 1000]),
        Message::WindowUpdate(5).into_frame(id),
    ] {
        assert_eq!(server.on_frame(late), Ok(Effect::Nothing));
        assert_eq!(server.engine().len(), 0);
        assert_eq!(server.next_frame(), None);
    }
    assert!(!server.local_data(id, b"x"));
    assert!(!server.local_eof(id));
    assert!(!server.local_error(id));
    assert!(!server.local_consumed(id, 3));
    assert_eq!(server.next_frame(), None);

    // The same on the agent after a clean close.
    assert!(agent.local_eof(id));
    agent.next_frame().unwrap();
    assert_eq!(agent.on_frame(Frame::control(id, FrameKind::Close)), Ok(Effect::Finished { session: id }));
    for late in [
        Frame::control(id, FrameKind::Close),
        Frame::control(id, FrameKind::Reset),
        data(id, b"late"),
        Message::OpenAck(bound()).into_frame(id),
        Message::OpenFail(OpenFailure::Other).into_frame(id),
    ] {
        assert_eq!(agent.on_frame(late), Ok(Effect::Nothing));
        assert_eq!(agent.engine().len(), 0);
        assert_eq!(agent.next_frame(), None);
    }
}

#[test]
fn local_error_resets_the_session_at_the_peer() {
    let (mut agent, mut server, id) = open_pair(small());
    assert!(agent.local_data(id, b"unsent"));
    assert!(agent.local_error(id));
    assert!(agent.engine().session(id).is_none());
    // What waited is discarded; only the Reset goes out.
    assert_eq!(agent.next_frame(), out(Frame::control(id, FrameKind::Reset)));
    assert_eq!(agent.next_frame(), None);
    assert!(!agent.local_error(id));
    assert_eq!(agent.next_frame(), None);
    assert_eq!(server.on_frame(Frame::control(id, FrameKind::Reset)), Ok(Effect::Abort { session: id }));
    // The peer does not answer a Reset with a Reset.
    assert_eq!(server.next_frame(), None);
}

#[test]
fn one_failing_session_leaves_the_others_alone() {
    let mut agent = AgentMux::new(small()).unwrap();
    for last in 0..3u8 {
        let id = agent.open_session(target(last)).unwrap();
        agent.next_frame().unwrap();
        agent.on_frame(Message::OpenAck(bound()).into_frame(id)).unwrap();
        assert!(agent.local_data(id, &[last; 3]));
    }
    let before0 = agent.engine().session(0).unwrap().clone();
    let before2 = agent.engine().session(2).unwrap().clone();
    assert_eq!(agent.on_frame(Frame::control(1, FrameKind::Reset)), Ok(Effect::Abort { session: 1 }));
    assert_eq!(agent.engine().len(), 2);
    assert_eq!(agent.engine().session(0).unwrap(), &before0);
    assert_eq!(agent.engine().session(2).unwrap(), &before2);
    assert_eq!(agent.on_frame(data(2, b"in")), Ok(Effect::Deliver { session: 2, bytes: b"in".to_vec() }));
    assert_eq!(agent.engine().session(0).unwrap(), &before0);
}

#[test]
fn transport_loss_fails_every_session() {
    let mut agent = AgentMux::new(small()).unwrap();
    let a = agent.open_session(target(1)).unwrap();
    let b = agent.open_session(target(2)).unwrap();
    let c = agent.open_session(target(3)).unwrap();
    while agent.next_frame().is_some() {}
    agent.on_frame(Message::OpenAck(bound()).into_frame(a)).unwrap();
    agent.on_frame(Message::OpenAck(bound()).into_frame(b)).unwrap();
    assert!(agent.local_data(a, b"pending"));
    assert!(agent.local_error(c));
    assert_eq!(agent.engine().session(a).unwrap().state, SessionState::Open);
    assert_eq!(agent.engine().session(b).unwrap().state, SessionState::Open);

    let mut lost = agent.transport_lost();
    lost.sort();
    assert_eq!(lost, vec![a, b]);
    assert_eq!(agent.engine().len(), 0);
    assert_eq!(agent.engine().queued_frames(), 0);
    assert!(agent.engine().session(a).is_none());
    assert!(agent.engine().session(b).is_none());
    assert_eq!(agent.next_frame(), None);
    assert_eq!(agent.transport_lost(), Vec::<u64>::new());
    // Identifiers are not reused afterwards.
    assert_eq!(agent.open_session(target(4)), Ok(3));

    let (_agent, mut server, id) = open_pair(small());
    assert_eq!(server.transport_lost(), vec![id]);
    assert_eq!(server.engine().len(), 0);
    assert_eq!(server.on_frame(data(id, b"x")), Ok(Effect::Nothing));
}

#[test]
fn interleaved_sessions_each_get_their_bytes_in_order() {
    let cfg = Config { window: 1000, replenish_at: 500, max_chunk: 3 };
    let mut agent = AgentMux::new(cfg).unwrap();
    let mut server = CoreTunnelServer::new(cfg).unwrap();
    let streams: Vec<Vec<u8>> = vec![
        (0u8..50).collect(),
        (100u8..117).collect(),
        (200u8..240).collect(),
    ];
    for (i, _) in streams.iter().enumerate() {
        let id = agent.open_session(target(i as u8)).unwrap();
        server.on_frame(agent.next_frame().unwrap().frame).unwrap();
        assert!(server.dial_succeeded(id, bound()));
        agent.on_frame(server.next_frame().unwrap().frame).unwrap();
    }
    // The clients write in pieces, in no particular order.
    assert!(agent.local_data(2, &streams[2][..7]));
    assert!(agent.local_data(0, &streams[0][..20]));
    assert!(agent.local_data(1, &streams[1][..]));
    assert!(agent.local_data(0, &streams[0][20..]));
    assert!(agent.local_data(2, &streams[2][7..]));
    let mut wire = Vec::new();
    let mut kinds = Vec::new();
    while let Some(o) = agent.next_frame() {
        kinds.push(o.frame.session_id);
        wire.extend_from_slice(&o.frame.encode(DEFAULT_MAX_FRAME_LEN).unwrap());
    }
    // The frames of the sessions interleave on the wire.
    assert_eq!(&kinds[..6], &[0, 1, 2, 0, 1, 2]);
    let mut got: Vec<Vec<u8>> = vec![Vec::new(); 3];
    let mut at = 0;
    while at < wire.len() {
        let (frame, used) = decode(&wire[at..], DEFAULT_MAX_FRAME_LEN).unwrap();
        at += used;
        match server.on_frame(frame).unwrap() {
            Effect::Deliver { session, bytes } => got[session as usize].extend_from_slice(&bytes),
            other => panic!("unexpected effect {:?}", other),
        }
    }
    assert_eq!(got, streams);
}

#[test]
fn delivery_stops_for_good_once_a_session_ends() {
    let (_agent, mut server, id) = open_pair(small());
    let mut got = Vec::new();
    let frames = vec![
        data(id, b"ab"),
        data(id, b"cd"),
        Frame::control(id, FrameKind::Reset),
        data(id, b"ef"),
        data(id, b"gh"),
    ];
    for f in frames {
        if let Effect::Deliver { bytes, .. } = server.on_frame(f).unwrap() {
            got.extend_from_slice(&bytes);
        }
    }
    assert_eq!(got, b"abcd".to_vec());
}

#[test]
fn server_takes_each_identifier_once() {
    let mut server = CoreTunnelServer::default();
    let open = |id: u64, last: u8| Message::Open(target(last)).into_frame(id);
    assert_eq!(server.on_frame(open(5, 1)), Ok(Effect::Dial { session: 5, target: target(1) }));
    // A second Open for a live session is dropped.
    assert_eq!(server.on_frame(open(5, 2)), Ok(Effect::Nothing));
    assert_eq!(server.engine().session(5).unwrap().target, target(1));
    assert_eq!(server.engine().len(), 1);
    // And so is one whose session is gone.
    assert!(server.dial_failed(5, OpenFailure::ConnectFailed));
    assert_eq!(server.on_frame(open(5, 4)), Ok(Effect::Nothing));
    assert_eq!(server.engine().len(), 0);
    assert!(!server.dial_succeeded(5, bound()));
    // Losing the tunnel does not make an identifier new again.
    assert_eq!(server.on_frame(open(8, 8)), Ok(Effect::Dial { session: 8, target: target(8) }));
    assert_eq!(server.transport_lost(), vec![8]);
    assert_eq!(server.on_frame(open(8, 8)), Ok(Effect::Nothing));
    assert_eq!(server.on_frame(open(5, 5)), Ok(Effect::Nothing));
}

#[test]
fn server_takes_identifiers_in_any_order() {
    let mut server = CoreTunnelServer::default();
    let open = |id: u64, last: u8| Message::Open(target(last)).into_frame(id);
    assert_eq!(server.on_frame(open(5, 1)), Ok(Effect::Dial { session: 5, target: target(1) }));
    // An identifier below one that was seen starts a session all the same.
    assert_eq!(server.on_frame(open(3, 3)), Ok(Effect::Dial { session: 3, target: target(3) }));
    assert_eq!(server.on_frame(open(0, 0)), Ok(Effect::Dial { session: 0, target: target(0) }));
    // So does the largest identifier there is, and those around it.
    assert_eq!(
        server.on_frame(open(u64::MAX, 7)),
        Ok(Effect::Dial { session: u64::MAX, target: target(7) })
    );
    assert_eq!(
        server.on_frame(open(u64::MAX - 1, 8)),
        Ok(Effect::Dial { session: u64::MAX - 1, target: target(8) })
    );
    assert_eq!(server.on_frame(open(4, 4)), Ok(Effect::Dial { session: 4, target: target(4) }));
    assert_eq!(server.engine().len(), 6);
    for id in [5u64, 3, 0, u64::MAX, u64::MAX - 1, 4] {
        assert_eq!(server.engine().session(id).unwrap().state, SessionState::Opening);
        assert_eq!(server.on_frame(open(id, 9)), Ok(Effect::Nothing));
    }
    assert_eq!(server.engine().len(), 6);
}

/// What the target of session 3 gets when the server is fed `before` and
/// then the frames of session 3.
fn delivered_to_three(before: Vec<Frame>) -> (Vec<Effect>, Vec<u8>, Vec<Frame>) {
    let mut server = CoreTunnelServer::new(small()).unwrap();
    for f in before {
        server.on_frame(f).unwrap();
    }
    while server.next_frame().is_some() {}
    let mut effects = vec![server.on_frame(Message::Open(target(3)).into_frame(3)).unwrap()];
    assert!(server.dial_succeeded(3, bound()));
    let mut frames = vec![server.next_frame().unwrap().frame];
    let mut got = Vec::new();
    for chunk in [&b"x"[..], b"yz"] {
        let effect = server.on_frame(data(3, chunk)).unwrap();
        if let Effect::Deliver { session: 3, bytes } = &effect {
            got.extend_from_slice(bytes);
        }
        effects.push(effect);
    }
    assert!(server.local_data(3, b"answer"));
    while let Some(o) = server.next_frame() {
        if o.frame.session_id == 3 {
            frames.push(o.frame);
        }
    }
    (effects, got, frames)
}

#[test]
fn a_session_does_not_depend_on_the_frames_of_others() {
    let alone = delivered_to_three(vec![]);
    assert_eq!(alone.0[0], Effect::Dial { session: 3, target: target(3) });
    assert_eq!(alone.1, b"xyz".to_vec());
    assert_eq!(alone.2[0].kind, FrameKind::OpenAck);
    assert_eq!(alone.2[1..], [data(3, b"answ"), data(3, b"er")]);
    // A session with a higher identifier that was opened first.
    let after_five = delivered_to_three(vec![Message::Open(target(5)).into_frame(5)]);
    assert_eq!(after_five, alone);
    // Other sessions that were opened, reset and closed, and frames for
    // sessions that never were.
    let after_many = delivered_to_three(vec![
        Message::Open(target(9)).into_frame(9),
        Message::Open(target(1)).into_frame(1),
        Frame::control(9, FrameKind::Reset),
        Message::Open(target(u8::MAX)).into_frame(u64::MAX),
        data(7, b""),
        Frame::control(2, FrameKind::Close),
        Message::WindowUpdate(4).into_frame(1),
    ]);
    assert_eq!(after_many, alone);
}

#[test]
fn a_breach_gives_the_tunnel_up() {
    let (mut agent, mut server, id) = open_pair(small());
    let other = agent.open_session(target(2)).unwrap();
    assert!(agent.local_data(id, b"waiting"));
    // Within the protocol `take_frame` is `on_frame`.
    assert_eq!(
        agent.take_frame(data(id, b"ok")),
        Ok(Effect::Deliver { session: id, bytes: b"ok".to_vec() })
    );
    assert_eq!(agent.engine().len(), 2);
    // More than was granted ends every session, not only the one named.
    let breach = agent.take_frame(data(id, &[0u8; 9])).unwrap_err();
    assert_eq!(breach.error, ProtocolError::CreditViolation);
    let mut ended = breach.sessions;
    ended.sort();
    assert_eq!(ended, vec![id, other]);
    assert_eq!(agent.engine().len(), 0);
    assert_eq!(agent.engine().queued_frames(), 0);
    assert_eq!(agent.next_frame(), None);
    assert_eq!(agent.take_frame(data(id, b"late")), Ok(Effect::Nothing));

    assert_eq!(
        server.take_frame(data(id, b"in")),
        Ok(Effect::Deliver { session: id, bytes: b"in".to_vec() })
    );
    let breach = server.take_frame(Message::OpenAck(bound()).into_frame(id)).unwrap_err();
    assert_eq!(breach.error, ProtocolError::UnexpectedFrame);
    assert_eq!(breach.sessions, vec![id]);
    assert_eq!(server.engine().len(), 0);
    let bad = Frame { session_id: 77, kind: FrameKind::WindowUpdate, payload: vec![1] };
    let breach = server.take_frame(bad).unwrap_err();
    assert_eq!(breach.error, ProtocolError::MalformedPayload);
    assert_eq!(breach.sessions, Vec::<u64>::new());
    // The identifier of a session that ended with the tunnel stays used.
    assert_eq!(server.take_frame(Message::Open(target(1)).into_frame(id)), Ok(Effect::Nothing));
}

#[test]
fn frames_in_the_wrong_direction_break_the_protocol() {
    let (mut agent, mut server, id) = open_pair(small());
    assert_eq!(agent.on_frame(Message::Open(target(1)).into_frame(9)), Err(ProtocolError::UnexpectedFrame));
    assert_eq!(server.on_frame(Message::OpenAck(bound()).into_frame(id)), Err(ProtocolError::UnexpectedFrame));
    assert_eq!(
        server.on_frame(Message::OpenFail(OpenFailure::Other).into_frame(id)),
        Err(ProtocolError::UnexpectedFrame)
    );
    assert_eq!(agent.engine().len(), 1);
    assert_eq!(server.engine().len(), 1);
}

#[test]
fn malformed_payloads_break_the_protocol() {
    let (mut agent, mut server, id) = open_pair(small());
    let bad = |kind, payload: &[u8]| Frame { session_id: id, kind, payload: payload.to_vec() };
    assert_eq!(server.on_frame(bad(FrameKind::Open, &[1, 2, 3])), Err(ProtocolError::MalformedPayload));
    assert_eq!(server.on_frame(bad(FrameKind::WindowUpdate, &[1])), Err(ProtocolError::MalformedPayload));
    assert_eq!(server.on_frame(bad(FrameKind::Close, &[1])), Err(ProtocolError::MalformedPayload));
    assert_eq!(agent.on_frame(bad(FrameKind::OpenAck, &[])), Err(ProtocolError::MalformedPayload));
    assert_eq!(agent.on_frame(bad(FrameKind::OpenFail, &[])), Err(ProtocolError::MalformedPayload));
    assert_eq!(agent.on_frame(bad(FrameKind::Data, &vec![0; 16385])), Err(ProtocolError::MalformedPayload));
    assert_eq!(agent.on_frame(bad(FrameKind::Reset, &[0])), Err(ProtocolError::MalformedPayload));
    assert_eq!(agent.engine().session(id).unwrap().state, SessionState::Open);
    assert_eq!(server.engine().session(id).unwrap().state, SessionState::Open);
}

#[test]
fn window_update_for_an_unknown_session_is_ignored() {
    let (mut agent, _server, id) = open_pair(small());
    assert_eq!(agent.on_frame(Message::WindowUpdate(9).into_frame(id + 100)), Ok(Effect::Nothing));
    assert_eq!(agent.engine().len(), 1);
    assert_eq!(agent.engine().session(id).unwrap().send.credit, 10);
    assert_eq!(agent.on_frame(Message::WindowUpdate(u32::MAX).into_frame(id)), Ok(Effect::Nothing));
    assert_eq!(agent.engine().session(id).unwrap().send.credit, u32::MAX);
}

#[test]
fn engine_primitives() {
    let mut m = Multiplexer::new(small()).unwrap();
    assert!(m.open(4, target(4)));
    assert!(!m.open(4, target(5)));
    assert!(m.takes_input(4));
    assert!(!m.takes_input(5));
    assert!(!m.establish(5));
    assert!(m.establish(4));
    assert!(!m.establish(4));
    assert!(!m.refuse(4));
    assert_eq!(m.session(4).unwrap().state, SessionState::Open);
    assert!(m.open(6, target(6)));
    assert!(m.refuse(6));
    assert!(m.session(6).is_none());
    m.post(Message::Reset.into_frame(6));
    assert_eq!(m.queued_frames(), 1);
    assert_eq!(m.next_frame(), out(Frame::control(6, FrameKind::Reset)));
    assert_eq!(m.receive(4, Message::Open(target(1))), Err(ProtocolError::UnexpectedFrame));
    assert_eq!(
        m.receive(4, Message::Data(vec![1])),
        Ok(Effect::Deliver { session: 4, bytes: vec![1] })
    );
    assert_eq!(m.transport_lost(), vec![4]);
}

#[test]
fn effects_that_owe_the_client_a_reply() {
    assert_eq!(
        reply_for(&Effect::Established { session: 3, bound: bound() }),
        Some(vec![0x05, 0x00, 0x00, 0x01, 192, 168, 0, 2, 0xC3, 0x50])
    );
    assert_eq!(
        reply_for(&Effect::Refused { session: 3, reason: OpenFailure::ConnectFailed }),
        Some(vec![0x05, 0x05, 0x00, 0x01, 0, 0, 0, 0, 0, 0])
    );
    assert_eq!(
        reply_for(&Effect::Refused { session: 3, reason: OpenFailure::Other }),
        Some(vec![0x05, 0x01, 0x00, 0x01, 0, 0, 0, 0, 0, 0])
    );
    assert_eq!(reply_for(&Effect::Nothing), None);
    assert_eq!(reply_for(&Effect::Deliver { session: 3, bytes: vec![1] }), None);
    assert_eq!(reply_for(&Effect::Shutdown { session: 3 }), None);
    assert_eq!(reply_for(&Effect::Finished { session: 3 }), None);
    assert_eq!(reply_for(&Effect::Abort { session: 3 }), None);
    assert_eq!(reply_for(&Effect::Dial { session: 3, target: target(1) }), None);
}

#[test]
fn an_endpoint_reads_on_while_its_session_has_room() {
    let cfg = Config { window: 6, replenish_at: 3, max_chunk: 4 };
    let (mut agent, _server, id) = open_pair(cfg);
    assert!(agent.engine().has_room(id));
    assert!(agent.local_data(id, b"12345"));
    assert!(agent.engine().has_room(id));
    assert!(agent.local_data(id, b"6"));
    assert!(!agent.engine().has_room(id));
    assert_eq!(agent.next_frame(), out(data(id, b"1234")));
    assert!(agent.engine().has_room(id));
    assert!(!agent.engine().has_room(id + 1));
    assert!(agent.local_eof(id));
    assert!(!agent.engine().has_room(id));
}

/// Carries everything that the agent has to send to the server and every
/// answer back, with a target that consumes what it gets at once, until
/// nothing moves any more. Returns what the target of `id` got and whether
/// it saw the end of the stream.
fn pump(agent: &mut AgentMux, server: &mut CoreTunnelServer, id: u64) -> (Vec<u8>, bool) {
    let mut got = Vec::new();
    let mut ended = false;
    loop {
        let mut moved = false;
        while let Some(o) = agent.next_frame() {
            moved = true;
            match server.take_frame(over_the_wire(o.frame)).unwrap() {
                Effect::Deliver { session, bytes } => {
                    assert_eq!(session, id);
                    assert!(!ended);
                    assert!(server.local_consumed(id, bytes.len() as u32));
                    got.extend_from_slice(&bytes);
                },
                Effect::Shutdown { session } => {
                    assert_eq!(session, id);
                    ended = true;
                },
                other => panic!("unexpected effect {:?}", other),
            }
        }
        while let Some(o) = server.next_frame() {
            moved = true;
            assert_eq!(agent.take_frame(over_the_wire(o.frame)), Ok(Effect::Nothing));
        }
        if !moved {
            return (got, ended);
        }
    }
}

#[test]
fn every_byte_of_the_client_reaches_the_target() {
    for (window, replenish_at, max_chunk, len) in
        [(1u32, 1u32, 1u32, 5usize), (10, 5, 4, 1000), (10, 10, 16, 333), (7, 3, 5, 64), (65536, 32768, 16384, 200_000)]
    {
        let cfg = Config { window, replenish_at, max_chunk };
        let (mut agent, mut server, id) = open_pair(cfg);
        let stream: Vec<u8> = (0..len).map(|i| (i * 31 % 251) as u8).collect();
        let mut got = Vec::new();
        for piece in stream.chunks(97) {
            assert!(agent.local_data(id, piece));
            let (bytes, ended) = pump(&mut agent, &mut server, id);
            assert!(!ended);
            got.extend_from_slice(&bytes);
            // Whatever was offered has arrived: nothing is stuck for want
            // of credit once the target has consumed what it got.
            assert!(agent.engine().session(id).unwrap().pending.is_empty());
        }
        assert_eq!(got, stream);
        assert!(agent.local_eof(id));
        let (bytes, ended) = pump(&mut agent, &mut server, id);
        assert!(bytes.is_empty());
        assert!(ended);
        assert_eq!(agent.engine().session(id).unwrap().state, SessionState::LocalHalfClosed);
        assert_eq!(server.engine().session(id).unwrap().state, SessionState::RemoteHalfClosed);
    }
}

#[test]
fn bytes_sent_before_the_reply_reach_the_target_after_it() {
    let cfg = small();
    let mut agent = AgentMux::new(cfg).unwrap();
    let mut server = CoreTunnelServer::new(cfg).unwrap();
    let id = agent.open_session(target(1)).unwrap();
    assert!(agent.local_data(id, b"sent early, all of it"));
    assert!(agent.local_eof(id));
    let open = agent.next_frame().unwrap().frame;
    assert_eq!(agent.next_frame(), None);
    assert_eq!(server.take_frame(open), Ok(Effect::Dial { session: id, target: target(1) }));
    assert!(server.dial_succeeded(id, bound()));
    let ack = server.next_frame().unwrap().frame;
    assert_eq!(agent.take_frame(ack), Ok(Effect::Established { session: id, bound: bound() }));
    let (got, ended) = pump(&mut agent, &mut server, id);
    assert_eq!(got, b"sent early, all of it".to_vec());
    assert!(ended);
}
