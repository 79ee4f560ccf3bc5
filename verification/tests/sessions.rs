use socks5_proxy::session::{Action, Phase, ReadOutcome, Role, Session, Side};

fn connect_request(name: &[u8], port: u16) -> Vec<u8> {
    let mut data = vec![5u8, 1, 0, 3, name.len() as u8];
    data.extend_from_slice(name);
    data.push((port >> 8) as u8);
    data.push((port & 0xff) as u8);
    data
}

fn relaying(stop_on_eof: bool) -> Session {
    Session { role: Role::Proxy, phase: Phase::Relay, stop_on_eof }
}

#[test]
fn proxy_handshake() {
    let mut s = Session::proxy(true);
    assert_eq!(s.phase, Phase::Greeting);
    match s.step(Side::Client, ReadOutcome::Data(vec![5, 1, 0])) {
        Action::Reply(bytes) => assert_eq!(bytes, vec![5u8, 0]),
        _ => panic!("expected a reply"),
    }
    assert_eq!(s.phase, Phase::Request);
    let request = connect_request(b"Example.com", 443);
    match s.step(Side::Client, ReadOutcome::Data(request)) {
        Action::Connect { request, to_upstream, to_client } => {
            assert_eq!(request.get_addr(), "example.com");
            let mut frame = vec![3u8, 11];
            frame.extend_from_slice(b"example.com");
            frame.extend_from_slice(&[1, 187]);
            assert_eq!(to_upstream, frame);
            assert_eq!(to_client, vec![5u8, 0, 0, 1, 0, 0, 0, 0, 8, 174]);
        },
        _ => panic!("expected a connect"),
    }
    assert_eq!(s.phase, Phase::Relay);
}

#[test]
fn proxy_short_request_closes() {
    let mut s = Session::proxy(true);
    s.step(Side::Client, ReadOutcome::Data(vec![5, 1, 0]));
    assert!(matches!(s.step(Side::Client, ReadOutcome::Data(vec![5, 1, 0])), Action::Close));
    assert_eq!(s.phase, Phase::Closed);
}

#[test]
fn accepts_rejects_truncated_request() {
    let mut s = Session::proxy(false);
    s.step(Side::Client, ReadOutcome::Data(vec![5, 1, 0]));
    assert!(s.accepts(Side::Client, &ReadOutcome::Data(vec![5, 1, 0])));
    assert!(!s.accepts(Side::Client, &ReadOutcome::Data(vec![5, 1, 0, 3, 9, b'a'])));
    assert!(s.accepts(Side::Client, &ReadOutcome::Data(connect_request(b"a", 1))));
    let r = Session::remote(false);
    assert!(!r.accepts(Side::Client, &ReadOutcome::Data(vec![])));
    assert!(r.accepts(Side::Client, &ReadOutcome::Data(vec![1])));
}

#[test]
fn greeting_read_failure_closes() {
    let mut s = Session::proxy(false);
    assert!(matches!(s.step(Side::Client, ReadOutcome::Failed), Action::Close));
    assert_eq!(s.phase, Phase::Closed);
    assert!(matches!(s.step(Side::Client, ReadOutcome::Data(vec![1])), Action::Wait));
}

#[test]
fn handshake_ignores_upstream_and_would_block() {
    let mut s = Session::proxy(true);
    assert!(matches!(s.step(Side::Upstream, ReadOutcome::Data(vec![1])), Action::Wait));
    assert!(matches!(s.step(Side::Client, ReadOutcome::WouldBlock), Action::Wait));
    assert_eq!(s.phase, Phase::Greeting);
}

#[test]
fn remote_dials_target() {
    let mut s = Session::remote(true);
    let frame = vec![3u8, 11, b'E', b'x', b'a', b'm', b'p', b'l', b'e', b'.', b'o', b'r', b'g', 0x1f, 0x90];
    match s.step(Side::Client, ReadOutcome::Data(frame)) {
        Action::Dial { request, target } => {
            assert_eq!(target, "example.org:8080");
            assert_eq!(request.get_port(), 8080);
        },
        _ => panic!("expected a dial"),
    }
    assert_eq!(s.phase, Phase::Relay);
}

#[test]
fn remote_dial_port_zero_and_large() {
    let mut s = Session::remote(false);
    match s.step(Side::Client, ReadOutcome::Data(vec![3u8, 1, b'h', 0, 0])) {
        Action::Dial { target, .. } => assert_eq!(target, "h:0"),
        _ => panic!("expected a dial"),
    }
    let mut s = Session::remote(false);
    match s.step(Side::Client, ReadOutcome::Data(vec![3u8, 1, b'h', 0xff, 0xff])) {
        Action::Dial { target, .. } => assert_eq!(target, "h:65535"),
        _ => panic!("expected a dial"),
    }
}

#[test]
fn relay_forwards_both_ways() {
    let mut s = relaying(true);
    match s.step(Side::Client, ReadOutcome::Data(vec![1, 2, 3])) {
        Action::Forward { to, bytes } => {
            assert_eq!(to, Side::Upstream);
            assert_eq!(bytes, vec![1u8, 2, 3]);
        },
        _ => panic!("expected a forward"),
    }
    match s.step(Side::Upstream, ReadOutcome::Data(vec![9])) {
        Action::Forward { to, bytes } => {
            assert_eq!(to, Side::Client);
            assert_eq!(bytes, vec![9u8]);
        },
        _ => panic!("expected a forward"),
    }
    assert!(matches!(s.step(Side::Upstream, ReadOutcome::WouldBlock), Action::Wait));
    assert_eq!(s.phase, Phase::Relay);
}

#[test]
fn relay_end_of_stream() {
    let mut s = relaying(true);
    assert!(matches!(s.step(Side::Client, ReadOutcome::Data(vec![])), Action::Close));
    assert_eq!(s.phase, Phase::Closed);
    assert!(matches!(s.step(Side::Upstream, ReadOutcome::Data(vec![7])), Action::Wait));

    let mut t = relaying(false);
    match t.step(Side::Client, ReadOutcome::Data(vec![])) {
        Action::Forward { to, bytes } => {
            assert_eq!(to, Side::Upstream);
            assert!(bytes.is_empty());
        },
        _ => panic!("expected a forward"),
    }
    assert_eq!(t.phase, Phase::Relay);
}

#[test]
fn relay_failure_closes() {
    let mut s = relaying(false);
    assert!(matches!(s.step(Side::Upstream, ReadOutcome::Failed), Action::Close));
    assert_eq!(s.phase, Phase::Closed);
}

#[test]
fn relay_stream_is_transparent() {
    // what reaches each side is what was read on the other, up to the close
    let mut s = relaying(true);
    let reads = vec![
        (Side::Client, ReadOutcome::Data(vec![1, 2])),
        (Side::Upstream, ReadOutcome::Data(vec![10])),
        (Side::Client, ReadOutcome::WouldBlock),
        (Side::Client, ReadOutcome::Data(vec![3])),
        (Side::Upstream, ReadOutcome::Failed),
        (Side::Client, ReadOutcome::Data(vec![4])),
    ];
    let mut to_upstream = vec![];
    let mut to_client = vec![];
    for (side, read) in reads {
        if let Action::Forward { to, bytes } = s.step(side, read) {
            match to {
                Side::Upstream => to_upstream.extend(bytes),
                Side::Client => to_client.extend(bytes),
            }
        }
    }
    assert_eq!(to_upstream, vec![1u8, 2, 3]);
    assert_eq!(to_client, vec![10u8]);
    assert_eq!(s.phase, Phase::Closed);
}

#[test]
fn proxy_frame_reaches_remote() {
    let mut p = Session::proxy(true);
    p.step(Side::Client, ReadOutcome::Data(vec![5, 1, 0]));
    let frame = match p.step(Side::Client, ReadOutcome::Data(connect_request(b"Host.Example", 21))) {
        Action::Connect { to_upstream, .. } => to_upstream,
        _ => panic!("expected a connect"),
    };
    let mut r = Session::remote(true);
    match r.step(Side::Client, ReadOutcome::Data(frame)) {
        Action::Dial { request, target } => {
            assert_eq!(request.get_addr(), "host.example");
            assert_eq!(target, "host.example:21");
        },
        _ => panic!("expected a dial"),
    }
}
