use proxy_manager::rows::StreamRow;
use proxy_manager::streams::{
    decimal_string, forward_addr, listen_addr, stream_protocol, stream_spec, SessionInsert,
    StreamManager, StreamProtocol, UdpSessions,
};

#[test]
fn protocol_choice() {
    assert_eq!(stream_protocol("udp"), StreamProtocol::Udp);
    assert_eq!(stream_protocol("UDP"), StreamProtocol::Udp);
    assert_eq!(stream_protocol("tcp"), StreamProtocol::Tcp);
    assert_eq!(stream_protocol("anything"), StreamProtocol::Tcp);
}

#[test]
fn addresses() {
    assert_eq!(forward_addr("u", 7000), "u:7000");
    assert_eq!(listen_addr(9000), "0.0.0.0:9000");
    assert_eq!(decimal_string(0), "0");
    assert_eq!(decimal_string(65535), "65535");
    assert_eq!(decimal_string(u64::MAX), "18446744073709551615");
}

#[test]
fn stream_rows() {
    let row = StreamRow { id: 1, listen_port: 9000, forward_host: "u".to_string(), forward_port: 7000, protocol: "udp".to_string() };
    let s = stream_spec(&row).unwrap();
    assert_eq!(s.listen_port, 9000);
    assert_eq!(s.forward_addr, "u:7000");
    assert_eq!(s.protocol, StreamProtocol::Udp);
    let bad = StreamRow { id: 2, listen_port: 70000, forward_host: "u".to_string(), forward_port: 1, protocol: "tcp".to_string() };
    assert!(stream_spec(&bad).is_none());
}

#[test]
fn one_task_per_port() {
    let mut m: StreamManager<&str> = StreamManager::new();
    assert_eq!(m.start_stream(9000, "first"), None);
    assert_eq!(m.start_stream(9001, "other"), None);
    assert_eq!(m.start_stream(9000, "second"), Some("first"));
    assert!(m.contains(9000));
    assert_eq!(m.stop_stream(9000), Some("second"));
    assert!(!m.contains(9000));
    assert_eq!(m.stop_stream(9000), None);
    let mut all = m.drain_all();
    all.sort();
    assert_eq!(all, vec!["other"]);
    assert!(!m.contains(9001));
}

#[test]
fn udp_sessions_are_per_client() {
    let mut s: UdpSessions<u32> = UdpSessions::new();
    let a = s.insert_if_absent("10.0.0.1:5000".to_string(), 40001, 11);
    let b = s.insert_if_absent("10.0.0.2:5000".to_string(), 40002, 22);
    let (ida, idb) = match (a, b) {
        (SessionInsert::Inserted(x), SessionInsert::Inserted(y)) => (x, y),
        _ => panic!("expected two new sessions"),
    };
    assert_ne!(ida, idb);
    assert_eq!(s.session("10.0.0.1:5000"), Some(&11));
    assert_eq!(s.session("10.0.0.2:5000"), Some(&22));
    assert_eq!(s.insert_if_absent("10.0.0.1:5000".to_string(), 40003, 33), SessionInsert::Existing);
    assert_eq!(s.session("10.0.0.1:5000"), Some(&11));
    assert!(!s.remove_session("10.0.0.1:5000", idb));
    assert!(s.remove_session("10.0.0.1:5000", ida));
    assert_eq!(s.session("10.0.0.1:5000"), None);
    assert_eq!(s.session("10.0.0.2:5000"), Some(&22));
}

#[test]
fn relay_keeps_client_session_until_idle() {
    // One client sends three datagrams: one session, reused each time.
    let mut s: UdpSessions<&str> = UdpSessions::new();
    let client = "198.51.100.1:40000";
    let mut id = None;
    for _ in 0..3 {
        if s.session(client).is_none() {
            match s.insert_if_absent(client.to_string(), 50000, "upstream-socket") {
                SessionInsert::Inserted(n) => id = Some(n),
                other => panic!("unexpected {:?}", other),
            }
        }
        assert_eq!(s.session(client), Some(&"upstream-socket"));
    }
    // After the idle timeout the return task ends its session.
    assert!(s.remove_session(client, id.unwrap()));
    assert_eq!(s.session(client), None);
    // A later datagram from the same client gets a fresh session.
    match s.insert_if_absent(client.to_string(), 50001, "new-socket") {
        SessionInsert::Inserted(n) => assert!(n > id.unwrap()),
        other => panic!("unexpected {:?}", other),
    }
    assert_eq!(s.session(client), Some(&"new-socket"));
}

#[test]
fn racing_datagrams_keep_the_first_session() {
    let mut s: UdpSessions<&str> = UdpSessions::new();
    assert_eq!(s.insert_if_absent("c:1".to_string(), 6000, "winner"), SessionInsert::Inserted(0));
    assert_eq!(s.insert_if_absent("c:1".to_string(), 6001, "loser"), SessionInsert::Existing);
    assert_eq!(s.session("c:1"), Some(&"winner"));
}

#[test]
fn upstream_ports_are_not_shared() {
    let mut s: UdpSessions<&str> = UdpSessions::new();
    assert_eq!(s.insert_if_absent("a:1".to_string(), 7000, "sa"), SessionInsert::Inserted(0));
    assert_eq!(s.insert_if_absent("b:1".to_string(), 7000, "sb"), SessionInsert::PortInUse);
    assert_eq!(s.session("b:1"), None);
    assert_eq!(s.insert_if_absent("b:1".to_string(), 7001, "sb"), SessionInsert::Inserted(1));
}
