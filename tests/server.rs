use tcp_hub::codec::encode;
use tcp_hub::server::{Server, ServerError, ServerStatus, SHUTDOWN_NOTICE};
use tcp_hub::registry::PeerAddress;

fn peer(port: u16) -> PeerAddress {
    PeerAddress { ip: 0x7f00_0001, v6: false, port }
}

fn running_with(peers: &[PeerAddress]) -> Server {
    let mut s = Server::new();
    s.start(true).unwrap();
    for p in peers {
        assert!(s.peer_connected(*p));
    }
    s
}

#[test]
fn start_twice_is_refused() {
    let mut s = Server::new();
    assert_eq!(s.check_start(), Ok(()));
    assert_eq!(s.start(true), Ok(()));
    assert_eq!(s.status(), ServerStatus::Running);
    assert_eq!(s.check_start(), Err(ServerError::AlreadyRunning));
    assert_eq!(s.start(true), Err(ServerError::AlreadyRunning));
}

#[test]
fn failed_bind_leaves_server_stopped() {
    let mut s = Server::new();
    assert_eq!(s.start(false), Err(ServerError::BindFailed));
    assert_eq!(s.status(), ServerStatus::Stopped);
}

#[test]
fn stop_when_stopped_is_refused() {
    let mut s = Server::new();
    assert_eq!(s.stop(), Err(ServerError::NotRunning));
}

#[test]
fn sends_refused_when_not_running() {
    let mut s = Server::new();
    assert_eq!(s.send_to_all("{}"), Err(ServerError::NotRunning));
    assert_eq!(s.send_to_one(peer(1), "{}"), Err(ServerError::NotRunning));
    assert!(!s.peer_connected(peer(1)));
}

#[test]
fn invalid_json_is_refused() {
    let mut s = running_with(&[peer(1)]);
    assert_eq!(s.send_to_all("{x"), Err(ServerError::InvalidJson));
    assert_eq!(s.send_to_one(peer(1), "nope"), Err(ServerError::InvalidJson));
    assert_eq!(s.send_to_all("{\r\n}"), Err(ServerError::InvalidJson));
    assert_eq!(s.send_to_all("{\n}"), Ok(()));
    assert_eq!(s.take_outgoing(peer(1)), Some((vec![b"{\n}\r\n".to_vec()], false)));
    assert_eq!(s.take_outgoing(peer(1)), Some((vec![], false)));
}

#[test]
fn private_sends_keep_order() {
    let a = peer(1);
    let b = peer(2);
    let mut s = running_with(&[a, b]);
    let msgs = ["{\"n\":1}", "{\"n\":2}", "{\"n\":3}", "{\"n\":4}"];
    for m in msgs {
        assert_eq!(s.send_to_one(a, m), Ok(()));
    }
    let expected: Vec<Vec<u8>> = msgs.iter().map(|m| encode(m)).collect();
    assert_eq!(s.take_outgoing(a), Some((expected, false)));
    assert_eq!(s.take_outgoing(b), Some((vec![], false)));
    assert_eq!(s.take_outgoing(a), Some((vec![], false)));
}

#[test]
fn broadcast_reaches_each_connected_peer_once() {
    let a = peer(1);
    let b = peer(2);
    let c = peer(3);
    let mut s = running_with(&[a, b, c]);
    assert_eq!(s.send_to_all("[1]"), Ok(()));
    let late = peer(4);
    assert!(s.peer_connected(late));
    for p in [a, b, c] {
        assert_eq!(s.take_outgoing(p), Some((vec![b"[1]\r\n".to_vec()], false)));
    }
    assert_eq!(s.take_outgoing(late), Some((vec![], false)));
}

#[test]
fn unknown_peer_has_no_side_effect() {
    let a = peer(1);
    let mut s = running_with(&[a]);
    s.send_to_one(a, "1").unwrap();
    assert_eq!(s.send_to_one(peer(9), "{}"), Err(ServerError::PeerNotFound));
    assert_eq!(s.peer_count(), 1);
    assert!(!s.is_connected(peer(9)));
    assert_eq!(s.take_outgoing(a), Some((vec![b"1\r\n".to_vec()], false)));
}

#[test]
fn disconnect_is_idempotent() {
    let a = peer(1);
    let mut s = running_with(&[a]);
    s.peer_disconnected(a);
    s.peer_disconnected(a);
    assert_eq!(s.peer_count(), 0);
    assert_eq!(s.take_outgoing(a), None);
}

#[test]
fn shutdown_notifies_clears_and_restarts() {
    let a = peer(1);
    let b = peer(2);
    let mut s = running_with(&[a, b]);
    assert_eq!(s.stop(), Ok(()));
    assert_eq!(s.status(), ServerStatus::ShuttingDown);
    assert_eq!(s.stop(), Ok(()));
    assert!(!s.peer_connected(peer(3)));
    assert_eq!(s.send_to_all("{}"), Err(ServerError::ShuttingDown));
    assert_eq!(s.send_to_one(a, "{}"), Err(ServerError::ShuttingDown));
    assert_eq!(s.idle_error(), ServerError::ShuttingDown);
    let notice = encode(SHUTDOWN_NOTICE);
    assert_eq!(s.take_outgoing(a), Some((vec![notice.clone()], true)));
    assert_eq!(s.take_outgoing(b), Some((vec![notice], true)));
    s.finish_shutdown();
    assert_eq!(s.status(), ServerStatus::Stopped);
    assert_eq!(s.peer_count(), 0);
    assert_eq!(s.start(true), Ok(()));
}

#[test]
fn two_peer_scenario() {
    let a = PeerAddress { ip: 0x7f00_0001, v6: false, port: 50001 };
    let b = PeerAddress { ip: 0x7f00_0001, v6: false, port: 50002 };
    let mut s = Server::new();
    assert_eq!(s.start(true), Ok(()));
    assert!(s.peer_connected(a));
    assert!(s.peer_connected(b));
    assert_eq!(s.send_to_all("{\"x\":1}"), Ok(()));
    assert_eq!(s.take_outgoing(a), Some((vec![b"{\"x\":1}\r\n".to_vec()], false)));
    assert_eq!(s.take_outgoing(b), Some((vec![b"{\"x\":1}\r\n".to_vec()], false)));
    assert_eq!(s.send_to_one(b, "{\"x\":2}"), Ok(()));
    assert_eq!(s.take_outgoing(a), Some((vec![], false)));
    assert_eq!(s.take_outgoing(b), Some((vec![b"{\"x\":2}\r\n".to_vec()], false)));
    s.peer_disconnected(a);
    assert_eq!(s.send_to_all("{\"x\":3}"), Ok(()));
    assert_eq!(s.take_outgoing(a), None);
    assert_eq!(s.take_outgoing(b), Some((vec![b"{\"x\":3}\r\n".to_vec()], false)));
    assert_eq!(s.stop(), Ok(()));
    let (frames, closing) = s.take_outgoing(b).unwrap();
    assert!(closing);
    assert_eq!(frames.len(), 1);
    assert!(String::from_utf8(frames[0].clone()).unwrap().contains("server_shutdown"));
    s.finish_shutdown();
    assert_eq!(s.peers(), vec![]);
}

#[test]
fn peers_lists_each_once() {
    let mut s = running_with(&[peer(1), peer(2)]);
    assert!(s.peer_connected(peer(1)));
    let mut ports: Vec<u16> = s.peers().iter().map(|p| p.port).collect();
    ports.sort();
    assert_eq!(ports, vec![1, 2]);
}
