use tcp_hub::connector::{Connector, ConnectorError};

#[test]
fn connect_send_take() {
    let mut c = Connector::new();
    assert_eq!(c.check_connect(), Ok(()));
    assert_eq!(c.connect(true), Ok(()));
    assert!(c.is_connected());
    assert_eq!(c.check_connect(), Err(ConnectorError::AlreadyConnected));
    assert_eq!(c.connect(true), Err(ConnectorError::AlreadyConnected));
    assert_eq!(c.send("{\"a\":1}"), Ok(()));
    assert_eq!(c.send("[]"), Ok(()));
    assert_eq!(c.take_outgoing(), Some(vec![b"{\"a\":1}\r\n".to_vec(), b"[]\r\n".to_vec()]));
    assert_eq!(c.take_outgoing(), Some(vec![]));
}

#[test]
fn failed_handshake() {
    let mut c = Connector::new();
    assert_eq!(c.connect(false), Err(ConnectorError::ConnectFailed));
    assert!(!c.is_connected());
}

#[test]
fn send_errors() {
    let mut c = Connector::new();
    assert_eq!(c.send("{}"), Err(ConnectorError::NotConnected));
    assert_eq!(c.send("{"), Err(ConnectorError::InvalidJson));
    assert_eq!(c.send("[1,\r\n2]"), Err(ConnectorError::InvalidJson));
    assert_eq!(c.take_outgoing(), None);
}

#[test]
fn disconnect_twice_is_safe() {
    let mut c = Connector::new();
    c.connect(true).unwrap();
    c.send("1").unwrap();
    c.disconnect();
    c.disconnect();
    assert!(!c.is_connected());
    assert_eq!(c.take_outgoing(), None);
    assert_eq!(c.connect(true), Ok(()));
    assert_eq!(c.take_outgoing(), Some(vec![]));
}
