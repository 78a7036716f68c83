use inauth::error::Error;
use inauth::msg::{Endpoint, Msg};

fn frames(items: &[&str]) -> Vec<Vec<u8>> {
    items.iter().map(|f| f.as_bytes().to_vec()).collect()
}

#[test]
fn msg_test_recv_args_ok_eq() {
    let rcv = Msg::expect_recv(frames(&["0"]), 1, Some(1)).unwrap();
    assert_eq!(rcv[0], b"0".to_vec());
}

#[test]
fn msg_test_recv_args_ok_range() {
    let rcv = Msg::expect_recv(frames(&["0"]), 1, Some(2)).unwrap();
    assert_eq!(rcv[0], b"0".to_vec());
}

#[test]
fn msg_test_recv_args_ok_variable() {
    let rcv = Msg::expect_recv(frames(&["0", "1", "2"]), 2, None).unwrap();
    assert_eq!(rcv, frames(&["0", "1", "2"]));
}

#[test]
fn msg_test_recv_args_err_min() {
    assert!(Msg::expect_recv(frames(&["0", "1"]), 3, None).is_err());
}

#[test]
fn msg_test_recv_args_err_max() {
    assert_eq!(Msg::expect_recv(frames(&["0", "1", "2"]), 0, Some(1)).err(), Some(Error::InvalidArgsCount));
}

#[test]
fn zmsg_test_recv_args_ok_eq() {
    assert!(Msg::expect_recv(frames(&["0"]), 1, Some(1)).is_ok());
}

#[test]
fn zmsg_test_recv_args_ok_range() {
    assert!(Msg::expect_recv(frames(&["0"]), 1, Some(2)).is_ok());
}

#[test]
fn zmsg_test_recv_args_ok_variable() {
    let rcv = Msg::expect_recv(frames(&["0", "1", "2"]), 2, None).unwrap();
    assert_eq!(rcv[0], b"0".to_vec());
    assert_eq!(rcv[1], b"1".to_vec());
    assert_eq!(rcv[2], b"2".to_vec());
}

#[test]
fn zmsg_test_recv_args_err_min() {
    assert!(Msg::expect_recv(frames(&["0", "1"]), 3, None).is_err());
}

#[test]
fn zmsg_test_recv_args_err_max() {
    assert!(Msg::expect_recv(frames(&["0", "1", "2"]), 0, Some(1)).is_err());
}

#[test]
fn test_new_err() {
    let m = Msg::send_err(&Error::InvalidArgsCount);
    assert_eq!(m, frames(&["Err", "Invalid number of args provided"]));
}

#[test]
fn test_new_ok() {
    assert_eq!(Msg::new_ok(), frames(&["Ok"]));
}

#[test]
fn test_send_multi() {
    assert_eq!(Msg::send(vec!["0", "1", "2"]), frames(&["0", "1", "2"]));
}

#[test]
fn sock_types() {
    assert_eq!(Msg::sock_is_writeable("ROUTER"), Some(true));
    assert_eq!(Msg::sock_is_writeable("XSUB"), Some(true));
    assert_eq!(Msg::sock_is_writeable("XPUB"), Some(false));
    assert_eq!(Msg::sock_is_writeable("STREAM"), None);
}

#[test]
fn endpoint_names() {
    assert_eq!(Endpoint::from_name("cert::list"), Ok(Endpoint::List));
    assert_eq!(Endpoint::from_name("cert::delete"), Ok(Endpoint::Delete));
    assert_eq!(Endpoint::from_name("cert::rename"), Err(Error::InvalidEndpoint));
}
