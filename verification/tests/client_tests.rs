use focusd::client::{FocusClient, FocusClientError, Tone};
use focusd::config::FocusConfig;
use focusd::messages::ServerResponse;

fn client() -> FocusClient {
    let cfg = FocusConfig {
        version: "0.0.2".to_string(),
        hosts_file: "/etc/hosts".to_string(),
        socket_file: "/tmp/focusd.sock".to_string(),
        pid_file: "/tmp/focusd.pid".to_string(),
        blocked: vec![],
    };
    FocusClient::from_socket_state(&cfg, true, true).ok().unwrap()
}

#[test]
fn needs_both_pipes() {
    let cfg = FocusConfig {
        version: "0.0.2".to_string(),
        hosts_file: "/etc/hosts".to_string(),
        socket_file: "/no/such/focusd.sock".to_string(),
        pid_file: "/tmp/focusd.pid".to_string(),
        blocked: vec![],
    };
    assert!(matches!(FocusClient::from_socket_state(&cfg, true, false), Err(FocusClientError::NoConnection)));
    assert!(matches!(FocusClient::from_socket_state(&cfg, false, true), Err(FocusClientError::NoConnection)));
    assert!(matches!(FocusClient::new(&cfg), Err(FocusClientError::NoConnection)));
    let c = client();
    assert_eq!(c.socket_file_in(), "/tmp/focusd.sock.in");
    assert_eq!(c.socket_file_out(), "/tmp/focusd.sock.out");
}

#[test]
fn ping_messages() {
    let c = client();
    let n = c.ping(&Ok(ServerResponse::Pong));
    assert_eq!(n.text, "ponged!");
    assert_eq!(n.tone, Tone::Success);
    let n = c.ping(&Err(FocusClientError::NoConnection));
    assert_eq!(n.text, "failed to pong!");
    assert_eq!(n.tone, Tone::Failure);
}

#[test]
fn halt_messages() {
    let c = client();
    let n = c.halt(&Ok(ServerResponse::Halting));
    assert_eq!(n.text, "server halted!");
    assert_eq!(n.tone, Tone::Success);
    assert_eq!(c.halt(&Err(FocusClientError::NoConnection)).text, "failed!");
}

#[test]
fn start_messages() {
    let c = client();
    let n = c.start(&Ok(ServerResponse::Starting)).unwrap();
    assert_eq!(n.text, "started!");
    assert_eq!(n.tone, Tone::Success);
    let n = c.start(&Ok(ServerResponse::AlreadyStarted)).unwrap();
    assert_eq!(n.text, "already started!");
    assert_eq!(n.tone, Tone::Failure);
    assert!(c.start(&Ok(ServerResponse::Pong)).is_none());
    assert!(c.start(&Err(FocusClientError::NoConnection)).is_none());
}

#[test]
fn remaining_display() {
    let c = client();
    let reply = Ok(ServerResponse::Remaining(5425));
    assert_eq!(c.remaining(&reply, false, false), Some("1h30m25s".to_string()));
    assert_eq!(c.remaining(&reply, false, true), Some("1h30m".to_string()));
    assert_eq!(c.remaining(&reply, true, false), Some("5425".to_string()));
    assert_eq!(c.remaining(&reply, true, true), Some("5425".to_string()));
    assert_eq!(c.remaining(&Ok(ServerResponse::Remaining(0)), true, false), Some("0".to_string()));
    assert_eq!(c.remaining(&Ok(ServerResponse::Remaining(0)), false, false), Some("".to_string()));
    assert_eq!(c.remaining(&Ok(ServerResponse::Pong), false, false), None);
    assert_eq!(c.remaining(&Err(FocusClientError::NoConnection), false, false), None);
}
