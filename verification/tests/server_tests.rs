use focusd::config::FocusConfig;
use focusd::messages::{ClientRequest, ServerResponse};
use focusd::server::{FocusServer, FocusServerError, HostsUpdate, ServerReply};

fn config() -> FocusConfig {
    FocusConfig {
        version: "0.0.2".to_string(),
        hosts_file: "/etc/hosts".to_string(),
        socket_file: "/tmp/focusd-test.sock".to_string(),
        pid_file: "/tmp/focusd-test.pid".to_string(),
        blocked: vec!["reddit.com".to_string()],
    }
}

fn reply(response: ServerResponse, hosts: HostsUpdate, halt: bool) -> ServerReply {
    ServerReply { response, hosts, halt }
}

#[test]
fn refuses_to_start_twice() {
    let cfg = config();
    assert!(matches!(
        FocusServer::from_socket_state(&cfg, true),
        Err(FocusServerError::AlreadyRunning)
    ));
}

#[test]
fn fresh_daemon_uses_socket_pipes() {
    let cfg = config();
    let server = FocusServer::from_socket_state(&cfg, false).ok().unwrap();
    assert_eq!(server.socket_file_in(), "/tmp/focusd-test.sock.in");
    assert_eq!(server.socket_file_out(), "/tmp/focusd-test.sock.out");
    assert_eq!(server.get_remaining_time(0), 0);
}

#[test]
fn cleanup_names_pipes_and_pid_file() {
    assert_eq!(
        FocusServer::cleanup(&config()),
        vec![
            "/tmp/focusd-test.sock.in".to_string(),
            "/tmp/focusd-test.sock.out".to_string(),
            "/tmp/focusd-test.pid".to_string()
        ]
    );
}

#[test]
fn block_runs_for_requested_time() {
    let cfg = config();
    let mut server = FocusServer::from_socket_state(&cfg, false).ok().unwrap();
    let r = server.handle_request(ClientRequest::Start("1h30m".to_string()), 1000);
    assert_eq!(r, reply(ServerResponse::Starting, HostsUpdate::AddBlock, false));
    assert_eq!(server.get_remaining_time(1000), 5400);
    let r = server.handle_request(ClientRequest::Remaining, 1400);
    assert_eq!(r, reply(ServerResponse::Remaining(5000), HostsUpdate::Unchanged, false));
    let r = server.handle_request(ClientRequest::Remaining, 6400);
    assert_eq!(r, reply(ServerResponse::Remaining(0), HostsUpdate::ReleaseBlock, false));
    assert_eq!(server.get_remaining_time(1000), 0);
}

#[test]
fn ping_and_halt() {
    let cfg = config();
    let mut server = FocusServer::from_socket_state(&cfg, false).ok().unwrap();
    assert_eq!(
        server.handle_request(ClientRequest::Ping, 5),
        reply(ServerResponse::Pong, HostsUpdate::Unchanged, false)
    );
    assert_eq!(
        server.handle_request(ClientRequest::Halt, 5),
        reply(ServerResponse::Halting, HostsUpdate::Unchanged, true)
    );
}

#[test]
fn idle_daemon_reports_zero() {
    let cfg = config();
    let mut server = FocusServer::from_socket_state(&cfg, false).ok().unwrap();
    assert_eq!(
        server.handle_request(ClientRequest::Remaining, 77),
        reply(ServerResponse::Remaining(0), HostsUpdate::ReleaseBlock, false)
    );
}

#[test]
fn restart_replaces_the_end_time() {
    let cfg = config();
    let mut server = FocusServer::from_socket_state(&cfg, false).ok().unwrap();
    server.handle_request(ClientRequest::Start("1h".to_string()), 0);
    server.handle_request(ClientRequest::Start("10s".to_string()), 100);
    assert_eq!(server.get_remaining_time(100), 10);
}
