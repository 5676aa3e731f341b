//! Behavior of the connection-state decisions of the ping/pong link.

use snake::network::{Network, NetworkMode, SocketView};

fn quiet_socket() -> SocketView {
    SocketView {
        is_open: true,
        is_active: false,
        may_recv: false,
        can_send: false,
        may_send: false,
        recv_len: 0,
    }
}

#[test]
fn server_listens_when_socket_closed() {
    let mut n = Network::new(NetworkMode::Server);
    let mut sock = quiet_socket();
    sock.is_open = false;
    let plan = n.operate(sock);
    assert_eq!(plan.listen_port, Some(6969));
    assert!(plan.connect.is_none());
    assert!(!plan.close);
}

#[test]
fn server_replies_ping_and_closes() {
    let mut n = Network::new(NetworkMode::Server);
    let mut sock = quiet_socket();
    sock.is_active = true;
    sock.may_recv = true;
    sock.can_send = true;
    sock.recv_len = 4;
    let plan = n.operate(sock);
    assert!(plan.recv);
    assert_eq!(plan.send, Some(b"ping".to_vec()));
    assert!(plan.close);
    assert!(plan.connected_event);
    assert!(n.is_tcp_active());
}

#[test]
fn server_ignores_empty_reads() {
    let mut n = Network::new(NetworkMode::Server);
    let mut sock = quiet_socket();
    sock.may_recv = true;
    sock.can_send = true;
    sock.recv_len = 0;
    let plan = n.operate(sock);
    assert!(plan.recv);
    assert_eq!(plan.send, None);
    assert!(!plan.close);
}

#[test]
fn server_closes_idle_writable_socket() {
    let mut n = Network::new(NetworkMode::Server);
    let mut sock = quiet_socket();
    sock.may_send = true;
    let plan = n.operate(sock);
    assert!(!plan.recv);
    assert_eq!(plan.send, None);
    assert!(plan.close);
}

#[test]
fn server_reports_disconnect() {
    let mut n = Network::new(NetworkMode::Server);
    let mut sock = quiet_socket();
    sock.is_active = true;
    n.operate(sock);
    let sock = quiet_socket();
    let plan = n.operate(sock);
    assert!(plan.disconnected_event);
    assert!(!plan.stop);
    assert!(!n.is_tcp_active());
}

#[test]
fn client_dials_fixed_endpoint() {
    let mut n = Network::new(NetworkMode::Client);
    let mut sock = quiet_socket();
    sock.is_open = false;
    let plan = n.operate(sock);
    let (remote, local_port) = plan.connect.expect("client should dial");
    assert_eq!(remote.addr, [192, 168, 0, 50]);
    assert_eq!(remote.port, 6969);
    assert_eq!(local_port, 7454);
    assert_eq!(plan.listen_port, None);
}

#[test]
fn client_replies_pong_while_readable() {
    let mut n = Network::new(NetworkMode::Client);
    let mut sock = quiet_socket();
    sock.is_active = true;
    sock.may_recv = true;
    sock.can_send = true;
    let plan = n.operate(sock);
    assert!(plan.recv);
    assert_eq!(plan.send, Some(b"pong".to_vec()));
    assert!(!plan.close);
}

#[test]
fn client_stops_on_lost_connection() {
    let mut n = Network::new(NetworkMode::Client);
    let mut sock = quiet_socket();
    sock.is_active = true;
    n.operate(sock);
    let mut sock = quiet_socket();
    sock.may_recv = true;
    sock.can_send = true;
    let plan = n.operate(sock);
    assert!(plan.disconnected_event);
    assert!(plan.stop);
    assert_eq!(plan.send, None);
    assert!(!plan.recv);
    // The early return leaves the memory of the connection untouched.
    assert!(n.is_tcp_active());
}

#[test]
fn client_closes_send_only_socket() {
    let mut n = Network::new(NetworkMode::Client);
    let mut sock = quiet_socket();
    sock.may_send = true;
    let plan = n.operate(sock);
    assert!(plan.close);
    assert_eq!(plan.send, None);
}

#[test]
fn hardware_addresses_differ_in_last_byte() {
    let c = Network::get_ethernet_addr(NetworkMode::Client);
    let s = Network::get_ethernet_addr(NetworkMode::Server);
    assert_eq!(c.octets, [0x00, 0x08, 0xdc, 0xab, 0xcd, 0xef]);
    assert_eq!(s.octets, [0x00, 0x08, 0xdc, 0xab, 0xcd, 0xf0]);
}

#[test]
fn local_ips_differ_by_role() {
    assert_eq!(Network::local_ip(NetworkMode::Server), [192, 168, 0, 24]);
    assert_eq!(Network::local_ip(NetworkMode::Client), [192, 168, 0, 42]);
}
