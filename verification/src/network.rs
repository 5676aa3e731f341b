//! Connection-state decisions of the ping/pong link.
//!
//! The device drives a TCP socket over an Ethernet peripheral; polling the
//! interface, listening, dialing, draining and sending are the shell's work.
//! What this module holds is the decision kernel of that loop: given what
//! the shell observed of the socket ([`SocketView`]), a [`Network`] decides
//! exactly what the shell is to do next ([`NetPlan`]) and tracks whether the
//! connection was up at the previous step.  The fixed addresses, ports and
//! payloads of the link are pinned by the contracts.

use vstd::prelude::*;

verus! {

/// Operate as either client or server.
#[derive(Clone, Copy, PartialEq, Eq, Structural, Debug)]
pub enum NetworkMode {
    Client,
    Server,
}

/// A six-byte hardware address.
pub struct EthernetAddr {
    pub octets: [u8; 6],
}

/// A four-byte internet address and a port.
pub struct IpEndpoint {
    pub addr: [u8; 4],
    pub port: u16,
}

/// What the shell observed of the socket before a step.
pub struct SocketView {
    pub is_open: bool,
    pub is_active: bool,
    pub may_recv: bool,
    pub can_send: bool,
    pub may_send: bool,
    /// Bytes a receive would currently yield.
    pub recv_len: usize,
}

/// What the shell is to do after a step.
pub struct NetPlan {
    /// Listen on this local port.
    pub listen_port: Option<u16>,
    /// Dial this remote endpoint from this local port.
    pub connect: Option<(IpEndpoint, u16)>,
    /// Report that the connection came up.
    pub connected_event: bool,
    /// Report that the connection went down.
    pub disconnected_event: bool,
    /// A client that lost its connection cuts the step short here.
    pub stop: bool,
    /// Drain the receive buffer and report its text.
    pub recv: bool,
    /// Send this payload.
    pub send: Option<Vec<u8>>,
    /// Close the socket.
    pub close: bool,
}

/// The greeting a server sends back.
pub open spec fn ping_bytes() -> Seq<u8> {
    seq![112u8, 105u8, 110u8, 103u8]
}

/// The reply a client sends.
pub open spec fn pong_bytes() -> Seq<u8> {
    seq![112u8, 111u8, 110u8, 103u8]
}

/// The greeting a server sends back, as bytes: `ping`.
pub fn ping_payload() -> (v: Vec<u8>)
    ensures
        v@ == ping_bytes(),
{
    let mut v: Vec<u8> = Vec::new();
    v.push(112);
    v.push(105);
    v.push(110);
    v.push(103);
    proof {
        assert(v@ =~= ping_bytes());
    }
    v
}

/// The reply a client sends, as bytes: `pong`.
pub fn pong_payload() -> (v: Vec<u8>)
    ensures
        v@ == pong_bytes(),
{
    let mut v: Vec<u8> = Vec::new();
    v.push(112);
    v.push(111);
    v.push(110);
    v.push(103);
    proof {
        assert(v@ =~= pong_bytes());
    }
    v
}

/// The connection-state half of the link: its role and whether the socket
/// was active at the previous step.
pub struct Network {
    network_mode: NetworkMode,
    tcp_active: bool,
}

impl Network {
    /// The role this link operates in.
    pub closed spec fn mode(&self) -> NetworkMode {
        self.network_mode
    }

    /// Whether the socket was active at the previous step.
    pub closed spec fn active(&self) -> bool {
        self.tcp_active
    }

    /// Starts the link in the given role, with no connection yet seen.
    pub fn new(network_mode: NetworkMode) -> (n: Network)
        ensures
            n.mode() == network_mode,
            !n.active(),
    {
        Network { network_mode, tcp_active: false }
    }

    /// Whether the socket was active at the previous step.
    pub fn is_tcp_active(&self) -> (b: bool)
        ensures
            b == self.active(),
    {
        self.tcp_active
    }

    /// The fixed local internet address of each role.
    pub fn local_ip(network_mode: NetworkMode) -> (a: [u8; 4])
        ensures
            network_mode is Server ==> a@ == seq![192u8, 168u8, 0u8, 24u8],
            network_mode is Client ==> a@ == seq![192u8, 168u8, 0u8, 42u8],
    {
        let a: [u8; 4] = match network_mode {
            NetworkMode::Server => [192, 168, 0, 24],
            NetworkMode::Client => [192, 168, 0, 42],
        };
        proof {
            if network_mode is Server {
                assert(a@ =~= seq![192u8, 168u8, 0u8, 24u8]);
            } else {
                assert(a@ =~= seq![192u8, 168u8, 0u8, 42u8]);
            }
        }
        a
    }

    /// The fixed hardware address of each role; they differ in the last
    /// byte.
    pub fn get_ethernet_addr(network_mode: NetworkMode) -> (a: EthernetAddr)
        ensures
            network_mode is Client ==> a.octets@ == seq![
                0x00u8,
                0x08u8,
                0xdcu8,
                0xabu8,
                0xcdu8,
                0xefu8,
            ],
            network_mode is Server ==> a.octets@ == seq![
                0x00u8,
                0x08u8,
                0xdcu8,
                0xabu8,
                0xcdu8,
                0xf0u8,
            ],
    {
        let octets: [u8; 6] = match network_mode {
            NetworkMode::Client => [0x00, 0x08, 0xdc, 0xab, 0xcd, 0xef],
            NetworkMode::Server => [0x00, 0x08, 0xdc, 0xab, 0xcd, 0xf0],
        };
        proof {
            if network_mode is Client {
                assert(octets@ =~= seq![0x00u8, 0x08u8, 0xdcu8, 0xabu8, 0xcdu8, 0xefu8]);
            } else {
                assert(octets@ =~= seq![0x00u8, 0x08u8, 0xdcu8, 0xabu8, 0xcdu8, 0xf0u8]);
            }
        }
        EthernetAddr { octets }
    }

    /// One step of the link: decides, from the socket observation, what the
    /// shell does next.  A server with a closed socket listens on port 6969;
    /// it reports connection transitions, drains what can be read, answers a
    /// nonempty read with `ping` and closes, and closes an idle writable
    /// socket.  A client with a closed socket dials 192.168.0.50:6969 from
    /// local port 7454; on a lost connection it reports it and cuts the step
    /// short without touching its memory of the connection; otherwise it
    /// drains what can be read, replies `pong` whenever it can write, and
    /// closes a socket that can only send.
    pub fn operate(&mut self, sock: SocketView) -> (plan: NetPlan)
        ensures
            final(self).mode() == old(self).mode(),
            (plan.send matches Some(p) ==> (old(self).mode() is Server ==> p@ == ping_bytes())
                && (old(self).mode() is Client ==> p@ == pong_bytes())),
            old(self).mode() is Server ==> {
                &&& plan.listen_port == (if !sock.is_open {
                    Some(6969u16)
                } else {
                    None
                })
                &&& plan.connect is None
                &&& plan.connected_event == (sock.is_active && !old(self).active())
                &&& plan.disconnected_event == (!sock.is_active && old(self).active())
                &&& !plan.stop
                &&& final(self).active() == sock.is_active
                &&& plan.recv == sock.may_recv
                &&& (plan.send is Some <==> (sock.may_recv && sock.can_send && sock.recv_len
                    > 0))
                &&& plan.close == ((sock.may_recv && sock.can_send && sock.recv_len > 0) || (
                !sock.may_recv && sock.may_send))
            },
            old(self).mode() is Client ==> {
                &&& plan.listen_port is None
                &&& (plan.connect is Some <==> !sock.is_open)
                &&& (plan.connect matches Some(c) ==> c.0.addr@ == seq![192u8, 168u8, 0u8, 50u8]
                    && c.0.port == 6969 && c.1 == 7454)
                &&& plan.connected_event == (sock.is_active && !old(self).active())
                &&& plan.disconnected_event == (!sock.is_active && old(self).active())
                &&& plan.stop == plan.disconnected_event
                &&& (plan.stop ==> final(self).active() == old(self).active())
                &&& (!plan.stop ==> final(self).active() == sock.is_active)
                &&& (plan.stop ==> !plan.recv && plan.send is None && !plan.close)
                &&& (!plan.stop ==> plan.recv == sock.may_recv)
                &&& (!plan.stop ==> (plan.send is Some <==> (sock.may_recv && sock.can_send)))
                &&& (!plan.stop ==> plan.close == (!sock.may_recv && sock.may_send))
            },
    {
        match self.network_mode {
            NetworkMode::Server => self.operate_server(sock),
            NetworkMode::Client => self.operate_client(sock),
        }
    }

    /// The server half of `operate`.
    fn operate_server(&mut self, sock: SocketView) -> (plan: NetPlan)
        requires
            old(self).mode() is Server,
        ensures
            final(self).mode() == old(self).mode(),
            plan.listen_port == (if !sock.is_open {
                Some(6969u16)
            } else {
                None
            }),
            plan.connect is None,
            plan.connected_event == (sock.is_active && !old(self).active()),
            plan.disconnected_event == (!sock.is_active && old(self).active()),
            !plan.stop,
            final(self).active() == sock.is_active,
            plan.recv == sock.may_recv,
            (plan.send is Some <==> (sock.may_recv && sock.can_send && sock.recv_len > 0)),
            (plan.send matches Some(p) ==> p@ == ping_bytes()),
            plan.close == ((sock.may_recv && sock.can_send && sock.recv_len > 0) || (
            !sock.may_recv && sock.may_send)),
    {
        let listen_port: Option<u16> = if !sock.is_open {
            Some(6969)
        } else {
            None
        };
        let connected_event = sock.is_active && !self.tcp_active;
        let disconnected_event = !sock.is_active && self.tcp_active;
        self.tcp_active = sock.is_active;
        let mut send: Option<Vec<u8>> = None;
        let mut close = false;
        if sock.may_recv {
            if sock.can_send && sock.recv_len > 0 {
                send = Some(ping_payload());
                close = true;
            }
        } else if sock.may_send {
            close = true;
        }
        NetPlan {
            listen_port,
            connect: None,
            connected_event,
            disconnected_event,
            stop: false,
            recv: sock.may_recv,
            send,
            close,
        }
    }

    /// The client half of `operate`.
    fn operate_client(&mut self, sock: SocketView) -> (plan: NetPlan)
        requires
            old(self).mode() is Client,
        ensures
            final(self).mode() == old(self).mode(),
            plan.listen_port is None,
            (plan.connect is Some <==> !sock.is_open),
            (plan.connect matches Some(c) ==> c.0.addr@ == seq![192u8, 168u8, 0u8, 50u8]
                && c.0.port == 6969 && c.1 == 7454),
            plan.connected_event == (sock.is_active && !old(self).active()),
            plan.disconnected_event == (!sock.is_active && old(self).active()),
            plan.stop == plan.disconnected_event,
            (plan.stop ==> final(self).active() == old(self).active()),
            (!plan.stop ==> final(self).active() == sock.is_active),
            (plan.stop ==> !plan.recv && plan.send is None && !plan.close),
            (!plan.stop ==> plan.recv == sock.may_recv),
            (!plan.stop ==> (plan.send is Some <==> (sock.may_recv && sock.can_send))),
            (plan.send matches Some(p) ==> p@ == pong_bytes()),
            (!plan.stop ==> plan.close == (!sock.may_recv && sock.may_send)),
    {
        let connect: Option<(IpEndpoint, u16)> = if !sock.is_open {
            let remote = IpEndpoint { addr: [192, 168, 0, 50], port: 6969 };
            proof {
                assert(remote.addr@ =~= seq![192u8, 168u8, 0u8, 50u8]);
            }
            Some((remote, 7454))
        } else {
            None
        };
        let connected_event = sock.is_active && !self.tcp_active;
        let disconnected_event = !sock.is_active && self.tcp_active;
        if disconnected_event {
            return NetPlan {
                listen_port: None,
                connect,
                connected_event,
                disconnected_event,
                stop: true,
                recv: false,
                send: None,
                close: false,
            };
        }
        self.tcp_active = sock.is_active;
        let mut send: Option<Vec<u8>> = None;
        let mut close = false;
        if sock.may_recv {
            if sock.can_send {
                send = Some(pong_payload());
            }
        } else if sock.may_send {
            close = true;
        }
        NetPlan {
            listen_port: None,
            connect,
            connected_event,
            disconnected_event,
            stop: false,
            recv: sock.may_recv,
            send,
            close,
        }
    }
}

} // verus!
