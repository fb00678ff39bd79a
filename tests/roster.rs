use chess_net::reconcile::process_network_events;
use chess_net::resources::NetworkResource;
use chess_net::types::{
    Address, Connection, LaminarConfig, NetworkDelivery, NetworkError, NetworkEvent, SendConfig,
    SocketHandle, Transport,
};

fn conn(port: u16, socket: SocketHandle) -> Connection {
    Connection { addr: Address::v4(127, 0, 0, 1, port), socket }
}

#[test]
fn duplicate_connects_add_once() {
    let mut net = NetworkResource::new();
    let s = SocketHandle(7);
    net.register_socket(s);
    let c = conn(9000, s);
    let events = vec![NetworkEvent::Connected(c), NetworkEvent::Connected(c), NetworkEvent::Connected(c)];
    let out = process_network_events(&mut net, events);
    assert_eq!(net.connections(), &vec![c]);
    assert_eq!(out.connected.len(), 1);
    assert_eq!(out.connected[0].0, c);
    assert!(out.disconnected.is_empty());
}

#[test]
fn connect_of_known_peer_emits_nothing() {
    let mut net = NetworkResource::new();
    let s = SocketHandle(7);
    let c = conn(9000, s);
    net.add_connection(c);
    let out = process_network_events(&mut net, vec![NetworkEvent::Connected(c)]);
    assert_eq!(net.connections(), &vec![c]);
    assert!(out.connected.is_empty());
}

#[test]
fn disconnect_of_unknown_is_noop() {
    let mut net = NetworkResource::new();
    let s = SocketHandle(7);
    let known = conn(9000, s);
    net.add_connection(known);
    let stranger = conn(9001, s);
    let out = process_network_events(&mut net, vec![NetworkEvent::Disconnected(stranger)]);
    assert_eq!(net.connections(), &vec![known]);
    assert!(out.connected.is_empty());
    assert!(out.disconnected.is_empty());
    assert!(out.messages.is_empty());
    assert!(out.errors.is_empty());
}

#[test]
fn disconnect_removes_once_and_keeps_order() {
    let mut net = NetworkResource::new();
    let s = SocketHandle(1);
    let a = conn(1, s);
    let b = conn(2, s);
    let c = conn(3, s);
    net.add_connection(a);
    net.add_connection(b);
    net.add_connection(c);
    let out = process_network_events(
        &mut net,
        vec![NetworkEvent::Disconnected(b), NetworkEvent::Disconnected(b)],
    );
    assert_eq!(net.connections(), &vec![a, c]);
    assert_eq!(out.disconnected.len(), 1);
    assert_eq!(out.disconnected[0].0, b);
}

#[test]
fn messages_and_errors_keep_arrival_order() {
    let mut net = NetworkResource::new();
    let s = SocketHandle(1);
    let a = conn(1, s);
    let events = vec![
        NetworkEvent::Message(a, vec![1]),
        NetworkEvent::Connected(a),
        NetworkEvent::SendError(NetworkError::Transport("lost".to_string())),
        NetworkEvent::Message(a, vec![2, 3]),
        NetworkEvent::Disconnected(a),
    ];
    let out = process_network_events(&mut net, events);
    assert_eq!(out.messages.len(), 2);
    assert_eq!(out.messages[0].1, vec![1]);
    assert_eq!(out.messages[1].1, vec![2, 3]);
    assert_eq!(out.errors.len(), 1);
    assert_eq!(out.errors[0].0, NetworkError::Transport("lost".to_string()));
    // the disconnect was of a peer not yet in the roster when the batch began
    assert_eq!(out.connected.len(), 1);
    assert!(out.disconnected.is_empty());
    assert_eq!(net.connections(), &vec![a]);
}

#[test]
fn send_before_bind_has_no_default_socket() {
    let net = NetworkResource::new();
    let to = Address::v4(10, 0, 0, 1, 5000);
    let r = net.send(to, &[1, 2], NetworkDelivery::ReliableUnordered);
    assert_eq!(r, Err(NetworkError::NoDefaultSocket));
    let b = net.broadcast(&[1, 2], NetworkDelivery::ReliableUnordered);
    assert_eq!(b, Err(NetworkError::NoDefaultSocket));
}

#[test]
fn send_to_unbound_socket_is_refused() {
    let mut net = NetworkResource::new();
    net.register_socket(SocketHandle(1));
    let to = Address::v4(10, 0, 0, 1, 5000);
    let r = net.send_with_config(to, &[9], NetworkDelivery::UnreliableUnordered, SendConfig {
        socket: Some(SocketHandle(2)),
    });
    assert_eq!(r, Err(NetworkError::NoSocket(SocketHandle(2))));
}

#[test]
fn first_bind_becomes_default() {
    let mut net = NetworkResource::new();
    net.register_socket(SocketHandle(1));
    net.register_socket(SocketHandle(2));
    assert_eq!(net.default_socket(), Some(SocketHandle(1)));
    let to = Address::v4(192, 168, 1, 2, 80);
    let m = net.send(to, &[4, 5, 6], NetworkDelivery::ReliableOrdered(Some(3))).unwrap();
    assert_eq!(m.destination, to);
    assert_eq!(m.socket_handle, SocketHandle(1));
    assert_eq!(m.delivery, NetworkDelivery::ReliableOrdered(Some(3)));
    assert_eq!(m.message, vec![4, 5, 6]);
    let m2 = net
        .send_with_config(to, &[7], NetworkDelivery::UnreliableSequenced(None), SendConfig {
            socket: Some(SocketHandle(2)),
        })
        .unwrap();
    assert_eq!(m2.socket_handle, SocketHandle(2));
}

#[test]
fn broadcast_reaches_each_peer_of_the_socket() {
    let mut net = NetworkResource::new();
    let s1 = SocketHandle(1);
    let s2 = SocketHandle(2);
    net.register_socket(s1);
    net.register_socket(s2);
    net.add_connection(conn(1, s1));
    net.add_connection(conn(2, s2));
    net.add_connection(conn(3, s1));
    let out = net.broadcast(&[8], NetworkDelivery::ReliableUnordered).unwrap();
    assert_eq!(out.len(), 2);
    assert_eq!(out[0].destination.port, 1);
    assert_eq!(out[1].destination.port, 3);
    assert!(out.iter().all(|m| m.socket_handle == s1 && m.message == vec![8]));
    assert_eq!(net.connections_for_socket(s2), vec![conn(2, s2)]);
}

#[test]
fn add_and_remove_connection() {
    let mut net = NetworkResource::new();
    let c = conn(4, SocketHandle(1));
    net.add_connection(c);
    net.add_connection(c);
    assert!(net.has_connection(c));
    assert_eq!(net.connections().len(), 1);
    net.remove_connection(c);
    assert!(!net.has_connection(c));
    net.remove_connection(c);
    assert!(net.connections().is_empty());
}

#[test]
fn laminar_defaults() {
    let cfg = LaminarConfig::default();
    assert_eq!(cfg.idle_connection_timeout, 5000);
    assert_eq!(cfg.heartbeat_interval, Some(1000));
    assert_eq!(cfg.max_packets_in_flight, 1024);
    assert_eq!(Transport::Laminar(cfg), Transport::Laminar(LaminarConfig::default()));
    assert_eq!(SendConfig::default().socket, None);
}

#[test]
fn socket_handles_are_version_four_uuids() {
    let a = SocketHandle::new();
    let b = SocketHandle::new();
    assert_eq!((a.0 >> 76) & 0xf, 4);
    assert_ne!(a, b);
}

#[test]
fn ipv4_address_value() {
    let a = Address::v4(127, 0, 0, 1, 12351);
    assert_eq!(a.ip, 0x7f00_0001);
    assert_eq!(a.port, 12351);
    assert!(!a.is_v6);
}
