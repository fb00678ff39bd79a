use vstd::prelude::*;

verus! {

/// A network address: an IP address held as a 128-bit number (an IPv4 address
/// in its low 32 bits) and a port.
#[derive(Debug, Clone, Copy, PartialEq, Eq, Hash, Structural)]
pub struct Address {
    pub ip: u128,
    pub port: u16,
    pub is_v6: bool,
}

impl Address {
    /// An IPv4 address given as its four octets.
    pub fn v4(a: u8, b: u8, c: u8, d: u8, port: u16) -> (r: Address)
        ensures
            r.ip == a as u128 * 0x1000000 + b as u128 * 0x10000 + c as u128 * 0x100 + d as u128,
            r.port == port,
            !r.is_v6,
    {
        let ip: u128 = (a as u128) * 0x1000000 + (b as u128) * 0x10000 + (c as u128) * 0x100 + (d as u128);
        Address { ip, port, is_v6: false }
    }
}

/// Relies on uuid::Uuid::new_v4 and Uuid::as_u128: a random version-4 UUID,
/// read as a big-endian number, whose version nibble is 4 and whose variant
/// bits are `10`.
#[verifier::external_body]
pub(crate) fn random_uuid() -> (r: u128)
    ensures
        (r >> 76u128) & 0xfu128 == 4,
        (r >> 62u128) & 3u128 == 2,
{
    uuid::Uuid::new_v4().as_u128()
}

/// The identity of one bound local socket. Unique within a process.
#[derive(Debug, Clone, Copy, PartialEq, Eq, Hash, Structural)]
pub struct SocketHandle(pub u128);

impl SocketHandle {
    /// A fresh handle, drawn as a random version-4 UUID.
    pub fn new() -> (r: SocketHandle)
        ensures
            (r.0 >> 76u128) & 0xfu128 == 4,
    {
        SocketHandle(random_uuid())
    }
}

/// A remote peer reachable through a given local socket.
#[derive(Debug, Clone, Copy, PartialEq, Eq, Hash, Structural)]
pub struct Connection {
    pub addr: Address,
    pub socket: SocketHandle,
}

/// How a caller wants one message transmitted. A stream id scopes ordering or
/// sequencing to a group of related messages; `None` means no grouping.
#[derive(Debug, Clone, Copy, PartialEq, Eq, Structural)]
pub enum NetworkDelivery {
    UnreliableUnordered,
    UnreliableSequenced(Option<u8>),
    ReliableUnordered,
    ReliableSequenced(Option<u8>),
    ReliableOrdered(Option<u8>),
}

/// Options of one send. Without a socket the default socket is used.
#[derive(Debug, Clone, Copy, PartialEq, Eq, Structural)]
pub struct SendConfig {
    pub socket: Option<SocketHandle>,
}

impl SendConfig {
    pub fn default() -> (r: SendConfig)
        ensures
            r.socket is None,
    {
        SendConfig { socket: None }
    }
}

/// Settings of the reliable-UDP transport. Durations are in milliseconds.
#[derive(Debug, Clone, Copy, PartialEq, Eq, Structural)]
pub struct LaminarConfig {
    pub idle_connection_timeout: u64,
    pub heartbeat_interval: Option<u64>,
    pub max_packets_in_flight: u16,
}

impl LaminarConfig {
    /// Five seconds of idleness end a connection, a heartbeat goes out every
    /// second, and at most 1024 packets are in flight.
    pub fn default() -> (r: LaminarConfig)
        ensures
            r.idle_connection_timeout == 5000,
            r.heartbeat_interval == Some(1000u64),
            r.max_packets_in_flight == 1024,
    {
        LaminarConfig {
            idle_connection_timeout: 5000,
            heartbeat_interval: Some(1000),
            max_packets_in_flight: 1024,
        }
    }
}

/// The transport that a socket is bound with.
#[derive(Debug, Clone, Copy, PartialEq, Eq, Structural)]
pub enum Transport {
    Laminar(LaminarConfig),
}

/// Errors of the networking layer.
#[derive(Debug, Clone, PartialEq, Eq)]
pub enum NetworkError {
    /// No socket was given and none has been bound yet.
    NoDefaultSocket,
    /// The socket was never bound on this resource.
    NoSocket(SocketHandle),
    /// The worker's end of a channel is gone.
    ChannelClosed,
    /// The operating system refused to bind the socket.
    Bind(String),
    /// The transport failed to send a packet.
    Transport(String),
}

/// A message waiting to be sent by the worker.
#[derive(Debug, Clone, PartialEq, Eq)]
pub struct OutboundMessage {
    pub destination: Address,
    pub socket_handle: SocketHandle,
    pub delivery: NetworkDelivery,
    pub message: Vec<u8>,
}

/// What the worker reports to the simulation thread.
#[derive(Debug, Clone, PartialEq, Eq)]
pub enum NetworkEvent {
    Connected(Connection),
    Disconnected(Connection),
    Message(Connection, Vec<u8>),
    SendError(NetworkError),
}

} // verus!
