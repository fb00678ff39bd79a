use vstd::prelude::*;

use crate::types::{Connection, NetworkError};

verus! {

/// A peer joined the roster.
#[derive(Debug, Clone, PartialEq, Eq)]
pub struct ClientConnected(pub Connection);

/// A peer left the roster.
#[derive(Debug, Clone, PartialEq, Eq)]
pub struct ClientDisconnected(pub Connection);

/// A payload arrived from a peer.
#[derive(Debug, Clone, PartialEq, Eq)]
pub struct MessageReceived(pub Connection, pub Vec<u8>);

/// The transport failed to deliver a packet.
#[derive(Debug, Clone, PartialEq, Eq)]
pub struct SendError(pub NetworkError);

} // verus!
