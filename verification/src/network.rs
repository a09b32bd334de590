//! The abstraction over the transport that carries protocol messages. The
//! library decides what to send (see `coordinator` and `node`); an
//! implementation of this trait, owned by the I/O layer, moves the bytes.

use vstd::prelude::*;
use crate::error::NetworkError;
use crate::protocol::P2PMessage;

verus! {

pub trait NetworkLayer {
    /// Sends a message to every connected peer, best effort: a peer whose
    /// send fails is dropped, and the broadcast itself never fails.
    fn broadcast(&self, message: &P2PMessage) -> Result<(), NetworkError>;

    /// Sends a message to one peer by id; fails with `PeerNotFound` when the
    /// id is not connected.
    fn send_to(&self, node_id: &str, message: &P2PMessage) -> Result<(), NetworkError>;

    /// The ids of all connected peers.
    fn get_connected_peers(&self) -> Vec<String>;

    /// How many peers are connected.
    fn peer_count(&self) -> usize;
}

} // verus!
