//! The client role's decisions: one outbound connection that speaks the same
//! framing as the listener, and the queue of frames for its writer.
use vstd::prelude::*;
use vstd::string::StringSliceAdditionalSpecFns;

use crate::codec::{encode, encoding, is_valid_message, valid_message};
use crate::registry::frames_view;

verus! {

/// Why a connector operation was refused.
#[derive(PartialEq, Eq, Structural, Clone, Copy, Debug)]
pub enum ConnectorError {
    AlreadyConnected,
    ConnectFailed,
    NotConnected,
    /// The message is not JSON, or its text holds the delimiter.
    InvalidJson,
}

/// Whether the connector is connected, and the frames that wait for its writer.
pub struct ConnectorModel {
    pub connected: bool,
    pub queue: Seq<Seq<u8>>,
}

/// The outbound connection's state, guarded by its owner's lock.
pub struct Connector {
    connected: bool,
    queue: Vec<Vec<u8>>,
}

impl Connector {
    pub closed spec fn view(&self) -> ConnectorModel {
        ConnectorModel { connected: self.connected, queue: frames_view(self.queue@) }
    }

    /// A connector with no connection.
    pub fn new() -> (r: Connector)
        ensures
            !r@.connected,
            r@.queue == Seq::<Seq<u8>>::empty(),
    {
        let r = Connector { connected: false, queue: Vec::new() };
        assert(r@.queue =~= Seq::<Seq<u8>>::empty());
        r
    }

    /// Whether a connection is up.
    pub fn is_connected(&self) -> (r: bool)
        ensures
            r == self@.connected,
    {
        self.connected
    }

    /// Whether a connection may be tried: refused while one is up.
    pub fn check_connect(&self) -> (r: Result<(), ConnectorError>)
        ensures
            !self@.connected ==> r is Ok,
            self@.connected ==> r == Err::<(), ConnectorError>(ConnectorError::AlreadyConnected),
    {
        if self.connected {
            Err(ConnectorError::AlreadyConnected)
        } else {
            Ok(())
        }
    }

    /// Records the outcome of a handshake (`established`): refused while a
    /// connection is up; otherwise connected, with an empty queue, exactly when
    /// the handshake succeeded.
    pub fn connect(&mut self, established: bool) -> (r: Result<(), ConnectorError>)
        ensures
            old(self)@.connected ==> r == Err::<(), ConnectorError>(
                ConnectorError::AlreadyConnected,
            ) && final(self)@ == old(self)@,
            !old(self)@.connected && !established ==> r == Err::<(), ConnectorError>(
                ConnectorError::ConnectFailed,
            ) && final(self)@ == old(self)@,
            !old(self)@.connected && established ==> r is Ok && final(self)@.connected
                && final(self)@.queue == Seq::<Seq<u8>>::empty(),
    {
        if self.connected {
            return Err(ConnectorError::AlreadyConnected);
        }
        if !established {
            return Err(ConnectorError::ConnectFailed);
        }
        self.connected = true;
        self.queue = Vec::new();
        assert(self@.queue =~= Seq::<Seq<u8>>::empty());
        Ok(())
    }

    /// Queues `message` for the writer: refused when it is not JSON, or when
    /// no connection is up.
    pub fn send(&mut self, message: &str) -> (r: Result<(), ConnectorError>)
        ensures
            !valid_message(message.spec_bytes()) ==> r == Err::<(), ConnectorError>(
                ConnectorError::InvalidJson,
            ) && final(self)@ == old(self)@,
            valid_message(message.spec_bytes()) && !old(self)@.connected ==> r == Err::<
                (),
                ConnectorError,
            >(ConnectorError::NotConnected) && final(self)@ == old(self)@,
            valid_message(message.spec_bytes()) && old(self)@.connected ==> r is Ok
                && final(self)@.connected && final(self)@.queue == old(self)@.queue.push(
                encoding(message.spec_bytes()),
            ),
    {
        if !is_valid_message(message) {
            return Err(ConnectorError::InvalidJson);
        }
        if !self.connected {
            return Err(ConnectorError::NotConnected);
        }
        let frame = encode(message);
        let ghost f = frame@;
        self.queue.push(frame);
        assert(self@.queue =~= old(self)@.queue.push(f));
        Ok(())
    }

    /// Drops the connection, and whatever was queued for it. Safe when no
    /// connection is up; also what happens when the remote end closes.
    pub fn disconnect(&mut self)
        ensures
            !final(self)@.connected,
            final(self)@.queue == Seq::<Seq<u8>>::empty(),
    {
        self.connected = false;
        self.queue = Vec::new();
        assert(self@.queue =~= Seq::<Seq<u8>>::empty());
    }

    /// Every frame queued for the writer, oldest first; the queue is left
    /// empty. `None` when no connection is up: the writer stops.
    pub fn take_outgoing(&mut self) -> (r: Option<Vec<Vec<u8>>>)
        ensures
            final(self)@.connected == old(self)@.connected,
            final(self)@.queue == Seq::<Seq<u8>>::empty(),
            old(self)@.connected ==> (r matches Some(v) && frames_view(v@) == old(self)@.queue),
            !old(self)@.connected ==> r is None,
    {
        let mut frames: Vec<Vec<u8>> = Vec::new();
        std::mem::swap(&mut frames, &mut self.queue);
        assert(self@.queue =~= Seq::<Seq<u8>>::empty());
        if self.connected {
            Some(frames)
        } else {
            None
        }
    }
}

} // verus!
