//! The listener's decisions: its lifecycle (stopped, running, shutting down),
//! which peers it serves, and which frames go to which peer. The sockets, the
//! accept loop and the timers live outside; they report each event here and
//! carry out what comes back.
use vstd::prelude::*;
use vstd::string::StringSliceAdditionalSpecFns;

use crate::codec::{encode, encoding, is_valid_message, valid_message};
use crate::registry::{frames_view, push_all, PeerAddress, Registry};

verus! {

/// The text of the notice that every peer gets when the server shuts down.
pub const SHUTDOWN_NOTICE: &'static str = "{\"system\":\"server_shutdown\",\"message\":\"Server is shutting down\"}";

/// The frame that carries the shutdown notice.
pub open spec fn shutdown_frame() -> Seq<u8> {
    encoding(SHUTDOWN_NOTICE.spec_bytes())
}

/// The lifecycle of the listener.
#[derive(PartialEq, Eq, Structural, Clone, Copy, Debug)]
pub enum ServerStatus {
    Stopped,
    Running,
    ShuttingDown,
}

/// Why a server operation was refused.
#[derive(PartialEq, Eq, Structural, Clone, Copy, Debug)]
pub enum ServerError {
    AlreadyRunning,
    NotRunning,
    ShuttingDown,
    BindFailed,
    /// The message is not JSON, or its text holds the delimiter.
    InvalidJson,
    PeerNotFound,
}

/// What the server knows: its status, the frames queued for each connected
/// peer, and the peers whose connection closes once their queue is written.
pub struct ServerModel {
    pub status: ServerStatus,
    pub queues: Map<PeerAddress, Seq<Seq<u8>>>,
    pub closing: Set<PeerAddress>,
}

/// The error for a send while the server does not run, by its status.
pub open spec fn idle_error(status: ServerStatus) -> ServerError {
    if status == ServerStatus::ShuttingDown {
        ServerError::ShuttingDown
    } else {
        ServerError::NotRunning
    }
}

/// `start`, once the listening socket was bound (`bound`) or not.
pub open spec fn start_spec(m: ServerModel, bound: bool) -> (ServerModel, Result<(), ServerError>) {
    if m.status != ServerStatus::Stopped {
        (m, Err(ServerError::AlreadyRunning))
    } else if !bound {
        (m, Err(ServerError::BindFailed))
    } else {
        (
            ServerModel {
                status: ServerStatus::Running,
                queues: Map::empty(),
                closing: Set::empty(),
            },
            Ok(()),
        )
    }
}

/// `stop`: every connected peer gets the shutdown notice, then its connection
/// closes. A shutdown already under way goes on unchanged.
pub open spec fn stop_spec(m: ServerModel) -> (ServerModel, Result<(), ServerError>) {
    if m.status == ServerStatus::Stopped {
        (m, Err(ServerError::NotRunning))
    } else if m.status == ServerStatus::ShuttingDown {
        (m, Ok(()))
    } else {
        (
            ServerModel {
                status: ServerStatus::ShuttingDown,
                queues: push_all(m.queues, shutdown_frame()),
                closing: m.queues.dom(),
            },
            Ok(()),
        )
    }
}

/// The end of the grace period after `stop`: the registry is emptied and the
/// server stops.
pub open spec fn finish_shutdown_spec(m: ServerModel) -> ServerModel {
    ServerModel { status: ServerStatus::Stopped, queues: Map::empty(), closing: Set::empty() }
}

/// `send_to_all` with the message's bytes `msg`.
pub open spec fn send_to_all_spec(m: ServerModel, msg: Seq<u8>) -> (ServerModel, Result<(), ServerError>) {
    if !valid_message(msg) {
        (m, Err(ServerError::InvalidJson))
    } else if m.status != ServerStatus::Running {
        (m, Err(idle_error(m.status)))
    } else {
        (ServerModel { queues: push_all(m.queues, encoding(msg)), ..m }, Ok(()))
    }
}

/// `send_to_one` with the peer's address and the message's bytes `msg`.
pub open spec fn send_to_one_spec(m: ServerModel, peer: PeerAddress, msg: Seq<u8>) -> (
    ServerModel,
    Result<(), ServerError>,
) {
    if !valid_message(msg) {
        (m, Err(ServerError::InvalidJson))
    } else if m.status != ServerStatus::Running {
        (m, Err(idle_error(m.status)))
    } else if !m.queues.contains_key(peer) {
        (m, Err(ServerError::PeerNotFound))
    } else {
        (
            ServerModel { queues: m.queues.insert(peer, m.queues[peer].push(encoding(msg))), ..m },
            Ok(()),
        )
    }
}

/// A new connection from `peer`: served only while the server runs.
pub open spec fn connect_spec(m: ServerModel, peer: PeerAddress) -> (ServerModel, bool) {
    if m.status == ServerStatus::Running {
        (
            ServerModel {
                queues: m.queues.insert(peer, Seq::empty()),
                closing: m.closing.remove(peer),
                ..m
            },
            true,
        )
    } else {
        (m, false)
    }
}

/// The connection of `peer` ended; nothing changes when it was not registered.
pub open spec fn disconnect_spec(m: ServerModel, peer: PeerAddress) -> ServerModel {
    ServerModel { queues: m.queues.remove(peer), closing: m.closing.remove(peer), ..m }
}

/// The writer of `peer` takes every frame queued for it, and whether to close
/// after writing them.
pub open spec fn take_spec(m: ServerModel, peer: PeerAddress) -> (
    ServerModel,
    Option<(Seq<Seq<u8>>, bool)>,
) {
    if m.queues.contains_key(peer) {
        (
            ServerModel { queues: m.queues.insert(peer, Seq::empty()), ..m },
            Some((m.queues[peer], m.closing.contains(peer))),
        )
    } else {
        (m, None)
    }
}

/// `send_to_one` to `peer` with each of `msgs`, in order.
pub open spec fn send_each_spec(m: ServerModel, peer: PeerAddress, msgs: Seq<Seq<u8>>) -> ServerModel
    decreases msgs.len(),
{
    if msgs.len() == 0 {
        m
    } else {
        send_each_spec(send_to_one_spec(m, peer, msgs[0]).0, peer, msgs.drop_first())
    }
}

/// The frames of `msgs`, in order.
pub open spec fn encodings(msgs: Seq<Seq<u8>>) -> Seq<Seq<u8>> {
    msgs.map_values(|x: Seq<u8>| encoding(x))
}

/// Messages sent to one connected peer reach its writer in the order they
/// were sent, each once, after what was queued before; the queues of the
/// other peers do not change.
pub proof fn lemma_private_order(m: ServerModel, peer: PeerAddress, msgs: Seq<Seq<u8>>)
    requires
        m.status == ServerStatus::Running,
        m.queues.contains_key(peer),
        forall|i: int| 0 <= i < msgs.len() ==> valid_message(#[trigger] msgs[i]),
    ensures
        ({
            let after = send_each_spec(m, peer, msgs);
            &&& after.status == ServerStatus::Running
            &&& after.closing == m.closing
            &&& after.queues.dom() == m.queues.dom()
            &&& after.queues[peer] == m.queues[peer] + encodings(msgs)
            &&& forall|q: PeerAddress|
                q != peer && #[trigger] m.queues.contains_key(q) ==> after.queues[q] == m.queues[q]
            &&& take_spec(after, peer).1 == Some((m.queues[peer] + encodings(msgs), m.closing.contains(peer)))
        }),
    decreases msgs.len(),
{
    if msgs.len() == 0 {
        assert(m.queues[peer] + encodings(msgs) =~= m.queues[peer]);
    } else {
        assert(valid_message(msgs[0]));
        let m1 = send_to_one_spec(m, peer, msgs[0]).0;
        let rest = msgs.drop_first();
        assert forall|i: int| 0 <= i < rest.len() implies valid_message(#[trigger] rest[i]) by {
            assert(rest[i] == msgs[i + 1]);
        }
        lemma_private_order(m1, peer, rest);
        assert(m1.queues.dom() =~= m.queues.dom());
        assert(m1.queues[peer] + encodings(rest) =~= m.queues[peer] + encodings(msgs));
    }
}

/// A message sent to all while peers are connected is queued exactly once for
/// each of them, and for no one else; a peer that connects afterwards starts
/// with none of it.
pub proof fn lemma_broadcast_once(m: ServerModel, msg: Seq<u8>, late: PeerAddress)
    requires
        m.status == ServerStatus::Running,
        valid_message(msg),
        !m.queues.contains_key(late),
    ensures
        ({
            let (after, r) = send_to_all_spec(m, msg);
            &&& r is Ok
            &&& after.queues.dom() == m.queues.dom()
            &&& forall|p: PeerAddress|
                #[trigger] m.queues.contains_key(p) ==> after.queues[p] == m.queues[p].push(
                    encoding(msg),
                )
            &&& connect_spec(after, late).0.queues[late] == Seq::<Seq<u8>>::empty()
        }),
{
    let after = send_to_all_spec(m, msg).0;
    assert(after.queues.dom() =~= m.queues.dom());
}

/// A send to a peer that is not registered changes nothing; while the server
/// runs and the message is well-formed it fails with `PeerNotFound`.
pub proof fn lemma_unknown_peer(m: ServerModel, peer: PeerAddress, msg: Seq<u8>)
    requires
        !m.queues.contains_key(peer),
    ensures
        send_to_one_spec(m, peer, msg).0 == m,
        m.status == ServerStatus::Running && valid_message(msg) ==> send_to_one_spec(m, peer, msg).1
            == Err::<(), ServerError>(ServerError::PeerNotFound),
{
}

/// After `stop` on a running server, every connected peer has the shutdown
/// notice queued last and its connection marked to close; at the end of the
/// grace period no peer is left, and the server starts again.
pub proof fn lemma_shutdown(m: ServerModel)
    requires
        m.status == ServerStatus::Running,
    ensures
        ({
            let (stopping, r) = stop_spec(m);
            let done = finish_shutdown_spec(stopping);
            &&& r is Ok
            &&& forall|p: PeerAddress|
                #[trigger] m.queues.contains_key(p) ==> stopping.closing.contains(p)
                    && stopping.queues[p] == m.queues[p].push(shutdown_frame())
            &&& done.queues == Map::<PeerAddress, Seq<Seq<u8>>>::empty()
            &&& start_spec(done, true).1 is Ok
            &&& start_spec(done, true).0.status == ServerStatus::Running
        }),
{
}

/// The listener's state, guarded by its owner's lock.
pub struct Server {
    status: ServerStatus,
    registry: Registry,
}

impl Server {
    pub closed spec fn view(&self) -> ServerModel {
        ServerModel {
            status: self.status,
            queues: self.registry.queues(),
            closing: self.registry.closing(),
        }
    }

    pub closed spec fn wf(&self) -> bool {
        &&& self.registry.wf()
        &&& self.status == ServerStatus::Stopped ==> self.registry.queues() =~= Map::empty()
    }

    /// A stopped server with no peers.
    pub fn new() -> (r: Server)
        ensures
            r.wf(),
            r@.status == ServerStatus::Stopped,
            r@.queues == Map::<PeerAddress, Seq<Seq<u8>>>::empty(),
            r@.closing == Set::<PeerAddress>::empty(),
    {
        Server { status: ServerStatus::Stopped, registry: Registry::new() }
    }

    /// The current status.
    pub fn status(&self) -> (r: ServerStatus)
        ensures
            r == self@.status,
    {
        self.status
    }

    /// Whether a start may be tried: refused while the server runs or shuts down.
    pub fn check_start(&self) -> (r: Result<(), ServerError>)
        ensures
            r is Ok <==> self@.status == ServerStatus::Stopped,
            r is Err ==> r == Err::<(), ServerError>(ServerError::AlreadyRunning),
    {
        if self.status == ServerStatus::Stopped {
            Ok(())
        } else {
            Err(ServerError::AlreadyRunning)
        }
    }

    /// Starts serving once the listening socket was bound (`bound`); refused
    /// when the server is not stopped, or when the bind failed.
    pub fn start(&mut self, bound: bool) -> (r: Result<(), ServerError>)
        requires
            old(self).wf(),
        ensures
            final(self).wf(),
            (final(self)@, r) == start_spec(old(self)@, bound),
    {
        if self.status != ServerStatus::Stopped {
            return Err(ServerError::AlreadyRunning);
        }
        if !bound {
            return Err(ServerError::BindFailed);
        }
        self.registry.clear();
        self.status = ServerStatus::Running;
        Ok(())
    }

    /// Begins the shutdown: each connected peer gets the shutdown notice and
    /// its connection closes once its queue is written. Refused when stopped;
    /// changes nothing when a shutdown is under way.
    pub fn stop(&mut self) -> (r: Result<(), ServerError>)
        requires
            old(self).wf(),
        ensures
            final(self).wf(),
            (final(self)@, r) == stop_spec(old(self)@),
    {
        if self.status == ServerStatus::Stopped {
            return Err(ServerError::NotRunning);
        }
        if self.status == ServerStatus::ShuttingDown {
            return Ok(());
        }
        let notice = encode(SHUTDOWN_NOTICE);
        self.registry.close_all(&notice);
        self.status = ServerStatus::ShuttingDown;
        Ok(())
    }

    /// Ends the shutdown after its grace period: every peer is dropped and the
    /// server is stopped.
    pub fn finish_shutdown(&mut self)
        requires
            old(self).wf(),
        ensures
            final(self).wf(),
            final(self)@ == finish_shutdown_spec(old(self)@),
    {
        self.registry.clear();
        self.status = ServerStatus::Stopped;
    }

    /// Queues `message` for every connected peer.
    pub fn send_to_all(&mut self, message: &str) -> (r: Result<(), ServerError>)
        requires
            old(self).wf(),
        ensures
            final(self).wf(),
            (final(self)@, r) == send_to_all_spec(old(self)@, message.spec_bytes()),
    {
        if !is_valid_message(message) {
            return Err(ServerError::InvalidJson);
        }
        if self.status != ServerStatus::Running {
            return Err(self.idle_error());
        }
        let frame = encode(message);
        self.registry.queue_all(&frame);
        Ok(())
    }

    /// Queues `message` for the peer at `peer` alone.
    pub fn send_to_one(&mut self, peer: PeerAddress, message: &str) -> (r: Result<(), ServerError>)
        requires
            old(self).wf(),
        ensures
            final(self).wf(),
            (final(self)@, r) == send_to_one_spec(old(self)@, peer, message.spec_bytes()),
    {
        if !is_valid_message(message) {
            return Err(ServerError::InvalidJson);
        }
        if self.status != ServerStatus::Running {
            return Err(self.idle_error());
        }
        let frame = encode(message);
        if self.registry.queue_frame(peer, frame) {
            Ok(())
        } else {
            Err(ServerError::PeerNotFound)
        }
    }

    /// The error for a send that the broadcast path could not take: the
    /// server is not running, or is shutting down.
    pub fn idle_error(&self) -> (r: ServerError)
        ensures
            r == idle_error(self@.status),
    {
        if self.status == ServerStatus::ShuttingDown {
            ServerError::ShuttingDown
        } else {
            ServerError::NotRunning
        }
    }

    /// A peer connected at `peer`. It is registered, with an empty queue, only
    /// while the server runs; the result says whether it was.
    pub fn peer_connected(&mut self, peer: PeerAddress) -> (r: bool)
        requires
            old(self).wf(),
        ensures
            final(self).wf(),
            (final(self)@, r) == connect_spec(old(self)@, peer),
    {
        if self.status != ServerStatus::Running {
            return false;
        }
        self.registry.register(peer);
        true
    }

    /// The connection of `peer` ended. Safe to report more than once.
    pub fn peer_disconnected(&mut self, peer: PeerAddress)
        requires
            old(self).wf(),
        ensures
            final(self).wf(),
            final(self)@ == disconnect_spec(old(self)@, peer),
    {
        self.registry.unregister(peer);
        proof {
            if self.status == ServerStatus::Stopped {
                assert(self.registry.queues() =~= Map::empty());
            }
        }
    }

    /// Every frame queued for `peer`, oldest first, and whether its connection
    /// is to close after them. `None` when the peer is not registered: its
    /// writer stops.
    pub fn take_outgoing(&mut self, peer: PeerAddress) -> (r: Option<(Vec<Vec<u8>>, bool)>)
        requires
            old(self).wf(),
        ensures
            final(self).wf(),
            final(self)@ == take_spec(old(self)@, peer).0,
            match take_spec(old(self)@, peer).1 {
                Some((frames, closing)) => r matches Some((v, c)) && frames_view(v@) == frames
                    && c == closing,
                None => r is None,
            },
    {
        self.registry.take(peer)
    }

    /// Whether `peer` is registered.
    pub fn is_connected(&self, peer: PeerAddress) -> (r: bool)
        requires
            self.wf(),
        ensures
            r == self@.queues.contains_key(peer),
    {
        self.registry.contains(peer)
    }

    /// The number of registered peers.
    pub fn peer_count(&self) -> (r: usize)
        requires
            self.wf(),
        ensures
            r == self@.queues.len(),
    {
        self.registry.len()
    }

    /// The registered peers, each once.
    pub fn peers(&self) -> (r: Vec<PeerAddress>)
        requires
            self.wf(),
        ensures
            r@.no_duplicates(),
            r@.to_set() == self@.queues.dom(),
    {
        self.registry.addresses()
    }
}

} // verus!
