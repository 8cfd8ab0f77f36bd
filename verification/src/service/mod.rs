//! The service: sessions, routing, gossip and the periodic tasks.

pub mod config;
pub mod filter;
pub mod gossip;
pub mod message;
pub mod reactor;
pub mod routing;
pub mod session;

use crate::clock::{elapsed, LocalDuration, LocalTime, RefClock, Timestamp};
use crate::crypto::{signature_valid, Signer, Verified};
use crate::git::{Host, Scheme, Url, UrlView};
use crate::identity::{Id, Oid};
use crate::lookup::{find_first, is_first, lemma_absent, lemma_found};
use crate::net::{IpAddr, Link, SocketAddr};
use crate::service::config::Config;
use crate::service::gossip::{is_handshake, messages_view};
use crate::service::message::{
    Envelope, InventoryAnnouncement, Message, MessageView, NodeId, RefsAnnouncement,
    PROTOCOL_VERSION,
};
use crate::service::reactor::{
    broadcast_of, enveloped, write_of, Disconnect, DisconnectReason, Event, EventView, Io, IoView,
    Reactor,
};
use crate::service::routing::{live_routes, Route, Routing};
use crate::service::session::{Session, SessionError, SessionState};
use crate::storage;
use crate::storage::{updates_view, Doc, RefUpdate, WriteStorage};
use nonempty::NonEmpty;
use vstd::prelude::*;

verus! {

/// The port that a node listens on unless told otherwise.
pub const DEFAULT_PORT: u16 = 8776;

/// The number of peers that the service tries to have.
pub const TARGET_OUTBOUND_PEERS: usize = 8;

/// The time between two runs of the idle task, in milliseconds.
pub const IDLE_INTERVAL: u128 = 30_000;

/// The time between two announcements of the inventory, in milliseconds.
pub const ANNOUNCE_INTERVAL: u128 = 30_000;

/// The time between two runs of the sync task, in milliseconds.
pub const SYNC_INTERVAL: u128 = 60_000;

/// The time between two prunings of the routing table, in milliseconds.
pub const PRUNE_INTERVAL: u128 = 1_800_000;

/// The number of times that a lost peer is tried again.
pub const MAX_CONNECTION_ATTEMPTS: usize = 3;

/// How far from the local clock, ahead of it or behind it, the time of a
/// message may be, in seconds.
pub const MAX_TIME_DELTA: u64 = 3_600;

/// Information on a peer, that we may or may not be connected to.
#[derive(Debug, Copy, Clone, PartialEq, Eq, Structural)]
pub struct Peer {
    /// Timestamp of the last message received from peer.
    pub last_message: Timestamp,
}

impl Peer {
    /// A peer that nothing was heard of yet.
    pub fn default() -> (peer: Peer)
        ensures
            peer.last_message == 0,
    {
        Peer { last_message: 0 }
    }
}

/// Result of a project lookup.
#[derive(Debug)]
pub struct Lookup {
    /// Whether the project was found locally or not.
    pub local: Option<Doc<Verified>>,
    /// A list of remote peers on which the project is known to exist.
    pub remote: Vec<NodeId>,
}

impl Lookup {
    /// The result of a lookup, given what storage has said of the project
    /// and the nodes that the routing table names: what storage holds and
    /// those nodes, or the error of storage.
    pub fn found(local: Result<Option<Doc<Verified>>, storage::Error>, remote: Vec<NodeId>) -> (r:
        Result<Lookup, storage::Error>)
        ensures
            match local {
                Ok(doc) => r matches Ok(found) && found.local == doc && found.remote == remote,
                Err(e) => r matches Err(x) && x == e,
            },
    {
        match local {
            Ok(local) => Ok(Lookup { local, remote }),
            Err(e) => Err(e),
        }
    }
}

/// The property of being the session with the peer at `ip`.
pub open spec fn at_ip(ip: IpAddr) -> spec_fn(Session) -> bool {
    |s: Session| s.addr.ip == ip
}

/// The property of being a session in which the node `id` has identified
/// itself.
pub open spec fn negotiated_as(id: NodeId) -> spec_fn(Session) -> bool {
    |s: Session| s.state matches SessionState::Negotiated { id: peer, .. } && peer == id
}

/// Whether a message goes to the peer of a session: the peer has
/// identified itself; it is not the peer at `except`; and, where the
/// message is about one project, the peer has subscribed to that project.
pub open spec fn recipient(s: Session, except: Option<IpAddr>, project: Option<Id>) -> bool {
    &&& s.state is Negotiated
    &&& except matches Some(ip) ==> s.addr.ip != ip
    &&& project matches Some(p) ==> s.wants(p)
}

/// The addresses of the peers that a message goes to, in the order of the
/// sessions.
pub open spec fn recipients(
    list: Seq<Session>,
    except: Option<IpAddr>,
    project: Option<Id>,
) -> Seq<SocketAddr>
    decreases list.len(),
{
    if list.len() == 0 {
        Seq::empty()
    } else {
        let before = recipients(list.drop_last(), except, project);
        if recipient(list.last(), except, project) {
            before.push(list.last().addr)
        } else {
            before
        }
    }
}

/// Each peer that a message about a project goes to has a session in
/// which it has subscribed to that project: no announcement of the
/// references of a project is passed on to a peer whose filter does not
/// hold the project, nor to one that has no filter.
pub proof fn lemma_relay_gated(
    list: Seq<Session>,
    except: Option<IpAddr>,
    project: Id,
    i: int,
)
    requires
        0 <= i < recipients(list, except, Some(project)).len(),
    ensures
        exists|k: int|
            0 <= k < list.len() && #[trigger] list[k].addr == recipients(
                list,
                except,
                Some(project),
            )[i] && list[k].wants(project) && list[k].state is Negotiated,
    decreases list.len(),
{
    let all = recipients(list, except, Some(project));
    let before = recipients(list.drop_last(), except, Some(project));
    if i < before.len() {
        lemma_relay_gated(list.drop_last(), except, project, i);
        let k = choose|k: int|
            0 <= k < list.drop_last().len() && #[trigger] list.drop_last()[k].addr == before[i]
                && list.drop_last()[k].wants(project) && list.drop_last()[k].state is Negotiated;
        assert(list[k] == list.drop_last()[k]);
    } else {
        assert(list[list.len() - 1].addr == all[i]);
    }
}

/// Holds currently (or recently) connected peers.
#[derive(Debug)]
pub struct Sessions {
    /// The sessions, in the order in which they were made. The session
    /// with a peer is the first one that has its IP address.
    pub list: Vec<Session>,
}

/// The table of sessions, by the name of those that it holds.
pub type Peers = Sessions;

impl Sessions {
    /// No sessions.
    pub fn new() -> (r: Sessions)
        ensures
            r.list@.len() == 0,
    {
        Sessions { list: Vec::new() }
    }

    /// The number of sessions.
    pub fn len(&self) -> (n: usize)
        ensures
            n == self.list@.len(),
    {
        self.list.len()
    }

    /// The place of the session with the peer at `ip`.
    pub open spec fn index(self, ip: IpAddr) -> Option<int> {
        find_first(self.list@, at_ip(ip))
    }

    /// Find the session with the peer at `ip`.
    pub fn find(&self, ip: &IpAddr) -> (r: Option<usize>)
        ensures
            match r {
                Some(i) => self.index(*ip) == Some(i as int) && is_first(
                    self.list@,
                    at_ip(*ip),
                    i as int,
                ),
                None => self.index(*ip) is None,
            },
    {
        let n: usize = self.list.len();
        let mut i: usize = 0;
        while i < n
            invariant
                n == self.list@.len(),
                i <= n,
                forall|j: int| 0 <= j < i ==> !at_ip(*ip)(#[trigger] self.list@[j]),
            decreases n - i,
        {
            if self.list[i].addr.ip == *ip {
                proof {
                    lemma_found(self.list@, at_ip(*ip), i as int);
                }
                return Some(i);
            }
            i = i + 1;
        }
        proof {
            lemma_absent(self.list@, at_ip(*ip));
        }
        None
    }

    /// The session with the peer at `ip`.
    pub fn get(&self, ip: &IpAddr) -> (r: Option<&Session>)
        ensures
            match r {
                Some(s) => self.index(*ip) matches Some(i) && *s == self.list@[i],
                None => self.index(*ip) is None,
            },
    {
        match self.find(ip) {
            Some(i) => Some(&self.list[i]),
            None => None,
        }
    }

    /// The first session in which the node `id` has identified itself.
    pub fn by_id(&self, id: &NodeId) -> (r: Option<&Session>)
        ensures
            match r {
                Some(s) => find_first(self.list@, negotiated_as(*id)) matches Some(i) && *s
                    == self.list@[i],
                None => find_first(self.list@, negotiated_as(*id)) is None,
            },
    {
        let n: usize = self.list.len();
        let mut i: usize = 0;
        while i < n
            invariant
                n == self.list@.len(),
                i <= n,
                forall|j: int| 0 <= j < i ==> !negotiated_as(*id)(#[trigger] self.list@[j]),
            decreases n - i,
        {
            let found = match &self.list[i].state {
                SessionState::Negotiated { id: peer, .. } => *peer == *id,
                _ => false,
            };
            if found {
                proof {
                    lemma_found(self.list@, negotiated_as(*id), i as int);
                }
                return Some(&self.list[i]);
            }
            i = i + 1;
        }
        proof {
            lemma_absent(self.list@, negotiated_as(*id));
        }
        None
    }

    /// The addresses of the peers that a message goes to: the negotiated
    /// peers, but for the one at `except`, and, for a message about one
    /// project, but for those that have not subscribed to it.
    pub fn recipients(&self, except: Option<IpAddr>, project: Option<Id>) -> (r: Vec<SocketAddr>)
        ensures
            r@ == recipients(self.list@, except, project),
    {
        let mut r: Vec<SocketAddr> = Vec::new();
        let n: usize = self.list.len();
        let mut i: usize = 0;
        assert(self.list@.take(0) =~= Seq::empty());
        while i < n
            invariant
                n == self.list@.len(),
                i <= n,
                r@ == recipients(self.list@.take(i as int), except, project),
            decreases n - i,
        {
            proof {
                assert(self.list@.take(i + 1).drop_last() =~= self.list@.take(i as int));
                assert(self.list@.take(i + 1).last() == self.list@[i as int]);
            }
            let session = &self.list[i];
            let other = match except {
                Some(ip) => session.addr.ip != ip,
                None => true,
            };
            let wanted = match &project {
                Some(p) => session.subscribed_to(p),
                None => true,
            };
            if session.is_negotiated() && other && wanted {
                r.push(session.addr);
            }
            i = i + 1;
        }
        assert(self.list@.take(n as int) =~= self.list@);
        r
    }

    /// The addresses of the fully negotiated peers.
    pub fn negotiated(&self) -> (r: Vec<SocketAddr>)
        ensures
            r@ == recipients(self.list@, None, None),
    {
        self.recipients(None, None)
    }

    /// Put a session in the place of the session with the same peer, or at
    /// the end if there is none.
    pub fn insert(&mut self, session: Session)
        ensures
            match old(self).index(session.addr.ip) {
                Some(i) => final(self).list@ == old(self).list@.update(i, session),
                None => final(self).list@ == old(self).list@.push(session),
            },
    {
        match self.find(&session.addr.ip) {
            Some(i) => {
                self.list[i] = session;
            },
            None => {
                self.list.push(session);
            },
        }
    }
}

/// The addresses that the service knows of and may connect to.
#[derive(Debug)]
pub struct AddressManager {
    /// The addresses, in the order in which they were learnt of.
    pub known: Vec<SocketAddr>,
}

/// Whether the service may connect to `addr`: it has no session with that
/// peer, or the session has ended and the peer was tried fewer than
/// [`MAX_CONNECTION_ATTEMPTS`] times since.
pub open spec fn connectable(sessions: Seq<Session>, addr: SocketAddr) -> bool {
    match find_first(sessions, at_ip(addr.ip)) {
        None => true,
        Some(i) => sessions[i].state is Disconnected && sessions[i].attempts
            < MAX_CONNECTION_ATTEMPTS,
    }
}

/// The addresses to connect to: the first `limit` of the known addresses
/// that the service may connect to.
pub open spec fn candidates(known: Seq<SocketAddr>, sessions: Seq<Session>, limit: nat) -> Seq<
    SocketAddr,
>
    decreases known.len(),
{
    if known.len() == 0 {
        Seq::empty()
    } else {
        let before = candidates(known.drop_last(), sessions, limit);
        if before.len() < limit && connectable(sessions, known.last()) {
            before.push(known.last())
        } else {
            before
        }
    }
}

impl AddressManager {
    /// An address manager that knows of `known`.
    pub fn new(known: Vec<SocketAddr>) -> (r: AddressManager)
        ensures
            r.known == known,
    {
        AddressManager { known }
    }

    /// Note an address, unless it is known already.
    pub fn insert(&mut self, addr: SocketAddr)
        ensures
            final(self).known@ == if old(self).known@.contains(addr) {
                old(self).known@
            } else {
                old(self).known@.push(addr)
            },
    {
        let n: usize = self.known.len();
        let mut i: usize = 0;
        while i < n
            invariant
                n == self.known@.len(),
                *self == *old(self),
                i <= n,
                forall|j: int| 0 <= j < i ==> self.known@[j] != addr,
            decreases n - i,
        {
            if self.known[i] == addr {
                return ;
            }
            i = i + 1;
        }
        self.known.push(addr);
    }

    /// Pick the addresses to connect to.
    pub fn select(&self, sessions: &Sessions, limit: usize) -> (r: Vec<SocketAddr>)
        ensures
            r@ == candidates(self.known@, sessions.list@, limit as nat),
    {
        let mut r: Vec<SocketAddr> = Vec::new();
        let n: usize = self.known.len();
        let mut i: usize = 0;
        assert(self.known@.take(0) =~= Seq::empty());
        while i < n
            invariant
                n == self.known@.len(),
                i <= n,
                r@ == candidates(self.known@.take(i as int), sessions.list@, limit as nat),
            decreases n - i,
        {
            proof {
                assert(self.known@.take(i + 1).drop_last() =~= self.known@.take(i as int));
                assert(self.known@.take(i + 1).last() == self.known@[i as int]);
            }
            if r.len() < limit {
                let free = match sessions.get(&self.known[i].ip) {
                    None => true,
                    Some(session) => {
                        let ended = match session.state {
                            SessionState::Disconnected { .. } => true,
                            _ => false,
                        };
                        ended && session.attempts < MAX_CONNECTION_ATTEMPTS
                    },
                };
                if free {
                    r.push(self.known[i]);
                }
            }
            i = i + 1;
        }
        assert(self.known@.take(n as int) =~= self.known@);
        r
    }
}

/// The property of being the entry of `node` in the table of peers.
pub open spec fn peer_of(node: NodeId) -> spec_fn((NodeId, Peer)) -> bool {
    |e: (NodeId, Peer)| e.0 == node
}

/// The time of the last message that was taken from `node`: zero if none
/// was.
pub open spec fn last_message(peers: Seq<(NodeId, Peer)>, node: NodeId) -> Timestamp {
    match find_first(peers, peer_of(node)) {
        Some(i) => peers[i].1.last_message,
        None => 0,
    }
}

/// The directives that ask for a connection to each of a list of peers.
pub open spec fn connects(addrs: Seq<SocketAddr>) -> Seq<IoView> {
    addrs.map_values(|addr: SocketAddr| IoView::Connect(addr))
}

/// The seeds among some nodes: each node that has identified itself in a
/// session, with the address of that session, in the order of the nodes.
pub open spec fn seeds_of(nodes: Seq<NodeId>, sessions: Seq<Session>) -> Seq<(NodeId, SocketAddr)>
    decreases nodes.len(),
{
    if nodes.len() == 0 {
        Seq::empty()
    } else {
        let before = seeds_of(nodes.drop_last(), sessions);
        match find_first(sessions, negotiated_as(nodes.last())) {
            Some(i) => before.push((nodes.last(), sessions[i].addr)),
            None => before,
        }
    }
}

/// Whether the time `t` is too far from the local time `now`: more than
/// [`MAX_TIME_DELTA`] seconds ahead of it or behind it.
pub open spec fn too_far(now: Timestamp, t: Timestamp) -> bool {
    t - now > MAX_TIME_DELTA || now - t > MAX_TIME_DELTA
}

/// Whether the time `t` of an inventory announcement is taken, at the
/// local time `now` in seconds, from a node whose last announcement had the
/// time `last`: it is not more than [`MAX_TIME_DELTA`] from `now`, and it
/// is later than `last`.
pub open spec fn timestamp_accepted(now: Timestamp, last: Timestamp, t: Timestamp) -> bool {
    t - now <= MAX_TIME_DELTA && now - t <= MAX_TIME_DELTA && t > last
}

/// Judge the time of an inventory announcement: it is refused if it is too
/// far from the local time, ahead or behind, and otherwise it is new or
/// not.
pub fn check_timestamp(now: Timestamp, last: Timestamp, t: Timestamp) -> (r: Result<
    bool,
    SessionError,
>)
    ensures
        r == if too_far(now, t) {
            Err::<bool, _>(SessionError::InvalidTimestamp(t))
        } else {
            Ok(t > last)
        },
        (r == Ok::<_, SessionError>(true)) == timestamp_accepted(now, last, t),
{
    let apart: u64 = if t > now {
        t - now
    } else {
        now - t
    };
    if apart > MAX_TIME_DELTA {
        Err(SessionError::InvalidTimestamp(t))
    } else {
        Ok(t > last)
    }
}

/// Global service state used across peers.
#[derive(Debug)]
pub struct Context<S, G> {
    /// Service configuration.
    pub config: Config,
    /// Our cryptographic signer and key.
    pub signer: G,
    /// Tracks the location of projects.
    pub routing: Routing,
    /// Interface to the I/O reactor: the outgoing queue.
    pub reactor: Reactor,
    /// Clock. Tells the time.
    pub clock: RefClock,
    /// Project storage.
    pub storage: S,
    /// Peer address manager.
    pub addrmgr: AddressManager,
}

impl<S: WriteStorage, G: Signer> Context<S, G> {
    /// The outgoing queue: the directives that were given and not taken
    /// yet, oldest first.
    pub open spec fn queued(self) -> Seq<IoView> {
        self.reactor.outbox()
    }

    /// The tag of the configured network.
    pub open spec fn magic(self) -> u32 {
        self.config.network.tag()
    }

    /// Whether two contexts differ in nothing but the outgoing queue.
    pub open spec fn same_but_outbox(self, other: Self) -> bool {
        &&& self.config == other.config
        &&& self.signer == other.signer
        &&& self.routing == other.routing
        &&& self.clock == other.clock
        &&& self.storage == other.storage
        &&& self.addrmgr == other.addrmgr
    }

    pub fn new(
        config: Config,
        clock: RefClock,
        storage: S,
        addrmgr: AddressManager,
        signer: G,
    ) -> (r: Self)
        ensures
            r.config == config,
            r.clock == clock,
            r.storage == storage,
            r.addrmgr == addrmgr,
            r.signer == signer,
            r.queued() == Seq::<IoView>::empty(),
            forall|project: Id| r.routing.nodes(project) == Seq::<NodeId>::empty(),
    {
        Context {
            config,
            signer,
            routing: Routing::new(),
            reactor: Reactor::new(),
            clock,
            storage,
            addrmgr,
        }
    }

    /// The key of this node.
    pub fn node_id(&self) -> (id: NodeId)
        ensures
            id == self.signer.key(),
    {
        *self.signer.public_key()
    }

    /// Get current local timestamp.
    pub fn timestamp(&self) -> (t: Timestamp)
        ensures
            t == self.clock.time().stamp(),
    {
        self.clock.timestamp()
    }

    /// The greeting of this node.
    pub fn handshake_messages(&self) -> (bundle: Vec<Message>)
        ensures
            is_handshake(
                messages_view(bundle@),
                self.signer.key(),
                self.clock.time().stamp(),
                self.config,
            ),
    {
        gossip::handshake(self.timestamp(), &self.storage, &self.signer, &self.config)
    }

    /// Connect to a peer.
    pub fn connect(&mut self, addr: SocketAddr)
        ensures
            final(self).queued() == old(self).queued().push(IoView::Connect(addr)),
            final(self).same_but_outbox(*old(self)),
    {
        self.reactor.connect(addr);
    }

    /// Disconnect a peer.
    pub fn disconnect(&mut self, addr: SocketAddr, reason: DisconnectReason)
        ensures
            final(self).queued() == old(self).queued().push(IoView::Disconnect(addr, reason)),
            final(self).same_but_outbox(*old(self)),
    {
        self.reactor.disconnect(addr, reason);
    }

    /// Send some messages to a peer, in one write.
    pub fn write_all(&mut self, remote: SocketAddr, msgs: Vec<Message>)
        ensures
            final(self).queued() == old(self).queued().push(
                IoView::Write(remote, enveloped(old(self).magic(), msgs@)),
            ),
            final(self).same_but_outbox(*old(self)),
    {
        let network = self.config.network;
        self.reactor.write_all(network, remote, msgs);
    }

    /// Send one message to a peer.
    pub fn write(&mut self, remote: SocketAddr, msg: Message)
        ensures
            final(self).queued() == old(self).queued().push(
                write_of(old(self).magic(), remote, msg@),
            ),
            final(self).same_but_outbox(*old(self)),
    {
        let network = self.config.network;
        self.reactor.write(network, remote, msg);
    }

    /// Broadcast a message to a list of peers.
    pub fn broadcast(&mut self, msg: &Message, peers: &Vec<SocketAddr>)
        ensures
            final(self).queued() == old(self).queued() + broadcast_of(
                old(self).magic(),
                msg@,
                peers@,
            ),
            final(self).same_but_outbox(*old(self)),
    {
        let network = self.config.network;
        self.reactor.broadcast(network, msg, peers);
    }

    /// Relay a message to interested peers: an announcement of references
    /// goes to the negotiated peers, but for the one at `from`, that have
    /// subscribed to its project; any other message goes to all negotiated
    /// peers but for the one at `from`.
    pub fn relay(&mut self, msg: &Message, sessions: &Sessions, from: IpAddr)
        ensures
            final(self).queued() == old(self).queued() + broadcast_of(
                old(self).magic(),
                msg@,
                recipients(sessions.list@, Some(from), relay_project(*msg)),
            ),
            final(self).same_but_outbox(*old(self)),
    {
        let project = match msg {
            Message::RefsAnnouncement { message, .. } => Some(message.id),
            _ => None,
        };
        let peers = sessions.recipients(Some(from), project);
        self.broadcast(msg, &peers);
    }

    /// The projects to fetch after the node `from` has announced
    /// `inventory`, where `before` is what was known of routes until then:
    /// the tracked projects that `from` was not known to host, each once,
    /// in the order of the inventory.
    pub open spec fn news(before: Routing, config: Config, inventory: Seq<Id>, from: NodeId) -> Seq<
        Id,
    >
        decreases inventory.len(),
    {
        if inventory.len() == 0 {
            Seq::empty()
        } else {
            let listed = inventory.drop_last();
            let project = inventory.last();
            let rest = Self::news(before, config, listed, from);
            if config.project_tracking.tracks(project) && !before.seeds(project).contains(from)
                && !listed.contains(project) {
                rest.push(project)
            } else {
                rest
            }
        }
    }

    /// Note a peer inventory announcement of the time `seen` in the routing
    /// table: the announcing node is noted for every project of the
    /// inventory, with that time. Returns the projects to fetch from the
    /// peer: the tracked ones for which the node is news.
    pub fn note_inventory(&mut self, inventory: &Vec<Id>, from: NodeId, seen: Timestamp) -> (wanted:
        Vec<Id>)
        ensures
            Self::routed(old(self).routing, inventory@, from, seen, final(self).routing),
            wanted@ == Self::news(old(self).routing, old(self).config, inventory@, from),
            final(self).config == old(self).config,
            final(self).signer == old(self).signer,
            final(self).reactor == old(self).reactor,
            final(self).clock == old(self).clock,
            final(self).storage == old(self).storage,
            final(self).addrmgr == old(self).addrmgr,
    {
        let mut wanted: Vec<Id> = Vec::new();
        let n: usize = inventory.len();
        let mut i: usize = 0;
        while i < n
            invariant
                n == inventory@.len(),
                i <= n,
                Self::routed(
                    old(self).routing,
                    inventory@.take(i as int),
                    from,
                    seen,
                    self.routing,
                ),
                wanted@ == Self::news(
                    old(self).routing,
                    old(self).config,
                    inventory@.take(i as int),
                    from,
                ),
                self.config == old(self).config,
                self.signer == old(self).signer,
                self.reactor == old(self).reactor,
                self.clock == old(self).clock,
                self.storage == old(self).storage,
                self.addrmgr == old(self).addrmgr,
            decreases n - i,
        {
            let ghost before = self.routing;
            let proj = inventory[i];
            let fresh = self.routing.insert(proj, from, seen);
            proof {
                let listed = inventory@.take(i as int);
                let start = old(self).routing;
                assert(inventory@.take(i + 1).drop_last() =~= listed);
                if listed.contains(proj) && !start.seeds(proj).contains(from) {
                    let was = start.nodes(proj);
                    assert(before.nodes(proj) == was.push(from));
                    assert(was.push(from)[was.len() as int] == from);
                }
                assert(fresh == (!start.seeds(proj).contains(from) && !listed.contains(proj)));
            }
            if fresh && self.config.is_tracking(&proj) {
                wanted.push(proj);
            }
            proof {
                let listed = inventory@.take(i as int);
                let next = inventory@.take(i + 1);
                assert(next =~= listed.push(proj));
                assert forall|project: Id|
                    next.contains(project) == (listed.contains(project) || project == proj) by {
                    if listed.contains(project) {
                        let k = choose|k: int| 0 <= k < listed.len() && listed[k] == project;
                        assert(next[k] == project);
                    }
                    assert(next[i as int] == proj);
                    if next.contains(project) {
                        let k = choose|k: int| 0 <= k < next.len() && next[k] == project;
                        if k < i {
                            assert(listed[k] == project);
                        }
                    }
                }
                let start = old(self).routing;
                let after = self.routing;
                assert forall|project: Id|
                    #![trigger after.nodes(project)]
                    after.nodes(project) == if next.contains(project) && !start.seeds(
                        project,
                    ).contains(from) {
                        start.nodes(project).push(from)
                    } else {
                        start.nodes(project)
                    } by {
                    let was = start.nodes(project);
                    let mid = before.nodes(project);
                    if project == proj {
                        if listed.contains(proj) && !start.seeds(proj).contains(from) {
                            assert(mid == was.push(from));
                            assert(was.push(from)[was.len() as int] == from);
                            assert(before.seeds(proj).contains(from));
                        }
                    } else {
                        assert(after.routes(project) == before.routes(project));
                    }
                }
                assert forall|project: Id|
                    #![trigger after.seen(project, from)]
                    next.contains(project) implies after.seen(project, from) == Some(seen) by {
                    if project != proj {
                        assert(after.routes(project) == before.routes(project));
                        assert(before.seen(project, from) == Some(seen));
                    }
                }
                assert forall|project: Id, other: NodeId|
                    #![trigger after.seen(project, other)]
                    other != from implies after.seen(project, other) == start.seen(
                        project,
                        other,
                    ) by {
                    assert(before.seen(project, other) == start.seen(project, other));
                    if project != proj {
                        assert(after.routes(project) == before.routes(project));
                    }
                }
                assert forall|project: Id|
                    #![trigger after.routes(project)]
                    !next.contains(project) implies after.routes(project) == start.routes(
                        project,
                    ) by {
                    assert(before.routes(project) == start.routes(project));
                }
            }
            i = i + 1;
        }
        assert(inventory@.take(n as int) =~= inventory@);
        wanted
    }

    /// Process a peer inventory announcement of the time `seen` by updating
    /// our routing table: the announcing node is noted for every project of
    /// the inventory, with that time. Where the node is news for a project
    /// and the project is tracked, a fetch of the project from the peer is
    /// tried; if it fails, nothing else does.
    pub fn process_inventory(
        &mut self,
        inventory: &Vec<Id>,
        from: NodeId,
        remote: &Url,
        seen: Timestamp,
    )
        ensures
            Self::routed(old(self).routing, inventory@, from, seen, final(self).routing),
            final(self).config == old(self).config,
            final(self).signer == old(self).signer,
            final(self).reactor == old(self).reactor,
            final(self).clock == old(self).clock,
            final(self).storage == old(self).storage,
            final(self).addrmgr == old(self).addrmgr,
    {
        let wanted = self.note_inventory(inventory, from, seen);
        let n: usize = wanted.len();
        let mut i: usize = 0;
        while i < n
            invariant
                n == wanted@.len(),
                i <= n,
            decreases n - i,
        {
            let _ = self.storage.fetch(&wanted[i], remote);
            i = i + 1;
        }
    }

    /// Whether `after` is the routing table `before` with the node `from`
    /// noted, at the time `seen`, for every project of `inventory`: the
    /// node is added to the nodes of each such project unless it is among
    /// them; the time at which it was last heard to is `seen` for each;
    /// and nothing else has changed.
    pub open spec fn routed(
        before: Routing,
        inventory: Seq<Id>,
        from: NodeId,
        seen: Timestamp,
        after: Routing,
    ) -> bool {
        &&& forall|project: Id|
            #![trigger after.nodes(project)]
            after.nodes(project) == if inventory.contains(project) && !before.seeds(
                project,
            ).contains(from) {
                before.nodes(project).push(from)
            } else {
                before.nodes(project)
            }
        &&& forall|project: Id|
            #![trigger after.seen(project, from)]
            inventory.contains(project) ==> after.seen(project, from) == Some(seen)
        &&& forall|project: Id, other: NodeId|
            #![trigger after.seen(project, other)]
            other != from ==> after.seen(project, other) == before.seen(project, other)
        &&& forall|project: Id|
            #![trigger after.routes(project)]
            !inventory.contains(project) ==> after.routes(project) == before.routes(project)
    }
}

/// The project that a message is about, if it is an announcement of
/// references.
pub open spec fn relay_project(msg: Message) -> Option<Id> {
    match msg {
        Message::RefsAnnouncement { message, .. } => Some(message.id),
        _ => None,
    }
}

/// The time of the last message that was taken from `node`.
pub fn peer_last_message(peers: &Vec<(NodeId, Peer)>, node: &NodeId) -> (t: Timestamp)
    ensures
        t == last_message(peers@, *node),
{
    let n: usize = peers.len();
    let mut i: usize = 0;
    while i < n
        invariant
            n == peers@.len(),
            i <= n,
            forall|j: int| 0 <= j < i ==> !peer_of(*node)(#[trigger] peers@[j]),
        decreases n - i,
    {
        if peers[i].0 == *node {
            proof {
                lemma_found(peers@, peer_of(*node), i as int);
            }
            return peers[i].1.last_message;
        }
        i = i + 1;
    }
    proof {
        lemma_absent(peers@, peer_of(*node));
    }
    0
}

/// Note the time of the last message that was taken from `node`.
pub fn set_last_message(peers: &mut Vec<(NodeId, Peer)>, node: NodeId, t: Timestamp)
    ensures
        forall|other: NodeId|
            last_message(final(peers)@, other) == if other == node {
                t
            } else {
                last_message(old(peers)@, other)
            },
{
    let ghost before = peers@;
    let n: usize = peers.len();
    let mut i: usize = 0;
    let mut at: Option<usize> = None;
    while i < n
        invariant_except_break
            i <= n,
            at is None,
            forall|j: int| 0 <= j < i ==> !peer_of(node)(#[trigger] peers@[j]),
        invariant
            n == peers@.len(),
            peers@ == before,
        ensures
            peers@ == before,
            match at {
                Some(k) => is_first(before, peer_of(node), k as int),
                None => forall|j: int| 0 <= j < n ==> !peer_of(node)(#[trigger] before[j]),
            },
        decreases n - i,
    {
        if peers[i].0 == node {
            at = Some(i);
            break ;
        }
        i = i + 1;
    }
    match at {
        Some(k) => {
            peers[k] = (node, Peer { last_message: t });
            proof {
                let after = peers@;
                assert(is_first(after, peer_of(node), k as int)) by {
                    assert forall|j: int| 0 <= j < k implies !peer_of(node)(#[trigger] after[j]) by {
                        assert(after[j] == before[j]);
                    }
                }
                lemma_found(after, peer_of(node), k as int);
                assert forall|other: NodeId| other != node implies last_message(after, other)
                    == last_message(before, other) by {
                    lemma_peers_frame(before, after, other);
                }
            }
        },
        None => {
            peers.push((node, Peer { last_message: t }));
            proof {
                let after = peers@;
                let last = before.len() as int;
                assert(is_first(after, peer_of(node), last)) by {
                    assert forall|j: int| 0 <= j < last implies !peer_of(node)(
                        #[trigger] after[j],
                    ) by {
                        assert(after[j] == before[j]);
                    }
                }
                lemma_found(after, peer_of(node), last);
                assert forall|other: NodeId| other != node implies last_message(after, other)
                    == last_message(before, other) by {
                    crate::lookup::lemma_find_first(before, peer_of(other));
                    match find_first(before, peer_of(other)) {
                        Some(j) => {
                            assert(is_first(after, peer_of(other), j)) by {
                                assert(after[j] == before[j]);
                                assert forall|m: int| 0 <= m < j implies !peer_of(other)(
                                    #[trigger] after[m],
                                ) by {
                                    assert(after[m] == before[m]);
                                }
                            }
                            lemma_found(after, peer_of(other), j);
                        },
                        None => {
                            assert forall|j: int| 0 <= j < after.len() implies !peer_of(other)(
                                #[trigger] after[j],
                            ) by {
                                if j < last {
                                    assert(after[j] == before[j]);
                                }
                            }
                            lemma_absent(after, peer_of(other));
                        },
                    }
                }
            }
        },
    }
}

/// Two tables of peers that name the same nodes in the same places know
/// the same of every node whose entries they hold alike.
pub proof fn lemma_peers_frame(
    before: Seq<(NodeId, Peer)>,
    after: Seq<(NodeId, Peer)>,
    other: NodeId,
)
    requires
        before.len() == after.len(),
        forall|j: int| 0 <= j < before.len() ==> (#[trigger] before[j]).0 == after[j].0,
        forall|j: int|
            0 <= j < before.len() && before[j].0 == other ==> (#[trigger] before[j]).1
                == after[j].1,
    ensures
        last_message(after, other) == last_message(before, other),
{
    crate::lookup::lemma_find_first(before, peer_of(other));
    match find_first(before, peer_of(other)) {
        Some(j) => {
            assert(is_first(after, peer_of(other), j)) by {
                assert(before[j].0 == after[j].0);
                assert forall|m: int| 0 <= m < j implies !peer_of(other)(#[trigger] after[m]) by {
                    assert(before[m].0 == after[m].0);
                }
            }
            lemma_found(after, peer_of(other), j);
        },
        None => {
            assert forall|j: int| 0 <= j < after.len() implies !peer_of(other)(
                #[trigger] after[j],
            ) by {
                assert(before[j].0 == after[j].0);
            }
            lemma_absent(after, peer_of(other));
        },
    }
}

/// The count of connection attempts after one more attempt.
pub open spec fn bumped(attempts: usize) -> usize {
    if attempts < usize::MAX {
        (attempts + 1) as usize
    } else {
        attempts
    }
}

/// The session with a peer after a connection to it was attempted: a new
/// session if there was none; a new life of the session, with the attempts
/// counted on, if the session had ended; the same session with one more
/// attempt otherwise.
pub open spec fn attempted_session(
    before: Option<Session>,
    addr: SocketAddr,
    persistent: bool,
) -> Session {
    match before {
        Some(s) => if s.state is Disconnected {
            Session {
                attempts: bumped(s.attempts),
                ..Session::fresh(addr, Link::Outbound, persistent)
            }
        } else {
            Session { attempts: bumped(s.attempts), ..s }
        },
        None => Session { attempts: 1, ..Session::fresh(addr, Link::Outbound, persistent) },
    }
}

/// Whether each session of `before` stands in `after`, in its place, in a
/// state that it may be in after one input.
pub open spec fn sessions_follow(before: Seq<Session>, after: Seq<Session>) -> bool {
    &&& before.len() == after.len()
    &&& forall|j: int|
        0 <= j < before.len() ==> (#[trigger] before[j]).state.may_become(after[j].state)
}

/// Whether a write is the greeting of the node `id` at the time `now`:
/// four messages under the tag of the network, that are a greeting of that
/// node.
pub open spec fn is_greeting(
    io: IoView,
    to: SocketAddr,
    magic: u32,
    id: NodeId,
    now: Timestamp,
    config: Config,
) -> bool {
    &&& io matches IoView::Write(addr, envelopes)
    &&& addr == to
    &&& envelopes.len() == 4
    &&& forall|i: int| 0 <= i < 4 ==> (#[trigger] envelopes[i]).magic == magic
    &&& is_handshake(envelopes.map_values(|e: message::EnvelopeView| e.msg), id, now, config)
}

/// The service.
#[derive(Debug)]
pub struct Service<S, G> {
    /// Peer sessions, currently or recently connected.
    pub sessions: Sessions,
    /// What is known of the nodes that were heard of.
    pub peers: Vec<(NodeId, Peer)>,
    /// Service state that isn't peer-specific.
    pub context: Context<S, G>,
    /// Whether our local inventory no long represents what we have
    /// announced to the network.
    pub out_of_sync: bool,
    /// Last time the service was idle.
    pub last_idle: LocalTime,
    /// Last time the service synced.
    pub last_sync: LocalTime,
    /// Last time the service routing table was pruned.
    pub last_prune: LocalTime,
    /// Last time the service announced its inventory.
    pub last_announce: LocalTime,
    /// Time when the service was initialized.
    pub start_time: LocalTime,
}

impl<S: WriteStorage, G: Signer> Service<S, G> {
    /// The outgoing queue: the directives that were given and not taken
    /// yet, oldest first.
    pub open spec fn queued(self) -> Seq<IoView> {
        self.context.queued()
    }

    /// Whether two services differ at most in their sessions, in what they
    /// know of nodes, in the routing table and in the outgoing queue.
    pub open spec fn rest_same(self, other: Self) -> bool {
        &&& self.context.config == other.context.config
        &&& self.context.signer == other.context.signer
        &&& self.context.clock == other.context.clock
        &&& self.context.storage == other.context.storage
        &&& self.context.addrmgr == other.context.addrmgr
        &&& self.out_of_sync == other.out_of_sync
        &&& self.last_idle == other.last_idle
        &&& self.last_sync == other.last_sync
        &&& self.last_prune == other.last_prune
        &&& self.last_announce == other.last_announce
        &&& self.start_time == other.start_time
    }

    /// Whether two services differ at most in the outgoing queue.
    pub open spec fn same_but_outbox(self, other: Self) -> bool {
        &&& self.rest_same(other)
        &&& self.sessions == other.sessions
        &&& self.peers == other.peers
        &&& self.context.routing == other.context.routing
    }

    /// Whether two services are in the same state.
    pub open spec fn same(self, other: Self) -> bool {
        &&& self.same_but_outbox(other)
        &&& self.queued() == other.queued()
    }

    /// A service that has no sessions, knows of no routes and has given no
    /// directives.
    pub fn new(
        config: Config,
        clock: RefClock,
        storage: S,
        addresses: Vec<SocketAddr>,
        signer: G,
    ) -> (r: Self)
        ensures
            r.sessions.list@.len() == 0,
            r.peers@.len() == 0,
            r.queued() == Seq::<IoView>::empty(),
            forall|project: Id| r.context.routing.nodes(project) == Seq::<NodeId>::empty(),
            r.context.config == config,
            r.context.clock == clock,
            r.context.storage == storage,
            r.context.signer == signer,
            r.context.addrmgr.known == addresses,
            !r.out_of_sync,
            r.last_idle.millis() == 0,
            r.last_sync.millis() == 0,
            r.last_prune.millis() == 0,
            r.last_announce.millis() == 0,
            r.start_time.millis() == 0,
    {
        let addrmgr = AddressManager::new(addresses);
        Service {
            context: Context::new(config, clock, storage, addrmgr, signer),
            sessions: Sessions::new(),
            peers: Vec::new(),
            out_of_sync: false,
            last_idle: LocalTime::epoch(),
            last_sync: LocalTime::epoch(),
            last_prune: LocalTime::epoch(),
            last_announce: LocalTime::epoch(),
            start_time: LocalTime::epoch(),
        }
    }

    /// The key of this node.
    pub fn node_id(&self) -> (id: NodeId)
        ensures
            id == self.context.signer.key(),
    {
        self.context.node_id()
    }

    /// Ask for the connection to the peer at `remote` to be ended.
    pub fn disconnect(&mut self, remote: &IpAddr, reason: DisconnectReason)
        ensures
            final(self).same_but_outbox(*old(self)),
            final(self).queued() == match old(self).sessions.index(*remote) {
                Some(i) => old(self).queued().push(
                    IoView::Disconnect(old(self).sessions.list@[i].addr, reason),
                ),
                None => old(self).queued(),
            },
    {
        match self.sessions.find(remote) {
            Some(i) => {
                let addr = self.sessions.list[i].addr;
                self.context.disconnect(addr, reason);
            },
            None => {},
        }
    }

    /// The seeds of a project: the nodes that are known to host it and
    /// have identified themselves in a session, each with the address of
    /// that session.
    pub fn seeds(&self, id: &Id) -> (r: Vec<(NodeId, SocketAddr)>)
        ensures
            r@ == seeds_of(self.context.routing.nodes(*id), self.sessions.list@),
    {
        let nodes = self.context.routing.get(id);
        let mut r: Vec<(NodeId, SocketAddr)> = Vec::new();
        let n: usize = nodes.len();
        let mut i: usize = 0;
        assert(nodes@.take(0) =~= Seq::empty());
        while i < n
            invariant
                n == nodes@.len(),
                i <= n,
                r@ == seeds_of(nodes@.take(i as int), self.sessions.list@),
            decreases n - i,
        {
            proof {
                assert(nodes@.take(i + 1).drop_last() =~= nodes@.take(i as int));
                assert(nodes@.take(i + 1).last() == nodes@[i as int]);
            }
            match self.sessions.by_id(&nodes[i]) {
                Some(session) => {
                    r.push((nodes[i], session.addr));
                },
                None => {},
            }
            i = i + 1;
        }
        assert(nodes@.take(n as int) =~= nodes@);
        r
    }

    /// The projects of an inventory that are not blocked.
    pub fn unblocked(inventory: &Vec<Id>, blocked: &Vec<Id>) -> (r: Vec<Id>)
        ensures
            r@ == inventory@.filter(|id: Id| !blocked@.contains(id)),
    {
        let mut r: Vec<Id> = Vec::new();
        let n: usize = inventory.len();
        let mut i: usize = 0;
        let ghost keep = |id: Id| !blocked@.contains(id);
        assert(inventory@.take(0) =~= Seq::empty());
        proof {
            reveal(Seq::filter);
        }
        while i < n
            invariant
                n == inventory@.len(),
                i <= n,
                keep == |id: Id| !blocked@.contains(id),
                r@ == inventory@.take(i as int).filter(keep),
            decreases n - i,
        {
            proof {
                reveal(Seq::filter);
                assert(inventory@.take(i + 1).drop_last() =~= inventory@.take(i as int));
                assert(inventory@.take(i + 1).last() == inventory@[i as int]);
            }
            if !filter::ids_contain(blocked, &inventory[i]) {
                r.push(inventory[i]);
            }
            i = i + 1;
        }
        assert(inventory@.take(n as int) =~= inventory@);
        r
    }

    /// The projects that the policy covers: the listed ones where the policy is a list,
    /// else the projects in storage that are not blocked.
    pub fn tracked_projects(&self) -> (r: Result<Vec<Id>, storage::Error>)
        ensures
            match self.context.config.project_tracking {
                config::ProjectTracking::Allowed(ids) => r matches Ok(kept) && kept@ == ids@,
                config::ProjectTracking::All { blocked } => r matches Ok(kept) ==> forall|
                    i: int,
                |
                    0 <= i < kept@.len() ==> !blocked@.contains(#[trigger] kept@[i]),
            },
    {
        match &self.context.config.project_tracking {
            config::ProjectTracking::All { blocked } => match self.context.storage.inventory() {
                Ok(inventory) => {
                    let kept = Self::unblocked(&inventory, blocked);
                    proof {
                        let keep = |id: Id| !blocked@.contains(id);
                        assert forall|i: int| 0 <= i < kept@.len() implies !blocked@.contains(
                            #[trigger] kept@[i],
                        ) by {
                            inventory@.lemma_filter_pred(keep, i);
                        }
                    }
                    Ok(kept)
                },
                Err(e) => Err(e),
            },
            config::ProjectTracking::Allowed(ids) => Ok(filter::ids_clone(ids)),
        }
    }

    /// Track a project. Returns whether or not the tracking policy was
    /// updated. When it was, the inventory is out of sync with what was
    /// announced.
    pub fn track(&mut self, id: Id) -> (changed: bool)
        ensures
            changed == !old(self).context.config.project_tracking.tracks(id),
            forall|other: Id|
                final(self).context.config.project_tracking.tracks(other) == (old(self).context.config.project_tracking.tracks(other) || other == id),
            final(self).out_of_sync == (old(self).out_of_sync || changed),
            final(self).sessions == old(self).sessions,
            final(self).peers == old(self).peers,
            final(self).context.routing == old(self).context.routing,
            final(self).context.reactor == old(self).context.reactor,
            final(self).context.clock == old(self).context.clock,
    {
        let changed = self.context.config.track(id);
        if changed {
            self.out_of_sync = true;
        }
        changed
    }

    /// Untrack a project. Returns whether or not the tracking policy was
    /// updated. Nothing is announced: a project that is no longer
    /// announced is forgotten by the other nodes in time.
    pub fn untrack(&mut self, id: Id) -> (changed: bool)
        ensures
            changed == old(self).context.config.project_tracking.tracks(id),
            forall|other: Id|
                final(self).context.config.project_tracking.tracks(other) == (old(self).context.config.project_tracking.tracks(other) && other != id),
            final(self).out_of_sync == old(self).out_of_sync,
            final(self).sessions == old(self).sessions,
            final(self).peers == old(self).peers,
            final(self).context.routing == old(self).context.routing,
            final(self).context.reactor == old(self).context.reactor,
            final(self).context.clock == old(self).context.clock,
    {
        self.context.config.untrack(id)
    }

    /// Get the connected peers.
    pub fn sessions(&self) -> (r: &Sessions)
        ensures
            *r == self.sessions,
    {
        &self.sessions
    }

    /// Get the connected peers.
    pub fn peers(&self) -> (r: &Peers)
        ensures
            *r == self.sessions,
    {
        &self.sessions
    }

    /// Get the current inventory.
    pub fn inventory(&self) -> Result<Vec<Id>, storage::Error> {
        self.context.storage.inventory()
    }

    /// Get the storage instance.
    pub fn storage(&self) -> (r: &S)
        ensures
            *r == self.context.storage,
    {
        &self.context.storage
    }

    /// Get the mutable storage instance.
    pub fn storage_mut(&mut self) -> (r: &mut S)
        ensures
            *r == old(self).context.storage,
            final(self).context.storage == *final(r),
            final(self).sessions == old(self).sessions,
            final(self).peers == old(self).peers,
            final(self).context.config == old(self).context.config,
            final(self).context.signer == old(self).context.signer,
            final(self).context.routing == old(self).context.routing,
            final(self).context.reactor == old(self).context.reactor,
            final(self).context.clock == old(self).context.clock,
            final(self).context.addrmgr == old(self).context.addrmgr,
    {
        &mut self.context.storage
    }

    /// Get I/O reactor.
    pub fn reactor(&mut self) -> (r: &mut Reactor)
        ensures
            *r == old(self).context.reactor,
            final(self).context.reactor == *final(r),
            final(self).sessions == old(self).sessions,
            final(self).peers == old(self).peers,
            final(self).context.config == old(self).context.config,
            final(self).context.signer == old(self).context.signer,
            final(self).context.routing == old(self).context.routing,
            final(self).context.storage == old(self).context.storage,
            final(self).context.clock == old(self).context.clock,
            final(self).context.addrmgr == old(self).context.addrmgr,
    {
        &mut self.context.reactor
    }

    /// Get I/O outbox.
    pub fn outbox(&mut self) -> (r: &mut std::collections::VecDeque<Io>)
        ensures
            *r == old(self).context.reactor.io,
            final(self).context.reactor.io == *final(r),
            final(self).sessions == old(self).sessions,
            final(self).peers == old(self).peers,
            final(self).context.config == old(self).context.config,
            final(self).context.signer == old(self).context.signer,
            final(self).context.routing == old(self).context.routing,
            final(self).context.storage == old(self).context.storage,
            final(self).context.clock == old(self).context.clock,
            final(self).context.addrmgr == old(self).context.addrmgr,
    {
        &mut self.context.reactor.io
    }

    /// Get a project from storage, using the local node's key.
    pub fn get(&self, proj: &Id) -> Result<Option<Doc<Verified>>, storage::Error> {
        let node = self.node_id();
        self.context.storage.get(&node, proj)
    }

    /// Get the local signer.
    pub fn signer(&self) -> (r: &G)
        ensures
            *r == self.context.signer,
    {
        &self.context.signer
    }

    /// Get the clock.
    pub fn clock(&self) -> (r: &RefClock)
        ensures
            *r == self.context.clock,
    {
        &self.context.clock
    }

    /// Get the local service time.
    pub fn local_time(&self) -> (now: LocalTime)
        ensures
            now == self.context.clock.time(),
    {
        self.context.clock.local_time()
    }

    /// Get service configuration.
    pub fn config(&self) -> (r: &Config)
        ensures
            *r == self.context.config,
    {
        &self.context.config
    }

    /// Get reference to routing table.
    pub fn routing(&self) -> (r: &Routing)
        ensures
            *r == self.context.routing,
    {
        &self.context.routing
    }

    /// Take the oldest directive off the outgoing queue.
    pub fn next(&mut self) -> (io: Option<Io>)
        ensures
            match io {
                Some(io) => old(self).queued().len() > 0 && io@ == old(self).queued()[0]
                    && final(self).queued() == old(self).queued().drop_first(),
                None => old(self).queued().len() == 0 && final(self).queued() == old(self).queued(),
            },
            final(self).same_but_outbox(*old(self)),
    {
        self.context.reactor.next()
    }

    /// Where a project is: in local storage, if it is there, and on the
    /// nodes that the routing table names.
    pub fn lookup(&self, id: &Id) -> (r: Result<Lookup, storage::Error>)
        ensures
            r matches Ok(found) ==> found.remote@ == self.context.routing.nodes(*id),
    {
        let node = self.node_id();
        let local = self.context.storage.get(&node, id);
        Lookup::found(local, self.context.routing.get(id))
    }

    /// Start the service: note the time, and ask for a connection to each
    /// of the configured peers.
    pub fn initialize(&mut self, time: LocalTime)
        ensures
            final(self).start_time == time,
            final(self).queued() == old(self).queued() + connects(
                old(self).context.config.connect@,
            ),
            final(self).sessions == old(self).sessions,
            final(self).peers == old(self).peers,
            final(self).context.same_but_outbox(old(self).context),
            final(self).out_of_sync == old(self).out_of_sync,
            final(self).last_idle == old(self).last_idle,
            final(self).last_sync == old(self).last_sync,
            final(self).last_prune == old(self).last_prune,
            final(self).last_announce == old(self).last_announce,
    {
        self.start_time = time;
        let n: usize = self.context.config.connect.len();
        let mut i: usize = 0;
        let ghost addrs = self.context.config.connect@;
        assert(self.queued() =~= old(self).queued() + connects(addrs.take(0)));
        while i < n
            invariant
                n == addrs.len(),
                addrs == self.context.config.connect@,
                i <= n,
                self.queued() == old(self).queued() + connects(addrs.take(i as int)),
                self.context.same_but_outbox(old(self).context),
                self.start_time == time,
                self.sessions == old(self).sessions,
                self.peers == old(self).peers,
                self.out_of_sync == old(self).out_of_sync,
                self.last_idle == old(self).last_idle,
                self.last_sync == old(self).last_sync,
                self.last_prune == old(self).last_prune,
                self.last_announce == old(self).last_announce,
            decreases n - i,
        {
            let addr = self.context.config.connect[i];
            self.context.connect(addr);
            assert(self.queued() =~= old(self).queued() + connects(addrs.take(i + 1)));
            i = i + 1;
        }
        assert(addrs.take(n as int) =~= addrs);
    }

    /// Set the clock.
    pub fn tick(&mut self, now: LocalTime)
        ensures
            final(self).context.clock.time() == now,
            final(self).sessions == old(self).sessions,
            final(self).peers == old(self).peers,
            final(self).context.config == old(self).context.config,
            final(self).context.signer == old(self).context.signer,
            final(self).context.routing == old(self).context.routing,
            final(self).context.reactor == old(self).context.reactor,
            final(self).context.storage == old(self).context.storage,
            final(self).context.addrmgr == old(self).context.addrmgr,
            final(self).out_of_sync == old(self).out_of_sync,
            final(self).last_idle == old(self).last_idle,
            final(self).last_sync == old(self).last_sync,
            final(self).last_prune == old(self).last_prune,
            final(self).last_announce == old(self).last_announce,
            final(self).start_time == old(self).start_time,
    {
        self.context.clock.set(now);
    }

    /// Note that a connection to `addr` is being attempted.
    pub fn attempted(&mut self, addr: &SocketAddr)
        ensures
            final(self).sessions.list@ == match old(self).sessions.index(addr.ip) {
                Some(i) => old(self).sessions.list@.update(
                    i,
                    attempted_session(
                        Some(old(self).sessions.list@[i]),
                        *addr,
                        old(self).context.config.connect@.contains(*addr),
                    ),
                ),
                None => old(self).sessions.list@.push(
                    attempted_session(
                        None,
                        *addr,
                        old(self).context.config.connect@.contains(*addr),
                    ),
                ),
            },
            final(self).rest_same(*old(self)),
            final(self).peers == old(self).peers,
            final(self).context.routing == old(self).context.routing,
            final(self).context.reactor == old(self).context.reactor,
    {
        let persistent = self.context.config.is_persistent(addr);
        match self.sessions.find(&addr.ip) {
            Some(i) => {
                let ended = match self.sessions.list[i].state {
                    SessionState::Disconnected { .. } => true,
                    _ => false,
                };
                if ended {
                    let attempts = self.sessions.list[i].attempts;
                    let mut session = Session::new(*addr, Link::Outbound, persistent);
                    session.attempts = attempts;
                    self.sessions.list[i] = session;
                }
                self.sessions.list[i].attempted();
            },
            None => {
                let mut session = Session::new(*addr, Link::Outbound, persistent);
                session.attempted();
                self.sessions.list.push(session);
            },
        }
    }

    /// Note that the connection to `addr` stands. On a connection that
    /// this node has opened, the node is the first to greet; on one that
    /// the peer has opened, a new session is made and the node waits for
    /// the greeting of the peer.
    pub fn connected(&mut self, addr: SocketAddr, _local_addr: &SocketAddr, link: Link)
        ensures
            final(self).rest_same(*old(self)),
            final(self).peers == old(self).peers,
            final(self).context.routing == old(self).context.routing,
            link == Link::Inbound ==> final(self).queued() == old(self).queued() && final(self).sessions.list@ == (match old(self).sessions.index(addr.ip) {
                Some(i) => old(self).sessions.list@.update(
                    i,
                    Session::fresh(
                        addr,
                        Link::Inbound,
                        old(self).context.config.connect@.contains(addr),
                    ),
                ),
                None => old(self).sessions.list@.push(
                    Session::fresh(
                        addr,
                        Link::Inbound,
                        old(self).context.config.connect@.contains(addr),
                    ),
                ),
            }),
            link == Link::Outbound ==> match old(self).sessions.index(addr.ip) {
                Some(i) => final(self).sessions.list@ == old(self).sessions.list@.update(
                    i,
                    Session { attempts: 0, ..old(self).sessions.list@[i] },
                ) && final(self).queued().len() == old(self).queued().len() + 1 && final(self).queued().drop_last() == old(self).queued() && is_greeting(
                    final(self).queued().last(),
                    addr,
                    old(self).context.magic(),
                    old(self).context.signer.key(),
                    old(self).context.clock.time().stamp(),
                    old(self).context.config,
                ),
                None => final(self).sessions == old(self).sessions && final(self).queued() == old(self).queued(),
            },
    {
        let ip = addr.ip;
        if link.is_outbound() {
            match self.sessions.find(&ip) {
                Some(i) => {
                    let msgs = self.context.handshake_messages();
                    let ghost bundle = messages_view(msgs@);
                    self.context.write_all(addr, msgs);
                    self.sessions.list[i].connected(link);
                    proof {
                        let io = self.queued().last();
                        let magic = old(self).context.magic();
                        assert(self.queued().drop_last() =~= old(self).queued());
                        assert(io matches IoView::Write(a, envelopes) && envelopes.map_values(
                            |e: message::EnvelopeView| e.msg,
                        ) =~= bundle);
                    }
                },
                None => {},
            }
        } else {
            let persistent = self.context.config.is_persistent(&addr);
            self.sessions.insert(Session::new(addr, Link::Inbound, persistent));
        }
    }

    /// Whether the service asks for a new connection to a peer that it has
    /// lost: the peer is one to stay connected to, it was tried fewer than
    /// [`MAX_CONNECTION_ATTEMPTS`] times, and the connection broke. It does
    /// not where the peer could not be reached at all, nor where the
    /// service itself has ended the connection.
    pub open spec fn reconnects(persistent: bool, attempts: usize, reason: Disconnect) -> bool {
        persistent && attempts < MAX_CONNECTION_ATTEMPTS && reason is ConnectionError
    }

    /// Note that the connection to `addr` has ended.
    pub fn disconnected(&mut self, addr: &SocketAddr, reason: Disconnect)
        ensures
            final(self).rest_same(*old(self)),
            final(self).peers == old(self).peers,
            final(self).context.routing == old(self).context.routing,
            match old(self).sessions.index(addr.ip) {
                Some(i) => final(self).sessions.list@ == old(self).sessions.list@.update(
                    i,
                    Session {
                        state: SessionState::Disconnected {
                            since: old(self).context.clock.time(),
                        },
                        ..old(self).sessions.list@[i]
                    },
                ) && final(self).queued() == if Self::reconnects(
                    old(self).context.config.connect@.contains(*addr),
                    old(self).sessions.list@[i].attempts,
                    reason,
                ) {
                    old(self).queued().push(IoView::Connect(*addr))
                } else {
                    old(self).queued()
                },
                None => final(self).sessions == old(self).sessions && final(self).queued() == old(self).queued(),
            },
    {
        let since = self.local_time();
        match self.sessions.find(&addr.ip) {
            Some(i) => {
                self.sessions.list[i].state = SessionState::Disconnected { since };
                // Attempt to re-connect to persistent peers.
                if self.context.config.is_persistent(addr) && self.sessions.list[i].attempts
                    < MAX_CONNECTION_ATTEMPTS {
                    if reason.is_dial_err() {
                        return ;
                    }
                    match reason {
                        Disconnect::Protocol(r) => {
                            if !r.is_transient() {
                                return ;
                            }
                        },
                        _ => {},
                    }
                    self.context.connect(*addr);
                }
            },
            None => {},
        }
    }
}

impl<S: WriteStorage, G: Signer> Service<S, G> {
    /// Whether `after` is the service `before` with the session at place
    /// `k` replaced by `session`, and nothing else changed but the
    /// outgoing queue.
    pub open spec fn session_set(before: Self, after: Self, k: int, session: Session) -> bool {
        &&& after.rest_same(before)
        &&& after.sessions.list@ == before.sessions.list@.update(k, session)
        &&& after.peers == before.peers
        &&& after.context.routing == before.context.routing
    }

    /// What the first message of a peer does, in a session at place `k`
    /// that is in its initial state: a greeting in another version of the
    /// protocol is refused; a greeting in the right version completes the
    /// handshake, and is answered with the greeting of this node if the
    /// peer has opened the connection; anything else is a breach of the
    /// protocol.
    pub open spec fn greeted(
        before: Self,
        k: int,
        msg: Message,
        after: Self,
        r: Result<Option<Message>, SessionError>,
    ) -> bool {
        let s = before.sessions.list@[k];
        match msg {
            Message::Initialize { id, version, addrs, git } => if version != PROTOCOL_VERSION {
                r == Err::<Option<Message>, _>(SessionError::WrongVersion(version)) && after.same(
                    before,
                )
            } else {
                &&& r == Ok::<Option<Message>, SessionError>(None)
                &&& Self::session_set(
                    before,
                    after,
                    k,
                    Session {
                        state: SessionState::Negotiated {
                            id,
                            since: before.context.clock.time(),
                            addrs,
                            git,
                        },
                        ..s
                    },
                )
                &&& if s.link == Link::Inbound {
                    &&& after.queued().len() == before.queued().len() + 1
                    &&& after.queued().drop_last() == before.queued()
                    &&& is_greeting(
                        after.queued().last(),
                        s.addr,
                        before.context.magic(),
                        before.context.signer.key(),
                        before.context.clock.time().stamp(),
                        before.context.config,
                    )
                } else {
                    after.queued() == before.queued()
                }
            },
            _ => r == Err::<Option<Message>, _>(SessionError::Misbehavior) && after.same(before),
        }
    }

    /// What an announcement of an inventory does. One with a signature
    /// that is not the announcing node's is a breach of the protocol. One
    /// whose time is more than [`MAX_TIME_DELTA`] from the local time,
    /// ahead of it or behind it, is refused. One that is no later than
    /// the last one taken from that node is dropped in silence. Any other
    /// is taken: its time is noted, the node is entered in the routing
    /// table for every project of the inventory, and the announcement is
    /// handed back for relay if the service relays.
    pub open spec fn inventory_taken(
        before: Self,
        node: NodeId,
        message: InventoryAnnouncement,
        signature: crate::crypto::Signature,
        after: Self,
        r: Result<Option<Message>, SessionError>,
    ) -> bool {
        let now = before.context.clock.time().stamp();
        let last = last_message(before.peers@, node);
        if !signature_valid(node@, message@.bytes(), signature@) {
            r == Err::<Option<Message>, _>(SessionError::Misbehavior) && after.same(before)
        } else if too_far(now, message.timestamp) {
            r == Err::<Option<Message>, _>(SessionError::InvalidTimestamp(message.timestamp))
                && after.same(before)
        } else if message.timestamp <= last {
            r == Ok::<Option<Message>, SessionError>(None) && after.same(before)
        } else {
            &&& r == Ok::<_, SessionError>(
                if before.context.config.relay {
                    Some(Message::InventoryAnnouncement { node, message, signature })
                } else {
                    None
                },
            )
            &&& after.rest_same(before)
            &&& after.sessions == before.sessions
            &&& after.queued() == before.queued()
            &&& forall|other: NodeId|
                last_message(after.peers@, other) == if other == node {
                    message.timestamp
                } else {
                    last_message(before.peers@, other)
                }
            &&& Context::<S, G>::routed(
                before.context.routing,
                message.inventory@,
                node,
                message.timestamp,
                after.context.routing,
            )
        }
    }

    /// What an announcement of references does once the fetch that it
    /// called for has ended with `fetched`: if the fetch has failed,
    /// nothing; else the event that tells of the fetch is given out, and
    /// the announcement is handed back for relay if a reference has
    /// changed.
    pub open spec fn refs_taken(
        before: Self,
        git: UrlView,
        msg: Message,
        fetched: Result<Vec<RefUpdate>, storage::git::FetchError>,
        after: Self,
        relay: Option<Message>,
    ) -> bool {
        &&& after.same_but_outbox(before)
        &&& match fetched {
            Err(_) => relay is None && after.queued() == before.queued(),
            Ok(updated) => {
                &&& msg matches Message::RefsAnnouncement { message, .. }
                &&& after.queued() == before.queued().push(
                    IoView::Event(
                        EventView::RefsFetched {
                            from: git,
                            project: message.id,
                            updated: updates_view(updated@),
                        },
                    ),
                )
                &&& relay == if updated@.len() > 0 {
                    Some(msg)
                } else {
                    None
                }
            },
        }
    }

    /// What an announcement of references does. One with a signature that
    /// is not the announcing node's is a breach of the protocol. One of a
    /// project that is not tracked is dropped. For any other the project is
    /// fetched from the peer, with one of two ends: the fetch fails, and
    /// nothing else happens; or the event that tells of the fetch is given
    /// out, and the announcement is handed back for relay if a reference
    /// has changed.
    pub open spec fn refs_announced(
        before: Self,
        k: int,
        msg: Message,
        after: Self,
        r: Result<Option<Message>, SessionError>,
    ) -> bool {
        &&& msg matches Message::RefsAnnouncement { node, message, signature }
        &&& before.sessions.list@[k].state matches SessionState::Negotiated { git, .. }
        &&& if !signature_valid(node@, message@.bytes(), signature@) {
            r == Err::<Option<Message>, _>(SessionError::Misbehavior) && after.same(before)
        } else if !before.context.config.project_tracking.tracks(message.id) {
            r == Ok::<Option<Message>, SessionError>(None) && after.same(before)
        } else {
            &&& after.same_but_outbox(before)
            &&& r is Ok
            &&& {
                ||| r->Ok_0 is None && after.queued() == before.queued()
                ||| {
                    &&& after.queued().len() == before.queued().len() + 1
                    &&& after.queued().drop_last() == before.queued()
                    &&& after.queued().last() matches IoView::Event(
                        EventView::RefsFetched { from, project, updated },
                    )
                    &&& from == git@
                    &&& project == message.id
                    &&& r->Ok_0 == if updated.len() > 0 {
                        Some(msg)
                    } else {
                        None
                    }
                }
            }
        }
    }

    /// What a message does in a session at place `k` in which the peer has
    /// identified itself.
    pub open spec fn negotiated_handled(
        before: Self,
        k: int,
        msg: Message,
        after: Self,
        r: Result<Option<Message>, SessionError>,
    ) -> bool {
        let s = before.sessions.list@[k];
        match msg {
            Message::Initialize { .. } => r == Err::<Option<Message>, _>(
                SessionError::Misbehavior,
            ) && after.same(before),
            Message::Subscribe(subscribe) => {
                &&& r == Ok::<Option<Message>, SessionError>(None)
                &&& Self::session_set(
                    before,
                    after,
                    k,
                    Session { subscribe: Some(subscribe), ..s },
                )
                &&& after.queued() == before.queued()
            },
            Message::NodeAnnouncement { node, message, signature } => after.same(before) && r
                == if signature_valid(node@, message@.bytes(), signature@) {
                Ok::<Option<Message>, SessionError>(None)
            } else {
                Err(SessionError::Misbehavior)
            },
            Message::InventoryAnnouncement { node, message, signature } => Self::inventory_taken(
                before,
                node,
                message,
                signature,
                after,
                r,
            ),
            Message::RefsAnnouncement { .. } => Self::refs_announced(before, k, msg, after, r),
        }
    }

    /// What a message from the peer at `remote` does to the service, and
    /// what is handed back: a message to relay, or the reason why no
    /// further message of that peer is to be processed.
    pub open spec fn handled(
        before: Self,
        remote: SocketAddr,
        envelope: Envelope,
        after: Self,
        r: Result<Option<Message>, SessionError>,
    ) -> bool {
        match before.sessions.index(remote.ip) {
            None => r == Err::<Option<Message>, _>(SessionError::NotFound(remote.ip))
                && after.same(before),
            Some(k) => if envelope.magic != before.context.magic() {
                r == Err::<Option<Message>, _>(SessionError::WrongMagic(envelope.magic))
                    && after.same(before)
            } else {
                match before.sessions.list@[k].state {
                    SessionState::Initial => Self::greeted(before, k, envelope.msg, after, r),
                    SessionState::Negotiated { .. } => Self::negotiated_handled(
                        before,
                        k,
                        envelope.msg,
                        after,
                        r,
                    ),
                    SessionState::Disconnected { .. } => r == Ok::<Option<Message>, SessionError>(
                        None,
                    ) && after.same(before),
                }
            },
        }
    }

    /// The handling of a message leaves every session in a state that it
    /// may be in after one input: a session is negotiated from its initial
    /// state only, and a negotiated session stays as it was negotiated.
    pub proof fn lemma_handled_lawful(
        before: Self,
        remote: SocketAddr,
        envelope: Envelope,
        after: Self,
        r: Result<Option<Message>, SessionError>,
    )
        requires
            Self::handled(before, remote, envelope, after, r),
        ensures
            sessions_follow(before.sessions.list@, after.sessions.list@),
    {
        crate::lookup::lemma_find_first(before.sessions.list@, at_ip(remote.ip));
    }

    /// What follows the handling of a message leaves every session in a
    /// state that it may be in after one input.
    pub proof fn lemma_concluded_lawful(
        mid: Self,
        addr: SocketAddr,
        r: Result<Option<Message>, SessionError>,
        after: Self,
    )
        requires
            Self::concluded(mid, addr, r, after),
        ensures
            sessions_follow(mid.sessions.list@, after.sessions.list@),
    {
        crate::lookup::lemma_find_first(mid.sessions.list@, at_ip(addr.ip));
    }

    /// Take the first message of a peer.
    fn greet(&mut self, k: usize, msg: Message) -> (r: Result<Option<Message>, SessionError>)
        requires
            k < old(self).sessions.list@.len(),
            old(self).sessions.list@[k as int].state is Initial,
        ensures
            Self::greeted(*old(self), k as int, msg, *final(self), r),
    {
        match msg {
            Message::Initialize { id, version, addrs, git } => {
                if version != PROTOCOL_VERSION {
                    return Err(SessionError::WrongVersion(version));
                }
                if self.sessions.list[k].link.is_inbound() {
                    let to = self.sessions.list[k].addr;
                    let msgs = self.context.handshake_messages();
                    let ghost bundle = messages_view(msgs@);
                    self.context.write_all(to, msgs);
                    proof {
                        let io = self.queued().last();
                        assert(self.queued().drop_last() =~= old(self).queued());
                        assert(io matches IoView::Write(a, envelopes) && envelopes.map_values(
                            |e: message::EnvelopeView| e.msg,
                        ) =~= bundle);
                    }
                }
                let since = self.context.clock.local_time();
                self.sessions.list[k].state = SessionState::Negotiated { id, since, addrs, git };
                Ok(None)
            },
            _ => Err(SessionError::Misbehavior),
        }
    }

    /// Take an announcement of an inventory from a peer that serves its
    /// repositories at `git`.
    fn take_inventory(
        &mut self,
        git: &Url,
        node: NodeId,
        message: InventoryAnnouncement,
        signature: crate::crypto::Signature,
    ) -> (r: Result<Option<Message>, SessionError>)
        ensures
            Self::inventory_taken(*old(self), node, message, signature, *final(self), r),
    {
        if !message.verify(&node, &signature) {
            return Err(SessionError::Misbehavior);
        }
        let now = self.context.timestamp();
        let last = peer_last_message(&self.peers, &node);
        // Don't allow messages from too far in the future or in the past,
        // and discard inventory messages we've already seen.
        match check_timestamp(now, last, message.timestamp) {
            Err(e) => {
                return Err(e);
            },
            Ok(false) => {
                return Ok(None);
            },
            Ok(true) => {},
        }
        set_last_message(&mut self.peers, node, message.timestamp);
        self.context.process_inventory(&message.inventory, node, git, message.timestamp);
        if self.context.config.relay {
            Ok(Some(Message::InventoryAnnouncement { node, message, signature }))
        } else {
            Ok(None)
        }
    }

    /// Finish the handling of an announcement of references, once the
    /// fetch that it called for has ended with `fetched`.
    pub fn refs_fetched(
        &mut self,
        git: Url,
        msg: Message,
        fetched: Result<Vec<RefUpdate>, storage::git::FetchError>,
    ) -> (relay: Option<Message>)
        requires
            msg is RefsAnnouncement,
        ensures
            Self::refs_taken(*old(self), git@, msg, fetched, *final(self), relay),
    {
        match fetched {
            Err(_) => None,
            Ok(updated) => {
                let is_updated = updated.len() > 0;
                let project = match &msg {
                    Message::RefsAnnouncement { message, .. } => message.id,
                    _ => Id([0u8; 20]),
                };
                self.context.reactor.event(Event::RefsFetched { from: git, project, updated });
                if is_updated {
                    Some(msg)
                } else {
                    None
                }
            },
        }
    }

    /// Take an announcement of references from the peer of the session at
    /// place `k`.
    fn take_refs(&mut self, k: usize, msg: Message) -> (r: Result<Option<Message>, SessionError>)
        requires
            k < old(self).sessions.list@.len(),
            old(self).sessions.list@[k as int].state is Negotiated,
            msg is RefsAnnouncement,
        ensures
            Self::refs_announced(*old(self), k as int, msg, *final(self), r),
    {
        let (valid, project) = match &msg {
            Message::RefsAnnouncement { node, message, signature } => (
                message.verify(node, signature),
                message.id,
            ),
            _ => (false, Id([0u8; 20])),
        };
        if !valid {
            return Err(SessionError::Misbehavior);
        }
        if !self.context.config.is_tracking(&project) {
            return Ok(None);
        }
        let git = match &self.sessions.list[k].state {
            SessionState::Negotiated { git, .. } => git.clone(),
            _ => {
                return Ok(None);
            },
        };
        let fetched = self.context.storage.fetch(&project, &git);
        let relay = self.refs_fetched(git, msg, fetched);
        proof {
            if fetched is Ok {
                assert(self.queued().drop_last() =~= old(self).queued());
            }
        }
        Ok(relay)
    }

    /// Take a message from the peer of the session at place `k`, which
    /// has identified itself.
    fn take(&mut self, k: usize, msg: Message) -> (r: Result<Option<Message>, SessionError>)
        requires
            k < old(self).sessions.list@.len(),
            old(self).sessions.list@[k as int].state is Negotiated,
        ensures
            Self::negotiated_handled(*old(self), k as int, msg, *final(self), r),
    {
        match msg {
            Message::Initialize { .. } => Err(SessionError::Misbehavior),
            Message::Subscribe(subscribe) => {
                self.sessions.list[k].subscribe = Some(subscribe);
                Ok(None)
            },
            Message::NodeAnnouncement { node, message, signature } => {
                if !message.verify(&node, &signature) {
                    return Err(SessionError::Misbehavior);
                }
                Ok(None)
            },
            Message::InventoryAnnouncement { node, message, signature } => {
                let git = match &self.sessions.list[k].state {
                    SessionState::Negotiated { git, .. } => git.clone(),
                    _ => {
                        return Ok(None);
                    },
                };
                self.take_inventory(&git, node, message, signature)
            },
            Message::RefsAnnouncement { node, message, signature } => self.take_refs(
                k,
                Message::RefsAnnouncement { node, message, signature },
            ),
        }
    }

    /// Process a message of the peer at `remote`. Hands back the message
    /// if it is to be relayed, or the reason why no further message of
    /// that peer is to be processed.
    pub fn handle_message(&mut self, remote: &SocketAddr, envelope: Envelope) -> (r: Result<
        Option<Message>,
        SessionError,
    >)
        ensures
            Self::handled(*old(self), *remote, envelope, *final(self), r),
    {
        let ip = remote.ip;
        let k = match self.sessions.find(&ip) {
            Some(k) => k,
            None => {
                return Err(SessionError::NotFound(ip));
            },
        };
        if envelope.magic != self.context.config.network.magic() {
            return Err(SessionError::WrongMagic(envelope.magic));
        }
        let phase: u8 = match &self.sessions.list[k].state {
            SessionState::Initial => 0,
            SessionState::Negotiated { .. } => 1,
            SessionState::Disconnected { .. } => 2,
        };
        if phase == 0 {
            self.greet(k, envelope.msg)
        } else if phase == 1 {
            self.take(k, envelope.msg)
        } else {
            Ok(None)
        }
    }

    /// Take a message of the peer at `addr` from the reactor. A message
    /// that is to be relayed is passed on to the peers that it goes to. A
    /// breach of the protocol ends the session: the reactor is asked to
    /// disconnect, and the session is marked as ended. A message of a peer
    /// without a session is dropped, and so is one with a time too far
    /// from the local time.
    pub fn received_message(&mut self, addr: &SocketAddr, envelope: Envelope)
        ensures
            final(self).rest_same(*old(self)),
            sessions_follow(old(self).sessions.list@, final(self).sessions.list@),
            exists|mid: Self, r: Result<Option<Message>, SessionError>|
                #![trigger Self::handled(*old(self), *addr, envelope, mid, r)]
                Self::handled(*old(self), *addr, envelope, mid, r) && Self::concluded(
                    mid,
                    *addr,
                    r,
                    *final(self),
                ),
    {
        let r = self.handle_message(addr, envelope);
        let ghost mid = *self;
        match r {
            Ok(Some(msg)) => {
                self.context.relay(&msg, &self.sessions, addr.ip);
            },
            Ok(None) => {},
            Err(SessionError::NotFound(_)) => {},
            // A message with a time too far from ours is dropped; the
            // session goes on.
            Err(SessionError::InvalidTimestamp(_)) => {},
            Err(err) => {
                // If there's an error, stop processing messages from this
                // peer.
                self.context.disconnect(*addr, DisconnectReason::Error(err));
                let since = self.context.clock.local_time();
                match self.sessions.find(&addr.ip) {
                    Some(k) => {
                        self.sessions.list[k].state = SessionState::Disconnected { since };
                    },
                    None => {},
                }
            },
        }
        assert(Self::concluded(mid, *addr, r, *self));
        proof {
            Self::lemma_handled_lawful(*old(self), *addr, envelope, mid, r);
            Self::lemma_concluded_lawful(mid, *addr, r, *self);
            assert forall|j: int| 0 <= j < old(self).sessions.list@.len() implies (
            #[trigger] old(self).sessions.list@[j]).state.may_become(
                self.sessions.list@[j].state,
            ) by {
                session::lemma_may_become_transitive(
                    old(self).sessions.list@[j].state,
                    mid.sessions.list@[j].state,
                    self.sessions.list@[j].state,
                );
            }
        }
    }

    /// What follows the handling of a message of the peer at `addr`: a
    /// message that was handed back is relayed; where the peer has no
    /// session, or the time of the message was too far from the local
    /// time, nothing follows; on any other error the reactor is asked to disconnect the
    /// peer and the session is marked as ended.
    pub open spec fn concluded(
        mid: Self,
        addr: SocketAddr,
        r: Result<Option<Message>, SessionError>,
        after: Self,
    ) -> bool {
        match r {
            Ok(Some(msg)) => after.same_but_outbox(mid) && after.queued() == mid.queued()
                + broadcast_of(
                mid.context.magic(),
                msg@,
                recipients(mid.sessions.list@, Some(addr.ip), relay_project(msg)),
            ),
            Ok(None) => after.same(mid),
            Err(SessionError::NotFound(_)) => after.same(mid),
            Err(SessionError::InvalidTimestamp(_)) => after.same(mid),
            Err(err) => {
                &&& after.rest_same(mid)
                &&& after.peers == mid.peers
                &&& after.context.routing == mid.context.routing
                &&& after.queued() == mid.queued().push(
                    IoView::Disconnect(addr, DisconnectReason::Error(err)),
                )
                &&& match mid.sessions.index(addr.ip) {
                    Some(k) => after.sessions.list@ == mid.sessions.list@.update(
                        k,
                        Session {
                            state: SessionState::Disconnected { since: mid.context.clock.time() },
                            ..mid.sessions.list@[k]
                        },
                    ),
                    None => after.sessions == mid.sessions,
                }
            },
        }
    }
}

/// Error returned by [`Command::Fetch`].
#[derive(Debug, PartialEq, Eq)]
pub enum FetchError {
    /// Storage could not be read.
    Storage(storage::Error),
    /// The fetch failed.
    Fetch(storage::git::FetchError),
    /// The object store failed.
    Git,
}

/// Result of a fetch request from a specific seed.
#[derive(Debug, PartialEq, Eq)]
pub enum FetchResult {
    /// Successful fetch from a seed.
    Fetched { from: SocketAddr, updated: Vec<RefUpdate> },
    /// Error fetching the resource from a seed.
    Error { from: SocketAddr, error: FetchError },
}

impl FetchResult {
    /// The seed that the result is of.
    pub open spec fn seed(self) -> SocketAddr {
        match self {
            FetchResult::Fetched { from, .. } => from,
            FetchResult::Error { from, .. } => from,
        }
    }

    /// The result of a fetch from the seed at `from` that has ended with
    /// `fetched`.
    pub fn of(from: SocketAddr, fetched: Result<Vec<RefUpdate>, storage::git::FetchError>) -> (r:
        FetchResult)
        ensures
            r == match fetched {
                Ok(updated) => FetchResult::Fetched { from, updated },
                Err(error) => FetchResult::Error { from, error: FetchError::Fetch(error) },
            },
    {
        match fetched {
            Ok(updated) => FetchResult::Fetched { from, updated },
            Err(error) => FetchResult::Error { from, error: FetchError::Fetch(error) },
        }
    }
}

/// The non-empty list of the `nonempty` crate, carried through as it is.
#[verifier::external_type_specification]
#[verifier::external_body]
#[verifier::reject_recursive_types(T)]
pub struct ExNonEmpty<T>(NonEmpty<T>);

/// The addresses that a non-empty list holds, its head first.
pub uninterp spec fn nonempty_items(list: NonEmpty<SocketAddr>) -> Seq<SocketAddr>;

/// `nonempty::NonEmpty::from_vec`. Trusted: it returns no list exactly for
/// an empty vector, and otherwise a list that holds the vector's items in
/// their order, the first of them as its head.
#[verifier::external_body]
fn nonempty_from_vec(addrs: Vec<SocketAddr>) -> (r: Option<NonEmpty<SocketAddr>>)
    ensures
        r is None <==> addrs@.len() == 0,
        r matches Some(list) ==> nonempty_items(list) == addrs@,
{
    NonEmpty::from_vec(addrs)
}

/// Result of looking up seeds in our routing table.
#[derive(Debug, PartialEq, Eq)]
pub enum FetchLookup {
    /// Found seeds for the given project. There is at least one seed, and
    /// one result for each seed, in the order of the seeds.
    Found { seeds: NonEmpty<SocketAddr>, results: Vec<FetchResult> },
    /// Can't fetch because no seeds were found for this project.
    NotFound,
    /// Can't fetch because the project isn't tracked.
    NotTracking,
    /// Error trying to find seeds.
    Error(FetchError),
}

/// Commands sent to the service by the operator.
#[derive(Debug, Copy, Clone, PartialEq, Eq)]
pub enum Command {
    AnnounceRefs(Id),
    Connect(SocketAddr),
    Fetch(Id),
    Track(Id),
    Untrack(Id),
}

/// What the operator is told in reply to a command.
#[derive(Debug, PartialEq, Eq)]
pub enum Reply {
    /// Nothing: the command asks for no reply.
    Done,
    /// The reply to [`Command::Fetch`].
    Fetch(FetchLookup),
    /// The reply to [`Command::Track`] and [`Command::Untrack`]: whether
    /// the tracking policy has changed.
    Changed(bool),
}

/// The location that a seed serves its repositories at: the git protocol
/// at its address. The project is named below that location.
pub open spec fn seed_location(addr: SocketAddr) -> UrlView {
    UrlView {
        scheme: Scheme::Git,
        host: Some(crate::git::HostView::Ip(addr.ip)),
        port: Some(addr.port),
        path: Seq::empty(),
    }
}

/// The location that a seed serves its repositories at.
pub fn seed_url(addr: SocketAddr) -> (url: Url)
    ensures
        url@ == seed_location(addr),
{
    let url = Url {
        scheme: Scheme::Git,
        host: Some(Host::Ip(addr.ip)),
        port: Some(addr.port),
        path: String::new(),
    };
    assert(url@.path =~= Seq::empty());
    url
}

/// The addresses of a list of seeds.
pub open spec fn seed_addrs(seeds: Seq<(NodeId, SocketAddr)>) -> Seq<SocketAddr> {
    seeds.map_values(|seed: (NodeId, SocketAddr)| seed.1)
}

/// Whether the time since `last` is at least `interval` milliseconds.
pub open spec fn due(now: LocalTime, last: LocalTime, interval: u128) -> bool {
    elapsed(now, last) >= interval
}

/// Whether a message is an announcement of an inventory made at the time
/// `now` in the name of the node `id`, with a signature that is accepted
/// under `id`.
pub open spec fn inventory_at(m: MessageView, id: NodeId, now: Timestamp) -> bool {
    &&& m matches MessageView::InventoryAnnouncement { message, .. }
    &&& message.timestamp == now
    &&& m.signed_by(id)
}

/// Whether a message is the announcement of the inventory `projects`, made
/// at the time `now` in the name of the node `id`, with a signature that
/// is accepted under `id`.
pub open spec fn lists(m: MessageView, projects: Seq<Id>, id: NodeId, now: Timestamp) -> bool {
    &&& m matches MessageView::InventoryAnnouncement { message, .. }
    &&& message.inventory == projects
    &&& inventory_at(m, id, now)
}

/// Whether a message is the announcement `message` of references, in the
/// name of the node `id`, with a signature that is accepted under `id`.
pub open spec fn tells(m: MessageView, message: message::RefsAnnouncementView, id: NodeId) -> bool {
    &&& m matches MessageView::RefsAnnouncement { message: inner, .. }
    &&& inner == message
    &&& m.signed_by(id)
}

impl<S: WriteStorage, G: Signer> Service<S, G> {
    /// The peers to ask for a connection to: none while there are
    /// [`TARGET_OUTBOUND_PEERS`] negotiated peers; else the first of the
    /// known addresses that the service may connect to, as many as are
    /// wanting.
    pub open spec fn wanted(self) -> Seq<SocketAddr> {
        let have = recipients(self.sessions.list@, None, None).len();
        if have < TARGET_OUTBOUND_PEERS {
            candidates(
                self.context.addrmgr.known@,
                self.sessions.list@,
                (TARGET_OUTBOUND_PEERS - have) as nat,
            )
        } else {
            Seq::empty()
        }
    }

    /// Whether some directives are an announcement of the inventory to
    /// the negotiated peers: none at all, where storage could not be read;
    /// else one write of the same announcement to each.
    pub open spec fn is_announcement(self, announced: Seq<IoView>) -> bool {
        ||| announced.len() == 0
        ||| self.announces(announced)
    }

    /// Whether some directives are one write of the same announcement of
    /// an inventory, made at the time of the clock and signed by this
    /// node, to each of the negotiated peers, in the order of the sessions.
    pub open spec fn announces(self, announced: Seq<IoView>) -> bool {
        exists|m: MessageView|
            inventory_at(m, self.context.signer.key(), self.context.clock.time().stamp())
                && announced == #[trigger] self.sent_to_all(m)
    }

    /// Whether some directives are one write of the same announcement of
    /// the inventory `projects`, made at the time of the clock and signed
    /// by this node, to each of the negotiated peers, in the order of the
    /// sessions.
    pub open spec fn announces_listed(self, projects: Seq<Id>, announced: Seq<IoView>) -> bool {
        exists|m: MessageView|
            lists(m, projects, self.context.signer.key(), self.context.clock.time().stamp())
                && announced == #[trigger] self.sent_to_all(m)
    }

    /// Whether some directives are one write of the same announcement
    /// `message` of references, signed by this node, to each of the
    /// negotiated peers, in the order of the sessions.
    pub open spec fn announces_refs(
        self,
        message: message::RefsAnnouncementView,
        announced: Seq<IoView>,
    ) -> bool {
        exists|m: MessageView|
            tells(m, message, self.context.signer.key()) && announced
                == #[trigger] self.sent_to_all(m)
    }

    /// The directives that send a message to each of the negotiated peers,
    /// in the order of the sessions.
    pub open spec fn sent_to_all(self, m: MessageView) -> Seq<IoView> {
        broadcast_of(self.context.magic(), m, recipients(self.sessions.list@, None, None))
    }

    /// Send a message to each of the negotiated peers.
    pub fn announce(&mut self, msg: &Message)
        ensures
            final(self).same_but_outbox(*old(self)),
            final(self).queued() == old(self).queued() + old(self).sent_to_all(msg@),
    {
        let peers = self.sessions.negotiated();
        self.context.broadcast(msg, &peers);
    }

    /// The announcement of the references that the node `node` holds of a
    /// project, given what storage has said of the repository of the
    /// project: the references that the node has signed there. There is
    /// none if the repository could not be opened, or it does not hold
    /// signed references of the node with a signature of the node.
    pub fn refs_announcement(
        id: Id,
        node: &NodeId,
        repository: Result<storage::git::Repository, storage::Error>,
    ) -> (r: Option<RefsAnnouncement>)
        ensures
            match r {
                Some(message) => {
                    &&& message.id == id
                    &&& repository matches Ok(repo)
                    &&& repo@.signed_refs(node@) matches Ok(signed)
                    &&& signed == message.refs@
                },
                None => repository matches Ok(repo) ==> repo@.signed_refs(node@) is Err,
            },
    {
        match repository {
            Ok(repo) => match repo.remote(node) {
                Ok(remote) => Some(RefsAnnouncement { id, refs: remote.refs.refs }),
                Err(_) => None,
            },
            Err(_) => None,
        }
    }

    /// Ask for connections while there are too few peers.
    pub fn maintain_connections(&mut self)
        ensures
            final(self).same_but_outbox(*old(self)),
            final(self).queued() == old(self).queued() + connects(old(self).wanted()),
    {
        let have = self.sessions.negotiated().len();
        if have < TARGET_OUTBOUND_PEERS {
            let delta = TARGET_OUTBOUND_PEERS - have;
            let picked = self.context.addrmgr.select(&self.sessions, delta);
            let n: usize = picked.len();
            let mut i: usize = 0;
            assert(self.queued() =~= old(self).queued() + connects(picked@.take(0)));
            while i < n
                invariant
                    n == picked@.len(),
                    i <= n,
                    self.same_but_outbox(*old(self)),
                    self.queued() == old(self).queued() + connects(picked@.take(i as int)),
                decreases n - i,
            {
                self.context.connect(picked[i]);
                assert(self.queued() =~= old(self).queued() + connects(picked@.take(i + 1)));
                i = i + 1;
            }
            assert(picked@.take(n as int) =~= picked@);
        } else {
            assert(self.queued() =~= old(self).queued() + connects(old(self).wanted()));
        }
    }

    /// The routes to a project after the routing table was pruned: those
    /// that were announced again within the time that the configuration
    /// sets. Where it sets none, every route is kept.
    pub open spec fn pruned_routes(self, project: Id) -> Seq<Route> {
        match self.context.config.route_ttl {
            Some(ttl) => live_routes(
                self.context.routing.routes(project),
                self.context.clock.time().stamp(),
                ttl,
            ),
            None => self.context.routing.routes(project),
        }
    }

    /// Prune the routing table: drop the routes that were not announced
    /// again within the time that the configuration sets.
    pub fn prune_routing_entries(&mut self)
        ensures
            forall|project: Id|
                final(self).context.routing.routes(project) == old(self).pruned_routes(project),
            final(self).same_but_routing(*old(self)),
    {
        match self.context.config.route_ttl {
            Some(ttl) => {
                let now = self.context.timestamp();
                self.context.routing.prune(now, ttl);
            },
            None => {},
        }
    }

    /// Whether two services differ at most in the routing table.
    pub open spec fn same_but_routing(self, other: Self) -> bool {
        &&& self.rest_same(other)
        &&& self.sessions == other.sessions
        &&& self.peers == other.peers
        &&& self.context.reactor == other.context.reactor
    }

    /// What the service has given out since it was as `self`, if `after`
    /// is a later state of it: the directives that were queued since.
    pub open spec fn given(self, after: Self) -> Seq<IoView> {
        after.queued().skip(self.queued().len() as int)
    }

    /// Announce the inventory `projects`, at the time of the clock and
    /// signed by this node, to all negotiated peers.
    pub fn announce_listed(&mut self, projects: Vec<Id>)
        ensures
            final(self).same_but_outbox(*old(self)),
            final(self).queued() == old(self).queued() + old(self).given(*final(self)),
            old(self).announces_listed(projects@, old(self).given(*final(self))),
    {
        let timestamp = self.context.timestamp();
        let inv = Message::inventory(gossip::inventory(timestamp, projects), &self.context.signer);
        self.announce(&inv);
        proof {
            let announced = old(self).sent_to_all(inv@);
            assert(old(self).given(*self) =~= announced);
            assert(lists(inv@, projects@, old(self).context.signer.key(), timestamp));
        }
    }

    /// Announce our inventory to all connected peers. If storage cannot be
    /// read, nothing is announced.
    pub fn announce_inventory(&mut self) -> (r: Result<(), storage::Error>)
        ensures
            final(self).same_but_outbox(*old(self)),
            match r {
                Ok(()) => exists|announced: Seq<IoView>|
                    #![trigger old(self).announces(announced)]
                    old(self).announces(announced) && final(self).queued() == old(self).queued()
                        + announced,
                Err(_) => final(self).queued() == old(self).queued(),
            },
    {
        let projects = match self.context.storage.inventory() {
            Ok(projects) => projects,
            Err(e) => {
                return Err(e);
            },
        };
        let ghost listed = projects@;
        self.announce_listed(projects);
        proof {
            let announced = old(self).given(*self);
            let m = choose|m: MessageView|
                lists(m, listed, old(self).context.signer.key(), old(self).context.clock.time().stamp())
                    && announced == #[trigger] old(self).sent_to_all(m);
            assert(old(self).announces(announced));
        }
        Ok(())
    }

    /// What the idle task gives out when its time has come: the requests
    /// for connections, and the request to be woken again.
    pub open spec fn idle_output(self) -> Seq<IoView> {
        if due(self.context.clock.time(), self.last_idle, IDLE_INTERVAL) {
            connects(self.wanted()).push(IoView::Wakeup(LocalDuration(IDLE_INTERVAL)))
        } else {
            Seq::empty()
        }
    }

    /// What the sync task gives out when its time has come: the request to
    /// be woken again.
    pub open spec fn sync_output(self) -> Seq<IoView> {
        if due(self.context.clock.time(), self.last_sync, SYNC_INTERVAL) {
            seq![IoView::Wakeup(LocalDuration(SYNC_INTERVAL))]
        } else {
            Seq::empty()
        }
    }

    /// What the announce task gives out when its time has come:
    /// `announced`, if the inventory is out of sync, and the request to be
    /// woken again.
    pub open spec fn announce_output(self, announced: Seq<IoView>) -> Seq<IoView> {
        if due(self.context.clock.time(), self.last_announce, ANNOUNCE_INTERVAL) {
            (if self.out_of_sync {
                announced
            } else {
                Seq::empty()
            }).push(IoView::Wakeup(LocalDuration(ANNOUNCE_INTERVAL)))
        } else {
            Seq::empty()
        }
    }

    /// What the prune task gives out when its time has come: the request
    /// to be woken again.
    pub open spec fn prune_output(self) -> Seq<IoView> {
        if due(self.context.clock.time(), self.last_prune, PRUNE_INTERVAL) {
            seq![IoView::Wakeup(LocalDuration(PRUNE_INTERVAL))]
        } else {
            Seq::empty()
        }
    }

    /// What a wakeup gives out: what each of the tasks gives out, in the
    /// order idle, sync, announce, prune.
    pub open spec fn wake_output(self, announced: Seq<IoView>) -> Seq<IoView> {
        self.idle_output() + self.sync_output() + self.announce_output(announced)
            + self.prune_output()
    }

    /// Whether two services differ at most in the outgoing queue, in the
    /// routing table and in the times at which the tasks were last done.
    pub open spec fn same_but_tasks(self, other: Self) -> bool {
        &&& self.sessions == other.sessions
        &&& self.peers == other.peers
        &&& self.context.config == other.context.config
        &&& self.context.signer == other.context.signer
        &&& self.context.clock == other.context.clock
        &&& self.context.storage == other.context.storage
        &&& self.context.addrmgr == other.context.addrmgr
        &&& self.out_of_sync == other.out_of_sync
        &&& self.start_time == other.start_time
    }

    /// The time at which a task was last done, after a wakeup.
    pub open spec fn done_at(self, last: LocalTime, interval: u128) -> LocalTime {
        if due(self.context.clock.time(), last, interval) {
            self.context.clock.time()
        } else {
            last
        }
    }

    /// Do the idle task if its time has come.
    fn idle_task(&mut self)
        ensures
            final(self).same_but_tasks(*old(self)),
            final(self).context.routing == old(self).context.routing,
            final(self).queued() == old(self).queued() + old(self).idle_output(),
            final(self).last_idle == old(self).done_at(old(self).last_idle, IDLE_INTERVAL),
            final(self).last_sync == old(self).last_sync,
            final(self).last_announce == old(self).last_announce,
            final(self).last_prune == old(self).last_prune,
    {
        let now = self.context.clock.local_time();
        if now.since(self.last_idle).at_least(LocalDuration(IDLE_INTERVAL)) {
            self.maintain_connections();
            self.context.reactor.wakeup(LocalDuration(IDLE_INTERVAL));
            self.last_idle = now;
        }
        assert(self.queued() =~= old(self).queued() + old(self).idle_output());
    }

    /// Do the sync task if its time has come.
    fn sync_task(&mut self)
        ensures
            final(self).same_but_tasks(*old(self)),
            final(self).context.routing == old(self).context.routing,
            final(self).queued() == old(self).queued() + old(self).sync_output(),
            final(self).last_sync == old(self).done_at(old(self).last_sync, SYNC_INTERVAL),
            final(self).last_idle == old(self).last_idle,
            final(self).last_announce == old(self).last_announce,
            final(self).last_prune == old(self).last_prune,
    {
        let now = self.context.clock.local_time();
        if now.since(self.last_sync).at_least(LocalDuration(SYNC_INTERVAL)) {
            self.context.reactor.wakeup(LocalDuration(SYNC_INTERVAL));
            self.last_sync = now;
        }
        assert(self.queued() =~= old(self).queued() + old(self).sync_output());
    }

    /// Do the announce task if its time has come.
    fn announce_task(&mut self) -> (announced: Ghost<Seq<IoView>>)
        ensures
            final(self).same_but_tasks(*old(self)),
            final(self).context.routing == old(self).context.routing,
            old(self).is_announcement(announced@),
            final(self).queued() == old(self).queued() + old(self).announce_output(announced@),
            final(self).last_announce == old(self).done_at(
                old(self).last_announce,
                ANNOUNCE_INTERVAL,
            ),
            final(self).last_idle == old(self).last_idle,
            final(self).last_sync == old(self).last_sync,
            final(self).last_prune == old(self).last_prune,
    {
        let now = self.context.clock.local_time();
        let ghost mut announced = Seq::<IoView>::empty();
        if now.since(self.last_announce).at_least(LocalDuration(ANNOUNCE_INTERVAL)) {
            if self.out_of_sync {
                let r = self.announce_inventory();
                proof {
                    if r is Ok {
                        announced = choose|a: Seq<IoView>|
                            #![trigger old(self).announces(a)]
                            old(self).announces(a) && self.queued() == old(self).queued() + a;
                    }
                    assert(self.queued() =~= old(self).queued() + announced);
                }
            }
            self.context.reactor.wakeup(LocalDuration(ANNOUNCE_INTERVAL));
            self.last_announce = now;
        }
        assert(self.queued() =~= old(self).queued() + old(self).announce_output(announced));
        Ghost(announced)
    }

    /// Do the prune task if its time has come.
    fn prune_task(&mut self)
        ensures
            final(self).same_but_tasks(*old(self)),
            forall|project: Id|
                final(self).context.routing.routes(project) == old(self).routes_after_wake(
                    project,
                ),
            final(self).queued() == old(self).queued() + old(self).prune_output(),
            final(self).last_prune == old(self).done_at(old(self).last_prune, PRUNE_INTERVAL),
            final(self).last_idle == old(self).last_idle,
            final(self).last_sync == old(self).last_sync,
            final(self).last_announce == old(self).last_announce,
    {
        let now = self.context.clock.local_time();
        if now.since(self.last_prune).at_least(LocalDuration(PRUNE_INTERVAL)) {
            self.prune_routing_entries();
            self.context.reactor.wakeup(LocalDuration(PRUNE_INTERVAL));
            self.last_prune = now;
        }
        assert(self.queued() =~= old(self).queued() + old(self).prune_output());
    }

    /// The routes to a project after a wakeup: pruned if it is time for
    /// the prune task, else as they were.
    pub open spec fn routes_after_wake(self, project: Id) -> Seq<Route> {
        if due(self.context.clock.time(), self.last_prune, PRUNE_INTERVAL) {
            self.pruned_routes(project)
        } else {
            self.context.routing.routes(project)
        }
    }

    /// Do the periodic tasks whose time has come: for each, in the order
    /// idle, sync, announce, prune, the task is done, the reactor is asked
    /// for a wakeup after the interval of the task, and the time is noted.
    pub fn wake(&mut self)
        ensures
            final(self).same_but_tasks(*old(self)),
            forall|project: Id|
                final(self).context.routing.routes(project) == old(self).routes_after_wake(
                    project,
                ),
            final(self).last_idle == old(self).done_at(old(self).last_idle, IDLE_INTERVAL),
            final(self).last_sync == old(self).done_at(old(self).last_sync, SYNC_INTERVAL),
            final(self).last_announce == old(self).done_at(
                old(self).last_announce,
                ANNOUNCE_INTERVAL,
            ),
            final(self).last_prune == old(self).done_at(old(self).last_prune, PRUNE_INTERVAL),
            exists|announced: Seq<IoView>|
                #![trigger old(self).wake_output(announced)]
                old(self).is_announcement(announced) && final(self).queued() == old(self).queued()
                    + old(self).wake_output(announced),
    {
        self.idle_task();
        let ghost first = *self;
        assert(first.sync_output() == old(self).sync_output());
        self.sync_task();
        let ghost second = *self;
        let announced = self.announce_task();
        assert(second.announce_output(announced@) == old(self).announce_output(announced@));
        assert(old(self).is_announcement(announced@)) by {
            assert(second.is_announcement(announced@));
            assert(second.context.magic() == old(self).context.magic());
            assert(second.sessions == old(self).sessions);
            assert(second.context.clock == old(self).context.clock);
            if announced@.len() != 0 {
                let m = choose|m: MessageView|
                    inventory_at(m, second.context.signer.key(), second.context.clock.time().stamp()) && announced@
                        == #[trigger] second.sent_to_all(m);
                assert(announced@ == old(self).sent_to_all(m));
                assert(old(self).announces(announced@));
            }
        }
        let ghost third = *self;
        assert(third.prune_output() == old(self).prune_output());
        assert forall|project: Id|
            third.routes_after_wake(project) == old(self).routes_after_wake(project) by {}
        self.prune_task();
        assert(self.queued() =~= old(self).queued() + old(self).wake_output(announced@));
    }

    /// What a command does to the service, and the reply to it.
    pub open spec fn commanded(before: Self, cmd: Command, after: Self, reply: Reply) -> bool {
        match cmd {
            Command::Connect(addr) => {
                &&& reply == Reply::Done
                &&& after.same_but_outbox(before)
                &&& after.queued() == before.queued().push(IoView::Connect(addr))
            },
            Command::Track(id) => {
                &&& reply == Reply::Changed(!before.context.config.project_tracking.tracks(id))
                &&& after.out_of_sync == (before.out_of_sync || reply == Reply::Changed(true))
                &&& forall|other: Id|
                    after.context.config.project_tracking.tracks(other) == (
                    before.context.config.project_tracking.tracks(other) || other == id)
                &&& after.queued() == before.queued()
                &&& after.sessions == before.sessions
                &&& after.context.routing == before.context.routing
            },
            Command::Untrack(id) => {
                &&& reply == Reply::Changed(before.context.config.project_tracking.tracks(id))
                &&& after.out_of_sync == before.out_of_sync
                &&& forall|other: Id|
                    after.context.config.project_tracking.tracks(other) == (
                    before.context.config.project_tracking.tracks(other) && other != id)
                &&& after.queued() == before.queued()
                &&& after.sessions == before.sessions
                &&& after.context.routing == before.context.routing
            },
            Command::Fetch(id) => {
                &&& after.same(before)
                &&& reply matches Reply::Fetch(lookup)
                &&& Self::looked_up(before, id, lookup)
            },
            Command::AnnounceRefs(id) => {
                &&& reply == Reply::Done
                &&& after.same_but_outbox(before)
                &&& {
                    ||| after.queued() == before.queued()
                    ||| exists|m: MessageView|
                        Self::refs_sent(before, id, m) && after.queued() == before.queued()
                            + #[trigger] before.sent_to_all(m)
                }
            },
        }
    }

    /// Whether a message is an announcement of references of the project
    /// `id` in the name of this node, with a signature of this node.
    pub open spec fn refs_sent(before: Self, id: Id, m: MessageView) -> bool {
        &&& m matches MessageView::RefsAnnouncement { message, .. }
        &&& message.id == id
        &&& m.signed_by(before.context.signer.key())
    }

    /// What a fetch of a project on the operator's command comes to: the
    /// project is not tracked; or no seed of it is known; or its
    /// repository cannot be opened; or a fetch is tried from each seed in
    /// turn, and the result of each is told.
    pub open spec fn looked_up(before: Self, id: Id, lookup: FetchLookup) -> bool {
        let seeds = seed_addrs(seeds_of(before.context.routing.nodes(id), before.sessions.list@));
        if !before.context.config.project_tracking.tracks(id) {
            lookup == FetchLookup::NotTracking
        } else if seeds.len() == 0 {
            lookup == FetchLookup::NotFound
        } else {
            match lookup {
                FetchLookup::Error(e) => e is Storage,
                FetchLookup::Found { seeds: found, results } => {
                    &&& nonempty_items(found) == seeds
                    &&& results@.len() == seeds.len()
                    &&& forall|i: int|
                        0 <= i < seeds.len() ==> (#[trigger] results@[i]).seed() == seeds[i]
                },
                _ => false,
            }
        }
    }

    /// Fetch a project from each of its seeds.
    pub fn fetch(&self, id: &Id) -> (lookup: FetchLookup)
        ensures
            Self::looked_up(*self, *id, lookup),
    {
        if !self.context.config.is_tracking(id) {
            return FetchLookup::NotTracking;
        }
        let seeds = self.seeds(id);
        let n: usize = seeds.len();
        let mut addrs: Vec<SocketAddr> = Vec::new();
        let mut k: usize = 0;
        while k < n
            invariant
                n == seeds@.len(),
                k <= n,
                addrs@ == seed_addrs(seeds@).take(k as int),
            decreases n - k,
        {
            addrs.push(seeds[k].1);
            assert(addrs@ =~= seed_addrs(seeds@).take(k + 1));
            k = k + 1;
        }
        assert(seed_addrs(seeds@).take(n as int) =~= seed_addrs(seeds@));
        let found = match nonempty_from_vec(addrs) {
            Some(found) => found,
            None => {
                return FetchLookup::NotFound;
            },
        };
        match self.context.storage.repository(id) {
            Ok(_) => {},
            Err(e) => {
                return FetchLookup::Error(FetchError::Storage(e));
            },
        }
        let mut results: Vec<FetchResult> = Vec::new();
        let mut i: usize = 0;
        while i < n
            invariant
                n == seeds@.len(),
                i <= n,
                results@.len() == i,
                forall|j: int| 0 <= j < i ==> (#[trigger] results@[j]).seed() == seeds@[j].1,
            decreases n - i,
        {
            let from = seeds[i].1;
            let fetched = self.context.storage.fetch(id, &seed_url(from));
            results.push(FetchResult::of(from, fetched));
            i = i + 1;
        }
        FetchLookup::Found { seeds: found, results }
    }

    /// Announce `message`, signed by this node, to all negotiated peers.
    pub fn announce_references(&mut self, message: RefsAnnouncement)
        ensures
            final(self).same_but_outbox(*old(self)),
            final(self).queued() == old(self).queued() + old(self).given(*final(self)),
            old(self).announces_refs(message@, old(self).given(*final(self))),
    {
        let msg = Message::refs(message, &self.context.signer);
        self.announce(&msg);
        proof {
            let announced = old(self).sent_to_all(msg@);
            assert(old(self).given(*self) =~= announced);
            assert(tells(msg@, message@, old(self).context.signer.key()));
        }
    }

    /// What is given out for the references of the project `id`, where
    /// `found` is what the repository of the project holds of references
    /// signed by this node: the announcement of those references, signed
    /// by this node, to each of the negotiated peers; nothing, if there
    /// are none.
    pub open spec fn refs_told(
        self,
        id: Id,
        found: Result<Seq<(Seq<char>, Oid)>, storage::refs::Error>,
        announced: Seq<IoView>,
    ) -> bool {
        match found {
            Ok(refs) => self.announces_refs(
                message::RefsAnnouncementView { id, refs },
                announced,
            ),
            Err(_) => announced.len() == 0,
        }
    }

    /// Announce the references that this node holds of the project `id`,
    /// given what storage has said of the repository of the project: the
    /// references that this node has signed there go, signed by this node,
    /// to all negotiated peers. Nothing is announced if the repository
    /// could not be opened or holds no signed references of this node.
    pub fn announce_found(
        &mut self,
        id: Id,
        repository: Result<storage::git::Repository, storage::Error>,
    )
        ensures
            final(self).same_but_outbox(*old(self)),
            final(self).queued() == old(self).queued() + old(self).given(*final(self)),
            old(self).refs_told(
                id,
                match repository {
                    Ok(repo) => repo@.signed_refs(old(self).context.signer.key()@),
                    Err(_) => Err(storage::refs::Error::NotFound),
                },
                old(self).given(*final(self)),
            ),
    {
        let node = self.node_id();
        let ghost found = match &repository {
            Ok(repo) => repo@.signed_refs(node@),
            Err(_) => Err(storage::refs::Error::NotFound),
        };
        match Self::refs_announcement(id, &node, repository) {
            Some(message) => {
                let ghost told = message@;
                self.announce_references(message);
                proof {
                    assert(found matches Ok(refs) && told == (message::RefsAnnouncementView {
                        id,
                        refs,
                    }));
                    assert(old(self).announces_refs(told, old(self).given(*self)));
                }
            },
            None => {
                assert(found is Err);
                assert(old(self).given(*self) =~= Seq::<IoView>::empty());
                assert(self.queued() =~= old(self).queued() + Seq::<IoView>::empty());
            },
        }
    }

    /// Announce the references that this node holds of a project to all
    /// negotiated peers. Nothing is announced if they cannot be read from
    /// storage.
    pub fn announce_refs(&mut self, id: Id)
        ensures
            Self::commanded(*old(self), Command::AnnounceRefs(id), *final(self), Reply::Done),
    {
        let repository = self.context.storage.repository(&id);
        let ghost found: Result<Seq<(Seq<char>, Oid)>, storage::refs::Error> = match &repository {
            Ok(repo) => repo@.signed_refs(self.context.signer.key()@),
            Err(_) => Err(storage::refs::Error::NotFound),
        };
        self.announce_found(id, repository);
        proof {
            let announced = old(self).given(*self);
            assert(old(self).refs_told(id, found, announced));
            match found {
                Ok(refs) => {
                    let told = message::RefsAnnouncementView { id, refs };
                    assert(old(self).announces_refs(told, announced));
                    let m = choose|m: MessageView|
                        tells(m, told, old(self).context.signer.key()) && announced
                            == #[trigger] old(self).sent_to_all(m);
                    assert(Self::refs_sent(*old(self), id, m));
                    assert(self.queued() == old(self).queued() + old(self).sent_to_all(m));
                },
                Err(_) => {
                    assert(self.queued() =~= old(self).queued());
                },
            }
        }
    }

    /// Carry out a command of the operator, and say what to reply.
    pub fn command(&mut self, cmd: Command) -> (reply: Reply)
        ensures
            Self::commanded(*old(self), cmd, *final(self), reply),
    {
        match cmd {
            Command::Connect(addr) => {
                self.context.connect(addr);
                Reply::Done
            },
            Command::Fetch(id) => Reply::Fetch(self.fetch(&id)),
            Command::Track(id) => Reply::Changed(self.track(id)),
            Command::Untrack(id) => Reply::Changed(self.untrack(id)),
            Command::AnnounceRefs(id) => {
                self.announce_refs(id);
                Reply::Done
            },
        }
    }
}

} // verus!
