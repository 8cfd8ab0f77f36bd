//! What the service asks of the reactor: the outbox.

use crate::clock::LocalDuration;
use crate::git::{Url, UrlView};
use crate::identity::Id;
use crate::net::SocketAddr;
use crate::service::config::Network;
use crate::service::message::{Envelope, EnvelopeView, Message, MessageView};
use crate::service::session::SessionError;
use crate::storage::{updates_view, RefUpdate, RefUpdateView};
use std::collections::VecDeque;
use vstd::prelude::*;

verus! {

/// Why the service ends a connection.
#[derive(Debug, Copy, Clone, PartialEq, Eq, Structural)]
pub enum DisconnectReason {
    /// The operator asked for it.
    User,
    /// The peer gave cause.
    Error(SessionError),
}

impl DisconnectReason {
    /// Whether the cause may have passed when the peer is tried again. None
    /// of the reasons the service has is of that kind.
    pub fn is_transient(&self) -> (r: bool)
        ensures
            !r,
    {
        match self {
            DisconnectReason::User => false,
            DisconnectReason::Error(_) => false,
        }
    }
}

/// Why a connection has ended, as the reactor reports it.
#[derive(Debug, Copy, Clone, PartialEq, Eq, Structural)]
pub enum Disconnect {
    /// The peer could not be reached.
    DialError,
    /// The connection broke.
    ConnectionError,
    /// The service ended the connection, for the reason given.
    Protocol(DisconnectReason),
}

impl Disconnect {
    /// Whether the peer could not be reached in the first place.
    pub fn is_dial_err(&self) -> (r: bool)
        ensures
            r == (*self is DialError),
    {
        match self {
            Disconnect::DialError => true,
            _ => false,
        }
    }
}

/// A service event.
#[derive(Debug)]
pub enum Event {
    /// The references of a project were fetched from a peer.
    RefsFetched { from: Url, project: Id, updated: Vec<RefUpdate> },
}

/// The mathematical value of an [`Event`].
pub enum EventView {
    RefsFetched { from: UrlView, project: Id, updated: Seq<RefUpdateView> },
}

impl View for Event {
    type V = EventView;

    open spec fn view(&self) -> EventView {
        match self {
            Event::RefsFetched { from, project, updated } => EventView::RefsFetched {
                from: from@,
                project: *project,
                updated: updates_view(updated@),
            },
        }
    }
}

/// Output of a state transition.
#[derive(Debug)]
pub enum Io {
    /// There are some messages ready to be sent to a peer.
    Write(SocketAddr, Vec<Envelope>),
    /// Connect to a peer.
    Connect(SocketAddr),
    /// Disconnect from a peer.
    Disconnect(SocketAddr, DisconnectReason),
    /// Ask for a wakeup in a specified amount of time.
    Wakeup(LocalDuration),
    /// Emit an event.
    Event(Event),
}

/// The mathematical value of an [`Io`].
pub enum IoView {
    Write(SocketAddr, Seq<EnvelopeView>),
    Connect(SocketAddr),
    Disconnect(SocketAddr, DisconnectReason),
    Wakeup(LocalDuration),
    Event(EventView),
}

/// The views of a list of envelopes.
pub open spec fn envelopes_view(envelopes: Seq<Envelope>) -> Seq<EnvelopeView> {
    envelopes.map_values(|e: Envelope| e@)
}

impl View for Io {
    type V = IoView;

    open spec fn view(&self) -> IoView {
        match self {
            Io::Write(addr, envelopes) => IoView::Write(*addr, envelopes_view(envelopes@)),
            Io::Connect(addr) => IoView::Connect(*addr),
            Io::Disconnect(addr, reason) => IoView::Disconnect(*addr, *reason),
            Io::Wakeup(duration) => IoView::Wakeup(*duration),
            Io::Event(event) => IoView::Event(event@),
        }
    }
}

/// The views of a queue of directives.
pub open spec fn outbox_view(io: Seq<Io>) -> Seq<IoView> {
    io.map_values(|io: Io| io@)
}

/// The messages of a list, each in an envelope of the network `magic`.
pub open spec fn enveloped(magic: u32, msgs: Seq<Message>) -> Seq<EnvelopeView> {
    msgs.map_values(|m: Message| EnvelopeView { magic, msg: m@ })
}

/// The directive that sends one message to one peer.
pub open spec fn write_of(magic: u32, addr: SocketAddr, msg: MessageView) -> IoView {
    IoView::Write(addr, seq![EnvelopeView { magic, msg }])
}

/// The directives that send one message to each of a list of peers, in the
/// order of the list.
pub open spec fn broadcast_of(magic: u32, msg: MessageView, peers: Seq<SocketAddr>) -> Seq<IoView> {
    peers.map_values(|addr: SocketAddr| write_of(magic, addr, msg))
}

/// The interface to the I/O reactor: the queue of directives that the
/// service has given and the reactor has not taken yet.
#[derive(Debug)]
pub struct Reactor {
    /// The queue, oldest directive first.
    pub io: VecDeque<Io>,
}

impl Reactor {
    /// The queue, oldest directive first.
    pub open spec fn outbox(self) -> Seq<IoView> {
        outbox_view(self.io@)
    }

    /// A reactor interface with an empty queue.
    pub fn new() -> (r: Reactor)
        ensures
            r.outbox() == Seq::<IoView>::empty(),
    {
        let r = Reactor { io: VecDeque::new() };
        assert(r.outbox() =~= Seq::<IoView>::empty());
        r
    }

    /// Put a directive at the end of the queue.
    pub fn push(&mut self, io: Io)
        ensures
            final(self).outbox() == old(self).outbox().push(io@),
            final(self).io@ == old(self).io@.push(io),
    {
        self.io.push_back(io);
        assert(self.outbox() =~= old(self).outbox().push(io@));
    }

    /// Connect to a peer.
    pub fn connect(&mut self, addr: SocketAddr)
        ensures
            final(self).outbox() == old(self).outbox().push(IoView::Connect(addr)),
    {
        self.push(Io::Connect(addr));
    }

    /// Disconnect a peer.
    pub fn disconnect(&mut self, addr: SocketAddr, reason: DisconnectReason)
        ensures
            final(self).outbox() == old(self).outbox().push(IoView::Disconnect(addr, reason)),
    {
        self.push(Io::Disconnect(addr, reason));
    }

    /// Ask to be woken up after `duration`.
    pub fn wakeup(&mut self, duration: LocalDuration)
        ensures
            final(self).outbox() == old(self).outbox().push(IoView::Wakeup(duration)),
    {
        self.push(Io::Wakeup(duration));
    }

    /// Emit an event.
    pub fn event(&mut self, event: Event)
        ensures
            final(self).outbox() == old(self).outbox().push(IoView::Event(event@)),
    {
        self.push(Io::Event(event));
    }

    /// Send one message to a peer, under the tag of `network`.
    pub fn write(&mut self, network: Network, remote: SocketAddr, msg: Message)
        ensures
            final(self).outbox() == old(self).outbox().push(write_of(network.tag(), remote, msg@)),
    {
        let envelope = Envelope { magic: network.magic(), msg };
        let mut envelopes: Vec<Envelope> = Vec::new();
        envelopes.push(envelope);
        assert(envelopes_view(envelopes@) =~= seq![
            EnvelopeView { magic: network.tag(), msg: msg@ },
        ]);
        self.push(Io::Write(remote, envelopes));
    }

    /// Send some messages to a peer, in one write, under the tag of
    /// `network`.
    pub fn write_all(&mut self, network: Network, remote: SocketAddr, msgs: Vec<Message>)
        ensures
            final(self).outbox() == old(self).outbox().push(
                IoView::Write(remote, enveloped(network.tag(), msgs@)),
            ),
    {
        let magic = network.magic();
        let ghost all = msgs@;
        let mut msgs = msgs;
        let mut envelopes: Vec<Envelope> = Vec::new();
        let n: usize = msgs.len();
        let mut i: usize = 0;
        // The messages are taken from the back, so the envelopes are made
        // in reverse and turned round at the end.
        while i < n
            invariant
                n == all.len(),
                i <= n,
                msgs@ == all.take(n - i),
                envelopes@.len() == i,
                forall|j: int|
                    0 <= j < i ==> envelopes@[j]@ == (EnvelopeView {
                        magic,
                        msg: all[n - 1 - j]@,
                    }),
            decreases n - i,
        {
            let msg = msgs.pop().unwrap();
            envelopes.push(Envelope { magic, msg });
            assert(msgs@ =~= all.take(n - (i + 1)));
            i = i + 1;
        }
        let mut ordered: Vec<Envelope> = Vec::new();
        let mut k: usize = 0;
        while k < n
            invariant
                n == all.len(),
                k <= n,
                envelopes@.len() == n - k,
                forall|j: int|
                    0 <= j < n - k ==> envelopes@[j]@ == (EnvelopeView {
                        magic,
                        msg: all[n - 1 - j]@,
                    }),
                ordered@.len() == k,
                forall|j: int|
                    0 <= j < k ==> ordered@[j]@ == (EnvelopeView { magic, msg: all[j]@ }),
            decreases n - k,
        {
            let envelope = envelopes.pop().unwrap();
            ordered.push(envelope);
            k = k + 1;
        }
        assert(envelopes_view(ordered@) =~= enveloped(magic, all));
        self.push(Io::Write(remote, ordered));
    }

    /// Broadcast a message to a list of peers, under the tag of
    /// `network`.
    pub fn broadcast(&mut self, network: Network, msg: &Message, peers: &Vec<SocketAddr>)
        ensures
            final(self).outbox() == old(self).outbox() + broadcast_of(
                network.tag(),
                msg@,
                peers@,
            ),
    {
        let ghost magic = network.tag();
        let n: usize = peers.len();
        let mut i: usize = 0;
        assert(self.outbox() =~= old(self).outbox() + broadcast_of(magic, msg@, peers@.take(0)));
        while i < n
            invariant
                n == peers@.len(),
                i <= n,
                magic == network.tag(),
                self.outbox() == old(self).outbox() + broadcast_of(
                    magic,
                    msg@,
                    peers@.take(i as int),
                ),
            decreases n - i,
        {
            self.write(network, peers[i], msg.clone());
            assert(self.outbox() =~= old(self).outbox() + broadcast_of(
                magic,
                msg@,
                peers@.take(i + 1),
            ));
            i = i + 1;
        }
        assert(peers@.take(n as int) =~= peers@);
    }

    /// Take the oldest directive off the queue.
    pub fn next(&mut self) -> (io: Option<Io>)
        ensures
            match io {
                Some(io) => old(self).outbox().len() > 0 && io@ == old(self).outbox()[0]
                    && final(self).outbox() == old(self).outbox().drop_first(),
                None => old(self).outbox().len() == 0 && final(self).outbox() == old(self).outbox(),
            },
    {
        let io = self.io.pop_front();
        assert(self.outbox() =~= if old(self).outbox().len() > 0 {
            old(self).outbox().drop_first()
        } else {
            old(self).outbox()
        });
        io
    }
}

} // verus!
