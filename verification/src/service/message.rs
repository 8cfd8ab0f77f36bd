//! The messages that nodes exchange, and the bytes that their signatures are
//! made over.

use crate::bytes::{be_u16, be_u32, be_u64, put_bytes, put_u16, put_u32, put_u64};
use crate::clock::Timestamp;
use crate::crypto::{signature_valid, PublicKey, Signature, Signer};
use crate::git::{Url, UrlView};
use crate::identity::{Id, Oid};
use crate::net::{IpAddr, SocketAddr};
use crate::service::filter::{ids_clone, Filter};
use crate::storage::refs::{refs_bytes, Refs};
use vstd::prelude::*;

verus! {

/// The version of the protocol that this node speaks.
pub const PROTOCOL_VERSION: u32 = 1;

/// Network node identifier.
pub type NodeId = PublicKey;

/// An address that a node can be reached at.
pub type Address = SocketAddr;

/// The bytes that stand for an address.
pub open spec fn address_bytes(addr: SocketAddr) -> Seq<u8> {
    match addr.ip {
        IpAddr::V4(ip) => seq![4u8] + be_u32(ip) + be_u16(addr.port),
        IpAddr::V6(ip) => seq![6u8] + be_u64((ip / 0x1_0000_0000_0000_0000) as u64) + be_u64(
            (ip % 0x1_0000_0000_0000_0000) as u64,
        ) + be_u16(addr.port),
    }
}

/// The bytes that stand for a list of addresses, one after the other.
pub open spec fn addresses_bytes(addrs: Seq<SocketAddr>) -> Seq<u8>
    decreases addrs.len(),
{
    if addrs.len() == 0 {
        Seq::<u8>::empty()
    } else {
        addresses_bytes(addrs.drop_last()) + address_bytes(addrs.last())
    }
}

/// The bytes that stand for a list of project identifiers, 20 for each.
pub open spec fn ids_bytes(ids: Seq<Id>) -> Seq<u8>
    decreases ids.len(),
{
    if ids.len() == 0 {
        Seq::<u8>::empty()
    } else {
        ids_bytes(ids.drop_last()) + ids.last()@
    }
}

/// Append the bytes that stand for an address.
pub fn put_address(buf: &mut Vec<u8>, addr: &SocketAddr)
    ensures
        final(buf)@ == old(buf)@ + address_bytes(*addr),
{
    match addr.ip {
        IpAddr::V4(ip) => {
            buf.push(4);
            put_u32(buf, ip);
            put_u16(buf, addr.port);
            assert(buf@ =~= old(buf)@ + address_bytes(*addr));
        },
        IpAddr::V6(ip) => {
            buf.push(6);
            put_u64(buf, (ip / 0x1_0000_0000_0000_0000) as u64);
            put_u64(buf, (ip % 0x1_0000_0000_0000_0000) as u64);
            put_u16(buf, addr.port);
            assert(buf@ =~= old(buf)@ + address_bytes(*addr));
        },
    }
}

/// A copy of a list of addresses.
pub fn addresses_clone(addrs: &Vec<SocketAddr>) -> (r: Vec<SocketAddr>)
    ensures
        r@ == addrs@,
{
    let mut r: Vec<SocketAddr> = Vec::new();
    let n: usize = addrs.len();
    let mut i: usize = 0;
    while i < n
        invariant
            n == addrs@.len(),
            i <= n,
            r@ == addrs@.take(i as int),
        decreases n - i,
    {
        r.push(addrs[i]);
        assert(r@ =~= addrs@.take(i + 1));
        i = i + 1;
    }
    assert(addrs@.take(n as int) =~= addrs@);
    r
}

/// What a node says about itself.
#[derive(Debug, PartialEq, Eq)]
pub struct NodeAnnouncement {
    /// The features the node offers, as a set of bits.
    pub features: u64,
    /// When the announcement was made.
    pub timestamp: Timestamp,
    /// The name the node goes by.
    pub alias: [u8; 32],
    /// Where the node can be reached.
    pub addresses: Vec<Address>,
}

/// The mathematical value of a [`NodeAnnouncement`].
pub struct NodeAnnouncementView {
    pub features: u64,
    pub timestamp: Timestamp,
    pub alias: Seq<u8>,
    pub addresses: Seq<SocketAddr>,
}

impl NodeAnnouncementView {
    /// The bytes that a signature of the announcement is made over.
    pub open spec fn bytes(self) -> Seq<u8> {
        be_u64(self.features) + be_u64(self.timestamp) + self.alias + be_u64(
            self.addresses.len() as u64,
        ) + addresses_bytes(self.addresses)
    }
}

impl View for NodeAnnouncement {
    type V = NodeAnnouncementView;

    open spec fn view(&self) -> NodeAnnouncementView {
        NodeAnnouncementView {
            features: self.features,
            timestamp: self.timestamp,
            alias: self.alias@,
            addresses: self.addresses@,
        }
    }
}

impl Clone for NodeAnnouncement {
    fn clone(&self) -> (r: NodeAnnouncement)
        ensures
            r@ == self@,
    {
        NodeAnnouncement {
            features: self.features,
            timestamp: self.timestamp,
            alias: self.alias,
            addresses: addresses_clone(&self.addresses),
        }
    }
}

impl NodeAnnouncement {
    /// The bytes that a signature of the announcement is made over.
    pub fn encode(&self) -> (bytes: Vec<u8>)
        ensures
            bytes@ == self@.bytes(),
    {
        let mut buf: Vec<u8> = Vec::new();
        put_u64(&mut buf, self.features);
        put_u64(&mut buf, self.timestamp);
        put_bytes(&mut buf, self.alias.as_slice());
        let n: usize = self.addresses.len();
        put_u64(&mut buf, n as u64);
        let ghost start = buf@;
        let mut i: usize = 0;
        assert(addresses_bytes(self.addresses@.take(0)) =~= Seq::<u8>::empty());
        while i < n
            invariant
                n == self.addresses@.len(),
                i <= n,
                buf@ == start + addresses_bytes(self.addresses@.take(i as int)),
            decreases n - i,
        {
            put_address(&mut buf, &self.addresses[i]);
            proof {
                let next = self.addresses@.take(i + 1);
                assert(next.drop_last() =~= self.addresses@.take(i as int));
                assert(buf@ =~= start + addresses_bytes(next));
            }
            i = i + 1;
        }
        assert(self.addresses@.take(n as int) =~= self.addresses@);
        assert(buf@ =~= self@.bytes());
        buf
    }

    /// Sign the announcement: the signature is made over its bytes and is
    /// accepted under the signer's key.
    pub fn sign<G: Signer>(&self, signer: &G) -> (sig: Signature)
        ensures
            signature_valid(signer.key()@, self@.bytes(), sig@),
    {
        let msg = self.encode();
        signer.sign(msg.as_slice())
    }

    /// Whether `signature` is one of `signer` over this announcement.
    pub fn verify(&self, signer: &NodeId, signature: &Signature) -> (ok: bool)
        ensures
            ok == signature_valid(signer@, self@.bytes(), signature@),
    {
        let msg = self.encode();
        signer.verify(msg.as_slice(), signature)
    }
}

/// The projects that a node hosts.
#[derive(Debug, PartialEq, Eq)]
pub struct InventoryAnnouncement {
    /// The projects.
    pub inventory: Vec<Id>,
    /// When the announcement was made.
    pub timestamp: Timestamp,
}

/// The mathematical value of an [`InventoryAnnouncement`].
pub struct InventoryAnnouncementView {
    pub inventory: Seq<Id>,
    pub timestamp: Timestamp,
}

impl InventoryAnnouncementView {
    /// The bytes that a signature of the announcement is made over.
    pub open spec fn bytes(self) -> Seq<u8> {
        be_u64(self.timestamp) + be_u64(self.inventory.len() as u64) + ids_bytes(self.inventory)
    }
}

impl View for InventoryAnnouncement {
    type V = InventoryAnnouncementView;

    open spec fn view(&self) -> InventoryAnnouncementView {
        InventoryAnnouncementView { inventory: self.inventory@, timestamp: self.timestamp }
    }
}

impl Clone for InventoryAnnouncement {
    fn clone(&self) -> (r: InventoryAnnouncement)
        ensures
            r@ == self@,
    {
        InventoryAnnouncement { inventory: ids_clone(&self.inventory), timestamp: self.timestamp }
    }
}

impl InventoryAnnouncement {
    /// The bytes that a signature of the announcement is made over.
    pub fn encode(&self) -> (bytes: Vec<u8>)
        ensures
            bytes@ == self@.bytes(),
    {
        let mut buf: Vec<u8> = Vec::new();
        put_u64(&mut buf, self.timestamp);
        let n: usize = self.inventory.len();
        put_u64(&mut buf, n as u64);
        let ghost start = buf@;
        let mut i: usize = 0;
        assert(ids_bytes(self.inventory@.take(0)) =~= Seq::<u8>::empty());
        while i < n
            invariant
                n == self.inventory@.len(),
                i <= n,
                buf@ == start + ids_bytes(self.inventory@.take(i as int)),
            decreases n - i,
        {
            put_bytes(&mut buf, self.inventory[i].0.as_slice());
            proof {
                let next = self.inventory@.take(i + 1);
                assert(next.drop_last() =~= self.inventory@.take(i as int));
                assert(buf@ =~= start + ids_bytes(next));
            }
            i = i + 1;
        }
        assert(self.inventory@.take(n as int) =~= self.inventory@);
        assert(buf@ =~= self@.bytes());
        buf
    }

    /// Sign the announcement: the signature is made over its bytes and is
    /// accepted under the signer's key.
    pub fn sign<G: Signer>(&self, signer: &G) -> (sig: Signature)
        ensures
            signature_valid(signer.key()@, self@.bytes(), sig@),
    {
        let msg = self.encode();
        signer.sign(msg.as_slice())
    }

    /// Whether `signature` is one of `signer` over this announcement.
    pub fn verify(&self, signer: &NodeId, signature: &Signature) -> (ok: bool)
        ensures
            ok == signature_valid(signer@, self@.bytes(), signature@),
    {
        let msg = self.encode();
        signer.verify(msg.as_slice(), signature)
    }
}

/// The references that a node holds of one project.
#[derive(Debug, PartialEq, Eq)]
pub struct RefsAnnouncement {
    /// The project.
    pub id: Id,
    /// The references of the announcing node in that project.
    pub refs: Refs,
}

/// The mathematical value of a [`RefsAnnouncement`].
pub struct RefsAnnouncementView {
    pub id: Id,
    pub refs: Seq<(Seq<char>, Oid)>,
}

impl RefsAnnouncementView {
    /// The bytes that a signature of the announcement is made over.
    pub open spec fn bytes(self) -> Seq<u8> {
        self.id@ + refs_bytes(self.refs)
    }
}

impl View for RefsAnnouncement {
    type V = RefsAnnouncementView;

    open spec fn view(&self) -> RefsAnnouncementView {
        RefsAnnouncementView { id: self.id, refs: self.refs@ }
    }
}

impl Clone for RefsAnnouncement {
    fn clone(&self) -> (r: RefsAnnouncement)
        ensures
            r@ == self@,
    {
        RefsAnnouncement { id: self.id, refs: self.refs.clone() }
    }
}

impl RefsAnnouncement {
    /// The bytes that a signature of the announcement is made over.
    pub fn encode(&self) -> (bytes: Vec<u8>)
        ensures
            bytes@ == self@.bytes(),
    {
        let mut buf: Vec<u8> = Vec::new();
        put_bytes(&mut buf, self.id.0.as_slice());
        let refs = self.refs.canonical();
        put_bytes(&mut buf, refs.as_slice());
        assert(buf@ =~= self@.bytes());
        buf
    }

    /// Sign the announcement: the signature is made over its bytes and is
    /// accepted under the signer's key.
    pub fn sign<G: Signer>(&self, signer: &G) -> (sig: Signature)
        ensures
            signature_valid(signer.key()@, self@.bytes(), sig@),
    {
        let msg = self.encode();
        signer.sign(msg.as_slice())
    }

    /// Whether `signature` is one of `signer` over this announcement.
    pub fn verify(&self, signer: &NodeId, signature: &Signature) -> (ok: bool)
        ensures
            ok == signature_valid(signer@, self@.bytes(), signature@),
    {
        let msg = self.encode();
        signer.verify(msg.as_slice(), signature)
    }
}

/// A request to be sent the announcements of some projects.
#[derive(Debug, PartialEq, Eq)]
pub struct Subscribe {
    /// The projects.
    pub filter: Filter,
    /// The start of the time of interest.
    pub since: Timestamp,
    /// The end of the time of interest.
    pub until: Timestamp,
}

/// The mathematical value of a [`Subscribe`].
pub struct SubscribeView {
    pub filter: Set<Id>,
    pub since: Timestamp,
    pub until: Timestamp,
}

impl View for Subscribe {
    type V = SubscribeView;

    open spec fn view(&self) -> SubscribeView {
        SubscribeView { filter: self.filter@, since: self.since, until: self.until }
    }
}

impl Clone for Subscribe {
    fn clone(&self) -> (r: Subscribe)
        ensures
            r@ == self@,
    {
        Subscribe { filter: self.filter.clone(), since: self.since, until: self.until }
    }
}

/// A message of the protocol.
#[derive(Debug, PartialEq, Eq)]
#[allow(inconsistent_fields)]
pub enum Message {
    /// The first message of a session: who the sender is.
    Initialize { id: NodeId, version: u32, addrs: Vec<Address>, git: Url },
    /// A node tells about itself.
    NodeAnnouncement { node: NodeId, message: NodeAnnouncement, signature: Signature },
    /// A node tells which projects it hosts.
    InventoryAnnouncement { node: NodeId, message: InventoryAnnouncement, signature: Signature },
    /// A node tells which references it holds of a project.
    RefsAnnouncement { node: NodeId, message: RefsAnnouncement, signature: Signature },
    /// A node asks for the announcements of some projects.
    Subscribe(Subscribe),
}

/// The mathematical value of a [`Message`].
#[allow(inconsistent_fields)]
pub enum MessageView {
    Initialize { id: NodeId, version: u32, addrs: Seq<SocketAddr>, git: UrlView },
    NodeAnnouncement { node: NodeId, message: NodeAnnouncementView, signature: Signature },
    InventoryAnnouncement {
        node: NodeId,
        message: InventoryAnnouncementView,
        signature: Signature,
    },
    RefsAnnouncement { node: NodeId, message: RefsAnnouncementView, signature: Signature },
    Subscribe(SubscribeView),
}

impl MessageView {
    /// Whether the message is an announcement in the name of the node
    /// `key`, with a signature over the bytes of what it announces that is
    /// accepted under `key`.
    pub open spec fn signed_by(self, key: NodeId) -> bool {
        match self {
            MessageView::NodeAnnouncement { node, message, signature } => node == key
                && signature_valid(key@, message.bytes(), signature@),
            MessageView::InventoryAnnouncement { node, message, signature } => node == key
                && signature_valid(key@, message.bytes(), signature@),
            MessageView::RefsAnnouncement { node, message, signature } => node == key
                && signature_valid(key@, message.bytes(), signature@),
            _ => false,
        }
    }
}

impl View for Message {
    type V = MessageView;

    open spec fn view(&self) -> MessageView {
        match self {
            Message::Initialize { id, version, addrs, git } => MessageView::Initialize {
                id: *id,
                version: *version,
                addrs: addrs@,
                git: git@,
            },
            Message::NodeAnnouncement { node, message, signature } => MessageView::NodeAnnouncement {
                node: *node,
                message: message@,
                signature: *signature,
            },
            Message::InventoryAnnouncement {
                node,
                message,
                signature,
            } => MessageView::InventoryAnnouncement {
                node: *node,
                message: message@,
                signature: *signature,
            },
            Message::RefsAnnouncement { node, message, signature } => MessageView::RefsAnnouncement {
                node: *node,
                message: message@,
                signature: *signature,
            },
            Message::Subscribe(subscribe) => MessageView::Subscribe(subscribe@),
        }
    }
}

impl Clone for Message {
    fn clone(&self) -> (r: Message)
        ensures
            r@ == self@,
    {
        match self {
            Message::Initialize { id, version, addrs, git } => Message::Initialize {
                id: *id,
                version: *version,
                addrs: addresses_clone(addrs),
                git: git.clone(),
            },
            Message::NodeAnnouncement { node, message, signature } => Message::NodeAnnouncement {
                node: *node,
                message: message.clone(),
                signature: *signature,
            },
            Message::InventoryAnnouncement {
                node,
                message,
                signature,
            } => Message::InventoryAnnouncement {
                node: *node,
                message: message.clone(),
                signature: *signature,
            },
            Message::RefsAnnouncement { node, message, signature } => Message::RefsAnnouncement {
                node: *node,
                message: message.clone(),
                signature: *signature,
            },
            Message::Subscribe(subscribe) => Message::Subscribe(subscribe.clone()),
        }
    }
}

impl Message {
    /// The first message of a session.
    pub fn init(id: NodeId, addrs: Vec<Address>, git: Url) -> (m: Message)
        ensures
            m == (Message::Initialize { id, version: PROTOCOL_VERSION, addrs, git }),
    {
        Message::Initialize { id, version: PROTOCOL_VERSION, addrs, git }
    }

    /// A node announcement in the name of the node that `signer` signs
    /// for, with its signature.
    pub fn node<G: Signer>(message: NodeAnnouncement, signer: &G) -> (m: Message)
        ensures
            m matches Message::NodeAnnouncement { node, message: inner, .. } && inner == message
                && node == signer.key(),
            m@.signed_by(signer.key()),
    {
        let signature = message.sign(signer);
        let node = *signer.public_key();
        Message::NodeAnnouncement { node, message, signature }
    }

    /// An inventory announcement in the name of the node that `signer`
    /// signs for, with its signature.
    pub fn inventory<G: Signer>(message: InventoryAnnouncement, signer: &G) -> (m: Message)
        ensures
            m matches Message::InventoryAnnouncement { node, message: inner, .. } && inner
                == message && node == signer.key(),
            m@.signed_by(signer.key()),
    {
        let signature = message.sign(signer);
        let node = *signer.public_key();
        Message::InventoryAnnouncement { node, message, signature }
    }

    /// A refs announcement in the name of the node that `signer` signs
    /// for, with its signature.
    pub fn refs<G: Signer>(message: RefsAnnouncement, signer: &G) -> (m: Message)
        ensures
            m matches Message::RefsAnnouncement { node, message: inner, .. } && inner == message
                && node == signer.key(),
            m@.signed_by(signer.key()),
    {
        let signature = message.sign(signer);
        let node = *signer.public_key();
        Message::RefsAnnouncement { node, message, signature }
    }

    /// A request for the announcements that pass `filter`.
    pub fn subscribe(filter: Filter, since: Timestamp, until: Timestamp) -> (m: Message)
        ensures
            m == Message::Subscribe(Subscribe { filter, since, until }),
    {
        Message::Subscribe(Subscribe { filter, since, until })
    }
}

/// A message with the tag of the network it belongs to.
#[derive(Debug, PartialEq, Eq)]
pub struct Envelope {
    /// The tag of the network.
    pub magic: u32,
    /// The message.
    pub msg: Message,
}

/// The mathematical value of an [`Envelope`].
pub struct EnvelopeView {
    pub magic: u32,
    pub msg: MessageView,
}

impl View for Envelope {
    type V = EnvelopeView;

    open spec fn view(&self) -> EnvelopeView {
        EnvelopeView { magic: self.magic, msg: self.msg@ }
    }
}

} // verus!
