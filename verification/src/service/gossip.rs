//! The messages that a node sends of its own accord.

use crate::clock::Timestamp;
use crate::crypto::Signer;
use crate::identity::Id;
use crate::service::config::{alias_bytes, Config};
use crate::service::message::{
    addresses_clone, InventoryAnnouncement, Message, MessageView, NodeAnnouncement, NodeId,
    NodeAnnouncementView, SubscribeView, PROTOCOL_VERSION,
};
use crate::storage::ReadStorage;
use vstd::prelude::*;

verus! {

/// What a node with the configuration `config` says about itself at the
/// time `timestamp`.
pub open spec fn node_view(timestamp: Timestamp) -> NodeAnnouncementView {
    NodeAnnouncementView {
        features: 0,
        timestamp,
        alias: alias_bytes(),
        addresses: Seq::empty(),
    }
}

/// The announcement of the node itself.
pub fn node(timestamp: Timestamp, config: &Config) -> (r: NodeAnnouncement)
    ensures
        r@ == node_view(timestamp),
{
    let features: u64 = 0;
    let alias = config.alias();
    let addresses = Vec::new();
    let r = NodeAnnouncement { features, timestamp, alias, addresses };
    assert(r@.addresses =~= Seq::empty());
    r
}

/// The announcement of an inventory.
pub fn inventory(timestamp: Timestamp, projects: Vec<Id>) -> (r: InventoryAnnouncement)
    ensures
        r.inventory == projects,
        r.timestamp == timestamp,
{
    InventoryAnnouncement { inventory: projects, timestamp }
}

/// Whether four messages are the greeting of the node `id` at the time
/// `now`: who it is, with the version of the protocol, its addresses and
/// the location of its repositories; its announcement of itself; its
/// announcement of an inventory; and its subscription, from `now` on
/// without end. The two announcements are in the name of `id` and carry
/// signatures that are accepted under `id`.
pub open spec fn is_handshake(
    bundle: Seq<MessageView>,
    id: NodeId,
    now: Timestamp,
    config: Config,
) -> bool {
    &&& bundle.len() == 4
    &&& bundle[0] == (MessageView::Initialize {
        id,
        version: PROTOCOL_VERSION,
        addrs: config.listen@,
        git: config.git_url@,
    })
    &&& bundle[1] matches MessageView::NodeAnnouncement { message, .. }
    &&& message == node_view(now)
    &&& bundle[1].signed_by(id)
    &&& bundle[2] matches MessageView::InventoryAnnouncement { message: listed, .. }
    &&& listed.timestamp == now
    &&& bundle[2].signed_by(id)
    &&& bundle[3] == MessageView::Subscribe(
        SubscribeView { filter: config.filter_view(), since: now, until: u64::MAX },
    )
}

/// The views of a list of messages.
pub open spec fn messages_view(msgs: Seq<Message>) -> Seq<MessageView> {
    msgs.map_values(|m: Message| m@)
}

/// The greeting of the node that `signer` signs for, announcing
/// `inventory`.
pub fn greeting<G: Signer>(
    timestamp: Timestamp,
    projects: Vec<Id>,
    signer: &G,
    config: &Config,
) -> (bundle: Vec<Message>)
    ensures
        is_handshake(messages_view(bundle@), signer.key(), timestamp, *config),
        messages_view(bundle@)[2] matches MessageView::InventoryAnnouncement { message, .. }
            && message.inventory == projects@,
{
    let id = *signer.public_key();
    let mut bundle: Vec<Message> = Vec::new();
    bundle.push(Message::init(id, addresses_clone(&config.listen), config.git_url.clone()));
    bundle.push(Message::node(node(timestamp, config), signer));
    bundle.push(Message::inventory(inventory(timestamp, projects), signer));
    bundle.push(Message::subscribe(config.filter(), timestamp, u64::MAX));
    bundle
}

/// The greeting of the node that `signer` signs for. It announces what
/// storage holds; if storage cannot be read, it announces nothing.
pub fn handshake<G: Signer, S: ReadStorage>(
    timestamp: Timestamp,
    storage: &S,
    signer: &G,
    config: &Config,
) -> (bundle: Vec<Message>)
    ensures
        is_handshake(messages_view(bundle@), signer.key(), timestamp, *config),
{
    let projects = match storage.inventory() {
        Ok(projects) => projects,
        Err(_) => Vec::new(),
    };
    greeting(timestamp, projects, signer, config)
}

} // verus!
