use radicle_node::clock::{LocalDuration, LocalTime, RefClock};
use radicle_node::crypto::PublicKey;
use radicle_node::identity::Id;
use radicle_node::net::{IpAddr, Link, SocketAddr};
use radicle_node::service::config::{Config, Network, ProjectTracking};
use radicle_node::service::filter::Filter;
use radicle_node::service::message::{
    put_address, InventoryAnnouncement, Message, NodeAnnouncement, RefsAnnouncement,
};
use radicle_node::service::reactor::{Io, Reactor};
use radicle_node::service::routing::{Route, Routing};
use radicle_node::service::session::Session;
use radicle_node::service::{peer_last_message, set_last_message, AddressManager, Peer, Sessions};
use radicle_node::storage::refs::Refs;

fn node(n: u8) -> PublicKey {
    PublicKey([n; 32])
}

fn proj(n: u8) -> Id {
    Id([n; 20])
}

fn addr(n: u8) -> SocketAddr {
    SocketAddr::new(IpAddr::V4(n as u32), 8776)
}

#[test]
fn routing_insert_then_lookup() {
    let mut routing = Routing::new();
    assert!(routing.get(&proj(1)).is_empty());
    assert!(!routing.contains(&proj(1), &node(1)));

    assert!(routing.insert(proj(1), node(1), 10));
    assert_eq!(routing.get(&proj(1)), vec![node(1)]);
    assert!(routing.contains(&proj(1), &node(1)));

    // Adding the same again is no news.
    assert!(!routing.insert(proj(1), node(1), 20));
    assert_eq!(routing.get(&proj(1)), vec![node(1)]);
    assert_eq!(routing.entries[0].routes, vec![Route { node: node(1), seen: 20 }]);

    assert!(routing.insert(proj(1), node(2), 30));
    assert!(routing.insert(proj(2), node(1), 40));
    assert_eq!(routing.get(&proj(1)), vec![node(1), node(2)]);
    assert_eq!(routing.get(&proj(2)), vec![node(1)]);
    assert!(routing.get(&proj(3)).is_empty());
    assert_eq!(routing.find(&proj(2)), Some(1));
    assert_eq!(routing.find(&proj(3)), None);
}

#[test]
fn routing_prune() {
    let mut routing = Routing::new();
    routing.insert(proj(1), node(1), 100);
    routing.insert(proj(1), node(2), 200);
    routing.insert(proj(1), node(3), 300);
    routing.insert(proj(2), node(1), 100);
    routing.insert(proj(3), node(3), 1000);

    // At the time 350, routes that are older than 150 seconds go.
    routing.prune(350, 150);
    assert_eq!(routing.get(&proj(1)), vec![node(2), node(3)]);
    assert!(routing.get(&proj(2)).is_empty());
    // A route from the future is kept.
    assert_eq!(routing.get(&proj(3)), vec![node(3)]);

    // Just old enough to stay, and just too old.
    routing.prune(350, 50);
    assert_eq!(routing.get(&proj(1)), vec![node(3)]);
    routing.prune(350, 49);
    assert!(routing.get(&proj(1)).is_empty());
    routing.prune(u64::MAX, 0);
    assert!(routing.get(&proj(3)).is_empty());
}

#[test]
fn peers_table() {
    let mut peers = vec![];
    assert_eq!(Peer::default().last_message, 0);
    assert_eq!(peer_last_message(&peers, &node(1)), 0);
    set_last_message(&mut peers, node(1), 10);
    set_last_message(&mut peers, node(2), 20);
    set_last_message(&mut peers, node(1), 30);
    assert_eq!(peer_last_message(&peers, &node(1)), 30);
    assert_eq!(peer_last_message(&peers, &node(2)), 20);
    assert_eq!(peers.len(), 2);
}

#[test]
fn sessions_are_keyed_by_ip() {
    let mut sessions = Sessions::new();
    assert_eq!(sessions.len(), 0);
    sessions.insert(Session::new(addr(1), Link::Inbound, false));
    sessions.insert(Session::new(addr(2), Link::Outbound, true));
    // Another port of the same peer takes the place of its session.
    sessions.insert(Session::new(SocketAddr::new(addr(1).ip, 1), Link::Outbound, false));
    assert_eq!(sessions.len(), 2);
    assert_eq!(sessions.get(&addr(1).ip).unwrap().addr.port(), 1);
    assert_eq!(sessions.get(&addr(1).ip).unwrap().ip(), addr(1).ip());
    assert_eq!(sessions.find(&addr(2).ip), Some(1));
    assert!(sessions.get(&addr(3).ip).is_none());
    assert!(sessions.by_id(&node(1)).is_none());
    assert!(sessions.negotiated().is_empty());
    assert!(Link::Inbound.is_inbound() && !Link::Inbound.is_outbound());
}

#[test]
fn session_attempts() {
    let mut session = Session::new(addr(1), Link::Outbound, false);
    assert_eq!(session.attempts(), 0);
    session.attempted();
    session.attempted();
    assert_eq!(session.attempts(), 2);
    session.connected(Link::Outbound);
    assert_eq!(session.attempts(), 0);
    session.attempts = usize::MAX;
    session.attempted();
    assert_eq!(session.attempts(), usize::MAX);
}

#[test]
fn address_manager_selects_candidates() {
    let mut known = AddressManager::new(vec![addr(1)]);
    known.insert(addr(2));
    known.insert(addr(1));
    known.insert(addr(3));
    assert_eq!(known.known, vec![addr(1), addr(2), addr(3)]);

    let mut sessions = Sessions::new();
    sessions.insert(Session::new(addr(2), Link::Inbound, false));
    assert_eq!(known.select(&sessions, 8), vec![addr(1), addr(3)]);
    assert_eq!(known.select(&sessions, 1), vec![addr(1)]);
    assert!(known.select(&sessions, 0).is_empty());
}

#[test]
fn filters() {
    assert!(Filter::default().contains(&proj(1)));
    assert!(Filter::All.contains(&proj(2)));
    let filter = Filter::new(&vec![proj(1), proj(3)]);
    assert!(filter.contains(&proj(1)));
    assert!(!filter.contains(&proj(2)));
    assert!(!Filter::new(&vec![]).contains(&proj(1)));
    assert_eq!(filter.clone(), filter);
}

#[test]
fn config_policy() {
    let mut config = Config {
        connect: vec![addr(1)],
        network: Network::Test,
        project_tracking: ProjectTracking::Allowed(vec![proj(1)]),
        relay: true,
        listen: vec![],
        git_url: radicle_node::git::Url::file("/tmp".to_string()),
        route_ttl: Some(1),
    };
    assert!(config.is_persistent(&addr(1)));
    assert!(!config.is_persistent(&addr(2)));
    assert!(!config.is_persistent(&SocketAddr::new(addr(1).ip, 1)));
    assert!(config.is_tracking(&proj(1)));
    assert!(!config.is_tracking(&proj(2)));
    assert_eq!(config.filter(), Filter::Only(vec![proj(1)]));
    assert!(config.track(proj(2)));
    assert!(!config.track(proj(2)));
    assert!(config.untrack(proj(1)));
    assert!(!config.untrack(proj(1)));
    assert_eq!(config.project_tracking, ProjectTracking::Allowed(vec![proj(2)]));
    assert_eq!(Network::Main.magic(), 0x819b43d9);
    assert_eq!(Network::Test.magic(), 0x717ebaf8);
}

#[test]
fn clock() {
    let t = LocalTime::from_secs(10);
    assert_eq!(t.as_secs(), 10);
    assert_eq!(t.as_millis(), 10_000);
    assert_eq!(LocalTime::from_millis(1999).as_secs(), 1);
    assert_eq!(LocalTime::epoch().as_millis(), 0);
    assert_eq!(LocalTime::from_secs(u64::MAX).as_secs(), u64::MAX);
    assert_eq!(t.since(LocalTime::from_secs(4)), LocalDuration::from_secs(6));
    assert_eq!(LocalTime::from_secs(4).since(t), LocalDuration::from_millis(0));
    assert_eq!(LocalDuration::from_mins(2).as_millis(), 120_000);
    assert!(LocalDuration::from_secs(2).at_least(LocalDuration::from_millis(2000)));
    assert!(!LocalDuration::from_secs(2).at_least(LocalDuration::from_millis(2001)));

    let mut clock = RefClock::new(t);
    assert_eq!(clock.timestamp(), 10);
    clock.set(LocalTime::from_secs(11));
    assert_eq!(clock.local_time().as_secs(), 11);
}

#[test]
fn reactor_queue_keeps_order() {
    let mut reactor = Reactor::new();
    assert!(reactor.next().is_none());
    reactor.connect(addr(1));
    reactor.wakeup(LocalDuration::from_secs(1));
    let msg = Message::subscribe(Filter::All, 1, 2);
    reactor.write(Network::Test, addr(2), msg.clone());
    reactor.write_all(
        Network::Test,
        addr(3),
        vec![msg.clone(), Message::subscribe(Filter::All, 3, 4)],
    );
    reactor.broadcast(Network::Main, &msg, &vec![addr(4), addr(5)]);

    assert!(matches!(reactor.next(), Some(Io::Connect(a)) if a == addr(1)));
    assert!(matches!(reactor.next(), Some(Io::Wakeup(d)) if d == LocalDuration(1000)));
    match reactor.next() {
        Some(Io::Write(a, envelopes)) => {
            assert_eq!(a, addr(2));
            assert_eq!(envelopes.len(), 1);
            assert_eq!(envelopes[0].magic, 0x717ebaf8);
            assert_eq!(envelopes[0].msg, msg);
        }
        other => panic!("unexpected {:?}", other),
    }
    match reactor.next() {
        Some(Io::Write(a, envelopes)) => {
            assert_eq!(a, addr(3));
            assert_eq!(envelopes.len(), 2);
            assert_eq!(envelopes[0].msg, msg);
            assert_eq!(envelopes[1].msg, Message::subscribe(Filter::All, 3, 4));
        }
        other => panic!("unexpected {:?}", other),
    }
    assert!(matches!(
        reactor.next(),
        Some(Io::Write(a, envelopes)) if a == addr(4) && envelopes[0].magic == 0x819b43d9
    ));
    assert!(matches!(reactor.next(), Some(Io::Write(a, _)) if a == addr(5)));
    assert!(reactor.next().is_none());
}

#[test]
fn message_bytes() {
    let inv = InventoryAnnouncement { inventory: vec![proj(1), proj(2)], timestamp: 0x0102 };
    let mut expected = vec![0, 0, 0, 0, 0, 0, 1, 2, 0, 0, 0, 0, 0, 0, 0, 2];
    expected.extend([1u8; 20]);
    expected.extend([2u8; 20]);
    assert_eq!(inv.encode(), expected);

    let mut buf = vec![0xff];
    put_address(&mut buf, &SocketAddr::new(IpAddr::V4(0x7f000001), 8776));
    assert_eq!(buf, vec![0xff, 4, 127, 0, 0, 1, 0x22, 0x48]);
    let mut buf = vec![];
    put_address(&mut buf, &SocketAddr::new(IpAddr::V6(1), 1));
    assert_eq!(buf, [vec![6], vec![0; 15], vec![1, 0, 1]].concat());

    let about = NodeAnnouncement {
        features: 1,
        timestamp: 2,
        alias: [3; 32],
        addresses: vec![SocketAddr::new(IpAddr::V4(5), 6)],
    };
    let mut expected = vec![0, 0, 0, 0, 0, 0, 0, 1, 0, 0, 0, 0, 0, 0, 0, 2];
    expected.extend([3u8; 32]);
    expected.extend([0, 0, 0, 0, 0, 0, 0, 1]);
    expected.extend([4, 0, 0, 0, 5, 0, 6]);
    assert_eq!(about.encode(), expected);

    let refs = RefsAnnouncement { id: proj(9), refs: Refs::new() };
    assert_eq!(refs.encode(), [vec![9u8; 20], vec![0u8; 8]].concat());
    assert_eq!(refs.clone(), refs);
}
