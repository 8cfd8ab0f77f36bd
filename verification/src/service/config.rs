//! Service configuration and the tracking policy.

use crate::git::Url;
use crate::identity::Id;
use crate::net::SocketAddr;
use crate::service::filter::{ids_contain, Filter};
use vstd::prelude::*;

verus! {

/// The network a node takes part in.
#[derive(Debug, Copy, Clone, PartialEq, Eq, Structural)]
pub enum Network {
    Main,
    Test,
}

impl Network {
    /// The tag that marks the messages of this network.
    pub open spec fn tag(self) -> u32 {
        match self {
            Network::Main => 0x819b43d9,
            Network::Test => 0x717ebaf8,
        }
    }

    /// The tag that marks the messages of this network.
    pub fn magic(&self) -> (m: u32)
        ensures
            m == self.tag(),
    {
        match self {
            Network::Main => 0x819b43d9,
            Network::Test => 0x717ebaf8,
        }
    }
}

/// Which projects the node replicates.
#[derive(Debug, PartialEq, Eq)]
pub enum ProjectTracking {
    /// Every project but the blocked ones.
    All { blocked: Vec<Id> },
    /// The listed projects only.
    Allowed(Vec<Id>),
}

impl ProjectTracking {
    /// Whether the policy covers `id`.
    pub open spec fn tracks(self, id: Id) -> bool {
        match self {
            ProjectTracking::All { blocked } => !blocked@.contains(id),
            ProjectTracking::Allowed(ids) => ids@.contains(id),
        }
    }

    /// The policy that covers every project.
    pub fn default() -> (r: ProjectTracking)
        ensures
            forall|id: Id| r.tracks(id),
            r is All,
    {
        ProjectTracking::All { blocked: Vec::new() }
    }
}

/// Drop every occurrence of `id` from a list.
pub fn ids_without(ids: &Vec<Id>, id: &Id) -> (r: Vec<Id>)
    ensures
        forall|other: Id| r@.contains(other) == (ids@.contains(other) && other != *id),
{
    let mut r: Vec<Id> = Vec::new();
    let n: usize = ids.len();
    let mut i: usize = 0;
    while i < n
        invariant
            n == ids@.len(),
            i <= n,
            forall|other: Id|
                r@.contains(other) == (ids@.take(i as int).contains(other) && other != *id),
        decreases n - i,
    {
        let ghost kept = r@;
        if ids[i] != *id {
            r.push(ids[i]);
        }
        proof {
            let next = ids@.take(i + 1);
            let prev = ids@.take(i as int);
            assert(next =~= prev.push(ids@[i as int]));
            assert forall|other: Id| r@.contains(other) == (next.contains(other) && other
                != *id) by {
                if next.contains(other) {
                    let k = choose|k: int| 0 <= k < next.len() && next[k] == other;
                    if k < i {
                        assert(prev[k] == other);
                    }
                }
                if prev.contains(other) {
                    let k = choose|k: int| 0 <= k < prev.len() && prev[k] == other;
                    assert(next[k] == other);
                }
                assert(next[i as int] == ids@[i as int]);
                if r@.contains(other) {
                    let k = choose|k: int| 0 <= k < r@.len() && r@[k] == other;
                    if k < kept.len() {
                        assert(kept[k] == other);
                    }
                }
                if kept.contains(other) {
                    let k = choose|k: int| 0 <= k < kept.len() && kept[k] == other;
                    assert(r@[k] == other);
                }
                if ids@[i as int] != *id {
                    assert(r@[kept.len() as int] == ids@[i as int]);
                }
            }
        }
        i = i + 1;
    }
    assert(ids@.take(n as int) =~= ids@);
    r
}

/// Service configuration.
#[derive(Debug)]
pub struct Config {
    /// Peers to connect to on startup, and to reconnect to.
    pub connect: Vec<SocketAddr>,
    /// The network to take part in.
    pub network: Network,
    /// Which projects to replicate.
    pub project_tracking: ProjectTracking,
    /// Whether to pass announcements on to other peers.
    pub relay: bool,
    /// The addresses other nodes can reach this node at.
    pub listen: Vec<SocketAddr>,
    /// Where the repositories of this node are served.
    pub git_url: Url,
    /// How many seconds a route is kept without being announced again.
    /// Routes are kept for good if no time is set.
    pub route_ttl: Option<u64>,
}

impl Config {
    /// Whether `addr` is one of the peers to stay connected to.
    pub fn is_persistent(&self, addr: &SocketAddr) -> (r: bool)
        ensures
            r == self.connect@.contains(*addr),
    {
        let n: usize = self.connect.len();
        let mut i: usize = 0;
        while i < n
            invariant
                n == self.connect@.len(),
                i <= n,
                forall|j: int| 0 <= j < i ==> self.connect@[j] != *addr,
            decreases n - i,
        {
            if self.connect[i] == *addr {
                return true;
            }
            i = i + 1;
        }
        false
    }

    /// Whether the tracking policy covers `id`.
    pub fn is_tracking(&self, id: &Id) -> (r: bool)
        ensures
            r == self.project_tracking.tracks(*id),
    {
        match &self.project_tracking {
            ProjectTracking::All { blocked } => !ids_contain(blocked, id),
            ProjectTracking::Allowed(ids) => ids_contain(ids, id),
        }
    }

    /// Track a project: the policy covers it from then on, and every other
    /// project as before. Returns whether the policy changed, which it does
    /// when it did not cover the project: the project is added to the list,
    /// or taken off the blocked ones.
    pub fn track(&mut self, id: Id) -> (changed: bool)
        ensures
            changed == !old(self).project_tracking.tracks(id),
            final(self).project_tracking is Allowed == old(self).project_tracking is Allowed,
            forall|other: Id|
                final(self).project_tracking.tracks(other) == (old(self).project_tracking.tracks(
                    other,
                ) || other == id),
            final(self).connect == old(self).connect,
            final(self).network == old(self).network,
            final(self).relay == old(self).relay,
            final(self).listen == old(self).listen,
            final(self).git_url == old(self).git_url,
            final(self).route_ttl == old(self).route_ttl,
    {
        match &mut self.project_tracking {
            ProjectTracking::All { blocked } => {
                if ids_contain(blocked, &id) {
                    let kept = ids_without(blocked, &id);
                    *blocked = kept;
                    true
                } else {
                    false
                }
            },
            ProjectTracking::Allowed(ids) => {
                if ids_contain(ids, &id) {
                    false
                } else {
                    let ghost before = ids@;
                    ids.push(id);
                    proof {
                        assert forall|other: Id| ids@.contains(other) == (before.contains(other)
                            || other == id) by {
                            if before.contains(other) {
                                let k = choose|k: int| 0 <= k < before.len() && before[k] == other;
                                assert(ids@[k] == other);
                            }
                            assert(ids@[before.len() as int] == id);
                            if ids@.contains(other) {
                                let k = choose|k: int| 0 <= k < ids@.len() && ids@[k] == other;
                                if k < before.len() {
                                    assert(before[k] == other);
                                }
                            }
                        }
                    }
                    true
                }
            },
        }
    }

    /// Untrack a project. Returns whether the policy changed.
    pub fn untrack(&mut self, id: Id) -> (changed: bool)
        ensures
            changed == old(self).project_tracking.tracks(id),
            final(self).project_tracking is Allowed == old(self).project_tracking is Allowed,
            forall|other: Id|
                final(self).project_tracking.tracks(other) == (old(self).project_tracking.tracks(
                    other,
                ) && other != id),
            final(self).connect == old(self).connect,
            final(self).network == old(self).network,
            final(self).relay == old(self).relay,
            final(self).listen == old(self).listen,
            final(self).git_url == old(self).git_url,
            final(self).route_ttl == old(self).route_ttl,
    {
        match &mut self.project_tracking {
            ProjectTracking::All { blocked } => {
                if ids_contain(blocked, &id) {
                    false
                } else {
                    let ghost before = blocked@;
                    blocked.push(id);
                    proof {
                        assert forall|other: Id| blocked@.contains(other) == (before.contains(
                            other,
                        ) || other == id) by {
                            if before.contains(other) {
                                let k = choose|k: int| 0 <= k < before.len() && before[k] == other;
                                assert(blocked@[k] == other);
                            }
                            assert(blocked@[before.len() as int] == id);
                            if blocked@.contains(other) {
                                let k = choose|k: int|
                                    0 <= k < blocked@.len() && blocked@[k] == other;
                                if k < before.len() {
                                    assert(before[k] == other);
                                }
                            }
                        }
                    }
                    true
                }
            },
            ProjectTracking::Allowed(ids) => {
                if ids_contain(ids, &id) {
                    let kept = ids_without(ids, &id);
                    *ids = kept;
                    true
                } else {
                    false
                }
            },
        }
    }

    /// The filter to subscribe with: everything when every project is
    /// tracked, else the tracked projects.
    pub fn filter(&self) -> (filter: Filter)
        ensures
            filter@ == self.filter_view(),
    {
        match &self.project_tracking {
            ProjectTracking::All { .. } => Filter::default(),
            ProjectTracking::Allowed(ids) => Filter::new(ids),
        }
    }

    /// The filter to subscribe with.
    pub open spec fn filter_view(self) -> Set<Id> {
        match self.project_tracking {
            ProjectTracking::All { .. } => Set::full(),
            ProjectTracking::Allowed(ids) => ids@.to_set(),
        }
    }

    /// The name the node announces itself under.
    pub fn alias(&self) -> (alias: [u8; 32])
        ensures
            alias@ == alias_bytes(),
    {
        let mut alias: [u8; 32] = [0u8; 32];
        alias[0] = 97;
        alias[1] = 110;
        alias[2] = 111;
        alias[3] = 110;
        alias[4] = 121;
        alias[5] = 109;
        alias[6] = 111;
        alias[7] = 117;
        alias[8] = 115;
        assert(alias@ =~= alias_bytes());
        alias
    }
}

/// The alias of a node that has chosen none: `anonymous`, filled up with
/// zeros to 32 bytes.
pub open spec fn alias_bytes() -> Seq<u8> {
    seq![97u8, 110, 111, 110, 121, 109, 111, 117, 115] + Seq::new(23, |i: int| 0u8)
}

} // verus!
